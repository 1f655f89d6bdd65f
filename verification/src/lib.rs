//! Core of a software renderer: an exact point/vector algebra, linear color
//! arithmetic, and a raster canvas that serializes to a plain-text image
//! format.
//!
//! Scalars are exact fractions of machine integers, so every algebraic
//! operation is carried out and specified without rounding.

pub mod canvas;
pub mod color;
pub mod motion;
pub mod scalar;
pub mod tuple;
