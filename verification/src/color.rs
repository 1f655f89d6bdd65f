//! Linear color arithmetic: RGB triples under componentwise sums, the
//! Hadamard product, and equality up to the fixed tolerance.

use crate::scalar::{representable, Rat, Scalar};
use vstd::prelude::*;

verus! {

/// The mathematical value of a color: three exact fractions of linear light.
pub struct Rgb {
    pub red: Rat,
    pub green: Rat,
    pub blue: Rat,
}

impl Rgb {
    pub open spec fn wf(self) -> bool {
        self.red.wf() && self.green.wf() && self.blue.wf()
    }

    /// Componentwise equality of the rational values.
    pub open spec fn eqv(self, other: Rgb) -> bool {
        self.red.eqv(other.red) && self.green.eqv(other.green) && self.blue.eqv(other.blue)
    }

    /// Componentwise equality up to the fixed tolerance.
    pub open spec fn within_eps(self, other: Rgb) -> bool {
        self.red.within_eps(other.red) && self.green.within_eps(other.green)
            && self.blue.within_eps(other.blue)
    }

    pub open spec fn add(self, other: Rgb) -> Rgb {
        Rgb {
            red: self.red.add(other.red),
            green: self.green.add(other.green),
            blue: self.blue.add(other.blue),
        }
    }

    pub open spec fn sub(self, other: Rgb) -> Rgb {
        Rgb {
            red: self.red.sub(other.red),
            green: self.green.sub(other.green),
            blue: self.blue.sub(other.blue),
        }
    }

    /// The Hadamard product: the componentwise filter of one light by another.
    pub open spec fn mul(self, other: Rgb) -> Rgb {
        Rgb {
            red: self.red.mul(other.red),
            green: self.green.mul(other.green),
            blue: self.blue.mul(other.blue),
        }
    }

    pub open spec fn scale(self, s: Rat) -> Rgb {
        Rgb { red: self.red.mul(s), green: self.green.mul(s), blue: self.blue.mul(s) }
    }
}

/// Whether every component of `c` can be stored in a `Scalar` as it stands.
pub open spec fn rgb_storable(c: Rgb) -> bool {
    representable(c.red) && representable(c.green) && representable(c.blue)
}

/// A linear-light RGB color; components may leave `[0, 1]` freely and are
/// only clamped when a canvas is encoded.
#[derive(Clone, Copy, Debug)]
pub struct Color {
    pub red: Scalar,
    pub green: Scalar,
    pub blue: Scalar,
}

impl View for Color {
    type V = Rgb;

    open spec fn view(&self) -> Rgb {
        Rgb { red: self.red@, green: self.green@, blue: self.blue@ }
    }
}

impl Color {
    pub open spec fn wf(self) -> bool {
        self@.wf()
    }

    pub fn add(self, other: Color) -> (r: Color)
        requires
            self.wf(),
            other.wf(),
            rgb_storable(self@.add(other@)),
        ensures
            r.wf(),
            r@ == self@.add(other@),
    {
        Color {
            red: self.red.add(other.red),
            green: self.green.add(other.green),
            blue: self.blue.add(other.blue),
        }
    }

    pub fn sub(self, other: Color) -> (r: Color)
        requires
            self.wf(),
            other.wf(),
            rgb_storable(self@.sub(other@)),
        ensures
            r.wf(),
            r@ == self@.sub(other@),
    {
        Color {
            red: self.red.sub(other.red),
            green: self.green.sub(other.green),
            blue: self.blue.sub(other.blue),
        }
    }

    /// The Hadamard product: the componentwise filter of one light by another.
    pub fn mul(self, other: Color) -> (r: Color)
        requires
            self.wf(),
            other.wf(),
            rgb_storable(self@.mul(other@)),
        ensures
            r.wf(),
            r@ == self@.mul(other@),
    {
        Color {
            red: self.red.mul(other.red),
            green: self.green.mul(other.green),
            blue: self.blue.mul(other.blue),
        }
    }

    /// Scaling by a scalar, on either side.
    pub fn scale(self, s: Scalar) -> (r: Color)
        requires
            self.wf(),
            s.wf(),
            rgb_storable(self@.scale(s@)),
        ensures
            r.wf(),
            r@ == self@.scale(s@),
    {
        Color { red: self.red.mul(s), green: self.green.mul(s), blue: self.blue.mul(s) }
    }

    /// Componentwise equality up to the fixed tolerance.
    pub fn approx_eq(&self, other: &Color) -> (r: bool)
        ensures
            r == self@.within_eps(other@),
    {
        self.red.approx_eq(&other.red) && self.green.approx_eq(&other.green)
            && self.blue.approx_eq(&other.blue)
    }
}

impl PartialEq for Color {
    /// Colors compare approximately: equal up to the fixed tolerance.
    fn eq(&self, other: &Color) -> (r: bool) {
        self.approx_eq(other)
    }
}

impl vstd::std_specs::cmp::PartialEqSpecImpl for Color {
    open spec fn obeys_eq_spec() -> bool {
        true
    }

    open spec fn eq_spec(&self, other: &Color) -> bool {
        self@.within_eps(other@)
    }
}

pub fn color(red: Scalar, green: Scalar, blue: Scalar) -> (r: Color)
    ensures
        r.red == red,
        r.green == green,
        r.blue == blue,
{
    Color { red, green, blue }
}

/// The value of the color every canvas cell starts out as.
pub open spec fn rgb_black() -> Rgb {
    Rgb { red: Rat { n: 0, d: 1 }, green: Rat { n: 0, d: 1 }, blue: Rat { n: 0, d: 1 } }
}

/// The color every canvas cell starts out as.
pub fn black() -> (r: Color)
    ensures
        r@ == rgb_black(),
        r.wf(),
{
    Color {
        red: Scalar { num: 0, den: 1 },
        green: Scalar { num: 0, den: 1 },
        blue: Scalar { num: 0, den: 1 },
    }
}

proof fn lemma_rat_add_comm(p: Rat, q: Rat)
    by (nonlinear_arith)
    requires
        p.wf(),
        q.wf(),
    ensures
        p.add(q).wf(),
        q.add(p).wf(),
        p.add(q).eqv(q.add(p)),
{
}

proof fn lemma_rat_mul_comm(p: Rat, q: Rat)
    by (nonlinear_arith)
    requires
        p.wf(),
        q.wf(),
    ensures
        p.mul(q).wf(),
        q.mul(p).wf(),
        p.mul(q).eqv(q.mul(p)),
{
}

proof fn lemma_rat_eqv_within_eps(p: Rat, q: Rat)
    by (nonlinear_arith)
    requires
        p.wf(),
        q.wf(),
        p.eqv(q),
    ensures
        p.within_eps(q),
{
}

/// Color addition is commutative: both orders name the same color, so the
/// sums are equal even under the exact reading of equality.
pub proof fn lemma_color_add_commutes(c1: Color, c2: Color)
    requires
        c1.wf(),
        c2.wf(),
    ensures
        c1@.add(c2@).eqv(c2@.add(c1@)),
        c1@.add(c2@).within_eps(c2@.add(c1@)),
{
    lemma_rat_add_comm(c1@.red, c2@.red);
    lemma_rat_add_comm(c1@.green, c2@.green);
    lemma_rat_add_comm(c1@.blue, c2@.blue);
    lemma_rat_eqv_within_eps(c1@.red.add(c2@.red), c2@.red.add(c1@.red));
    lemma_rat_eqv_within_eps(c1@.green.add(c2@.green), c2@.green.add(c1@.green));
    lemma_rat_eqv_within_eps(c1@.blue.add(c2@.blue), c2@.blue.add(c1@.blue));
}

/// The Hadamard product is commutative: both orders name the same color, so
/// the products are equal even under the exact reading of equality.
pub proof fn lemma_color_mul_commutes(c1: Color, c2: Color)
    requires
        c1.wf(),
        c2.wf(),
    ensures
        c1@.mul(c2@).eqv(c2@.mul(c1@)),
        c1@.mul(c2@).within_eps(c2@.mul(c1@)),
{
    lemma_rat_mul_comm(c1@.red, c2@.red);
    lemma_rat_mul_comm(c1@.green, c2@.green);
    lemma_rat_mul_comm(c1@.blue, c2@.blue);
    lemma_rat_eqv_within_eps(c1@.red.mul(c2@.red), c2@.red.mul(c1@.red));
    lemma_rat_eqv_within_eps(c1@.green.mul(c2@.green), c2@.green.mul(c1@.green));
    lemma_rat_eqv_within_eps(c1@.blue.mul(c2@.blue), c2@.blue.mul(c1@.blue));
}

} // verus!
