use tracer_core::scalar::Scalar;
use tracer_core::tuple::{cross, dot, magnitude, normalize, point, vector, Vector};

fn sc(num: i64, den: i64) -> Scalar {
    Scalar::new(num, den)
}

fn si(value: i64) -> Scalar {
    Scalar::from_int(value)
}

fn sample() -> Vector {
    vector(sc(43, 10), sc(-42, 10), sc(31, 10))
}

/// The denominator the magnitude approximation is returned over.
const MAG_DEN: i64 = 0x400_0000;

/// Whether `m` is the library's square-root bracket for the whole number
/// `square`: `m^2 <= square < (m + 2^-26)^2`.
fn brackets_root(m: Scalar, square: i64) -> bool {
    let low = si(square).sub(m.mul(m));
    let above = Scalar::new(m.num + 1, m.den);
    let high = si(square).sub(above.mul(above));
    m.den == MAG_DEN && low.num >= 0 && high.num < 0
}

#[test]
fn vector_it_can_be_accessed_by_components() {
    let a = sample();
    assert!(a.x == sc(43, 10));
    assert!(a.y == sc(-42, 10));
    assert!(a.z == sc(31, 10));
}

#[test]
fn vector_it_supports_comparison_equality() {
    let a = sample();
    let b = vector(sc(43, 10), sc(-42, 10), sc(31, 10));
    assert!(a == b);
}

#[test]
fn vector_it_supports_comparison_inequality() {
    let a = sample();
    let b = vector(si(1), si(1), si(1));
    assert!(a != b);
}

#[test]
fn it_is_a_vector_and_not_a_point() {
    let a = sample();
    assert!(a.is_vector());
    assert!(!a.is_point());
}

#[test]
fn it_supports_addition_by_point() {
    let v1 = vector(si(3), si(-2), si(5));
    let p2 = point(si(-2), si(3), si(1));
    let expected = point(si(1), si(1), si(6));
    assert_eq!(v1.add_point(p2), expected);
    assert!(v1.add_point(p2).is_point());
}

#[test]
fn vector_it_supports_addition_by_vector() {
    let v1 = vector(si(3), si(-2), si(5));
    let v2 = vector(si(-2), si(3), si(1));
    let expected = vector(si(1), si(1), si(6));
    assert_eq!(v1.add_vector(v2), expected);
    assert_eq!(v2.add_vector(v1), expected);
    assert!(v2.add_vector(v1).is_vector());
}

#[test]
fn vector_it_supports_subtraction_by_vector() {
    let v1 = vector(si(3), si(2), si(1));
    let v2 = vector(si(5), si(6), si(7));
    let expected = vector(si(-2), si(-4), si(-6));
    assert_eq!(v1.sub_vector(v2), expected);
    assert!(v1.sub_vector(v2).is_vector());
}

#[test]
fn it_can_be_subtracted_from_the_null_vector() {
    let v0 = vector(si(0), si(0), si(0));
    let v2 = vector(si(1), si(-2), si(3));
    let expected = vector(si(-1), si(2), si(-3));
    assert_eq!(v0.sub_vector(v2), expected);
    assert!(v0.sub_vector(v2).is_vector());
}

#[test]
fn vector_it_can_be_negated() {
    let a = vector(si(1), si(-2), si(3));
    let expected = vector(si(-1), si(2), si(-3));
    assert_eq!(a.neg(), expected);
    assert!(a.neg().is_vector());
}

#[test]
fn vector_it_can_be_right_multipled_by_a_scalar() {
    let a = vector(si(1), si(-2), si(3));
    let expected = vector(sc(7, 2), si(-7), sc(21, 2));
    assert!(a.scale(sc(7, 2)) == expected);
}

#[test]
fn vector_it_can_be_right_multipled_by_a_fractional_scalar() {
    let a = vector(si(1), si(-2), si(3));
    let expected = vector(sc(1, 2), si(-1), sc(3, 2));
    assert!(a.scale(sc(1, 2)) == expected);
}

#[test]
fn vector_it_can_be_left_multipled_by_a_scalar() {
    let a = vector(si(1), si(-2), si(3));
    let expected = vector(sc(7, 2), si(-7), sc(21, 2));
    assert!(a.scale(sc(7, 2)) == expected);
}

#[test]
fn vector_it_can_be_divided_by_a_scalar() {
    let a = vector(si(1), si(-2), si(3));
    let expected = vector(sc(1, 2), si(-1), sc(3, 2));
    assert!(a.div_scalar(si(2)) == expected);
}

#[test]
fn its_magnitude_can_be_computed_by_function() {
    assert!(magnitude(vector(si(1), si(0), si(0))) == si(1));
    assert!(magnitude(vector(si(0), si(1), si(0))) == si(1));
    assert!(magnitude(vector(si(0), si(0), si(1))) == si(1));
    assert!(brackets_root(magnitude(vector(si(1), si(2), si(3))), 14));
    assert!(brackets_root(magnitude(vector(si(-1), si(-2), si(-3))), 14));
}

#[test]
fn it_has_a_magnitude_method() {
    assert!(vector(si(1), si(0), si(0)).magnitude() == si(1));
    assert!(vector(si(0), si(1), si(0)).magnitude() == si(1));
    assert!(vector(si(0), si(0), si(1)).magnitude() == si(1));
    assert!(brackets_root(vector(si(1), si(2), si(3)).magnitude(), 14));
    assert!(brackets_root(vector(si(-1), si(-2), si(-3)).magnitude(), 14));
}

#[test]
fn it_has_a_normalize_method() {
    assert!(vector(si(4), si(0), si(0)).normalize() == vector(si(1), si(0), si(0)));
    let len = vector(si(1), si(2), si(3)).magnitude();
    assert!(
        vector(si(1), si(2), si(3)).normalize()
            == vector(si(1).div(len), si(2).div(len), si(3).div(len))
    );
}

#[test]
fn it_can_be_normalized_by_function() {
    assert!(normalize(vector(si(4), si(0), si(0))) == vector(si(1), si(0), si(0)));
    let len = magnitude(vector(si(1), si(2), si(3)));
    assert!(
        normalize(vector(si(1), si(2), si(3)))
            == vector(si(1).div(len), si(2).div(len), si(3).div(len))
    );
}

#[test]
fn normalizing_an_axis_vector_yields_magnitude_one() {
    let unit = vector(si(7), si(0), si(0)).normalize();
    assert!(unit == vector(si(1), si(0), si(0)));
    assert!(magnitude(vector(si(1), si(0), si(0))) == si(1));
}

#[test]
fn vector_it_can_be_indexed_like_an_array() {
    let a = vector(si(0), si(-10), si(100));
    assert!(a.component(0) == si(0));
    assert!(a.component(1) == si(-10));
    assert!(a.component(2) == si(100));
}

#[test]
fn it_can_be_dot_producted() {
    let v1 = vector(si(1), si(2), si(3));
    let v2 = vector(si(2), si(3), si(4));
    assert!(v1.dot(v2) == si(20));
    assert!(v2.dot(v1) == si(20));
}

#[test]
fn can_dot_product_2_vectors_via_function() {
    let v1 = vector(si(1), si(2), si(3));
    let v2 = vector(si(2), si(3), si(4));
    assert!(dot(v1, v2) == si(20));
    assert!(dot(v2, v1) == si(20));
}

#[test]
fn it_can_be_cross_producted() {
    let v1 = vector(si(1), si(2), si(3));
    let v2 = vector(si(2), si(3), si(4));
    assert!(v1.cross(v2) == vector(si(-1), si(2), si(-1)));
    assert!(v2.cross(v1) == vector(si(1), si(-2), si(1)));
}

#[test]
fn can_cross_product_2_vectors_via_function() {
    let v1 = vector(si(1), si(2), si(3));
    let v2 = vector(si(2), si(3), si(4));
    assert!(cross(v1, v2) == vector(si(-1), si(2), si(-1)));
    assert!(cross(v2, v1) == vector(si(1), si(-2), si(1)));
}

#[test]
fn crossing_in_either_order_negates_the_result() {
    let v1 = vector(sc(5, 2), si(-3), sc(7, 5));
    let v2 = vector(si(4), sc(1, 3), si(-2));
    assert_eq!(v1.cross(v2), v2.cross(v1).neg());
}
