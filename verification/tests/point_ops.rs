use tracer_core::scalar::Scalar;
use tracer_core::tuple::{point, vector, Point};

fn sc(num: i64, den: i64) -> Scalar {
    Scalar::new(num, den)
}

fn si(value: i64) -> Scalar {
    Scalar::from_int(value)
}

fn sample() -> Point {
    point(sc(43, 10), sc(-42, 10), sc(31, 10))
}

#[test]
fn point_it_can_be_accessed_by_components() {
    let a = sample();
    assert!(a.x == sc(43, 10));
    assert!(a.y == sc(-42, 10));
    assert!(a.z == sc(31, 10));
}

#[test]
fn point_it_supports_comparison_equality() {
    let a = sample();
    let b = point(sc(43, 10), sc(-42, 10), sc(31, 10));
    assert!(a == b);
}

#[test]
fn point_it_supports_comparison_inequality() {
    let a = sample();
    let b = point(si(1), si(1), si(1));
    assert!(a != b);
}

#[test]
fn point_it_supports_addition_by_vector() {
    let p1 = point(si(-2), si(3), si(1));
    let v2 = vector(si(3), si(-2), si(5));
    let expected = point(si(1), si(1), si(6));
    assert_eq!(p1.add_vector(v2), expected);
    assert!(p1.add_vector(v2).is_point());
}

#[test]
fn it_supports_subtraction_by_point() {
    let p1 = point(si(3), si(2), si(1));
    let p2 = point(si(5), si(6), si(7));
    let expected = vector(si(-2), si(-4), si(-6));
    assert_eq!(p1.sub_point(p2), expected);
    assert!(p1.sub_point(p2).is_vector());
}

#[test]
fn point_it_supports_subtraction_by_vector() {
    let p1 = point(si(3), si(2), si(1));
    let v2 = vector(si(5), si(6), si(7));
    let expected = point(si(-2), si(-4), si(-6));
    assert_eq!(p1.sub_vector(v2), expected);
    assert!(p1.sub_vector(v2).is_point());
}

#[test]
fn point_it_can_be_negated() {
    let a = point(si(1), si(-2), si(3));
    let expected = point(si(-1), si(2), si(-3));
    assert_eq!(a.neg(), expected);
    assert!(a.neg().is_point());
}

#[test]
fn point_it_can_be_right_multipled_by_a_scalar() {
    let a = point(si(1), si(-2), si(3));
    let expected = point(sc(7, 2), si(-7), sc(21, 2));
    assert!(a.scale(sc(7, 2)) == expected);
}

#[test]
fn point_it_can_be_right_multipled_by_a_fractional_scalar() {
    let a = point(si(1), si(-2), si(3));
    let expected = point(sc(1, 2), si(-1), sc(3, 2));
    assert!(a.scale(sc(1, 2)) == expected);
}

#[test]
fn point_it_can_be_left_multipled_by_a_scalar() {
    let a = point(si(1), si(-2), si(3));
    let expected = point(sc(7, 2), si(-7), sc(21, 2));
    assert!(a.scale(sc(7, 2)) == expected);
}

#[test]
fn point_it_can_be_divided_by_a_scalar() {
    let a = point(si(1), si(-2), si(3));
    let expected = point(sc(1, 2), si(-1), sc(3, 2));
    assert!(a.div_scalar(si(2)) == expected);
}

#[test]
fn point_it_can_be_indexed_like_an_array() {
    let a = point(si(0), si(-10), si(100));
    assert!(a.component(0) == si(0));
    assert!(a.component(1) == si(-10));
    assert!(a.component(2) == si(100));
}

#[test]
fn adding_then_subtracting_a_vector_returns_home() {
    let p = sample();
    let v = vector(sc(7, 3), sc(-2, 5), si(11));
    assert_eq!(p.add_vector(v).sub_vector(v), p);
}

#[test]
fn it_is_a_point_and_not_a_vector() {
    let a = sample();
    assert!(a.is_point());
    assert!(!a.is_vector());
}
