use tracer_core::color::{black, color, Color};
use tracer_core::scalar::Scalar;

fn sc(num: i64, den: i64) -> Scalar {
    Scalar::new(num, den)
}

fn si(value: i64) -> Scalar {
    Scalar::from_int(value)
}

#[test]
fn it_has_red_green_blue_components() {
    let c = color(sc(-1, 2), sc(2, 5), sc(17, 10));
    assert!(c.red.approx_eq(&sc(-1, 2)));
    assert!(c.green.approx_eq(&sc(2, 5)));
    assert!(c.blue.approx_eq(&sc(17, 10)));
}

#[test]
fn it_can_be_added_to_another_color() {
    let c1 = color(sc(9, 10), sc(3, 5), sc(3, 4));
    let c2 = color(sc(7, 10), sc(1, 10), sc(1, 4));
    let expected = color(sc(16, 10), sc(7, 10), si(1));
    let got = c1.add(c2);
    assert!(got == expected);
}

#[test]
fn it_can_be_subtracted_from_another_color() {
    let c1 = color(sc(9, 10), sc(3, 5), sc(3, 4));
    let c2 = color(sc(7, 10), sc(1, 10), sc(1, 4));
    let expected = color(sc(2, 10), sc(1, 2), sc(1, 2));
    let got = c1.sub(c2);
    assert!(got == expected);
}

#[test]
fn it_can_be_left_multiplied_by_a_scalar() {
    let c = color(sc(1, 5), sc(3, 10), sc(2, 5));
    let expected = color(sc(2, 5), sc(3, 5), sc(4, 5));
    let got = c.scale(si(2));
    assert!(got == expected);
}

#[test]
fn it_can_be_right_multiplied_by_a_scalar() {
    let c = color(sc(1, 5), sc(3, 10), sc(2, 5));
    let expected = color(sc(2, 5), sc(3, 5), sc(4, 5));
    let got = c.scale(si(2));
    assert!(got == expected);
}

#[test]
fn it_can_be_multiplied_by_another_color() {
    let c1 = color(si(1), sc(1, 5), sc(2, 5));
    let c2 = color(sc(9, 10), si(1), sc(1, 10));
    let expected = color(sc(9, 10), sc(1, 5), sc(1, 25));
    assert!(c1.mul(c2) == expected);
    assert!(c2.mul(c1) == expected);
}

#[test]
fn adding_colors_commutes() {
    let c1 = color(sc(9, 10), sc(3, 5), sc(3, 4));
    let c2 = color(sc(7, 10), sc(1, 10), sc(1, 4));
    assert!(c1.add(c2) == c2.add(c1));
}

#[test]
fn a_fresh_color_matches_black_up_to_the_tolerance() {
    let c: Color = black();
    assert!(c == color(si(0), si(0), si(0)));
}

#[test]
fn approximate_equality_tolerates_only_the_fixed_epsilon() {
    let eps_den: i64 = 0x10_0000_0000_0000;
    let base = color(si(0), si(0), si(0));
    let close = color(sc(1, eps_den), si(0), si(0));
    let apart = color(sc(3, eps_den), si(0), si(0));
    assert!(base == close);
    assert!(base != apart);
}
