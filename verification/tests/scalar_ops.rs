use tracer_core::scalar::Scalar;

fn sc(num: i64, den: i64) -> Scalar {
    Scalar::new(num, den)
}

#[test]
fn fractions_compare_by_value() {
    assert!(sc(1, 2) == sc(2, 4));
    assert!(sc(-3, 6) == sc(-1, 2));
    assert!(sc(1, 2) != sc(1, 3));
}

#[test]
fn arithmetic_is_exact() {
    assert!(sc(1, 10).add(sc(2, 10)) == sc(3, 10));
    assert!(sc(9, 10).sub(sc(7, 10)) == sc(1, 5));
    assert!(sc(2, 3).mul(sc(3, 4)) == sc(1, 2));
    assert!(sc(1, 2).div(sc(1, 4)) == sc(2, 1));
}

#[test]
fn dividing_by_a_negative_keeps_the_denominator_positive() {
    let q = sc(1, 2).div(sc(-1, 3));
    assert!(q.den > 0);
    assert!(q == sc(-3, 2));
}

#[test]
fn negation_flips_the_sign() {
    assert!(sc(5, 4).neg() == sc(-5, 4));
    assert!(sc(-5, 4).neg() == sc(5, 4));
}

#[test]
fn approximate_equality_is_bounded_by_the_machine_epsilon() {
    let eps_den: i64 = 0x10_0000_0000_0000;
    assert!(Scalar::from_int(0).approx_eq(&sc(1, eps_den)));
    assert!(!Scalar::from_int(0).approx_eq(&sc(2, eps_den + 1)));
    assert!(sc(1, 3).approx_eq(&sc(1, 3)));
}
