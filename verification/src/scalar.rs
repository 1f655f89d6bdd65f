//! Exact scalar arithmetic: every scalar is a fraction of two machine
//! integers, and every operation is specified against unbounded rationals.

use vstd::prelude::*;

verus! {

/// The denominator of the comparison tolerance: `1 / EPS_DEN` is the fixed
/// epsilon used by approximate equality, one part in `2^52` -- the machine
/// epsilon of the common 64-bit binary representation.
pub const EPS_DEN: i64 = 0x10_0000_0000_0000;

/// The mathematical value of a scalar: a fraction of two unbounded integers.
pub struct Rat {
    pub n: int,
    pub d: int,
}

pub open spec fn abs_int(x: int) -> int {
    if x < 0 {
        -x
    } else {
        x
    }
}

/// Whether `x` fits the machine integers that scalars are stored in.
pub open spec fn fits_i64(x: int) -> bool {
    i64::MIN as int <= x <= i64::MAX as int
}

/// Whether the fraction `r` can be stored in a `Scalar` as it stands.
pub open spec fn representable(r: Rat) -> bool {
    fits_i64(r.n) && fits_i64(r.d)
}

impl Rat {
    /// A fraction in good standing: the denominator is positive.
    pub open spec fn wf(self) -> bool {
        self.d >= 1
    }

    /// Both fractions name the same rational number.
    pub open spec fn eqv(self, other: Rat) -> bool {
        self.n * other.d == other.n * self.d
    }

    /// `self <= other` as rational numbers, for fractions in good standing.
    pub open spec fn le(self, other: Rat) -> bool {
        self.n * other.d <= other.n * self.d
    }

    /// `self < other` as rational numbers, for fractions in good standing.
    pub open spec fn lt(self, other: Rat) -> bool {
        self.n * other.d < other.n * self.d
    }

    pub open spec fn add(self, other: Rat) -> Rat {
        Rat { n: self.n * other.d + other.n * self.d, d: self.d * other.d }
    }

    pub open spec fn sub(self, other: Rat) -> Rat {
        Rat { n: self.n * other.d - other.n * self.d, d: self.d * other.d }
    }

    pub open spec fn mul(self, other: Rat) -> Rat {
        Rat { n: self.n * other.n, d: self.d * other.d }
    }

    pub open spec fn neg(self) -> Rat {
        Rat { n: -self.n, d: self.d }
    }

    /// Division as multiplication by the reciprocal, with the sign moved into
    /// the numerator so the denominator stays positive.
    pub open spec fn div(self, other: Rat) -> Rat {
        if other.n < 0 {
            Rat { n: -(self.n * other.d), d: self.d * -other.n }
        } else {
            Rat { n: self.n * other.d, d: self.d * other.n }
        }
    }

    /// `|self - other| <= 1 / EPS_DEN`: equality up to the fixed tolerance.
    pub open spec fn within_eps(self, other: Rat) -> bool {
        abs_int(self.n * other.d - other.n * self.d) * (EPS_DEN as int) <= self.d * other.d
    }
}

/// A scalar of the algebra: the exact fraction `num / den`.
#[derive(Clone, Copy, Debug)]
pub struct Scalar {
    pub num: i64,
    pub den: i64,
}

impl View for Scalar {
    type V = Rat;

    open spec fn view(&self) -> Rat {
        Rat { n: self.num as int, d: self.den as int }
    }
}

/// The product of two stored integers stays strictly inside the doubled
/// machine range.
proof fn lemma_i64_mul_fits(a: int, b: int)
    by (nonlinear_arith)
    requires
        fits_i64(a),
        fits_i64(b),
    ensures
        -0x4000_0000_0000_0000_0000_0000_0000_0000 <= a * b,
        a * b <= 0x4000_0000_0000_0000_0000_0000_0000_0000,
{
}

/// The product of a stored integer and a positive stored integer stays
/// strictly below a quarter of the doubled machine range's span.
proof fn lemma_i64_mul_pos_fits(a: int, b: int)
    by (nonlinear_arith)
    requires
        fits_i64(a),
        1 <= b <= i64::MAX as int,
    ensures
        -0x4000_0000_0000_0000_0000_0000_0000_0000 < a * b,
        a * b < 0x4000_0000_0000_0000_0000_0000_0000_0000,
{
}

proof fn lemma_pos_mul_pos(a: int, b: int)
    by (nonlinear_arith)
    requires
        a >= 1,
        b >= 1,
    ensures
        a * b >= 1,
{
}

proof fn lemma_mul_le(a: int, amax: int, b: int)
    by (nonlinear_arith)
    requires
        0 <= a <= amax,
        b >= 0,
    ensures
        0 <= a * b <= amax * b,
{
}

proof fn lemma_neg_factor(a: int, b: int)
    by (nonlinear_arith)
    ensures
        a * (-b) == -(a * b),
{
}

/// The difference of two products of stored integers stays strictly inside
/// the range of a doubled machine integer.
proof fn lemma_i64_mul_sub_fits(a: int, b: int, c: int, d: int)
    by (nonlinear_arith)
    requires
        fits_i64(a),
        fits_i64(b),
        fits_i64(c),
        fits_i64(d),
    ensures
        -0x7FFF_FFFF_FFFF_FFFF_8000_0000_0000_0000 <= a * b - c * d,
        a * b - c * d <= 0x7FFF_FFFF_FFFF_FFFF_8000_0000_0000_0000,
{
}

impl Scalar {
    /// Whether the stored fraction is in good standing.
    pub open spec fn wf(self) -> bool {
        self@.wf()
    }

    /// The fraction `num / den`.
    pub fn new(num: i64, den: i64) -> (r: Scalar)
        requires
            den >= 1,
        ensures
            r.num == num,
            r.den == den,
            r.wf(),
    {
        Scalar { num, den }
    }

    /// The whole number `value`.
    pub fn from_int(value: i64) -> (r: Scalar)
        ensures
            r@ == (Rat { n: value as int, d: 1 }),
            r.wf(),
    {
        Scalar { num: value, den: 1 }
    }

    pub fn add(self, other: Scalar) -> (r: Scalar)
        requires
            self.wf(),
            other.wf(),
            representable(self@.add(other@)),
        ensures
            r.wf(),
            r@ == self@.add(other@),
    {
        proof {
            lemma_i64_mul_pos_fits(self.num as int, other.den as int);
            lemma_i64_mul_pos_fits(other.num as int, self.den as int);
            lemma_pos_mul_pos(self.den as int, other.den as int);
            lemma_i64_mul_pos_fits(self.den as int, other.den as int);
        }
        let n = (self.num as i128) * (other.den as i128) + (other.num as i128) * (self.den
            as i128);
        let d = (self.den as i128) * (other.den as i128);
        Scalar { num: n as i64, den: d as i64 }
    }

    pub fn sub(self, other: Scalar) -> (r: Scalar)
        requires
            self.wf(),
            other.wf(),
            representable(self@.sub(other@)),
        ensures
            r.wf(),
            r@ == self@.sub(other@),
    {
        proof {
            lemma_i64_mul_pos_fits(self.num as int, other.den as int);
            lemma_i64_mul_pos_fits(other.num as int, self.den as int);
            lemma_pos_mul_pos(self.den as int, other.den as int);
            lemma_i64_mul_pos_fits(self.den as int, other.den as int);
        }
        let n = (self.num as i128) * (other.den as i128) - (other.num as i128) * (self.den
            as i128);
        let d = (self.den as i128) * (other.den as i128);
        Scalar { num: n as i64, den: d as i64 }
    }

    pub fn mul(self, other: Scalar) -> (r: Scalar)
        requires
            self.wf(),
            other.wf(),
            representable(self@.mul(other@)),
        ensures
            r.wf(),
            r@ == self@.mul(other@),
    {
        proof {
            lemma_i64_mul_fits(self.num as int, other.num as int);
            lemma_pos_mul_pos(self.den as int, other.den as int);
            lemma_i64_mul_pos_fits(self.den as int, other.den as int);
        }
        let n = (self.num as i128) * (other.num as i128);
        let d = (self.den as i128) * (other.den as i128);
        Scalar { num: n as i64, den: d as i64 }
    }

    pub fn neg(self) -> (r: Scalar)
        requires
            self.wf(),
            representable(self@.neg()),
        ensures
            r.wf(),
            r@ == self@.neg(),
    {
        let n = -(self.num as i128);
        Scalar { num: n as i64, den: self.den }
    }

    /// Division by a nonzero scalar, as multiplication by its reciprocal.
    pub fn div(self, other: Scalar) -> (r: Scalar)
        requires
            self.wf(),
            other.wf(),
            other@.n != 0,
            representable(self@.div(other@)),
        ensures
            r.wf(),
            r@ == self@.div(other@),
    {
        proof {
            lemma_i64_mul_pos_fits(self.num as int, other.den as int);
            lemma_i64_mul_fits(self.den as int, other.num as int);
            if other.num < 0 {
                lemma_pos_mul_pos(self.den as int, -(other.num as int));
                lemma_neg_factor(self.den as int, other.num as int);
            } else {
                lemma_pos_mul_pos(self.den as int, other.num as int);
            }
        }
        let n = (self.num as i128) * (other.den as i128);
        let d = (self.den as i128) * (other.num as i128);
        if other.num < 0 {
            Scalar { num: (-n) as i64, den: (-d) as i64 }
        } else {
            Scalar { num: n as i64, den: d as i64 }
        }
    }

    /// Equality up to the fixed tolerance `1 / EPS_DEN`.
    pub fn approx_eq(&self, other: &Scalar) -> (r: bool)
        ensures
            r == self@.within_eps(other@),
    {
        proof {
            lemma_i64_mul_fits(self.num as int, other.den as int);
            lemma_i64_mul_fits(other.num as int, self.den as int);
            lemma_i64_mul_sub_fits(
                self.num as int,
                other.den as int,
                other.num as int,
                self.den as int,
            );
            lemma_i64_mul_fits(self.den as int, other.den as int);
        }
        let dn = (self.num as i128) * (other.den as i128) - (other.num as i128) * (self.den
            as i128);
        let dd = (self.den as i128) * (other.den as i128);
        let a = if dn < 0 {
            -dn
        } else {
            dn
        };
        if a > 0x400_0000_0000_0000_0000 {
            proof {
                assert((a as int) * (EPS_DEN as int) > dd as int) by (nonlinear_arith)
                    requires
                        (a as int) > 0x400_0000_0000_0000_0000,
                        (EPS_DEN as int) == 0x10_0000_0000_0000,
                        (dd as int) <= 0x4000_0000_0000_0000_0000_0000_0000_0000;
            }
            false
        } else {
            proof {
                lemma_mul_le(a as int, 0x400_0000_0000_0000_0000, EPS_DEN as int);
                assert(0x400_0000_0000_0000_0000int * 0x10_0000_0000_0000int
                    == 0x4000_0000_0000_0000_0000_0000_0000_0000int) by (nonlinear_arith);
            }
            a * (EPS_DEN as i128) <= dd
        }
    }
}

/// Value equality of fractions is transitive.
pub proof fn lemma_eqv_trans(a: Rat, b: Rat, c: Rat)
    by (nonlinear_arith)
    requires
        a.wf(),
        b.wf(),
        c.wf(),
        a.eqv(b),
        b.eqv(c),
    ensures
        a.eqv(c),
{
}

/// The sum of two fractions in good standing is in good standing.
pub proof fn lemma_add_wf(p: Rat, q: Rat)
    by (nonlinear_arith)
    requires
        p.wf(),
        q.wf(),
    ensures
        p.add(q).wf(),
{
}

proof fn lemma_add_congruence_first(p1: Rat, p2: Rat, r: Rat)
    requires
        p1.wf(),
        p2.wf(),
        r.wf(),
        p1.eqv(p2),
    ensures
        p1.add(r).eqv(p2.add(r)),
{
    assert((p1.n * r.d) * (p2.d * r.d) == (p1.n * p2.d) * (r.d * r.d)) by (nonlinear_arith);
    assert((r.n * p1.d) * (p2.d * r.d) == (r.n * p2.d) * (p1.d * r.d)) by (nonlinear_arith);
    assert((p2.n * r.d) * (p1.d * r.d) == (p2.n * p1.d) * (r.d * r.d)) by (nonlinear_arith);
    assert((p1.n * r.d + r.n * p1.d) * (p2.d * r.d) == (p1.n * r.d) * (p2.d * r.d) + (r.n * p1.d)
        * (p2.d * r.d)) by (nonlinear_arith);
    assert((p2.n * r.d + r.n * p2.d) * (p1.d * r.d) == (p2.n * r.d) * (p1.d * r.d) + (r.n * p2.d)
        * (p1.d * r.d)) by (nonlinear_arith);
}

proof fn lemma_add_congruence_second(r: Rat, q1: Rat, q2: Rat)
    requires
        r.wf(),
        q1.wf(),
        q2.wf(),
        q1.eqv(q2),
    ensures
        r.add(q1).eqv(r.add(q2)),
{
    assert((r.n * q1.d) * (r.d * q2.d) == (r.n * q2.d) * (r.d * q1.d)) by (nonlinear_arith);
    assert((q1.n * r.d) * (r.d * q2.d) == (q1.n * q2.d) * (r.d * r.d)) by (nonlinear_arith);
    assert((q2.n * r.d) * (r.d * q1.d) == (q2.n * q1.d) * (r.d * r.d)) by (nonlinear_arith);
    assert((r.n * q1.d + q1.n * r.d) * (r.d * q2.d) == (r.n * q1.d) * (r.d * q2.d) + (q1.n * r.d)
        * (r.d * q2.d)) by (nonlinear_arith);
    assert((r.n * q2.d + q2.n * r.d) * (r.d * q1.d) == (r.n * q2.d) * (r.d * q1.d) + (q2.n * r.d)
        * (r.d * q1.d)) by (nonlinear_arith);
}

/// Sums of equal values are equal values.
pub proof fn lemma_add_congruence(p1: Rat, p2: Rat, q1: Rat, q2: Rat)
    requires
        p1.wf(),
        p2.wf(),
        q1.wf(),
        q2.wf(),
        p1.eqv(p2),
        q1.eqv(q2),
    ensures
        p1.add(q1).eqv(p2.add(q2)),
        p1.add(q1).wf(),
        p2.add(q2).wf(),
{
    lemma_add_wf(p1, q1);
    lemma_add_wf(p2, q1);
    lemma_add_wf(p2, q2);
    lemma_add_congruence_first(p1, p2, q1);
    lemma_add_congruence_second(p2, q1, q2);
    lemma_eqv_trans(p1.add(q1), p2.add(q1), p2.add(q2));
}

/// Squaring a quotient is the quotient of the squares.
pub proof fn lemma_div_square(x: Rat, m: Rat)
    by (nonlinear_arith)
    requires
        x.wf(),
        m.wf(),
        m.n >= 1,
    ensures
        x.div(m).mul(x.div(m)).eqv(x.mul(x).div(m.mul(m))),
        x.div(m).mul(x.div(m)).wf(),
        x.mul(x).div(m.mul(m)).wf(),
        x.div(m).wf(),
{
}

proof fn lemma_mul_exchange(x: int, y: int, z: int, w: int)
    by (nonlinear_arith)
    ensures
        (x * y) * (z * w) == (x * z) * (y * w),
{
}

/// Quotients over one divisor add like their numerators.
pub proof fn lemma_div_add(p: Rat, q: Rat, w: Rat)
    requires
        p.wf(),
        q.wf(),
        w.wf(),
        w.n >= 1,
    ensures
        p.div(w).add(q.div(w)).eqv(p.add(q).div(w)),
        p.div(w).add(q.div(w)).wf(),
        p.add(q).div(w).wf(),
{
    assert((p.n * w.d) * (q.d * w.n) == (p.n * q.d) * (w.d * w.n)) by (nonlinear_arith);
    assert((q.n * w.d) * (p.d * w.n) == (q.n * p.d) * (w.d * w.n)) by (nonlinear_arith);
    lemma_mul_exchange(p.n * q.d, w.d * w.n, p.d * q.d, w.n);
    lemma_mul_exchange(q.n * p.d, w.d * w.n, p.d * q.d, w.n);
    assert((p.d * w.n) * (q.d * w.n) == (p.d * q.d) * (w.n * w.n)) by (nonlinear_arith);
    lemma_mul_exchange(p.n * q.d, w.d, p.d * q.d, w.n * w.n);
    lemma_mul_exchange(q.n * p.d, w.d, p.d * q.d, w.n * w.n);
    assert(w.d * (w.n * w.n) == (w.d * w.n) * w.n) by (nonlinear_arith);
    assert(((p.n * w.d) * (q.d * w.n) + (q.n * w.d) * (p.d * w.n)) * ((p.d * q.d) * w.n) == ((p.n
        * w.d) * (q.d * w.n)) * ((p.d * q.d) * w.n) + ((q.n * w.d) * (p.d * w.n)) * ((p.d * q.d)
        * w.n)) by (nonlinear_arith);
    assert(((p.n * q.d + q.n * p.d) * w.d) * ((p.d * w.n) * (q.d * w.n)) == ((p.n * q.d) * w.d) * (
    (p.d * w.n) * (q.d * w.n)) + ((q.n * p.d) * w.d) * ((p.d * w.n) * (q.d * w.n)))
        by (nonlinear_arith);
    assert(p.div(w).add(q.div(w)).wf() && p.add(q).div(w).wf()) by (nonlinear_arith)
        requires
            p.wf(),
            q.wf(),
            w.wf(),
            w.n >= 1;
}

/// The integer square root: the largest integer whose square is at most `x`.
pub open spec fn floor_sqrt(x: int) -> int {
    choose|r: int| r >= 0 && #[trigger] (r * r) <= x < (r + 1) * (r + 1)
}

/// Only one nonnegative integer has a square at most `x` and a successor
/// whose square exceeds it.
proof fn lemma_floor_sqrt_unique(x: int, r1: int, r2: int)
    by (nonlinear_arith)
    requires
        r1 >= 0,
        r2 >= 0,
        r1 * r1 <= x < (r1 + 1) * (r1 + 1),
        r2 * r2 <= x < (r2 + 1) * (r2 + 1),
    ensures
        r1 == r2,
{
}

/// Every nonnegative integer has an integer square root, and `floor_sqrt`
/// names it.
pub proof fn lemma_floor_sqrt_exists(x: int)
    requires
        x >= 0,
    ensures
        floor_sqrt(x) >= 0,
        floor_sqrt(x) * floor_sqrt(x) <= x,
        x < (floor_sqrt(x) + 1) * (floor_sqrt(x) + 1),
    decreases x,
{
    if x == 0 {
        assert((0int) * (0int) <= x < (0int + 1) * (0int + 1)) by (nonlinear_arith)
            requires
                x == 0;
    } else {
        lemma_floor_sqrt_exists(x - 1);
        let r = floor_sqrt(x - 1);
        if (r + 1) * (r + 1) <= x {
            assert(x == (r + 1) * (r + 1));
            assert((r + 1) * (r + 1) <= x < ((r + 1) + 1) * ((r + 1) + 1)) by (nonlinear_arith)
                requires
                    x == (r + 1) * (r + 1),
                    r >= 0;
        } else {
            assert(r * r <= x < (r + 1) * (r + 1));
        }
    }
}

/// The integer square root of `x`, by bisection.
pub fn isqrt_u128(x: u128) -> (r: u128)
    requires
        (x as int) < 0x1_0000_0000_0000_0000_0000_0000_0000_0,
    ensures
        r as int == floor_sqrt(x as int),
        (r as int) * (r as int) <= x as int,
        (x as int) < ((r as int) + 1) * ((r as int) + 1),
{
    let mut lo: u128 = 0;
    let mut hi: u128 = 0x400_0000_0000_0000;
    proof {
        assert((0x400_0000_0000_0000int) * (0x400_0000_0000_0000int)
            == 0x1_0000_0000_0000_0000_0000_0000_0000_0) by (nonlinear_arith);
    }
    while hi - lo > 1
        invariant
            lo < hi,
            (hi as int) <= 0x400_0000_0000_0000,
            (lo as int) * (lo as int) <= x as int,
            (x as int) < (hi as int) * (hi as int),
        decreases hi - lo,
    {
        let mid = lo + (hi - lo) / 2;
        proof {
            assert((0x400_0000_0000_0000int) * (0x400_0000_0000_0000int)
                == 0x1_0000_0000_0000_0000_0000_0000_0000_0) by (nonlinear_arith);
            assert((mid as int) * (mid as int) <= (0x400_0000_0000_0000int) * (
            0x400_0000_0000_0000int)) by (nonlinear_arith)
                requires
                    0 <= (mid as int) <= 0x400_0000_0000_0000;
        }
        if mid * mid <= x {
            lo = mid;
        } else {
            hi = mid;
        }
    }
    proof {
        assert((lo as int) + 1 == hi as int);
        lemma_floor_sqrt_unique(x as int, lo as int, floor_sqrt(x as int));
    }
    lo
}

impl PartialEq for Scalar {
    /// Exact equality of the rational values, by cross-multiplication.
    fn eq(&self, other: &Scalar) -> (r: bool) {
        proof {
            lemma_i64_mul_fits(self.num as int, other.den as int);
            lemma_i64_mul_fits(other.num as int, self.den as int);
        }
        (self.num as i128) * (other.den as i128) == (other.num as i128) * (self.den as i128)
    }
}

impl vstd::std_specs::cmp::PartialEqSpecImpl for Scalar {
    open spec fn obeys_eq_spec() -> bool {
        true
    }

    open spec fn eq_spec(&self, other: &Scalar) -> bool {
        self@.eqv(other@)
    }
}

} // verus!
