//! The geometric algebra: points and vectors in 3-space, kept apart at the
//! type level so that only the physically meaningful combinations exist.

use crate::scalar::{
    floor_sqrt, isqrt_u128, lemma_add_congruence, lemma_add_wf, lemma_div_add, lemma_div_square,
    lemma_eqv_trans, lemma_floor_sqrt_exists, representable, Rat, Scalar,
};
use vstd::prelude::*;

verus! {

/// The mathematical value of a point, vector or any other component triple.
pub struct Triple {
    pub x: Rat,
    pub y: Rat,
    pub z: Rat,
}

impl Triple {
    pub open spec fn wf(self) -> bool {
        self.x.wf() && self.y.wf() && self.z.wf()
    }

    /// Componentwise equality of the rational values.
    pub open spec fn eqv(self, other: Triple) -> bool {
        self.x.eqv(other.x) && self.y.eqv(other.y) && self.z.eqv(other.z)
    }

    pub open spec fn add(self, other: Triple) -> Triple {
        Triple { x: self.x.add(other.x), y: self.y.add(other.y), z: self.z.add(other.z) }
    }

    pub open spec fn sub(self, other: Triple) -> Triple {
        Triple { x: self.x.sub(other.x), y: self.y.sub(other.y), z: self.z.sub(other.z) }
    }

    pub open spec fn neg(self) -> Triple {
        Triple { x: self.x.neg(), y: self.y.neg(), z: self.z.neg() }
    }

    pub open spec fn scale(self, s: Rat) -> Triple {
        Triple { x: self.x.mul(s), y: self.y.mul(s), z: self.z.mul(s) }
    }

    pub open spec fn div_scale(self, s: Rat) -> Triple {
        Triple { x: self.x.div(s), y: self.y.div(s), z: self.z.div(s) }
    }

    /// The standard 3-D dot product.
    pub open spec fn dot(self, other: Triple) -> Rat {
        self.x.mul(other.x).add(self.y.mul(other.y)).add(self.z.mul(other.z))
    }

    /// The right-handed 3-D cross product.
    pub open spec fn cross(self, other: Triple) -> Triple {
        Triple {
            x: self.y.mul(other.z).sub(self.z.mul(other.y)),
            y: self.z.mul(other.x).sub(self.x.mul(other.z)),
            z: self.x.mul(other.y).sub(self.y.mul(other.x)),
        }
    }
}

/// Whether every component of `t` can be stored in a `Scalar` as it stands.
pub open spec fn storable(t: Triple) -> bool {
    representable(t.x) && representable(t.y) && representable(t.z)
}

/// Whether the dot product of `a` and `b`, and each value on the way to it,
/// can be stored in a `Scalar`.
pub open spec fn dot_representable(a: Triple, b: Triple) -> bool {
    &&& representable(a.x.mul(b.x))
    &&& representable(a.y.mul(b.y))
    &&& representable(a.z.mul(b.z))
    &&& representable(a.x.mul(b.x).add(a.y.mul(b.y)))
    &&& representable(a.dot(b))
}

/// Whether the cross product of `a` and `b`, and each value on the way to
/// it, can be stored in a `Scalar`.
pub open spec fn cross_representable(a: Triple, b: Triple) -> bool {
    &&& representable(a.y.mul(b.z))
    &&& representable(a.z.mul(b.y))
    &&& representable(a.z.mul(b.x))
    &&& representable(a.x.mul(b.z))
    &&& representable(a.x.mul(b.y))
    &&& representable(a.y.mul(b.x))
    &&& storable(a.cross(b))
}

/// The approximation the library uses as the magnitude of a vector value:
/// the largest multiple of `2^-26` whose square is at most the squared
/// magnitude `t.dot(t)`.
pub open spec fn mag_rat(t: Triple) -> Rat {
    Rat { n: floor_sqrt((t.dot(t).n * 0x10_0000_0000_0000) / t.dot(t).d), d: 0x400_0000 }
}

/// A position in 3-space.
#[derive(Clone, Copy, Debug)]
pub struct Point {
    pub x: Scalar,
    pub y: Scalar,
    pub z: Scalar,
}

/// A displacement or direction in 3-space.
#[derive(Clone, Copy, Debug)]
pub struct Vector {
    pub x: Scalar,
    pub y: Scalar,
    pub z: Scalar,
}

impl View for Point {
    type V = Triple;

    open spec fn view(&self) -> Triple {
        Triple { x: self.x@, y: self.y@, z: self.z@ }
    }
}

impl View for Vector {
    type V = Triple;

    open spec fn view(&self) -> Triple {
        Triple { x: self.x@, y: self.y@, z: self.z@ }
    }
}

impl Point {
    pub open spec fn wf(self) -> bool {
        self@.wf()
    }

    pub fn is_point(self) -> (r: bool)
        ensures
            r,
    {
        true
    }

    pub fn is_vector(self) -> (r: bool)
        ensures
            !r,
    {
        false
    }

    /// The component at `index`: 0, 1 and 2 select x, y and z.
    pub fn component(&self, index: usize) -> (r: Scalar)
        requires
            index < 3,
        ensures
            index == 0 ==> r == self.x,
            index == 1 ==> r == self.y,
            index == 2 ==> r == self.z,
    {
        if index == 0 {
            self.x
        } else if index == 1 {
            self.y
        } else {
            self.z
        }
    }

    pub fn add_vector(self, v: Vector) -> (r: Point)
        requires
            self.wf(),
            v.wf(),
            storable(self@.add(v@)),
        ensures
            r.wf(),
            r@ == self@.add(v@),
    {
        Point { x: self.x.add(v.x), y: self.y.add(v.y), z: self.z.add(v.z) }
    }

    pub fn sub_point(self, other: Point) -> (r: Vector)
        requires
            self.wf(),
            other.wf(),
            storable(self@.sub(other@)),
        ensures
            r.wf(),
            r@ == self@.sub(other@),
    {
        Vector { x: self.x.sub(other.x), y: self.y.sub(other.y), z: self.z.sub(other.z) }
    }

    pub fn sub_vector(self, v: Vector) -> (r: Point)
        requires
            self.wf(),
            v.wf(),
            storable(self@.sub(v@)),
        ensures
            r.wf(),
            r@ == self@.sub(v@),
    {
        Point { x: self.x.sub(v.x), y: self.y.sub(v.y), z: self.z.sub(v.z) }
    }

    pub fn scale(self, s: Scalar) -> (r: Point)
        requires
            self.wf(),
            s.wf(),
            storable(self@.scale(s@)),
        ensures
            r.wf(),
            r@ == self@.scale(s@),
    {
        Point { x: self.x.mul(s), y: self.y.mul(s), z: self.z.mul(s) }
    }

    /// Division by a nonzero scalar, as multiplication by its reciprocal.
    pub fn div_scalar(self, s: Scalar) -> (r: Point)
        requires
            self.wf(),
            s.wf(),
            s@.n != 0,
            storable(self@.div_scale(s@)),
        ensures
            r.wf(),
            r@ == self@.div_scale(s@),
    {
        Point { x: self.x.div(s), y: self.y.div(s), z: self.z.div(s) }
    }

    /// Negation flips every component, like scaling by minus one.
    pub fn neg(self) -> (r: Point)
        requires
            self.wf(),
            storable(self@.neg()),
        ensures
            r.wf(),
            r@ == self@.neg(),
    {
        Point { x: self.x.neg(), y: self.y.neg(), z: self.z.neg() }
    }
}

impl Vector {
    pub open spec fn wf(self) -> bool {
        self@.wf()
    }

    pub fn is_point(self) -> (r: bool)
        ensures
            !r,
    {
        false
    }

    pub fn is_vector(self) -> (r: bool)
        ensures
            r,
    {
        true
    }

    /// The component at `index`: 0, 1 and 2 select x, y and z.
    pub fn component(&self, index: usize) -> (r: Scalar)
        requires
            index < 3,
        ensures
            index == 0 ==> r == self.x,
            index == 1 ==> r == self.y,
            index == 2 ==> r == self.z,
    {
        if index == 0 {
            self.x
        } else if index == 1 {
            self.y
        } else {
            self.z
        }
    }

    pub fn add_vector(self, v: Vector) -> (r: Vector)
        requires
            self.wf(),
            v.wf(),
            storable(self@.add(v@)),
        ensures
            r.wf(),
            r@ == self@.add(v@),
    {
        Vector { x: self.x.add(v.x), y: self.y.add(v.y), z: self.z.add(v.z) }
    }

    pub fn add_point(self, p: Point) -> (r: Point)
        requires
            self.wf(),
            p.wf(),
            storable(self@.add(p@)),
        ensures
            r.wf(),
            r@ == self@.add(p@),
    {
        Point { x: self.x.add(p.x), y: self.y.add(p.y), z: self.z.add(p.z) }
    }

    pub fn sub_vector(self, other: Vector) -> (r: Vector)
        requires
            self.wf(),
            other.wf(),
            storable(self@.sub(other@)),
        ensures
            r.wf(),
            r@ == self@.sub(other@),
    {
        Vector { x: self.x.sub(other.x), y: self.y.sub(other.y), z: self.z.sub(other.z) }
    }

    pub fn scale(self, s: Scalar) -> (r: Vector)
        requires
            self.wf(),
            s.wf(),
            storable(self@.scale(s@)),
        ensures
            r.wf(),
            r@ == self@.scale(s@),
    {
        Vector { x: self.x.mul(s), y: self.y.mul(s), z: self.z.mul(s) }
    }

    /// Division by a nonzero scalar, as multiplication by its reciprocal.
    pub fn div_scalar(self, s: Scalar) -> (r: Vector)
        requires
            self.wf(),
            s.wf(),
            s@.n != 0,
            storable(self@.div_scale(s@)),
        ensures
            r.wf(),
            r@ == self@.div_scale(s@),
    {
        Vector { x: self.x.div(s), y: self.y.div(s), z: self.z.div(s) }
    }

    /// Negation flips every component, like scaling by minus one.
    pub fn neg(self) -> (r: Vector)
        requires
            self.wf(),
            storable(self@.neg()),
        ensures
            r.wf(),
            r@ == self@.neg(),
    {
        Vector { x: self.x.neg(), y: self.y.neg(), z: self.z.neg() }
    }

    pub fn dot(self, other: Vector) -> (r: Scalar)
        requires
            self.wf(),
            other.wf(),
            dot_representable(self@, other@),
        ensures
            r.wf(),
            r@ == self@.dot(other@),
    {
        self.x.mul(other.x).add(self.y.mul(other.y)).add(self.z.mul(other.z))
    }

    pub fn cross(self, other: Vector) -> (r: Vector)
        requires
            self.wf(),
            other.wf(),
            cross_representable(self@, other@),
        ensures
            r.wf(),
            r@ == self@.cross(other@),
    {
        Vector {
            x: self.y.mul(other.z).sub(self.z.mul(other.y)),
            y: self.z.mul(other.x).sub(self.x.mul(other.z)),
            z: self.x.mul(other.y).sub(self.y.mul(other.x)),
        }
    }

    /// The length of the vector: the largest multiple of `2^-26` whose
    /// square is at most the exact squared magnitude `self . self`; always
    /// nonnegative.
    pub fn magnitude(self) -> (r: Scalar)
        requires
            self.wf(),
            dot_representable(self@, self@),
        ensures
            r.wf(),
            r@ == mag_rat(self@),
            r@.n >= 0,
            r@.mul(r@).le(self@.dot(self@)),
            self@.dot(self@).lt(
                Rat { n: r@.n + 1, d: 0x400_0000 }.mul(Rat { n: r@.n + 1, d: 0x400_0000 }),
            ),
    {
        let q = self.dot(self);
        proof {
            lemma_dot_self_nonneg(self@);
            lemma_div_le_self((q@.n) * 0x10_0000_0000_0000, q@.d);
        }
        let scaled = ((q.num as u128) * 0x10_0000_0000_0000) / (q.den as u128);
        let k = isqrt_u128(scaled);
        proof {
            assert((k as int) < 0x8000_0000_0000_0000) by (nonlinear_arith)
                requires
                    (k as int) >= 0,
                    (k as int) * (k as int) <= (scaled as int),
                    (scaled as int) < 0x1000_0000_0000_0000_0000_0000_0000_0000;
            lemma_div_bracket_low(q@.n * 0x10_0000_0000_0000, q@.d, k as int);
            lemma_div_bracket_high(
                q@.n * 0x10_0000_0000_0000,
                q@.d,
                ((k as int) + 1) * ((k as int) + 1),
            );
            assert(0x400_0000int * 0x400_0000int == 0x10_0000_0000_0000int) by (nonlinear_arith);
        }
        Scalar { num: k as i64, den: 0x400_0000 }
    }

    /// The unit vector pointing the same way: the vector divided by its own
    /// magnitude. The squared magnitude must be at least `2^-52`, which
    /// keeps the magnitude away from zero.
    pub fn normalize(self) -> (r: Vector)
        requires
            self.wf(),
            dot_representable(self@, self@),
            (Rat { n: 1, d: 0x10_0000_0000_0000 }).le(self@.dot(self@)),
            storable(self@.div_scale(mag_rat(self@))),
        ensures
            r.wf(),
            r@ == self@.div_scale(mag_rat(self@)),
    {
        let m = self.magnitude();
        proof {
            lemma_dot_self_nonneg(self@);
            assert(m@.n >= 1) by (nonlinear_arith)
                requires
                    m@.n >= 0,
                    self@.dot(self@).d <= self@.dot(self@).n * 0x10_0000_0000_0000,
                    self@.dot(self@).n * (0x400_0000int * 0x400_0000int) < (m@.n + 1) * (m@.n + 1)
                        * self@.dot(self@).d,
                    self@.dot(self@).d >= 1,
                    self@.dot(self@).n >= 0;
        }
        self.div_scalar(m)
    }
}

/// The dot product of a well-formed triple with itself is a nonnegative
/// fraction in good standing.
proof fn lemma_dot_self_nonneg(t: Triple)
    by (nonlinear_arith)
    requires
        t.wf(),
    ensures
        t.dot(t).n >= 0,
        t.dot(t).d >= 1,
{
}

proof fn lemma_div_le_self(x: int, d: int)
    by (nonlinear_arith)
    requires
        x >= 0,
        d >= 1,
    ensures
        0 <= x / d <= x,
{
}

proof fn lemma_div_bracket_low(x: int, d: int, k: int)
    by (nonlinear_arith)
    requires
        d >= 1,
        x >= 0,
        k >= 0,
        k * k <= x / d,
    ensures
        k * k * d <= x,
{
}

proof fn lemma_div_bracket_high(x: int, d: int, c: int)
    by (nonlinear_arith)
    requires
        d >= 1,
        x >= 0,
        x / d < c,
    ensures
        x < c * d,
{
}

proof fn lemma_div_lower(x: int, d: int, c: int)
    by (nonlinear_arith)
    requires
        d >= 1,
        c * d <= x,
    ensures
        c <= x / d,
{
}

/// The squared magnitude of a triple scaled down by `m` is the squared
/// magnitude divided by the square of `m`.
proof fn lemma_norm_dot(t: Triple, m: Rat)
    requires
        t.wf(),
        m.wf(),
        m.n >= 1,
    ensures
        t.div_scale(m).wf(),
        t.div_scale(m).dot(t.div_scale(m)).wf(),
        t.div_scale(m).dot(t.div_scale(m)).eqv(t.dot(t).div(m.mul(m))),
{
    let u = t.div_scale(m);
    let mm = m.mul(m);
    let sx = u.x.mul(u.x);
    let sy = u.y.mul(u.y);
    let sz = u.z.mul(u.z);
    let ax = t.x.mul(t.x);
    let ay = t.y.mul(t.y);
    let az = t.z.mul(t.z);
    assert(mm.n >= 1 && mm.d >= 1) by (nonlinear_arith)
        requires
            mm.n == m.n * m.n,
            mm.d == m.d * m.d,
            m.n >= 1,
            m.d >= 1;
    assert(ax.d >= 1 && ay.d >= 1 && az.d >= 1) by (nonlinear_arith)
        requires
            ax.d == t.x.d * t.x.d,
            ay.d == t.y.d * t.y.d,
            az.d == t.z.d * t.z.d,
            t.x.d >= 1,
            t.y.d >= 1,
            t.z.d >= 1;
    lemma_div_square(t.x, m);
    lemma_div_square(t.y, m);
    lemma_div_square(t.z, m);
    lemma_add_wf(ax, ay);
    lemma_add_congruence(sx, ax.div(mm), sy, ay.div(mm));
    lemma_div_add(ax, ay, mm);
    lemma_eqv_trans(sx.add(sy), ax.div(mm).add(ay.div(mm)), ax.add(ay).div(mm));
    lemma_add_congruence(sx.add(sy), ax.add(ay).div(mm), sz, az.div(mm));
    lemma_div_add(ax.add(ay), az, mm);
    lemma_eqv_trans(
        sx.add(sy).add(sz),
        ax.add(ay).div(mm).add(az.div(mm)),
        ax.add(ay).add(az).div(mm),
    );
}

/// Normalizing brings the magnitude to one, up to the resolution of the
/// square-root approximation: for a vector whose magnitude is nonzero, the
/// magnitude of the normalized vector lies in `[1, 1 + 1/m.n)`, where `m.n`
/// counts the magnitude in steps of `2^-26`.
pub proof fn lemma_normalized_magnitude_near_one(v: Vector)
    requires
        v.wf(),
        mag_rat(v@).n >= 1,
    ensures
        (Rat { n: 1, d: 1 }).le(mag_rat(v@.div_scale(mag_rat(v@)))),
        mag_rat(v@.div_scale(mag_rat(v@))).lt(
            Rat { n: mag_rat(v@).n + 1, d: mag_rat(v@).n },
        ),
{
    let ghost_d: int = 0x400_0000;
    let eps_sq: int = 0x10_0000_0000_0000;
    let q = v@.dot(v@);
    lemma_dot_self_nonneg(v@);
    let s = (q.n * eps_sq) / q.d;
    lemma_div_le_self(q.n * eps_sq, q.d);
    lemma_floor_sqrt_exists(s);
    let k = mag_rat(v@).n;
    assert(k == floor_sqrt(s));
    lemma_div_bracket_low(q.n * eps_sq, q.d, k);
    lemma_div_bracket_high(q.n * eps_sq, q.d, (k + 1) * (k + 1));
    let m = mag_rat(v@);
    let u = v@.div_scale(m);
    lemma_norm_dot(v@, m);
    lemma_dot_self_nonneg(u);
    let w = u.dot(u);
    assert(k * k >= 1) by (nonlinear_arith)
        requires
            k >= 1;
    assert(m.mul(m) == (Rat { n: k * k, d: ghost_d * ghost_d }));
    assert(q.div(m.mul(m)) == (Rat { n: q.n * (ghost_d * ghost_d), d: q.d * (k * k) }));
    assert(w.n * (q.d * (k * k)) == (q.n * (ghost_d * ghost_d)) * w.d);
    // Lower bound on the squared magnitude of `u`: it is at least one.
    assert(w.n >= w.d) by (nonlinear_arith)
        requires
            w.n * (q.d * (k * k)) == (q.n * (ghost_d * ghost_d)) * w.d,
            k * k * q.d <= q.n * eps_sq,
            eps_sq == ghost_d * ghost_d,
            q.d >= 1,
            k >= 1,
            w.d >= 1,
            q.n >= 0;
    assert(eps_sq * w.d <= w.n * eps_sq) by (nonlinear_arith)
        requires
            w.n >= w.d,
            eps_sq >= 1;
    let su = (w.n * eps_sq) / w.d;
    lemma_div_lower(w.n * eps_sq, w.d, eps_sq);
    lemma_div_le_self(w.n * eps_sq, w.d);
    lemma_floor_sqrt_exists(su);
    let ku = floor_sqrt(su);
    assert(mag_rat(u).n == ku);
    assert(ku >= ghost_d) by (nonlinear_arith)
        requires
            ku >= 0,
            ghost_d >= 1,
            su < (ku + 1) * (ku + 1),
            su >= ghost_d * ghost_d;
    // Upper bound, step by step: the scaled square sits below the square of
    // `(k + 1) / k`, and taking roots keeps the order.
    assert(w.d * su <= w.n * eps_sq) by (nonlinear_arith)
        requires
            w.d >= 1,
            w.n * eps_sq >= 0,
            su == (w.n * eps_sq) / w.d;
    assert(((ku * ku) * (k * k)) * (q.d * w.d) <= ((w.n * eps_sq) * (k * k)) * q.d)
        by (nonlinear_arith)
        requires
            ku * ku <= su,
            w.d * su <= w.n * eps_sq,
            k >= 1,
            q.d >= 1,
            w.d >= 1,
            su >= 0;
    assert(((w.n * eps_sq) * (k * k)) * q.d == eps_sq * ((q.n * (ghost_d * ghost_d)) * w.d))
        by (nonlinear_arith)
        requires
            w.n * (q.d * (k * k)) == (q.n * (ghost_d * ghost_d)) * w.d;
    assert(eps_sq * ((q.n * (ghost_d * ghost_d)) * w.d) < ((k + 1) * (k + 1)) * (eps_sq * (q.d
        * w.d))) by (nonlinear_arith)
        requires
            q.n * eps_sq < (k + 1) * (k + 1) * q.d,
            eps_sq == ghost_d * ghost_d,
            w.d >= 1,
            eps_sq >= 1,
            q.d >= 1;
    assert((ku * ku) * (k * k) < ((k + 1) * (k + 1)) * eps_sq) by (nonlinear_arith)
        requires
            ((ku * ku) * (k * k)) * (q.d * w.d) < ((k + 1) * (k + 1)) * (eps_sq * (q.d * w.d)),
            q.d >= 1,
            w.d >= 1;
    assert(ku * k < (k + 1) * ghost_d) by (nonlinear_arith)
        requires
            (ku * ku) * (k * k) < ((k + 1) * (k + 1)) * eps_sq,
            eps_sq == ghost_d * ghost_d,
            ku >= 0,
            k >= 1,
            ghost_d >= 1;
    assert((Rat { n: 1, d: 1 }).le(mag_rat(u)));
    assert(mag_rat(u).lt(Rat { n: k + 1, d: k }));
}

impl PartialEq for Point {
    /// Exact equality of the component values.
    fn eq(&self, other: &Point) -> (r: bool) {
        self.x == other.x && self.y == other.y && self.z == other.z
    }
}

impl vstd::std_specs::cmp::PartialEqSpecImpl for Point {
    open spec fn obeys_eq_spec() -> bool {
        true
    }

    open spec fn eq_spec(&self, other: &Point) -> bool {
        self@.eqv(other@)
    }
}

impl PartialEq for Vector {
    /// Exact equality of the component values.
    fn eq(&self, other: &Vector) -> (r: bool) {
        self.x == other.x && self.y == other.y && self.z == other.z
    }
}

impl vstd::std_specs::cmp::PartialEqSpecImpl for Vector {
    open spec fn obeys_eq_spec() -> bool {
        true
    }

    open spec fn eq_spec(&self, other: &Vector) -> bool {
        self@.eqv(other@)
    }
}

pub fn point(x: Scalar, y: Scalar, z: Scalar) -> (r: Point)
    ensures
        r.x == x,
        r.y == y,
        r.z == z,
{
    Point { x, y, z }
}

pub fn vector(x: Scalar, y: Scalar, z: Scalar) -> (r: Vector)
    ensures
        r.x == x,
        r.y == y,
        r.z == z,
{
    Vector { x, y, z }
}

/// The magnitude of `v`; see `Vector::magnitude`.
pub fn magnitude(v: Vector) -> (r: Scalar)
    requires
        v.wf(),
        dot_representable(v@, v@),
    ensures
        r.wf(),
        r@ == mag_rat(v@),
        r@.n >= 0,
{
    v.magnitude()
}

/// The unit vector along `v`; see `Vector::normalize`.
pub fn normalize(v: Vector) -> (r: Vector)
    requires
        v.wf(),
        dot_representable(v@, v@),
        (Rat { n: 1, d: 0x10_0000_0000_0000 }).le(v@.dot(v@)),
        storable(v@.div_scale(mag_rat(v@))),
    ensures
        r.wf(),
        r@ == v@.div_scale(mag_rat(v@)),
{
    v.normalize()
}

pub fn dot(v1: Vector, v2: Vector) -> (r: Scalar)
    requires
        v1.wf(),
        v2.wf(),
        dot_representable(v1@, v2@),
    ensures
        r.wf(),
        r@ == v1@.dot(v2@),
{
    v1.dot(v2)
}

pub fn cross(v1: Vector, v2: Vector) -> (r: Vector)
    requires
        v1.wf(),
        v2.wf(),
        cross_representable(v1@, v2@),
    ensures
        r.wf(),
        r@ == v1@.cross(v2@),
{
    v1.cross(v2)
}

/// One cross-product component against its mirror image: for fractions
/// `a, b, c, d`, the value `a*b - c*d` is the negation of `d*c - b*a`.
proof fn lemma_cross_component(a: Rat, b: Rat, c: Rat, d: Rat)
    by (nonlinear_arith)
    requires
        a.wf(),
        b.wf(),
        c.wf(),
        d.wf(),
    ensures
        a.mul(b).sub(c.mul(d)).eqv(d.mul(c).sub(b.mul(a)).neg()),
{
}

/// The cross product is anti-commutative: crossing two vectors in the other
/// order yields the negated vector.
pub proof fn lemma_cross_antisymmetric(a: Vector, b: Vector)
    requires
        a.wf(),
        b.wf(),
    ensures
        a@.cross(b@).eqv(b@.cross(a@).neg()),
{
    lemma_cross_component(a@.y, b@.z, a@.z, b@.y);
    lemma_cross_component(a@.z, b@.x, a@.x, b@.z);
    lemma_cross_component(a@.x, b@.y, a@.y, b@.x);
}

/// Adding a fraction and then subtracting it again names the value one
/// started from.
proof fn lemma_rat_add_sub_cancel(p: Rat, q: Rat)
    by (nonlinear_arith)
    requires
        p.wf(),
        q.wf(),
    ensures
        p.add(q).sub(q).eqv(p),
{
}

/// Moving a point by a vector and back returns to the same position.
pub proof fn lemma_add_then_sub_vector(p: Point, v: Vector)
    requires
        p.wf(),
        v.wf(),
    ensures
        p@.add(v@).sub(v@).eqv(p@),
{
    lemma_rat_add_sub_cancel(p@.x, v@.x);
    lemma_rat_add_sub_cancel(p@.y, v@.y);
    lemma_rat_add_sub_cancel(p@.z, v@.z);
}

} // verus!
