//! Three-component vectors over fixed-point scalars.
//!
//! `Vec3f` carries three fixed-point components (points, directions or
//! colors). Its mathematical view `V3` is the triple of raw tick counts
//! as unbounded integers, and every vector operation has an exact
//! contract over that view.

use vstd::prelude::*;

verus! {

use vstd::arithmetic::div_mod::{
    lemma_div_is_ordered,
    lemma_div_is_ordered_by_denominator,
    lemma_div_nonincreasing,
    lemma_hoist_over_denominator,
};
use crate::fixed::{
    SCALE,
    absi,
    fits_fx,
    fx_div,
    fx_div_spec,
    fx_mul,
    fx_mul_spec,
    fx_sqrt,
    fx_sqrt_spec,
    is_sqrt_of,
    lemma_fx_mul_bound,
    lemma_tdiv_abs,
    lemma_tdiv_abs_le,
    tdiv,
};

/// A vector of three fixed-point components.
#[derive(Clone, Copy, Debug, PartialEq, Eq, Structural)]
pub struct Vec3f(pub i64, pub i64, pub i64);

/// A pair of fixed-point weights (the albedo of a material).
#[derive(Clone, Copy, Debug, PartialEq, Eq, Structural)]
pub struct Vec2f(pub i64, pub i64);

/// The mathematical view of a vector: its raw components as integers.
pub ghost struct V3 {
    pub x: int,
    pub y: int,
    pub z: int,
}

impl View for Vec3f {
    type V = V3;

    open spec fn view(&self) -> V3 {
        V3 { x: self.0 as int, y: self.1 as int, z: self.2 as int }
    }
}

/// Every component's magnitude is at most `m`.
pub open spec fn bounded(a: V3, m: int) -> bool {
    absi(a.x) <= m && absi(a.y) <= m && absi(a.z) <= m
}

/// Componentwise sum (exact).
pub open spec fn vadd(a: V3, b: V3) -> V3 {
    V3 { x: a.x + b.x, y: a.y + b.y, z: a.z + b.z }
}

/// Componentwise difference (exact).
pub open spec fn vsub(a: V3, b: V3) -> V3 {
    V3 { x: a.x - b.x, y: a.y - b.y, z: a.z - b.z }
}

/// Componentwise negation (exact).
pub open spec fn vneg(a: V3) -> V3 {
    V3 { x: -a.x, y: -a.y, z: -a.z }
}

/// Componentwise fixed-point product.
pub open spec fn vmul(a: V3, b: V3) -> V3 {
    V3 { x: fx_mul_spec(a.x, b.x), y: fx_mul_spec(a.y, b.y), z: fx_mul_spec(a.z, b.z) }
}

/// Fixed-point scaling by a scalar.
pub open spec fn vscale(a: V3, k: int) -> V3 {
    V3 { x: fx_mul_spec(a.x, k), y: fx_mul_spec(a.y, k), z: fx_mul_spec(a.z, k) }
}

/// Fixed-point dot product.
pub open spec fn vdot(a: V3, b: V3) -> int {
    fx_mul_spec(a.x, b.x) + fx_mul_spec(a.y, b.y) + fx_mul_spec(a.z, b.z)
}

/// Squared Euclidean length, in fixed point.
pub open spec fn vnormsq(a: V3) -> int {
    vdot(a, a)
}

/// Euclidean length, in fixed point (rounded down).
pub open spec fn vlen(a: V3) -> int {
    fx_sqrt_spec(vnormsq(a))
}

/// The unit vector with the direction of `a`; the zero vector where the
/// rounded length vanishes (a vector shorter than a thousandth of a
/// thousandth of a unit).
pub open spec fn vnormalize(a: V3) -> V3 {
    let l = vlen(a);
    if l == 0 {
        V3 { x: 0, y: 0, z: 0 }
    } else {
        V3 { x: fx_div_spec(a.x, l), y: fx_div_spec(a.y, l), z: fx_div_spec(a.z, l) }
    }
}

/// The largest component magnitude the dot product (and everything that
/// rests on it) accepts: 1.5 * 10^6 units.
pub const DOT_LIM: i64 = 1_500_000_000_000;

/// A dot product of vectors bounded by `m` and `n` is bounded by three
/// scaled products.
pub proof fn lemma_vdot_bound(a: V3, b: V3, m: int, n: int)
    requires
        bounded(a, m),
        bounded(b, n),
        0 <= m,
        0 <= n,
    ensures
        absi(vdot(a, b)) <= 3 * ((m * n) / (SCALE as int)),
        absi(fx_mul_spec(a.x, b.x)) <= (m * n) / (SCALE as int),
        absi(fx_mul_spec(a.y, b.y)) <= (m * n) / (SCALE as int),
        absi(fx_mul_spec(a.z, b.z)) <= (m * n) / (SCALE as int),
        (m * n) / (SCALE as int) >= 0,
{
    lemma_fx_mul_bound(a.x, b.x, m, n);
    lemma_fx_mul_bound(a.y, b.y, m, n);
    lemma_fx_mul_bound(a.z, b.z, m, n);
    assert(m * n >= 0) by (nonlinear_arith)
        requires
            0 <= m,
            0 <= n,
    ;
    lemma_tdiv_abs(m * n, SCALE as int);
}

/// A squared length is never negative.
pub proof fn lemma_vnormsq_nonneg(a: V3)
    ensures
        vnormsq(a) >= 0,
{
    assert(a.x * a.x >= 0 && a.y * a.y >= 0 && a.z * a.z >= 0) by (nonlinear_arith);
    lemma_tdiv_abs(a.x * a.x, SCALE as int);
    lemma_tdiv_abs(a.y * a.y, SCALE as int);
    lemma_tdiv_abs(a.z * a.z, SCALE as int);
}

/// Every component a normalization can produce fits this bound, whatever
/// the input vector (the worst case is a vector of rounded length 1 tick).
pub const NORM_LIM: i64 = 1_002_000_000;

/// One component of a normalized vector: `c` is a component of a vector
/// whose squared length is `q` and whose rounded length `l` is at least
/// `lmin`. Dividing `c` by `l` cannot exceed one unit by more than
/// `1001 / lmin` units, because `c` itself cannot exceed `l + 1001`.
proof fn lemma_normalize_comp(c: int, q: int, l: int, lmin: int)
    requires
        tdiv(c * c, SCALE as int) <= q,
        0 <= q,
        is_sqrt_of(q * (SCALE as int), l),
        1 <= lmin <= l,
    ensures
        absi(fx_div_spec(c, l)) <= SCALE as int + (1001 * (SCALE as int)) / lmin,
{
    let s = SCALE as int;
    let t = tdiv(c * c, s);
    assert(c * c >= 0) by (nonlinear_arith);
    lemma_tdiv_abs(c * c, s);
    assert(t == (c * c) / s);
    assert(t * s >= c * c - s + 1) by {
        vstd::arithmetic::div_mod::lemma_fundamental_div_mod(c * c, s);
        vstd::arithmetic::div_mod::lemma_mod_division_less_than_divisor(c * c, s);
    }
    assert(q * s >= t * s) by (nonlinear_arith)
        requires
            t <= q,
            s > 0,
    ;
    assert((l + 1) * (l + 1) > q * s);
    assert(absi(c) <= l + 1001) by (nonlinear_arith)
        requires
            (l + 1) * (l + 1) > c * c - s + 1,
            s == 1_000_000,
            l >= 0,
    ;
    lemma_tdiv_abs(c * s, l);
    assert(absi(c * s) <= (l + 1001) * s) by (nonlinear_arith)
        requires
            absi(c) <= l + 1001,
            s > 0,
    ;
    lemma_div_is_ordered(absi(c * s), (l + 1001) * s, l);
    assert((l + 1001) * s == 1001 * s + s * l) by (nonlinear_arith);
    lemma_hoist_over_denominator(1001 * s, s, l as nat);
    assert(((l + 1001) * s) / l == (1001 * s) / l + s);
    lemma_div_is_ordered_by_denominator(1001 * s, lmin, l);
}

/// A normalized vector's components never exceed `NORM_LIM`.
pub proof fn lemma_vnormalize_bound(a: V3)
    requires
        bounded(a, DOT_LIM as int),
    ensures
        bounded(vnormalize(a), NORM_LIM as int),
{
    let q = vnormsq(a);
    let l = vlen(a);
    lemma_vnormsq_nonneg(a);
    assert(q * (SCALE as int) >= 0) by (nonlinear_arith)
        requires
            q >= 0,
    ;
    crate::fixed::lemma_sqrt_exists(q * (SCALE as int));
    if l != 0 {
        assert(tdiv(a.x * a.x, SCALE as int) >= 0 && tdiv(a.y * a.y, SCALE as int) >= 0
            && tdiv(a.z * a.z, SCALE as int) >= 0) by {
            assert(a.x * a.x >= 0 && a.y * a.y >= 0 && a.z * a.z >= 0) by (nonlinear_arith);
            lemma_tdiv_abs(a.x * a.x, SCALE as int);
            lemma_tdiv_abs(a.y * a.y, SCALE as int);
            lemma_tdiv_abs(a.z * a.z, SCALE as int);
        }
        assert(l >= 1) by {
            assert(is_sqrt_of(q * (SCALE as int), l));
        }
        lemma_normalize_comp(a.x, q, l, 1);
        lemma_normalize_comp(a.y, q, l, 1);
        lemma_normalize_comp(a.z, q, l, 1);
        assert((1001 * (SCALE as int)) / 1 == 1001 * (SCALE as int));
    }
}

/// A normalized vector whose rounded length is at least one unit stays
/// within about a thousandth of a unit of the unit cube.
pub proof fn lemma_vnormalize_bound_unit(a: V3)
    requires
        bounded(a, DOT_LIM as int),
        vlen(a) >= SCALE as int,
    ensures
        bounded(vnormalize(a), SCALE as int + 1001),
{
    let q = vnormsq(a);
    let l = vlen(a);
    lemma_vnormsq_nonneg(a);
    assert(q * (SCALE as int) >= 0) by (nonlinear_arith)
        requires
            q >= 0,
    ;
    crate::fixed::lemma_sqrt_exists(q * (SCALE as int));
    assert(tdiv(a.x * a.x, SCALE as int) >= 0 && tdiv(a.y * a.y, SCALE as int) >= 0
        && tdiv(a.z * a.z, SCALE as int) >= 0) by {
        assert(a.x * a.x >= 0 && a.y * a.y >= 0 && a.z * a.z >= 0) by (nonlinear_arith);
        lemma_tdiv_abs(a.x * a.x, SCALE as int);
        lemma_tdiv_abs(a.y * a.y, SCALE as int);
        lemma_tdiv_abs(a.z * a.z, SCALE as int);
    }
    lemma_normalize_comp(a.x, q, l, SCALE as int);
    lemma_normalize_comp(a.y, q, l, SCALE as int);
    lemma_normalize_comp(a.z, q, l, SCALE as int);
    assert((1001 * (SCALE as int)) / (SCALE as int) == 1001) by {
        vstd::arithmetic::div_mod::lemma_div_multiples_vanish(1001, SCALE as int);
    }
}

impl Vec3f {
    /// Build a vector from its three fixed-point components.
    pub fn new(x: i64, y: i64, z: i64) -> (r: Self)
        ensures
            r@ == (V3 { x: x as int, y: y as int, z: z as int }),
    {
        Vec3f(x, y, z)
    }

    /// Componentwise sum.
    pub fn add(&self, other: &Vec3f) -> (r: Vec3f)
        requires
            fits_fx(self@.x + other@.x),
            fits_fx(self@.y + other@.y),
            fits_fx(self@.z + other@.z),
        ensures
            r@ == vadd(self@, other@),
    {
        Vec3f(self.0 + other.0, self.1 + other.1, self.2 + other.2)
    }

    /// Componentwise difference.
    pub fn sub(&self, other: &Vec3f) -> (r: Vec3f)
        requires
            fits_fx(self@.x - other@.x),
            fits_fx(self@.y - other@.y),
            fits_fx(self@.z - other@.z),
        ensures
            r@ == vsub(self@, other@),
    {
        Vec3f(self.0 - other.0, self.1 - other.1, self.2 - other.2)
    }

    /// Componentwise negation.
    pub fn neg(&self) -> (r: Vec3f)
        requires
            fits_fx(-self@.x),
            fits_fx(-self@.y),
            fits_fx(-self@.z),
        ensures
            r@ == vneg(self@),
    {
        Vec3f(-self.0, -self.1, -self.2)
    }

    /// Componentwise fixed-point product.
    pub fn mul(&self, other: &Vec3f) -> (r: Vec3f)
        requires
            fits_fx(fx_mul_spec(self@.x, other@.x)),
            fits_fx(fx_mul_spec(self@.y, other@.y)),
            fits_fx(fx_mul_spec(self@.z, other@.z)),
        ensures
            r@ == vmul(self@, other@),
    {
        Vec3f(fx_mul(self.0, other.0), fx_mul(self.1, other.1), fx_mul(self.2, other.2))
    }

    /// Fixed-point scaling by a scalar.
    pub fn scale(&self, k: i64) -> (r: Vec3f)
        requires
            fits_fx(fx_mul_spec(self@.x, k as int)),
            fits_fx(fx_mul_spec(self@.y, k as int)),
            fits_fx(fx_mul_spec(self@.z, k as int)),
        ensures
            r@ == vscale(self@, k as int),
    {
        Vec3f(fx_mul(self.0, k), fx_mul(self.1, k), fx_mul(self.2, k))
    }

    /// Fixed-point dot product.
    pub fn dot(&self, other: &Vec3f) -> (r: i64)
        requires
            bounded(self@, DOT_LIM as int),
            bounded(other@, DOT_LIM as int),
        ensures
            r == vdot(self@, other@),
    {
        proof {
            lemma_vdot_bound(self@, other@, DOT_LIM as int, DOT_LIM as int);
        }
        fx_mul(self.0, other.0) + fx_mul(self.1, other.1) + fx_mul(self.2, other.2)
    }

    /// Squared Euclidean length.
    pub fn norm(&self) -> (r: i64)
        requires
            bounded(self@, DOT_LIM as int),
        ensures
            r == vnormsq(self@),
            r >= 0,
    {
        proof {
            lemma_vnormsq_nonneg(self@);
        }
        self.dot(self)
    }

    /// Euclidean length (rounded down).
    pub fn len(&self) -> (r: i64)
        requires
            bounded(self@, DOT_LIM as int),
        ensures
            r == vlen(self@),
            r >= 0,
    {
        let n = self.norm();
        fx_sqrt(n)
    }

    /// The unit vector with this vector's direction; the zero vector
    /// where the rounded length vanishes.
    pub fn normalize(&self) -> (r: Vec3f)
        requires
            bounded(self@, DOT_LIM as int),
        ensures
            r@ == vnormalize(self@),
    {
        let l = self.len();
        if l == 0 {
            Vec3f(0, 0, 0)
        } else {
            proof {
                lemma_tdiv_abs_le(self@.x * (SCALE as int), DOT_LIM * (SCALE as int), l as int);
                lemma_tdiv_abs_le(self@.y * (SCALE as int), DOT_LIM * (SCALE as int), l as int);
                lemma_tdiv_abs_le(self@.z * (SCALE as int), DOT_LIM * (SCALE as int), l as int);
                lemma_div_nonincreasing(DOT_LIM * (SCALE as int), l as int);
                assert(absi(self@.x * (SCALE as int)) <= DOT_LIM * (SCALE as int)
                    && absi(self@.y * (SCALE as int)) <= DOT_LIM * (SCALE as int)
                    && absi(self@.z * (SCALE as int)) <= DOT_LIM * (SCALE as int))
                    by (nonlinear_arith)
                    requires
                        bounded(self@, DOT_LIM as int),
                ;
            }
            Vec3f(fx_div(self.0, l), fx_div(self.1, l), fx_div(self.2, l))
        }
    }
}

} // verus!
