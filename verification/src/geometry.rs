//! Spheres, materials, and the ray-sphere intersection test.
//!
//! A ray is an origin and a direction (expected close to unit length);
//! the intersection test projects the center onto the ray, compares the
//! squared perpendicular distance with the squared radius, and picks the
//! nearer forward root, the exit root when the origin is inside, or
//! nothing when the sphere is missed or lies behind the origin.

use vstd::prelude::*;

verus! {

use crate::fixed::{
    SCALE,
    absi,
    fx_mul,
    fx_mul_spec,
    fx_sqrt,
    fx_sqrt_spec,
    is_sqrt_of,
    lemma_fx_mul_bound,
    lemma_sqrt_exists,
    lemma_sqrt_unique,
    lemma_tdiv_abs,
    tdiv,
};
use crate::vec3::{V3, Vec2f, Vec3f, bounded, lemma_vdot_bound, lemma_vnormsq_nonneg, vdot, vnormsq, vsub};

/// The largest coordinate, radius, color channel or light intensity a
/// scene may carry: 10^4 units.
pub const COORD_LIM: i64 = 10_000_000_000;

/// The largest albedo weight a material may carry: 10^2 units.
pub const ALBEDO_LIM: i64 = 100_000_000;

/// The largest component of a ray direction: 2 units (a direction is
/// expected to be unit length; normalization stays well under this).
pub const DIR_LIM: i64 = 2_000_000;

/// No intersection within the scene limits is reported farther than
/// this distance.
pub const HIT_LIM: i64 = 250_000_000_000;

/// Surface description: a diffuse color, the pair of diffuse and
/// specular weights, and the specular exponent.
#[derive(Clone, Copy, Debug, PartialEq, Eq, Structural)]
pub struct Material {
    pub diffuse_color: Vec3f,
    pub albedo: Vec2f,
    pub specular_exponent: u32,
}

/// A material's quantities lie within the scene limits.
pub open spec fn material_ok(m: Material) -> bool {
    &&& bounded(m.diffuse_color@, COORD_LIM as int)
    &&& absi(m.albedo.0 as int) <= ALBEDO_LIM as int
    &&& absi(m.albedo.1 as int) <= ALBEDO_LIM as int
}

impl Material {
    /// Build a material from its parts.
    pub fn new(albedo: Vec2f, diffuse_color: Vec3f, specular_exponent: u32) -> (r: Self)
        ensures
            r.albedo == albedo,
            r.diffuse_color == diffuse_color,
            r.specular_exponent == specular_exponent,
    {
        Self { albedo, diffuse_color, specular_exponent }
    }
}

/// A sphere: a center, a positive radius and a material.
#[derive(Clone, Copy, Debug, PartialEq, Eq, Structural)]
pub struct Sphere {
    pub center: Vec3f,
    pub radius: i64,
    pub material: Material,
}

/// A sphere's quantities lie within the scene limits.
pub open spec fn sphere_ok(s: Sphere) -> bool {
    &&& bounded(s.center@, COORD_LIM as int)
    &&& 0 < s.radius <= COORD_LIM
    &&& material_ok(s.material)
}

impl Sphere {
    /// Build a sphere from its parts.
    pub fn new(center: Vec3f, radius: i64, material: Material) -> (r: Self)
        ensures
            r.center == center,
            r.radius == radius,
            r.material == material,
    {
        Self { center, radius, material }
    }
}

/// The vector from the ray origin to the sphere center.
pub open spec fn isect_l(s: Sphere, o: V3) -> V3 {
    vsub(s.center@, o)
}

/// The projection of the center offset onto the ray direction.
pub open spec fn isect_tca(s: Sphere, o: V3, d: V3) -> int {
    vdot(isect_l(s, o), d)
}

/// The squared perpendicular distance from the center to the ray line.
pub open spec fn isect_d2(s: Sphere, o: V3, d: V3) -> int {
    vnormsq(isect_l(s, o)) - fx_mul_spec(isect_tca(s, o, d), isect_tca(s, o, d))
}

/// The squared radius.
pub open spec fn isect_r2(s: Sphere) -> int {
    fx_mul_spec(s.radius as int, s.radius as int)
}

/// The half-chord: the distance from the closest approach to either
/// surface crossing.
pub open spec fn isect_thc(s: Sphere, o: V3, d: V3) -> int {
    fx_sqrt_spec(isect_r2(s) - isect_d2(s, o, d))
}

/// The exact intersection distance the test reports: nothing when the
/// ray line misses the sphere or the sphere lies wholly behind the
/// origin; the exit root when the origin is inside; otherwise the
/// nearer forward root.
pub open spec fn hit_distance(s: Sphere, o: V3, d: V3) -> Option<int> {
    let tca = isect_tca(s, o, d);
    let d2 = isect_d2(s, o, d);
    let r2 = isect_r2(s);
    if d2 > r2 {
        None
    } else {
        let thc = isect_thc(s, o, d);
        let t0 = tca - thc;
        let t1 = tca + thc;
        if t0 < 0 && t1 < 0 {
            None
        } else if t0 < 0 {
            Some(t1)
        } else if t1 < 0 {
            Some(t0)
        } else if t0 < t1 {
            Some(t0)
        } else {
            Some(t1)
        }
    }
}

impl Sphere {
    /// Ray-sphere intersection: the distance along `dir` from `orig` to
    /// the reported surface crossing, by the policy of `hit_distance`.
    pub fn ray_intersect(&self, orig: &Vec3f, dir: &Vec3f) -> (r: Option<i64>)
        requires
            sphere_ok(*self),
            bounded(orig@, COORD_LIM as int),
            bounded(dir@, DIR_LIM as int),
        ensures
            ({
                let h = hit_distance(*self, orig@, dir@);
                match r {
                    Some(t) => h == Some(t as int) && 0 <= t <= HIT_LIM,
                    None => h is None,
                }
            }),
    {
        let l = self.center.sub(orig);
        proof {
            assert(bounded(l@, 2 * COORD_LIM as int));
            lemma_vdot_bound(l@, dir@, 2 * COORD_LIM as int, DIR_LIM as int);
            lemma_vdot_bound(l@, l@, 2 * COORD_LIM as int, 2 * COORD_LIM as int);
        }
        let tca = l.dot(dir);
        proof {
            lemma_fx_mul_bound(tca as int, tca as int, 120_000_000_000, 120_000_000_000);
        }
        let tca2 = fx_mul(tca, tca);
        let nsq = l.norm();
        let d2 = nsq - tca2;
        proof {
            lemma_fx_mul_bound(self.radius as int, self.radius as int, COORD_LIM as int, COORD_LIM as int);
            lemma_tdiv_abs((self.radius as int) * (self.radius as int), SCALE as int);
            assert((self.radius as int) * (self.radius as int) >= 0) by (nonlinear_arith);
        }
        let r2 = fx_mul(self.radius, self.radius);
        if d2 > r2 {
            return None;
        }
        proof {
            assert(tca2 >= 0) by {
                assert((tca as int) * (tca as int) >= 0) by (nonlinear_arith);
                lemma_tdiv_abs((tca as int) * (tca as int), SCALE as int);
            }
        }
        let thc = fx_sqrt(r2 - d2);
        proof {
            assert(thc <= 121_000_000_000) by (nonlinear_arith)
                requires
                    is_sqrt_of((r2 - d2) * (SCALE as int), thc as int),
                    0 <= r2 - d2 <= 14_500_000_000_000_000,
                    SCALE == 1_000_000,
            ;
        }
        let t0 = tca - thc;
        let t1 = tca + thc;
        if t0 < 0 && t1 < 0 {
            None
        } else if t0 < 0 {
            Some(t1)
        } else if t1 < 0 {
            Some(t0)
        } else if t0 < t1 {
            Some(t0)
        } else {
            Some(t1)
        }
    }
}

/// A ray whose line passes the center farther than the radius reports no
/// intersection, wherever its origin lies (in particular outside the
/// sphere).
pub proof fn lemma_intersect_miss(s: Sphere, o: V3, d: V3)
    requires
        vnormsq(isect_l(s, o)) > isect_r2(s),
        isect_d2(s, o, d) > isect_r2(s),
    ensures
        hit_distance(s, o, d) is None,
{
}

/// A ray whose origin lies strictly inside the sphere (with a margin of
/// three ticks plus two millionths of the projection, covering the
/// rounding of the squares) reports the exit crossing, at a positive
/// distance.
pub proof fn lemma_intersect_inside(s: Sphere, o: V3, d: V3)
    requires
        isect_r2(s) >= vnormsq(isect_l(s, o)) + 2 * tdiv(absi(isect_tca(s, o, d)), SCALE as int) + 3,
    ensures
        hit_distance(s, o, d) == Some(isect_tca(s, o, d) + isect_thc(s, o, d)),
        isect_tca(s, o, d) + isect_thc(s, o, d) > 0,
        isect_tca(s, o, d) - isect_thc(s, o, d) < 0,
{
    let sc = SCALE as int;
    let tca = isect_tca(s, o, d);
    let a = absi(tca);
    let nsq = vnormsq(isect_l(s, o));
    let tca2 = fx_mul_spec(tca, tca);
    let d2 = isect_d2(s, o, d);
    let r2 = isect_r2(s);
    lemma_vnormsq_nonneg(isect_l(s, o));
    assert(tca * tca >= 0) by (nonlinear_arith);
    lemma_tdiv_abs(tca * tca, sc);
    lemma_tdiv_abs(a, sc);
    assert(tca2 >= 0);
    assert(d2 <= nsq);
    assert(d2 <= r2);
    // The argument of the square root clears the next perfect square
    // above the projection's magnitude.
    assert(tca2 * sc >= tca * tca - sc + 1) by {
        vstd::arithmetic::div_mod::lemma_fundamental_div_mod(tca * tca, sc);
        vstd::arithmetic::div_mod::lemma_mod_division_less_than_divisor(tca * tca, sc);
    }
    assert((a / sc) * sc >= a - sc + 1) by {
        vstd::arithmetic::div_mod::lemma_fundamental_div_mod(a, sc);
        vstd::arithmetic::div_mod::lemma_mod_division_less_than_divisor(a, sc);
    }
    let m = r2 - d2;
    assert(m >= tca2 + 2 * (a / sc) + 3);
    assert(m * sc >= (tca2 + 2 * (a / sc) + 3) * sc) by (nonlinear_arith)
        requires
            m >= tca2 + 2 * (a / sc) + 3,
            sc > 0,
    ;
    assert((tca2 + 2 * (a / sc) + 3) * sc == tca2 * sc + 2 * ((a / sc) * sc) + 3 * sc)
        by (nonlinear_arith);
    assert(m * sc >= (a + 1) * (a + 1)) by (nonlinear_arith)
        requires
            m * sc >= tca * tca - sc + 1 + 2 * (a - sc + 1) + 3 * sc,
            a == absi(tca),
            sc == 1_000_000,
    ;
    let thc = isect_thc(s, o, d);
    assert(m * sc >= 0) by (nonlinear_arith)
        requires
            m * sc >= (a + 1) * (a + 1),
    ;
    lemma_sqrt_exists(m * sc);
    assert(is_sqrt_of(m * sc, thc));
    assert(thc >= a + 1) by (nonlinear_arith)
        requires
            is_sqrt_of(m * sc, thc),
            m * sc >= (a + 1) * (a + 1),
            a >= 0,
    ;
}

/// A ray at exact tangency (squared closest approach equal to the
/// squared radius) whose closest approach lies ahead of the origin
/// reports a single crossing: the two roots coincide at the projection
/// distance.
pub proof fn lemma_intersect_tangent(s: Sphere, o: V3, d: V3)
    requires
        isect_d2(s, o, d) == isect_r2(s),
        isect_tca(s, o, d) >= 0,
    ensures
        isect_thc(s, o, d) == 0,
        isect_tca(s, o, d) - isect_thc(s, o, d) == isect_tca(s, o, d) + isect_thc(s, o, d),
        hit_distance(s, o, d) == Some(isect_tca(s, o, d)),
{
    lemma_sqrt_exists(0);
    assert(is_sqrt_of(0, 0));
    lemma_sqrt_unique(0, isect_thc(s, o, d), 0);
}

} // verus!
