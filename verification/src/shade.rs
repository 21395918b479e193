//! Phong shading: ambient background, diffuse and specular terms summed
//! over every light of the scene.
//!
//! A ray that meets nothing shades to the fixed background color. For a
//! hit, each light contributes a diffuse term (its intensity times the
//! cosine between the light direction and the normal) and a specular
//! term (its intensity times that cosine's mirror counterpart raised to
//! the material's specular exponent). The cosines, dot products of
//! vectors of unit intent, are clamped to the unit interval before use.

use vstd::prelude::*;

verus! {

use crate::fixed::{
    SCALE,
    clamp01,
    clamp01_spec,
    fx_mul,
    fx_mul_spec,
    fx_powi,
    fx_powi_spec,
    lemma_fx_mul_bound,
    lemma_tdiv_abs,
};
use crate::geometry::{ALBEDO_LIM, COORD_LIM, DIR_LIM, Sphere};
use crate::scene::{
    Light,
    hit_normal,
    hit_point,
    light_ok,
    lights_ok,
    resolve_spec,
    scene_intersect,
    spheres_ok,
};
use crate::vec3::{
    NORM_LIM,
    V3,
    Vec3f,
    bounded,
    lemma_vdot_bound,
    lemma_vnormalize_bound,
    vadd,
    vdot,
    vneg,
    vnormalize,
    vscale,
    vsub,
};

/// The fixed background color (0.2, 0.7, 0.8).
pub open spec fn background_spec() -> V3 {
    V3 { x: 200_000, y: 700_000, z: 800_000 }
}

/// The white used by the specular term (1, 1, 1).
pub open spec fn white_spec() -> V3 {
    V3 { x: SCALE as int, y: SCALE as int, z: SCALE as int }
}

/// The largest component a reflected vector can carry, for unit-intent
/// inputs within `NORM_LIM`.
pub const REFL_LIM: i64 = 6_050_000_000_000_000;

/// The most lights one scene may carry (the intensity accumulators stay
/// within `i64` up to this many lights of the largest intensity).
pub const MAX_LIGHTS: usize = 256;

/// Mirror `v` about the normal `n`: `v - n * (2 * (v . n))`.
pub open spec fn reflect_spec(v: V3, n: V3) -> V3 {
    vsub(v, vscale(n, 2 * vdot(v, n)))
}

/// Mirror a vector about a normal.
pub fn reflect(v: &Vec3f, n: &Vec3f) -> (r: Vec3f)
    requires
        bounded(v@, NORM_LIM as int),
        bounded(n@, NORM_LIM as int),
    ensures
        r@ == reflect_spec(v@, n@),
        bounded(r@, REFL_LIM as int),
{
    proof {
        lemma_vdot_bound(v@, n@, NORM_LIM as int, NORM_LIM as int);
    }
    let k = 2 * v.dot(n);
    proof {
        lemma_fx_mul_bound(n@.x, k as int, NORM_LIM as int, 6_030_000_000_000);
        lemma_fx_mul_bound(n@.y, k as int, NORM_LIM as int, 6_030_000_000_000);
        lemma_fx_mul_bound(n@.z, k as int, NORM_LIM as int, 6_030_000_000_000);
    }
    let scaled = n.scale(k);
    v.sub(&scaled)
}

/// The direction from a surface point to a light.
pub open spec fn light_dir_spec(l: Light, p: V3) -> V3 {
    vnormalize(vsub(l.position@, p))
}

/// One light's diffuse contribution at a point with normal `n`.
pub open spec fn diffuse_term(l: Light, n: V3, p: V3) -> int {
    fx_mul_spec(l.intensity as int, clamp01_spec(vdot(light_dir_spec(l, p), n)))
}

/// One light's specular contribution at a point with normal `n`, seen
/// along `d`, for specular exponent `e`.
pub open spec fn specular_term(l: Light, n: V3, p: V3, d: V3, e: nat) -> int {
    fx_mul_spec(
        fx_powi_spec(
            clamp01_spec(vdot(vneg(reflect_spec(vneg(light_dir_spec(l, p)), n)), d)),
            e,
        ),
        l.intensity as int,
    )
}

/// The diffuse contributions of a sequence of lights, summed.
pub open spec fn diffuse_sum(ls: Seq<Light>, n: V3, p: V3) -> int
    decreases ls.len(),
{
    if ls.len() == 0 {
        0
    } else {
        diffuse_sum(ls.drop_last(), n, p) + diffuse_term(ls.last(), n, p)
    }
}

/// The specular contributions of a sequence of lights, summed.
pub open spec fn specular_sum(ls: Seq<Light>, n: V3, p: V3, d: V3, e: nat) -> int
    decreases ls.len(),
{
    if ls.len() == 0 {
        0
    } else {
        specular_sum(ls.drop_last(), n, p, d, e) + specular_term(ls.last(), n, p, d, e)
    }
}

/// Light is additive: the accumulated terms of two light lists laid end
/// to end are the sums of the two lists' own accumulations, exactly.
pub proof fn lemma_light_additivity(ls1: Seq<Light>, ls2: Seq<Light>, n: V3, p: V3, d: V3, e: nat)
    ensures
        diffuse_sum(ls1 + ls2, n, p) == diffuse_sum(ls1, n, p) + diffuse_sum(ls2, n, p),
        specular_sum(ls1 + ls2, n, p, d, e) == specular_sum(ls1, n, p, d, e) + specular_sum(
            ls2,
            n,
            p,
            d,
            e,
        ),
    decreases ls2.len(),
{
    if ls2.len() == 0 {
        assert(ls1 + ls2 =~= ls1);
    } else {
        assert((ls1 + ls2).drop_last() =~= ls1 + ls2.drop_last());
        assert((ls1 + ls2).last() == ls2.last());
        lemma_light_additivity(ls1, ls2.drop_last(), n, p, d, e);
    }
}

/// One light's terms are nonnegative and bounded by its intensity.
proof fn lemma_term_bounds(l: Light, n: V3, p: V3, d: V3, e: nat)
    requires
        light_ok(l),
    ensures
        0 <= diffuse_term(l, n, p) <= COORD_LIM as int,
        0 <= specular_term(l, n, p, d, e) <= COORD_LIM as int,
{
    let c = clamp01_spec(vdot(light_dir_spec(l, p), n));
    assert(0 <= (l.intensity as int) * c <= (COORD_LIM as int) * (SCALE as int)) by (nonlinear_arith)
        requires
            0 < l.intensity <= COORD_LIM,
            0 <= c <= SCALE as int,
    ;
    lemma_tdiv_abs((l.intensity as int) * c, SCALE as int);
    lemma_fx_mul_bound(l.intensity as int, c, COORD_LIM as int, SCALE as int);
    let w = fx_powi_spec(
        clamp01_spec(vdot(vneg(reflect_spec(vneg(light_dir_spec(l, p)), n)), d)),
        e,
    );
    lemma_powi_unit(clamp01_spec(vdot(vneg(reflect_spec(vneg(light_dir_spec(l, p)), n)), d)), e);
    assert(0 <= w * (l.intensity as int) <= (SCALE as int) * (COORD_LIM as int)) by (nonlinear_arith)
        requires
            0 <= w <= SCALE as int,
            0 < l.intensity <= COORD_LIM,
    ;
    lemma_tdiv_abs(w * (l.intensity as int), SCALE as int);
    lemma_fx_mul_bound(w, l.intensity as int, SCALE as int, COORD_LIM as int);
}

/// A power of a base in [0, 1] stays in [0, 1].
pub proof fn lemma_powi_unit(b: int, e: nat)
    requires
        0 <= b <= SCALE as int,
    ensures
        0 <= fx_powi_spec(b, e) <= SCALE as int,
    decreases e,
{
    if e != 0 {
        lemma_powi_unit(b, (e - 1) as nat);
        crate::fixed::lemma_fx_mul_unit(b, fx_powi_spec(b, (e - 1) as nat));
    }
}

/// The color of a hit on sphere `s` at point `p` with normal `n`, seen
/// along `d`, under the lights `ls`: the diffuse color scaled by the
/// diffuse accumulation and the diffuse weight, plus white scaled by the
/// specular accumulation and the specular weight.
pub open spec fn shade_hit_spec(s: Sphere, n: V3, p: V3, d: V3, ls: Seq<Light>) -> V3 {
    let m = s.material;
    let ds = diffuse_sum(ls, n, p);
    let ss = specular_sum(ls, n, p, d, m.specular_exponent as nat);
    vadd(
        vscale(vscale(m.diffuse_color@, ds), m.albedo.0 as int),
        vscale(white_spec(), fx_mul_spec(ss, m.albedo.1 as int)),
    )
}

/// The color a ray resolves to: the shaded nearest hit, or the
/// background color where no sphere is met.
pub open spec fn cast_ray_spec(o: V3, d: V3, ss: Seq<Sphere>, ls: Seq<Light>) -> V3 {
    match resolve_spec(ss, o, d) {
        None => background_spec(),
        Some((j, t)) => {
            let p = hit_point(o, d, t);
            let n = hit_normal(ss[j], p);
            shade_hit_spec(ss[j], n, p, d, ls)
        },
    }
}

/// A ray that intersects no sphere of the scene shades to exactly the
/// background color, whatever the lights.
pub proof fn lemma_background_when_no_hit(o: V3, d: V3, ss: Seq<Sphere>, ls: Seq<Light>)
    requires
        resolve_spec(ss, o, d) is None,
    ensures
        cast_ray_spec(o, d, ss, ls) == background_spec(),
{
}

/// Resolve a ray against the scene and shade the result.
pub fn cast_ray(orig: &Vec3f, dir: &Vec3f, spheres: &Vec<Sphere>, lights: &Vec<Light>) -> (r: Vec3f)
    requires
        spheres_ok(spheres@),
        lights_ok(lights@),
        lights@.len() <= MAX_LIGHTS,
        bounded(orig@, COORD_LIM as int),
        bounded(dir@, DIR_LIM as int),
    ensures
        r@ == cast_ray_spec(orig@, dir@, spheres@, lights@),
{
    match scene_intersect(orig, dir, spheres) {
        None => Vec3f(200_000, 700_000, 800_000),
        Some(h) => {
            let exponent = spheres[h.sphere].material.specular_exponent;
            let ghost n = h.normal@;
            let ghost p = h.point@;
            let ghost e = exponent as nat;
            let mut dsum: i64 = 0;
            let mut ssum: i64 = 0;
            let mut i: usize = 0;
            while i < lights.len()
                invariant
                    lights_ok(lights@),
                    lights@.len() <= MAX_LIGHTS,
                    i <= lights@.len(),
                    bounded(dir@, DIR_LIM as int),
                    bounded(n, NORM_LIM as int),
                    bounded(p, 600_000_000_000),
                    h.normal@ == n,
                    h.point@ == p,
                    e == exponent as nat,
                    dsum == diffuse_sum(lights@.take(i as int), n, p),
                    ssum == specular_sum(lights@.take(i as int), n, p, dir@, e),
                    0 <= dsum <= (i as int) * (COORD_LIM as int),
                    0 <= ssum <= (i as int) * (COORD_LIM as int),
                decreases lights@.len() - i,
            {
                let light = &lights[i];
                let offset = light.position.sub(&h.point);
                proof {
                    lemma_vnormalize_bound(offset@);
                }
                let light_dir = offset.normalize();
                let dcos = clamp01(light_dir.dot(&h.normal));
                proof {
                    lemma_fx_mul_bound(light.intensity as int, dcos as int, COORD_LIM as int, SCALE as int);
                }
                let dterm = fx_mul(light.intensity, dcos);
                let neg_ld = light_dir.neg();
                let refl = reflect(&neg_ld, &h.normal);
                let neg_refl = refl.neg();
                proof {
                    lemma_fx_mul_bound(neg_refl@.x, dir@.x, REFL_LIM as int, DIR_LIM as int);
                    lemma_fx_mul_bound(neg_refl@.y, dir@.y, REFL_LIM as int, DIR_LIM as int);
                    lemma_fx_mul_bound(neg_refl@.z, dir@.z, REFL_LIM as int, DIR_LIM as int);
                }
                let rdot = fx_mul(neg_refl.0, dir.0) + fx_mul(neg_refl.1, dir.1) + fx_mul(
                    neg_refl.2,
                    dir.2,
                );
                proof {
                    assert(rdot == vdot(neg_refl@, dir@));
                }
                let scos = clamp01(rdot);
                let spow = fx_powi(scos, exponent);
                proof {
                    lemma_fx_mul_bound(spow as int, light.intensity as int, SCALE as int, COORD_LIM as int);
                }
                let sterm = fx_mul(spow, light.intensity);
                proof {
                    lemma_term_bounds(lights@[i as int], n, p, dir@, e);
                    assert(dterm == diffuse_term(lights@[i as int], n, p));
                    assert(light_dir@ == light_dir_spec(lights@[i as int], p));
                    assert(neg_ld@ == vneg(light_dir_spec(lights@[i as int], p)));
                    assert(refl@ == reflect_spec(vneg(light_dir_spec(lights@[i as int], p)), n));
                    assert(neg_refl@ == vneg(reflect_spec(vneg(light_dir_spec(lights@[i as int], p)), n)));
                    assert(scos == clamp01_spec(
                        vdot(vneg(reflect_spec(vneg(light_dir_spec(lights@[i as int], p)), n)), dir@),
                    ));
                    assert(spow == fx_powi_spec(scos as int, e));
                    assert(sterm == specular_term(lights@[i as int], n, p, dir@, e));
                    assert(lights@.take(i + 1).drop_last() =~= lights@.take(i as int));
                    assert(lights@.take(i + 1).last() == lights@[i as int]);
                }
                dsum = dsum + dterm;
                ssum = ssum + sterm;
                i = i + 1;
            }
            proof {
                assert(lights@.take(lights@.len() as int) =~= lights@);
                assert((MAX_LIGHTS as int) * (COORD_LIM as int) == 2_560_000_000_000);
                assert((i as int) * (COORD_LIM as int) <= 2_560_000_000_000) by (nonlinear_arith)
                    requires
                        i <= 256,
                ;
            }
            let m = spheres[h.sphere].material;
            proof {
                lemma_fx_mul_bound(m.diffuse_color@.x, dsum as int, COORD_LIM as int, 2_560_000_000_000);
                lemma_fx_mul_bound(m.diffuse_color@.y, dsum as int, COORD_LIM as int, 2_560_000_000_000);
                lemma_fx_mul_bound(m.diffuse_color@.z, dsum as int, COORD_LIM as int, 2_560_000_000_000);
            }
            let c1 = m.diffuse_color.scale(dsum);
            proof {
                lemma_fx_mul_bound(c1@.x, m.albedo.0 as int, 25_600_000_000_000_000, ALBEDO_LIM as int);
                lemma_fx_mul_bound(c1@.y, m.albedo.0 as int, 25_600_000_000_000_000, ALBEDO_LIM as int);
                lemma_fx_mul_bound(c1@.z, m.albedo.0 as int, 25_600_000_000_000_000, ALBEDO_LIM as int);
            }
            let c1 = c1.scale(m.albedo.0);
            proof {
                lemma_fx_mul_bound(ssum as int, m.albedo.1 as int, 2_560_000_000_000, ALBEDO_LIM as int);
            }
            let k = fx_mul(ssum, m.albedo.1);
            let white = Vec3f(SCALE, SCALE, SCALE);
            proof {
                lemma_fx_mul_bound(SCALE as int, k as int, SCALE as int, 256_000_000_000_000);
            }
            let c2 = white.scale(k);
            c1.add(&c2)
        },
    }
}

} // verus!
