//! Point lights and the nearest-hit resolver.
//!
//! The resolver scans the spheres in scene order, keeps the smallest
//! intersection distance — the earliest sphere winning exact ties — and
//! reports the hit point and the outward unit normal there.

use vstd::prelude::*;

verus! {

use crate::fixed::lemma_fx_mul_bound;
use crate::geometry::{COORD_LIM, DIR_LIM, HIT_LIM, Sphere, hit_distance, sphere_ok};
use crate::vec3::{
    NORM_LIM,
    V3,
    Vec3f,
    bounded,
    lemma_vnormalize_bound,
    vadd,
    vnormalize,
    vscale,
    vsub,
};

/// A point light: a position and a positive intensity.
#[derive(Clone, Copy, Debug, PartialEq, Eq, Structural)]
pub struct Light {
    pub position: Vec3f,
    pub intensity: i64,
}

/// A light's quantities lie within the scene limits.
pub open spec fn light_ok(l: Light) -> bool {
    &&& bounded(l.position@, COORD_LIM as int)
    &&& 0 < l.intensity <= COORD_LIM
}

impl Light {
    /// Build a light from its parts.
    pub fn new(position: Vec3f, intensity: i64) -> (r: Self)
        ensures
            r.position == position,
            r.intensity == intensity,
    {
        Self { position, intensity }
    }
}

/// Every sphere of the scene lies within the scene limits.
pub open spec fn spheres_ok(ss: Seq<Sphere>) -> bool {
    forall|i: int| 0 <= i < ss.len() ==> sphere_ok(#[trigger] ss[i])
}

/// Every light of the scene lies within the scene limits.
pub open spec fn lights_ok(ls: Seq<Light>) -> bool {
    forall|i: int| 0 <= i < ls.len() ==> light_ok(#[trigger] ls[i])
}

/// The nearest hit among the first `k` spheres: the sphere index and the
/// intersection distance, the earliest sphere winning ties (a later
/// sphere replaces the best only with a strictly smaller distance).
pub open spec fn resolve_prefix(ss: Seq<Sphere>, o: V3, d: V3, k: int) -> Option<(int, int)>
    decreases k,
{
    if k <= 0 {
        None
    } else {
        let prev = resolve_prefix(ss, o, d, k - 1);
        match hit_distance(ss[k - 1], o, d) {
            None => prev,
            Some(t) => match prev {
                None => Some((k - 1, t)),
                Some((j, u)) => if t < u {
                    Some((k - 1, t))
                } else {
                    Some((j, u))
                },
            },
        }
    }
}

/// The nearest hit over the whole scene.
pub open spec fn resolve_spec(ss: Seq<Sphere>, o: V3, d: V3) -> Option<(int, int)> {
    resolve_prefix(ss, o, d, ss.len() as int)
}

/// The point reached after travelling `t` along `d` from `o`.
pub open spec fn hit_point(o: V3, d: V3, t: int) -> V3 {
    vadd(o, vscale(d, t))
}

/// The outward unit normal of sphere `s` at point `p`.
pub open spec fn hit_normal(s: Sphere, p: V3) -> V3 {
    vnormalize(vsub(p, s.center@))
}

/// What the resolver reports for one ray: the index of the hit sphere,
/// the intersection distance, and the surface normal and hit point
/// there.
pub struct Hit {
    pub sphere: usize,
    pub distance: i64,
    pub normal: Vec3f,
    pub point: Vec3f,
}

/// The resolver returns the earliest nearest sphere: its reported
/// distance is a hit, no sphere hits strictly nearer, and every earlier
/// sphere hits strictly farther (so on an exact tie the earliest sphere
/// in scene order wins, and the result is a function of scene and ray
/// alone — repeated calls agree).
pub proof fn lemma_resolve_first_wins(ss: Seq<Sphere>, o: V3, d: V3, k: int)
    requires
        0 <= k <= ss.len(),
    ensures
        match resolve_prefix(ss, o, d, k) {
            None => forall|i: int| 0 <= i < k ==> hit_distance(#[trigger] ss[i], o, d) is None,
            Some((j, t)) => {
                &&& 0 <= j < k
                &&& hit_distance(ss[j], o, d) == Some(t)
                &&& forall|i: int|
                    0 <= i < k && hit_distance(#[trigger] ss[i], o, d) is Some
                        ==> hit_distance(ss[i], o, d)->0 >= t
                &&& forall|i: int|
                    0 <= i < j && hit_distance(#[trigger] ss[i], o, d) is Some
                        ==> hit_distance(ss[i], o, d)->0 > t
            },
        },
    decreases k,
{
    if k > 0 {
        lemma_resolve_first_wins(ss, o, d, k - 1);
    }
}

/// Scan the scene for the nearest intersected sphere and report the hit
/// there, or nothing when the ray meets no sphere.
pub fn scene_intersect(orig: &Vec3f, dir: &Vec3f, spheres: &Vec<Sphere>) -> (r: Option<Hit>)
    requires
        spheres_ok(spheres@),
        bounded(orig@, COORD_LIM as int),
        bounded(dir@, DIR_LIM as int),
    ensures
        match r {
            None => resolve_spec(spheres@, orig@, dir@) is None,
            Some(h) => {
                &&& resolve_spec(spheres@, orig@, dir@) == Some((h.sphere as int, h.distance as int))
                &&& h.sphere < spheres@.len()
                &&& 0 <= h.distance <= HIT_LIM
                &&& h.point@ == hit_point(orig@, dir@, h.distance as int)
                &&& h.normal@ == hit_normal(spheres@[h.sphere as int], h.point@)
                &&& bounded(h.point@, 600_000_000_000)
                &&& bounded(h.normal@, NORM_LIM as int)
            },
        },
{
    let mut best: Option<(usize, i64)> = None;
    let mut k: usize = 0;
    while k < spheres.len()
        invariant
            spheres_ok(spheres@),
            bounded(orig@, COORD_LIM as int),
            bounded(dir@, DIR_LIM as int),
            k <= spheres@.len(),
            match best {
                None => resolve_prefix(spheres@, orig@, dir@, k as int) is None,
                Some((j, t)) => {
                    &&& resolve_prefix(spheres@, orig@, dir@, k as int) == Some((j as int, t as int))
                    &&& j < k
                    &&& 0 <= t <= HIT_LIM
                },
            },
        decreases spheres@.len() - k,
    {
        let s = &spheres[k];
        match s.ray_intersect(orig, dir) {
            Some(t) => {
                match best {
                    None => {
                        best = Some((k, t));
                    },
                    Some((_j, u)) => {
                        if t < u {
                            best = Some((k, t));
                        }
                    },
                }
            },
            None => {},
        }
        k = k + 1;
    }
    match best {
        None => None,
        Some((j, t)) => {
            proof {
                lemma_fx_mul_bound(dir@.x, t as int, DIR_LIM as int, HIT_LIM as int);
                lemma_fx_mul_bound(dir@.y, t as int, DIR_LIM as int, HIT_LIM as int);
                lemma_fx_mul_bound(dir@.z, t as int, DIR_LIM as int, HIT_LIM as int);
            }
            let step = dir.scale(t);
            let point = orig.add(&step);
            let offset = point.sub(&spheres[j].center);
            proof {
                lemma_vnormalize_bound(offset@);
            }
            let normal = offset.normalize();
            Some(Hit { sphere: j, distance: t, normal, point })
        },
    }
}

} // verus!
