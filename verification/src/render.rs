//! The frame driver: one primary ray per pixel, eye at the origin
//! looking down the negative z axis.
//!
//! For pixel (i, j) of a width-by-height image the driver builds the
//! direction from the pixel's offset on the image plane — the caller
//! hands in the tangent of half the vertical field of view — casts the
//! ray, and stores the color at row-major index `j * width + i`.

use vstd::prelude::*;

verus! {

use vstd::arithmetic::mul::lemma_mul_inequality;
use crate::fixed::{SCALE, absi, lemma_tdiv_abs, tdiv};
use crate::geometry::{Sphere};
use crate::scene::{Light, lights_ok, spheres_ok};
use crate::shade::{MAX_LIGHTS, cast_ray, cast_ray_spec};
use crate::vec3::{
    DOT_LIM,
    V3,
    Vec3f,
    bounded,
    lemma_vnormalize_bound_unit,
    lemma_vnormsq_nonneg,
    vlen,
    vnormalize,
    vnormsq,
};

/// The widest image either side may have.
pub const SIDE_LIM: usize = 4096;

/// The largest tangent of half the field of view: 100 units (fields of
/// view up to nearly a straight angle).
pub const TAN_LIM: i64 = 100_000_000;

/// The eye: all rays start at the origin.
pub open spec fn eye_spec() -> V3 {
    V3 { x: 0, y: 0, z: 0 }
}

/// The unnormalized direction through pixel (i, j): its offset on the
/// image plane at z = -1, scaled by the half-field tangent; x grows to
/// the right, y to the top, both offset to the pixel center.
pub open spec fn pixel_raw_dir(i: int, j: int, w: int, h: int, thf: int) -> V3 {
    V3 {
        x: tdiv((2 * i + 1 - w) * thf, h),
        y: tdiv((h - 2 * j - 1) * thf, h),
        z: -(SCALE as int),
    }
}

/// The unit direction through pixel (i, j).
pub open spec fn pixel_dir(i: int, j: int, w: int, h: int, thf: int) -> V3 {
    vnormalize(pixel_raw_dir(i, j, w, h, thf))
}

/// The color of pixel (i, j).
pub open spec fn pixel_color(
    ss: Seq<Sphere>,
    ls: Seq<Light>,
    w: int,
    h: int,
    thf: int,
    i: int,
    j: int,
) -> V3 {
    cast_ray_spec(eye_spec(), pixel_dir(i, j, w, h, thf), ss, ls)
}

/// A vector reaching a whole unit along z has at least unit length.
proof fn lemma_raw_dir_len(v: V3)
    requires
        v.z == -(SCALE as int),
    ensures
        vlen(v) >= SCALE as int,
{
    let s = SCALE as int;
    let q = vnormsq(v);
    assert(tdiv(v.x * v.x, s) >= 0 && tdiv(v.y * v.y, s) >= 0) by {
        assert(v.x * v.x >= 0 && v.y * v.y >= 0) by (nonlinear_arith);
        lemma_tdiv_abs(v.x * v.x, s);
        lemma_tdiv_abs(v.y * v.y, s);
    }
    assert(v.z * v.z == 1_000_000_000_000) by (nonlinear_arith)
        requires
            v.z == -1_000_000,
    ;
    assert(tdiv(v.z * v.z, s) == s);
    assert(q >= s);
    assert(q * s >= s * s) by (nonlinear_arith)
        requires
            q >= s,
            s > 0,
    ;
    lemma_vnormsq_nonneg(v);
    assert(q * s >= 0) by (nonlinear_arith)
        requires
            q >= 0,
            s > 0,
    ;
    crate::fixed::lemma_sqrt_exists(q * s);
    let l = vlen(v);
    assert(crate::fixed::is_sqrt_of(q * s, l));
    assert(l >= s) by (nonlinear_arith)
        requires
            (l + 1) * (l + 1) > q * s,
            q * s >= s * s,
            s == 1_000_000,
            l >= 0,
    ;
}

/// Render the scene: one ray per pixel, row-major into the framebuffer.
pub fn render(
    spheres: &Vec<Sphere>,
    lights: &Vec<Light>,
    width: usize,
    height: usize,
    tan_half_fov: i64,
) -> (fb: Vec<Vec3f>)
    requires
        spheres_ok(spheres@),
        lights_ok(lights@),
        lights@.len() <= MAX_LIGHTS,
        0 < width <= SIDE_LIM,
        0 < height <= SIDE_LIM,
        0 <= tan_half_fov <= TAN_LIM,
    ensures
        fb@.len() == width * height,
        forall|i: int, j: int|
            0 <= i < width && 0 <= j < height ==> #[trigger] fb@[j * width + i]@ == pixel_color(
                spheres@,
                lights@,
                width as int,
                height as int,
                tan_half_fov as int,
                i,
                j,
            ),
{
    let ghost w = width as int;
    let ghost h = height as int;
    let ghost thf = tan_half_fov as int;
    let mut fb: Vec<Vec3f> = Vec::new();
    let origin = Vec3f(0, 0, 0);
    let mut j: usize = 0;
    while j < height
        invariant
            spheres_ok(spheres@),
            lights_ok(lights@),
            lights@.len() <= MAX_LIGHTS,
            0 < width <= SIDE_LIM,
            0 < height <= SIDE_LIM,
            0 <= tan_half_fov <= TAN_LIM,
            w == width as int,
            h == height as int,
            thf == tan_half_fov as int,
            origin@ == eye_spec(),
            j <= height,
            fb@.len() == j * width,
            forall|ii: int, jj: int|
                0 <= ii < w && 0 <= jj < j ==> #[trigger] fb@[jj * w + ii]@ == pixel_color(
                    spheres@,
                    lights@,
                    w,
                    h,
                    thf,
                    ii,
                    jj,
                ),
        decreases height - j,
    {
        let mut i: usize = 0;
        while i < width
            invariant
                spheres_ok(spheres@),
                lights_ok(lights@),
                lights@.len() <= MAX_LIGHTS,
                0 < width <= SIDE_LIM,
                0 < height <= SIDE_LIM,
                0 <= tan_half_fov <= TAN_LIM,
                w == width as int,
                h == height as int,
                thf == tan_half_fov as int,
                origin@ == eye_spec(),
                j < height,
                i <= width,
                fb@.len() == j * width + i,
                forall|ii: int, jj: int|
                    0 <= ii < w && 0 <= jj < j ==> #[trigger] fb@[jj * w + ii]@ == pixel_color(
                        spheres@,
                        lights@,
                        w,
                        h,
                        thf,
                        ii,
                        jj,
                    ),
                forall|ii: int|
                    0 <= ii < i ==> #[trigger] fb@[j * w + ii]@ == pixel_color(
                        spheres@,
                        lights@,
                        w,
                        h,
                        thf,
                        ii,
                        j as int,
                    ),
            decreases width - i,
        {
            proof {
                assert(absi((2 * (i as int) + 1 - w) * thf) <= 8192 * (TAN_LIM as int))
                    by (nonlinear_arith)
                    requires
                        0 <= i as int,
                        (i as int) < w,
                        w <= 4096,
                        0 <= thf <= TAN_LIM as int,
                ;
                assert(absi((h - 2 * (j as int) - 1) * thf) <= 8192 * (TAN_LIM as int))
                    by (nonlinear_arith)
                    requires
                        0 <= j as int,
                        (j as int) < h,
                        h <= 4096,
                        0 <= thf <= TAN_LIM as int,
                ;
            }
            let xn: i64 = (2 * (i as i64) + 1 - (width as i64)) * tan_half_fov;
            let yn: i64 = ((height as i64) - 2 * (j as i64) - 1) * tan_half_fov;
            let x: i64 = xn / (height as i64);
            let y: i64 = yn / (height as i64);
            proof {
                lemma_tdiv_abs(xn as int, h);
                lemma_tdiv_abs(yn as int, h);
                vstd::arithmetic::div_mod::lemma_div_nonincreasing(absi(xn as int), h);
                vstd::arithmetic::div_mod::lemma_div_nonincreasing(absi(yn as int), h);
            }
            let raw = Vec3f(x, y, -SCALE);
            proof {
                assert(raw@ == pixel_raw_dir(i as int, j as int, w, h, thf));
                assert(bounded(raw@, DOT_LIM as int));
                lemma_raw_dir_len(raw@);
                lemma_vnormalize_bound_unit(raw@);
            }
            let dir = raw.normalize();
            let color = cast_ray(&origin, &dir, spheres, lights);
            let ghost fb0 = fb@;
            fb.push(color);
            proof {
                assert(fb@.len() == j * width + i + 1);
                assert forall|ii: int, jj: int| 0 <= ii < w && 0 <= jj < j implies #[trigger] fb@[jj
                    * w + ii]@ == pixel_color(spheres@, lights@, w, h, thf, ii, jj) by {
                    lemma_mul_inequality(jj + 1, j as int, w);
                    assert((jj + 1) * w == jj * w + w) by (nonlinear_arith);
                    assert(jj * w + ii < j * w + i);
                    assert(fb@[jj * w + ii] == fb0[jj * w + ii]);
                }
                assert forall|ii: int| 0 <= ii < i + 1 implies #[trigger] fb@[j * w + ii]@
                    == pixel_color(spheres@, lights@, w, h, thf, ii, j as int) by {
                    if ii < i {
                        assert(fb@[j * w + ii] == fb0[j * w + ii]);
                    } else {
                        assert(j * w + ii == fb0.len());
                    }
                }
            }
            i = i + 1;
        }
        proof {
            assert((j + 1) * width == j * width + width) by (nonlinear_arith);
        }
        j = j + 1;
    }
    proof {
        assert(fb@.len() == height * width);
        assert(height * width == width * height) by (nonlinear_arith);
    }
    fb
}

} // verus!
