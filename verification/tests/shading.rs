//! Shading and whole-frame behaviour on concrete scenes.

use tinytracer::geometry::{Material, Sphere};
use tinytracer::render::render;
use tinytracer::scene::Light;
use tinytracer::shade::cast_ray;
use tinytracer::vec3::{Vec2f, Vec3f};

fn ivory() -> Material {
    Material::new(Vec2f(600_000, 300_000), Vec3f(400_000, 400_000, 300_000), 50)
}

fn background() -> Vec3f {
    Vec3f(200_000, 700_000, 800_000)
}

/// A ray that meets no sphere shades to exactly the background color.
#[test]
fn background_color_when_nothing_is_hit() {
    let spheres: Vec<Sphere> = vec![];
    let lights = vec![Light::new(Vec3f(0, 20_000_000, 0), 1_500_000)];
    let c = cast_ray(&Vec3f(0, 0, 0), &Vec3f(0, 0, -1_000_000), &spheres, &lights);
    assert_eq!(c, background());
}

/// A miss shades to the background even with no lights at all.
#[test]
fn background_color_without_lights() {
    let spheres = vec![Sphere::new(Vec3f(0, 0, -10_000_000), 2_000_000, ivory())];
    let lights: Vec<Light> = vec![];
    // Aimed well away from the sphere.
    let c = cast_ray(&Vec3f(0, 0, 0), &Vec3f(0, 0, 1_000_000), &spheres, &lights);
    assert_eq!(c, background());
}

/// A hit under no lights shades to black: both accumulations are zero.
#[test]
fn hit_without_lights_is_black() {
    let spheres = vec![Sphere::new(Vec3f(0, 0, -10_000_000), 2_000_000, ivory())];
    let lights: Vec<Light> = vec![];
    let c = cast_ray(&Vec3f(0, 0, 0), &Vec3f(0, 0, -1_000_000), &spheres, &lights);
    assert_eq!(c, Vec3f(0, 0, 0));
}

/// Two lights of intensities 1.5 and 1.8: the lighting terms add, and on
/// this head-on geometry (where every rounding is exact) the two-light
/// color equals the sum of the two single-light colors, channel for
/// channel.
#[test]
fn two_lights_add_their_contributions() {
    let spheres = vec![Sphere::new(Vec3f(0, 0, -10_000_000), 2_000_000, ivory())];
    let l1 = Light::new(Vec3f(0, 0, 0), 1_500_000);
    let l2 = Light::new(Vec3f(0, 0, -2_000_000), 1_800_000);
    let orig = Vec3f(0, 0, 0);
    let dir = Vec3f(0, 0, -1_000_000);
    let both = cast_ray(&orig, &dir, &spheres, &vec![l1, l2]);
    let first = cast_ray(&orig, &dir, &spheres, &vec![l1]);
    let second = cast_ray(&orig, &dir, &spheres, &vec![l2]);
    assert_eq!(both, Vec3f(1_782_000, 1_782_000, 1_584_000));
    assert_eq!(first, Vec3f(810_000, 810_000, 720_000));
    assert_eq!(second, Vec3f(972_000, 972_000, 864_000));
    assert_eq!(both.0, first.0 + second.0);
    assert_eq!(both.1, first.1 + second.1);
    assert_eq!(both.2, first.2 + second.2);
}

/// The order of the lights does not change the result here.
#[test]
fn two_lights_order_is_irrelevant_on_exact_geometry() {
    let spheres = vec![Sphere::new(Vec3f(0, 0, -10_000_000), 2_000_000, ivory())];
    let l1 = Light::new(Vec3f(0, 0, 0), 1_500_000);
    let l2 = Light::new(Vec3f(0, 0, -2_000_000), 1_800_000);
    let orig = Vec3f(0, 0, 0);
    let dir = Vec3f(0, 0, -1_000_000);
    let ab = cast_ray(&orig, &dir, &spheres, &vec![l1, l2]);
    let ba = cast_ray(&orig, &dir, &spheres, &vec![l2, l1]);
    assert_eq!(ab, ba);
}

/// One unlit sphere at (-3, 0, -16) of radius 2, image 1024 x 768 with a
/// right-angle field of view: a pixel on the silhouette shades to black
/// (no lights, so both accumulations vanish), and a pixel far off it
/// shades to the background. The ray through the image center passes
/// about three units from the center of this sphere and misses it.
#[test]
fn frame_single_sphere_no_lights() {
    let spheres = vec![Sphere::new(Vec3f(-3_000_000, 0, -16_000_000), 2_000_000, ivory())];
    let lights: Vec<Light> = vec![];
    let fb = render(&spheres, &lights, 1024, 768, 1_000_000);
    assert_eq!(fb.len(), 1024 * 768);
    // This pixel's ray passes through the sphere.
    assert_eq!(fb[384 * 1024 + 440], Vec3f(0, 0, 0));
    // The corner pixel is far off the silhouette.
    assert_eq!(fb[0], background());
    // The exact image center misses this off-axis sphere.
    assert_eq!(fb[384 * 1024 + 512], background());
}

/// A small frame: every pixel of a scene with no spheres is background.
#[test]
fn frame_all_background() {
    let spheres: Vec<Sphere> = vec![];
    let lights: Vec<Light> = vec![];
    let fb = render(&spheres, &lights, 4, 3, 1_000_000);
    assert_eq!(fb.len(), 12);
    for p in &fb {
        assert_eq!(*p, background());
    }
}
