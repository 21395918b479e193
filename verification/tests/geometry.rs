//! Intersection and resolver behaviour on concrete scenes.

use tinytracer::geometry::{Material, Sphere};
use tinytracer::scene::{Light, scene_intersect};
use tinytracer::vec3::{Vec2f, Vec3f};

fn ivory() -> Material {
    Material::new(Vec2f(600_000, 300_000), Vec3f(400_000, 400_000, 300_000), 50)
}

/// A ray whose closest approach to the center exceeds the radius misses.
#[test]
fn intersect_miss_when_closest_approach_exceeds_radius() {
    let s = Sphere::new(Vec3f(-3_000_000, 0, -16_000_000), 2_000_000, ivory());
    // Straight down -z from x = +10: more than 2 units from the center line.
    let r = s.ray_intersect(&Vec3f(10_000_000, 0, 0), &Vec3f(0, 0, -1_000_000));
    assert_eq!(r, None);
}

/// A sphere wholly behind the origin reports nothing.
#[test]
fn intersect_none_behind_origin() {
    let s = Sphere::new(Vec3f(0, 0, 10_000_000), 2_000_000, ivory());
    let r = s.ray_intersect(&Vec3f(0, 0, 0), &Vec3f(0, 0, -1_000_000));
    assert_eq!(r, None);
}

/// An origin strictly inside the sphere reports the positive exit
/// distance, and the point reached lies on the surface.
#[test]
fn intersect_inside_returns_exit_distance() {
    let s = Sphere::new(Vec3f(0, 0, 0), 2_000_000, ivory());
    let r = s.ray_intersect(&Vec3f(0, 0, 0), &Vec3f(0, 0, -1_000_000));
    assert_eq!(r, Some(2_000_000));
    // origin + direction * distance = (0, 0, -2): exactly radius from the center.
    let p = Vec3f(0, 0, -2_000_000);
    let offset = p.sub(&s.center);
    assert_eq!(offset.len(), 2_000_000);
}

/// A tangent ray (closest approach exactly the radius) reports a defined
/// finite distance: the two roots coincide at the projection distance.
#[test]
fn intersect_tangent_single_root() {
    let s = Sphere::new(Vec3f(2_000_000, 0, -5_000_000), 2_000_000, ivory());
    let r = s.ray_intersect(&Vec3f(0, 0, 0), &Vec3f(0, 0, -1_000_000));
    assert_eq!(r, Some(5_000_000));
}

/// An ordinary outside hit reports the entry root.
#[test]
fn intersect_outside_returns_entry() {
    let s = Sphere::new(Vec3f(0, 0, -10_000_000), 2_000_000, ivory());
    let r = s.ray_intersect(&Vec3f(0, 0, 0), &Vec3f(0, 0, -1_000_000));
    assert_eq!(r, Some(8_000_000));
}

/// The resolver reports the hit point on the surface and the outward
/// unit normal there.
#[test]
fn resolver_normal_and_point() {
    let spheres = vec![Sphere::new(Vec3f(0, 0, -10_000_000), 2_000_000, ivory())];
    let h = scene_intersect(&Vec3f(0, 0, 0), &Vec3f(0, 0, -1_000_000), &spheres).unwrap();
    assert_eq!(h.sphere, 0);
    assert_eq!(h.distance, 8_000_000);
    assert_eq!(h.point, Vec3f(0, 0, -8_000_000));
    assert_eq!(h.normal, Vec3f(0, 0, 1_000_000));
    // |hit.point - center| equals the radius.
    assert_eq!(h.point.sub(&spheres[0].center).len(), 2_000_000);
}

/// Two equidistant spheres: the earliest in scene order wins.
#[test]
fn resolver_tie_prefers_scene_order() {
    let red = Material::new(Vec2f(900_000, 100_000), Vec3f(300_000, 100_000, 100_000), 10);
    let spheres = vec![
        Sphere::new(Vec3f(0, 0, -10_000_000), 2_000_000, ivory()),
        Sphere::new(Vec3f(0, 0, -10_000_000), 2_000_000, red),
    ];
    let h = scene_intersect(&Vec3f(0, 0, 0), &Vec3f(0, 0, -1_000_000), &spheres).unwrap();
    assert_eq!(h.sphere, 0);
    assert_eq!(h.distance, 8_000_000);
}

/// Repeated resolution of the same ray against the same scene agrees.
#[test]
fn resolver_deterministic() {
    let spheres = vec![
        Sphere::new(Vec3f(7_000_000, 5_000_000, -18_000_000), 4_000_000, ivory()),
        Sphere::new(Vec3f(-3_000_000, 0, -16_000_000), 2_000_000, ivory()),
    ];
    let orig = Vec3f(0, 0, 0);
    let dir = Vec3f(-185_000, -1_302, -1_000_000).normalize();
    let a = scene_intersect(&orig, &dir, &spheres);
    let b = scene_intersect(&orig, &dir, &spheres);
    match (a, b) {
        (Some(x), Some(y)) => {
            assert_eq!(x.sphere, y.sphere);
            assert_eq!(x.distance, y.distance);
            assert_eq!(x.point, y.point);
            assert_eq!(x.normal, y.normal);
        },
        (None, None) => {},
        _ => panic!("two resolutions of one ray disagreed"),
    }
}

/// A light keeps the position and intensity it was built from.
#[test]
fn light_new_keeps_fields() {
    let l = Light::new(Vec3f(-20_000_000, 20_000_000, 20_000_000), 1_500_000);
    assert_eq!(l.position, Vec3f(-20_000_000, 20_000_000, 20_000_000));
    assert_eq!(l.intensity, 1_500_000);
}
