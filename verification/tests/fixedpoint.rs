//! The fixed-point scalar and vector primitives on concrete values.

use tinytracer::fixed::{clamp01, fx_div, fx_mul, fx_powi, fx_sqrt, SCALE};
use tinytracer::shade::reflect;
use tinytracer::vec3::Vec3f;

/// Multiplication scales down by one unit and rounds toward zero.
#[test]
fn fx_mul_rounds_toward_zero() {
    assert_eq!(fx_mul(2_000_000, 3_000_000), 6_000_000);
    assert_eq!(fx_mul(1_500_000, 1_000_001), 1_500_001);
    assert_eq!(fx_mul(-1_500_000, 1_000_001), -1_500_001);
    assert_eq!(fx_mul(-2_000_000, 3_000_000), -6_000_000);
    assert_eq!(fx_mul(1, 999_999), 0);
    assert_eq!(fx_mul(-1, 999_999), 0);
}

/// Division scales up by one unit and rounds toward zero.
#[test]
fn fx_div_rounds_toward_zero() {
    assert_eq!(fx_div(6_000_000, 3_000_000), 2_000_000);
    assert_eq!(fx_div(1_000_000, 3_000_000), 333_333);
    assert_eq!(fx_div(-1_000_000, 3_000_000), -333_333);
}

/// The square root is exact on perfect squares and rounded down between
/// them.
#[test]
fn fx_sqrt_values() {
    assert_eq!(fx_sqrt(0), 0);
    assert_eq!(fx_sqrt(SCALE), SCALE);
    assert_eq!(fx_sqrt(4_000_000), 2_000_000);
    assert_eq!(fx_sqrt(2_000_000), 1_414_213);
}

/// Powers of unit-interval bases by repeated multiplication.
#[test]
fn fx_powi_values() {
    assert_eq!(fx_powi(500_000, 0), SCALE);
    assert_eq!(fx_powi(500_000, 1), 500_000);
    assert_eq!(fx_powi(500_000, 2), 250_000);
    assert_eq!(fx_powi(SCALE, 50), SCALE);
    assert_eq!(fx_powi(0, 3), 0);
}

/// Clamping to the unit interval.
#[test]
fn clamp01_values() {
    assert_eq!(clamp01(-7), 0);
    assert_eq!(clamp01(0), 0);
    assert_eq!(clamp01(123), 123);
    assert_eq!(clamp01(SCALE), SCALE);
    assert_eq!(clamp01(SCALE + 1), SCALE);
}

/// Vector algebra on a 3-4-5 triangle.
#[test]
fn vector_length_and_normalization() {
    let v = Vec3f(3_000_000, 4_000_000, 0);
    assert_eq!(v.norm(), 25_000_000);
    assert_eq!(v.len(), 5_000_000);
    assert_eq!(v.normalize(), Vec3f(600_000, 800_000, 0));
}

/// The zero vector normalizes to itself rather than dividing by zero.
#[test]
fn normalize_zero_vector() {
    assert_eq!(Vec3f(0, 0, 0).normalize(), Vec3f(0, 0, 0));
}

/// Dot products and the componentwise operations.
#[test]
fn vector_componentwise_operations() {
    let a = Vec3f(1_000_000, 2_000_000, -3_000_000);
    let b = Vec3f(4_000_000, -5_000_000, 6_000_000);
    assert_eq!(a.add(&b), Vec3f(5_000_000, -3_000_000, 3_000_000));
    assert_eq!(a.sub(&b), Vec3f(-3_000_000, 7_000_000, -9_000_000));
    assert_eq!(a.neg(), Vec3f(-1_000_000, -2_000_000, 3_000_000));
    assert_eq!(a.mul(&b), Vec3f(4_000_000, -10_000_000, -18_000_000));
    assert_eq!(a.scale(2_000_000), Vec3f(2_000_000, 4_000_000, -6_000_000));
    // 4 - 10 - 18 = -24
    assert_eq!(a.dot(&b), -24_000_000);
}

/// Mirroring a vector about a normal: straight incidence reverses.
#[test]
fn reflect_head_on() {
    let v = Vec3f(0, 0, -1_000_000);
    let n = Vec3f(0, 0, 1_000_000);
    assert_eq!(reflect(&v, &n), Vec3f(0, 0, 1_000_000));
}

/// Mirroring a 45-degree incidence flips only the normal component.
#[test]
fn reflect_oblique() {
    let v = Vec3f(700_000, 0, -700_000);
    let n = Vec3f(0, 0, 1_000_000);
    assert_eq!(reflect(&v, &n), Vec3f(700_000, 0, 700_000));
}
