//! Quantization and serialization of framebuffers.

use tinytracer::encode::{channel_byte_of, encode_ppm};
use tinytracer::vec3::Vec3f;

/// A frame of pure white encodes to 255 on every channel.
#[test]
fn encode_all_white_saturates() {
    let fb = vec![Vec3f(1_000_000, 1_000_000, 1_000_000); 4];
    let out = encode_ppm(&fb, 2, 2);
    let mut expected: Vec<u8> = b"P6\n2 2\n255\n".to_vec();
    for _ in 0..4 {
        expected.extend_from_slice(&[255, 255, 255]);
    }
    assert_eq!(out, expected);
}

/// Channels below zero clamp to 0, above one to 255, and a half scales
/// to 127 (within one of the rounded 128).
#[test]
fn encode_clamps_and_scales() {
    let fb = vec![Vec3f(-1_000_000, 500_000, 2_000_000)];
    let out = encode_ppm(&fb, 1, 1);
    let mut expected: Vec<u8> = b"P6\n1 1\n255\n".to_vec();
    expected.extend_from_slice(&[0, 127, 255]);
    assert_eq!(out, expected);
}

/// The header carries the sides in decimal.
#[test]
fn encode_header_decimal_sides() {
    let fb: Vec<Vec3f> = vec![];
    let out = encode_ppm(&fb, 1024, 768);
    assert_eq!(out, b"P6\n1024 768\n255\n".to_vec());
}

/// Single channels quantize as clamp, scale, truncate.
#[test]
fn channel_quantization() {
    assert_eq!(channel_byte_of(0), 0);
    assert_eq!(channel_byte_of(-5), 0);
    assert_eq!(channel_byte_of(1_000_000), 255);
    assert_eq!(channel_byte_of(3_000_000), 255);
    assert_eq!(channel_byte_of(500_000), 127);
    assert_eq!(channel_byte_of(999_999), 254);
    assert_eq!(channel_byte_of(3_922), 1);
    assert_eq!(channel_byte_of(3_921), 0);
}
