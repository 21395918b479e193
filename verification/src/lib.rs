//! A small ray tracer over a fixed-point number model.
//!
//! Every quantity of the scene (coordinates, radii, colors, light
//! intensities) is a fixed-point number: an `i64` counting ticks of
//! `1 / SCALE`. The geometry (ray-sphere intersection), the nearest-hit
//! resolver, the Phong shader, the per-pixel frame driver and the
//! pixel-map encoder are all verified against exact contracts over that
//! integer model.

pub mod encode;
pub mod fixed;
pub mod geometry;
pub mod render;
pub mod scene;
pub mod shade;
pub mod vec3;
