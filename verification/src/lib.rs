//! A path-tracing core verified over a fixed-point coordinate model.
//!
//! Geometry, intersection, bounding volumes and scattering decisions are
//! carried out in signed 16.16 fixed-point arithmetic so that every result
//! is an exact integer computation with a proved contract. The surrounding
//! application converts between floating-point scene data and this model.

pub mod bounding_box;
pub mod bvh;
pub mod camera;
pub mod clean_scenes;
pub mod colour;
pub mod fixed;
pub mod hittable;
pub mod material;
pub mod interval;
pub mod perlin_texture;
pub mod scene_reader;
pub mod sphere;
pub mod texture;
pub mod triangle;
pub mod vec3;

use vstd::prelude::*;

verus! {

/// Number of fractional bits in the fixed-point coordinate model.
pub const FP_SHIFT: u32 = 16;

/// The fixed-point representation of one: 2^16.
pub const FP_ONE: i64 = 65536;

} // verus!
