//! A small ray tracer over a fixed-point coordinate model.
//!
//! All geometry is carried in signed 64-bit fixed-point numbers with
//! [`fixed::SCALE`] sub-units per world unit, so every arithmetic step of the
//! engine is exact integer arithmetic with a verified contract: camera ray
//! generation, sphere intersection by the closed-form quadratic, nearest-hit
//! resolution over a scene, and bounce-limited diffuse shading.

pub mod fixed;
pub mod vector;
pub mod math;
pub mod objects;
pub mod material;
pub mod render;
pub mod camera;
