//! A recursive ray tracer whose arithmetic is verified end to end.
//!
//! Geometry, materials and the camera all work on real numbers represented
//! in 16.16 fixed point (an `i64` holding the value scaled by 2^16), so that
//! every operation of the rendering pipeline has an exact mathematical
//! contract. Saturation takes the place of overflow, and every contract
//! states the result of an operation as a function of its operands.

pub mod camera;
pub mod fixed;
pub mod hittable;
pub mod material;
pub mod ray;
pub mod sampler;
pub mod sphere;
pub mod util;
pub mod vector3;
