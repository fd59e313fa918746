//! An offline Monte Carlo path tracer over saturating fixed-point arithmetic.
//!
//! Scalars are Q47.16 fixed-point numbers: an `i64` raw value stands for
//! `raw / 65536`. Arithmetic saturates at the `i64` range instead of
//! propagating IEEE infinities, and division by zero yields the saturated
//! extreme of the dividend's sign (zero for a zero dividend).

pub mod camera;
pub mod fixed;
pub mod hittable;
pub mod material;
pub mod ray;
pub mod render;
pub mod rng;
pub mod vec3;
