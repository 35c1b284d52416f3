//! A small path tracer over saturating fixed-point arithmetic.
//!
//! Scalars are counted in 1/65536ths of a unit and every operation rounds
//! down and saturates at the `i64` range, so each contract states the exact
//! integer a computation produces.

pub mod fx;
pub mod vec3;
pub mod ray;
pub mod interval;
pub mod material;
pub mod sphere;
pub mod hittable;
pub mod color;
pub mod rng;
pub mod camera;
