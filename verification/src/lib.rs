//! A small path tracer over fixed-point arithmetic.
//!
//! Every scalar of the renderer is an `i64` holding `value * fixed::FP_ONE`,
//! so the whole light-transport computation is exact integer arithmetic and
//! each function's contract pins its result down to the bit.

pub mod camera;
pub mod color;
pub mod constants;
pub mod fixed;
pub mod hit;
pub mod material;
pub mod ray;
pub mod render;
pub mod rng;
pub mod sphere;
pub mod trace;
pub mod vector3;
