//! Render configuration, read once at setup.
//!
//! Fixed-point values hold `value * fixed::FP_ONE`: the viewport is 3.0
//! world units wide and 2.0 high, one unit in front of the camera.

use vstd::prelude::*;

verus! {

pub const IMAGE_WIDTH: u16 = 360;

pub const IMAGE_HEIGHT: u16 = 240;

/// Fixed-point 3.0: `IMAGE_WIDTH / IMAGE_HEIGHT` times the viewport height.
pub const VIEWPORT_WIDTH: i64 = 196608;

/// Fixed-point 2.0.
pub const VIEWPORT_HEIGHT: i64 = 131072;

/// Fixed-point 1.0.
pub const FOCAL_LENGTH: i64 = 65536;

pub const SAMPLES_PER_PIXEL: u16 = 75;

pub const MAX_BOUNCES: u16 = 64;

/// Trade half the pixels for speed: every other pixel is left black.
pub const QUICK_RENDER: bool = false;

pub const SEED: u64 = 41253;

} // verus!
