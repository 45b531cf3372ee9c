//! A camera-rig library: composable drivers (position, rotation, arm offset,
//! yaw/pitch, exponential smoothing, look-at) chained into a rig that is folded
//! once per frame into a camera transform.
//!
//! All values are fixed-point: one unit is `fixed::SCALE` micro-units held in an
//! `i64`, so every driver step is exact integer arithmetic with stated rounding.

pub mod driver;
pub mod fixed;
pub mod fpv;
pub mod laws;
pub mod quat;
pub mod rig;
pub mod transform;
pub mod vec3;
