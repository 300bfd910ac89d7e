//! A Monte-Carlo path tracer core over deterministic fixed-point arithmetic.
//!
//! Every quantity is a [`math::fixed::Fixed`]: a signed 64-bit count of
//! units of 2^-32 with saturating, truncating arithmetic. On top of it sit
//! the vector algebra, rays, materials, signed distance fields, the
//! intersection protocol of the scene geometry, the camera, the recursive
//! radiance estimator and the pixel sampler.
pub mod math;
pub mod scenes;
