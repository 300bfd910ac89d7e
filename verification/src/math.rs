//! The numeric and geometric core.
pub mod aimed_ray_laws;
pub mod camera_laws;
pub mod fixed;
pub mod hittables;
pub mod imaging;
pub mod materials;
pub mod math3;
pub mod radiance_laws;
pub mod raytracing;
pub mod rng;
pub mod sampler;
pub mod signed_distance;
pub mod sphere_laws;
pub mod text;
pub mod utils;
pub mod vector_laws;
