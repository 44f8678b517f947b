//! A Monte Carlo path tracer over fixed-point arithmetic.
//!
//! Every geometric quantity (position, direction, color channel, ray
//! parameter) is a real number represented as a signed 64-bit integer
//! scaled by 2^16, so that the whole rendering pipeline — vector algebra,
//! ray/sphere intersection, scene aggregation, material scattering, and
//! the recursive radiance estimator — is verified integer arithmetic.
//! Randomness comes from a caller-supplied seeded generator; image
//! encoding and thread orchestration live outside this library.

pub mod fixed;
pub mod rng;
pub mod vec3;
pub mod ray;
pub mod hittable;
pub mod material;
pub mod sphere;
pub mod hittable_list;
pub mod camera;
pub mod render;
