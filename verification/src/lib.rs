//! A small offline path tracer with a verified core.
//!
//! Scene geometry, materials and the radiance estimator operate on an exact
//! fixed-point number type, so every arithmetic step of the renderer has a
//! precise mathematical contract: ray/sphere intersection, normal
//! orientation, material scattering, the recursive integrator, and the
//! plain-text image encoder are all specified and proved. Randomness is
//! drawn from an injectable, seedable generator.

pub mod camera;
pub mod fixed;
pub mod hit;
pub mod integrator;
pub mod material;
pub mod ppm;
pub mod ray;
pub mod rng;
pub mod vec3;
