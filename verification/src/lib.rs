//! A small path-tracing renderer verified with Verus.
//!
//! All geometry and radiometry is carried out in fixed-point arithmetic:
//! a signed 64-bit integer holds a real number scaled by `fixed::SCALE`.
//! Every operation has an exact contract over the mathematical integers,
//! so intersection tests, material scattering and the colour integrator
//! are proved to compute precisely the values their specifications name.

pub mod fixed;
pub mod vecmath;
pub mod ray;
pub mod materials;
pub mod hitables;
pub mod rng;
pub mod sampling;
pub mod camera;
pub mod color;
pub mod render;
