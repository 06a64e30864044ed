//! The verified core of a path tracer.
//!
//! A path tracer spends its time on arithmetic in single precision, which
//! rounds and draws random numbers. This crate holds what is left when that
//! arithmetic is taken out: the books of the scene, the choice of the nearest
//! hit, the recursion of the integrator and its depth limit, the partition of
//! the image into chunks, the loops that render a chunk, and the framebuffer
//! that the chunks are written into. The arithmetic comes in from the caller
//! as functions, and every result is stated in terms of what those functions
//! may return.
//!
//! Numbers cross the border as [`scalar::Scalar`]: comparisons are exact on
//! the encoding of a number, and they are all that the decisions made here
//! need.

pub mod aabb;
pub mod chunks;
pub mod color;
pub mod framebuffer;
pub mod integrator;
pub mod material;
pub mod raytrace;
pub mod scalar;
pub mod scene;
pub mod shape;
