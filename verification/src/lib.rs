//! The state of simulated bodies, kept exactly.
//!
//! A body has a pose (position, rotation, the inverse rotation beside it and
//! a dirty flag), a velocity, a mass with its inverse and, for a rigid body,
//! an inertia with its inverse, and a list of forces that wait for the next
//! integration. One integration step stages the body's next frame; a commit
//! makes the staged frame the committed state; a change log tells any number
//! of readers which bodies changed since each of them last looked.
//!
//! All arithmetic is exact: a scalar is a fraction in lowest terms, or the
//! one value "not finite" for what has left the representable range.
//!
//! - [`scalar`]: the scalar [`Real`], over [`lowest_terms`];
//! - [`algebra`]: what the dynamics ask of vectors, points, rotations and
//!   inertia;
//! - [`plane`]: vectors, points and rotations in two dimensions;
//! - [`pose`]: the transform [`BodyPose`];
//! - [`physics`]: forces, velocities, bodies, the staged frame, integration
//!   and commit;
//! - [`changelog`]: the log of changes by frame.

pub mod algebra;
pub mod changelog;
pub mod lowest_terms;
pub mod physics;
pub mod plane;
pub mod pose;
pub mod scalar;

pub use crate::pose::BodyPose;
pub use crate::scalar::Real;
