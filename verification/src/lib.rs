//! A minimal rigid-body kinematics core: an N-dimensional integer vector
//! algebra, a time-tagged force abstraction, and a per-tick integrator that
//! folds each body's forces together with a global field (gravity) into the
//! body's acceleration.
//!
//! Velocity and position integration are left to the caller; `tick` derives
//! accelerations only.

pub mod errors;
pub mod forces;
pub mod object;
pub mod vector;
pub mod world;
