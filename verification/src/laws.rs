//! What holds of the simulation, whatever the bodies.
//!
//! The functions of this library say in their contracts what they compute.
//! The proofs here say what follows: that a correction is split by mass, that
//! a resolved pair is apart and stays apart, that the boundary holds what it
//! is asked to hold, and how a body falls.
pub mod apart;
pub mod boundary;
pub mod fall;
pub mod pairs;
