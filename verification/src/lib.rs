//! Circular bodies under gravity, in fixed-point arithmetic.
//!
//! Bodies are disks. They fall, are held inside a boundary, and push each
//! other apart where they overlap. Time advances in frames, and each frame in
//! equal substeps: every substep moves each body one Verlet step, enforces the
//! boundary on it, and then resolves the overlaps in one sweep over all pairs
//! of bodies, in the order in which the bodies were added.
//!
//! All quantities are integers. A length is a number of ticks, `scalar::ONE`
//! ticks to the unit; a time is a number of ticks of a second; an angle is a
//! number of steps, `emitter::FULL_TURN` to the turn. Coordinates saturate at
//! `scalar::COORD_LIMIT`, the edge of the world, and quotients are rounded
//! toward zero, so that the arithmetic is exact and the same on every machine.
//!
//! Where there was a choice, this library has made it as follows. The push
//! that separates two bodies is split by mass, the square of the radius
//! standing for the mass. Two bodies whose centres coincide are pushed apart
//! along the x axis. A body that sits on the origin and is too large for the
//! disk that should hold it is left where it is.
pub mod body;
pub mod boundary;
pub mod collision;
pub mod emitter;
pub mod integrator;
pub mod laws;
pub mod model;
pub mod rng;
pub mod sampling;
pub mod scalar;
pub mod scheduler;
pub mod store;
pub mod sweep;
pub mod vector;
