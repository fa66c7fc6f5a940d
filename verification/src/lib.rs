//! An n-body gravitational simulator over fixed-point coordinates.
//!
//! The library integrates a collection of point masses forward in time with
//! a symplectic kick-drift-kick (leapfrog) scheme.  All state is held in
//! scaled integers so that every arithmetic step has an exact, machine-checked
//! meaning: positions are in units of 10^-9 astronomical units, velocities in
//! 10^-9 AU per day, time increments in 10^-6 day, and gravitational
//! parameters (GM) in 10^-3 km^3/s^2.

pub mod body;
pub mod codec;
pub mod forces;
pub mod laws;
pub mod math;
pub mod pairs;
pub mod system;
pub mod units;
pub mod vec3;
