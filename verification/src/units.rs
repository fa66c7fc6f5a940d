//! Unit scales and bounds for the fixed-point state.
//!
//! One position unit is 10^-9 astronomical unit (about 0.15 m), one velocity
//! unit is 10^-9 AU/day, one time unit is 10^-6 day, and one unit of
//! gravitational parameter is 10^-3 km^3/s^2.  The limits below are chosen so
//! that every intermediate product of the force pass provably fits in 128
//! bits and every acceleration component fits in 64 bits.

use vstd::prelude::*;

verus! {

/// Time units per day: time increments are given in 10^-6 day.
pub const TIME_SCALE: i64 = 1_000_000;

/// The gravitational conversion constant of the force law, scaled to these
/// units.  In physical units it is K = 2.22972471e-15, which turns a
/// gravitational parameter in km^3/s^2 times a distance in AU, divided by the
/// cube of the separation in AU, into an acceleration in AU/day^2.  With
/// masses in 10^-3 km^3/s^2, distances in 10^-9 AU and accelerations in
/// 10^-9 AU/day^2, the constant becomes K * 10^24, an exact integer.
pub const ACCEL_NUM: i64 = 2_229_724_710;

/// Largest admissible gravitational parameter: 4e12 km^3/s^2, about thirty
/// solar masses.
pub const MASS_LIMIT: i64 = 4_000_000_000_000_000;

/// Largest admissible magnitude of a position component: 2000 AU.
pub const POS_LIMIT: i64 = 2_000_000_000_000;

/// Largest admissible magnitude of a velocity component: 10 AU/day.
pub const VEL_LIMIT: i64 = 10_000_000_000;

/// Largest admissible magnitude of a single time increment: 100 days.
pub const DT_LIMIT: i64 = 100_000_000;

/// Bodies closer than this separation (10^-6 AU, about 150 km) make the
/// force pass report a failure instead of dividing by a vanishing cube.
pub const MIN_DIST: i64 = 1_000;

/// The square of `MIN_DIST`, compared against the squared separation.
pub const MIN_DIST_SQ: i64 = 1_000_000;

/// Largest magnitude an acceleration component can reach under the limits
/// above: ACCEL_NUM * MASS_LIMIT / MIN_DIST^2, which still fits in an `i64`.
pub const ACCEL_LIMIT: i64 = 8_918_898_840_000_000_000;

} // verus!
