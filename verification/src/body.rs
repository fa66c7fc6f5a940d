//! One simulated mass: identity, gravitational parameter, radius, position
//! and velocity, with the two primitive state updates of the integrator.

use vstd::prelude::*;
use crate::units::{MASS_LIMIT, POS_LIMIT, VEL_LIMIT};
use crate::vec3::{shift, shift_comp, shifted, Vec3};

verus! {

/// The mathematical value of a [`Body`].
pub struct BodyView {
    pub name: Seq<char>,
    pub gravitational_mass: i64,
    pub radius: i64,
    pub position: Vec3,
    pub velocity: Vec3,
}

impl BodyView {
    /// Well-formed state: the gravitational parameter is non-negative and
    /// every state component is within the fixed-point working range.
    pub open spec fn wf(self) -> bool {
        &&& 0 <= self.gravitational_mass <= MASS_LIMIT
        &&& self.position.within(POS_LIMIT as int)
        &&& self.velocity.within(VEL_LIMIT as int)
    }
}

/// One simulated mass.
///
/// `gravitational_mass` is the standard gravitational parameter (mass times
/// the gravitational constant) in units of 10^-3 km^3/s^2, not a raw mass;
/// the force pass uses it directly.  `radius` is carried through unchanged
/// for presentation and persistence.  Positions are in 10^-9 AU and
/// velocities in 10^-9 AU/day.
#[derive(Debug, PartialEq)]
pub struct Body {
    pub(crate) name: String,
    pub(crate) gravitational_mass: i64,
    pub(crate) radius: i64,
    pub(crate) position: Vec3,
    pub(crate) velocity: Vec3,
}

impl View for Body {
    type V = BodyView;

    closed spec fn view(&self) -> BodyView {
        BodyView {
            name: self.name@,
            gravitational_mass: self.gravitational_mass,
            radius: self.radius,
            position: self.position,
            velocity: self.velocity,
        }
    }
}

impl Body {
    /// Build a body from its five attributes.  The numeric bounds are the
    /// machine limits of the fixed-point range; within them the integrator
    /// is exact and free of overflow.
    pub fn new(
        name: String,
        gravitational_mass: i64,
        radius: i64,
        position: Vec3,
        velocity: Vec3,
    ) -> (r: Body)
        requires
            0 <= gravitational_mass <= MASS_LIMIT,
            position.within(POS_LIMIT as int),
            velocity.within(VEL_LIMIT as int),
        ensures
            r@ == (BodyView {
                name: name@,
                gravitational_mass,
                radius,
                position,
                velocity,
            }),
            r@.wf(),
    {
        Body { name, gravitational_mass, radius, position, velocity }
    }

    /// The display identifier; opaque to the physics.
    pub fn name(&self) -> (r: &str)
        ensures
            r@ == self@.name,
    {
        self.name.as_str()
    }

    /// The gravitational parameter, in 10^-3 km^3/s^2.
    pub fn mass(&self) -> (r: i64)
        ensures
            r == self@.gravitational_mass,
    {
        self.gravitational_mass
    }

    /// The physical radius, carried through unchanged by the integrator.
    pub fn radius(&self) -> (r: i64)
        ensures
            r == self@.radius,
    {
        self.radius
    }

    /// The current position, in 10^-9 AU per component.
    pub fn position(&self) -> (r: Vec3)
        ensures
            r == self@.position,
    {
        self.position
    }

    /// The current velocity, in 10^-9 AU/day per component.
    pub fn velocity(&self) -> (r: Vec3)
        ensures
            r == self@.velocity,
    {
        self.velocity
    }

    /// Replace position and velocity in one write; the integrator commits a
    /// finished step with this, leaving name, mass and radius untouched.
    pub(crate) fn set_state(&mut self, position: Vec3, velocity: Vec3)
        ensures
            final(self)@ == (BodyView { position, velocity, ..old(self)@ }),
    {
        self.position = position;
        self.velocity = velocity;
    }

    /// Add `delta_acceleration * delta_time / TIME_SCALE` to the velocity,
    /// componentwise, rounding toward zero.  The caller guarantees that the
    /// new velocity fits in the component type; nothing else changes.
    pub fn apply_acceleration(&mut self, delta_acceleration: Vec3, delta_time: i64)
        requires
            i64::MIN <= shift_comp(
                old(self)@.velocity.x as int,
                delta_acceleration.x as int,
                delta_time as int,
            ) <= i64::MAX,
            i64::MIN <= shift_comp(
                old(self)@.velocity.y as int,
                delta_acceleration.y as int,
                delta_time as int,
            ) <= i64::MAX,
            i64::MIN <= shift_comp(
                old(self)@.velocity.z as int,
                delta_acceleration.z as int,
                delta_time as int,
            ) <= i64::MAX,
        ensures
            final(self)@ == (BodyView {
                velocity: shifted(old(self)@.velocity, delta_acceleration, delta_time as int),
                ..old(self)@
            }),
    {
        self.velocity = shift(self.velocity, delta_acceleration, delta_time);
    }

    /// Add `velocity * delta_time / TIME_SCALE` to the position,
    /// componentwise, rounding toward zero.  The caller guarantees that the
    /// new position fits in the component type; nothing else changes.
    pub fn update_position(&mut self, delta_time: i64)
        requires
            i64::MIN <= shift_comp(
                old(self)@.position.x as int,
                old(self)@.velocity.x as int,
                delta_time as int,
            ) <= i64::MAX,
            i64::MIN <= shift_comp(
                old(self)@.position.y as int,
                old(self)@.velocity.y as int,
                delta_time as int,
            ) <= i64::MAX,
            i64::MIN <= shift_comp(
                old(self)@.position.z as int,
                old(self)@.velocity.z as int,
                delta_time as int,
            ) <= i64::MAX,
        ensures
            final(self)@ == (BodyView {
                position: shifted(old(self)@.position, old(self)@.velocity, delta_time as int),
                ..old(self)@
            }),
    {
        self.position = shift(self.position, self.velocity, delta_time);
    }
}

} // verus!
