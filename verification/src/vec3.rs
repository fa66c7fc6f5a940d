//! Three-component fixed-point vectors and the shift operation
//! `base + rate * dt / TIME_SCALE` that both integrator sub-steps use.

use vstd::prelude::*;
use crate::math::{div_trunc, div_trunc_i128, lemma_mul_abs_bound};
use crate::units::TIME_SCALE;

verus! {

/// A vector of three scaled integer components.
#[derive(Clone, Copy, Debug, PartialEq, Eq, Structural)]
pub struct Vec3 {
    pub x: i64,
    pub y: i64,
    pub z: i64,
}

impl Vec3 {
    /// All three components have magnitude at most `limit`.
    pub open spec fn within(self, limit: int) -> bool {
        &&& -limit <= self.x <= limit
        &&& -limit <= self.y <= limit
        &&& -limit <= self.z <= limit
    }
}

/// One component of a shift: `base + rate * dt / TIME_SCALE`, with the
/// product divided by the time scale rounding toward zero.
pub open spec fn shift_comp(base: int, rate: int, dt: int) -> int {
    base + div_trunc(rate * dt, TIME_SCALE as int)
}

/// The shifted vector, meaningful when every component fits in 64 bits.
pub open spec fn shifted(base: Vec3, rate: Vec3, dt: int) -> Vec3 {
    Vec3 {
        x: shift_comp(base.x as int, rate.x as int, dt) as i64,
        y: shift_comp(base.y as int, rate.y as int, dt) as i64,
        z: shift_comp(base.z as int, rate.z as int, dt) as i64,
    }
}

/// Every component of the shifted vector has magnitude at most `limit`.
pub open spec fn shift_within(base: Vec3, rate: Vec3, dt: int, limit: int) -> bool {
    &&& -limit <= shift_comp(base.x as int, rate.x as int, dt) <= limit
    &&& -limit <= shift_comp(base.y as int, rate.y as int, dt) <= limit
    &&& -limit <= shift_comp(base.z as int, rate.z as int, dt) <= limit
}

/// One shifted component, computed in 128 bits.
fn shift_comp_exec(base: i64, rate: i64, dt: i64) -> (r: i128)
    ensures
        r as int == shift_comp(base as int, rate as int, dt as int),
{
    proof {
        lemma_mul_abs_bound(rate as int, dt as int, i64::MAX as int + 1, i64::MAX as int + 1);
    }
    let prod: i128 = (rate as i128) * (dt as i128);
    let d = div_trunc_i128(prod, TIME_SCALE as i128);
    (base as i128) + d
}

/// Shift `base` by `rate * dt / TIME_SCALE`, reporting `None` when any
/// resulting component would exceed `limit` in magnitude.
pub(crate) fn shift_checked(base: Vec3, rate: Vec3, dt: i64, limit: i64) -> (r: Option<Vec3>)
    requires
        limit >= 0,
    ensures
        match r {
            Some(v) => shift_within(base, rate, dt as int, limit as int)
                && v == shifted(base, rate, dt as int),
            None => !shift_within(base, rate, dt as int, limit as int),
        },
{
    let nx = shift_comp_exec(base.x, rate.x, dt);
    let ny = shift_comp_exec(base.y, rate.y, dt);
    let nz = shift_comp_exec(base.z, rate.z, dt);
    let lim = limit as i128;
    if -lim <= nx && nx <= lim && -lim <= ny && ny <= lim && -lim <= nz && nz <= lim {
        Some(Vec3 { x: nx as i64, y: ny as i64, z: nz as i64 })
    } else {
        None
    }
}

/// Shift `base` by `rate * dt / TIME_SCALE`; the caller guarantees that the
/// result fits in the component type.
pub(crate) fn shift(base: Vec3, rate: Vec3, dt: i64) -> (r: Vec3)
    requires
        i64::MIN <= shift_comp(base.x as int, rate.x as int, dt as int) <= i64::MAX,
        i64::MIN <= shift_comp(base.y as int, rate.y as int, dt as int) <= i64::MAX,
        i64::MIN <= shift_comp(base.z as int, rate.z as int, dt as int) <= i64::MAX,
    ensures
        r == shifted(base, rate, dt as int),
{
    let nx = shift_comp_exec(base.x, rate.x, dt);
    let ny = shift_comp_exec(base.y, rate.y, dt);
    let nz = shift_comp_exec(base.z, rate.z, dt);
    Vec3 { x: nx as i64, y: ny as i64, z: nz as i64 }
}

/// A zero time increment shifts nothing.
pub proof fn lemma_shift_zero(base: Vec3, rate: Vec3)
    ensures
        shift_comp(base.x as int, rate.x as int, 0) == base.x as int,
        shift_comp(base.y as int, rate.y as int, 0) == base.y as int,
        shift_comp(base.z as int, rate.z as int, 0) == base.z as int,
        shifted(base, rate, 0) == base,
{
    assert(rate.x as int * 0 == 0) by (nonlinear_arith);
    assert(rate.y as int * 0 == 0) by (nonlinear_arith);
    assert(rate.z as int * 0 == 0) by (nonlinear_arith);
    assert(0int / (TIME_SCALE as int) == 0) by {
        vstd::arithmetic::div_mod::lemma_div_by_multiple(0int, TIME_SCALE as int);
    }
}

} // verus!
