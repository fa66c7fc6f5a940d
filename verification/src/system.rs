//! The simulated universe at one instant: an ordered collection of bodies
//! with the kick-drift-kick integrator over it.
//!
//! One integration step for an increment `dt` is, in order: a force exchange
//! over every unordered pair for `dt / 2` (the first kick), a drift of every
//! position by its own velocity for the full `dt`, and a second force
//! exchange for `dt / 2` at the drifted positions.  The whole step either
//! succeeds, leaving exactly the state `sys_step` describes, or fails with
//! the first error of the pass and leaves every body untouched.

use vstd::prelude::*;
use crate::body::{Body, BodyView};
use crate::forces::{
    all_within, apply_individual_velocities, drift_ok, drifted_seq, exchange_gravitational_forces,
    kick_seq, lemma_kick_seq_within, masses_wf, StepError,
};
use crate::math::{div_trunc, lemma_div_trunc_mag};
use crate::pairs::{lemma_each_unordered_pair_once, pair_seq};
use crate::units::{DT_LIMIT, POS_LIMIT, VEL_LIMIT};
use crate::vec3::{shift_within, shifted, Vec3};

verus! {

/// The gravitational parameters of the bodies, in order.
pub open spec fn masses_of(s: Seq<BodyView>) -> Seq<i64> {
    Seq::new(s.len(), |i: int| s[i].gravitational_mass)
}

/// The positions of the bodies, in order.
pub open spec fn positions_of(s: Seq<BodyView>) -> Seq<Vec3> {
    Seq::new(s.len(), |i: int| s[i].position)
}

/// The velocities of the bodies, in order.
pub open spec fn velocities_of(s: Seq<BodyView>) -> Seq<Vec3> {
    Seq::new(s.len(), |i: int| s[i].velocity)
}

/// Every body of the collection is well-formed.
pub open spec fn sys_wf(s: Seq<BodyView>) -> bool {
    forall|i: int| 0 <= i < s.len() ==> (#[trigger] s[i]).wf()
}

/// What one kick-drift-kick step for the increment `dt` does to a body
/// collection: the new state on success, or the first error of the pass.
/// Names, gravitational parameters and radii are never touched, and the body
/// at each index stays the body at that index.
pub open spec fn sys_step(s: Seq<BodyView>, dt: int) -> Result<Seq<BodyView>, StepError> {
    let ms = masses_of(s);
    let ps = positions_of(s);
    let vs = velocities_of(s);
    let n = s.len() as int;
    let h = div_trunc(dt, 2);
    match kick_seq(ms, ps, vs, pair_seq(n), h) {
        Err(e) => Err(e),
        Ok(v1) => if drift_ok(ps, v1, dt) {
            let p1 = drifted_seq(ps, v1, dt);
            match kick_seq(ms, p1, v1, pair_seq(n), h) {
                Err(e) => Err(e),
                Ok(v2) => Ok(
                    Seq::new(
                        s.len(),
                        |i: int| BodyView {
                            name: s[i].name,
                            gravitational_mass: s[i].gravitational_mass,
                            radius: s[i].radius,
                            position: p1[i],
                            velocity: v2[i],
                        },
                    ),
                ),
            }
        } else {
            Err(StepError::OutOfRange)
        },
    }
}

/// The simulated universe: an ordered collection of bodies.  The length and
/// the index-to-body assignment are stable for the lifetime of a system;
/// bodies are only ever appended, and stepping never reorders them.
pub struct System {
    bodies: Vec<Body>,
}

impl View for System {
    type V = Seq<BodyView>;

    closed spec fn view(&self) -> Seq<BodyView> {
        Seq::new(self.bodies@.len(), |i: int| self.bodies@[i]@)
    }
}

impl System {
    /// Every body is within the fixed-point working range.
    pub open spec fn wf(&self) -> bool {
        sys_wf(self@)
    }

    /// An empty system.
    pub fn new() -> (r: System)
        ensures
            r@ == Seq::<BodyView>::empty(),
            r.wf(),
    {
        let s = System { bodies: Vec::new() };
        proof {
            assert(s@ =~= Seq::<BodyView>::empty());
        }
        s
    }

    /// Append one body; everything already present keeps its index.
    pub fn add(&mut self, body: Body)
        requires
            body@.wf(),
        ensures
            final(self)@ == old(self)@.push(body@),
    {
        let ghost before = self@;
        let ghost bv = body@;
        self.bodies.push(body);
        proof {
            assert(self@ =~= before.push(bv));
        }
    }

    /// How many bodies the system holds.
    pub fn size(&self) -> (r: usize)
        ensures
            r == self@.len(),
    {
        self.bodies.len()
    }

    /// The body at index `index`, or `None` when the index is out of range.
    /// The same index always refers to the same body.
    pub fn object_from_index(&self, index: usize) -> (r: Option<&Body>)
        ensures
            match r {
                Some(b) => index < self@.len() && b@ == self@[index as int],
                None => index >= self@.len(),
            },
    {
        if index < self.bodies.len() {
            Some(&self.bodies[index])
        } else {
            None
        }
    }

    /// One kick-drift-kick integration step for the increment `delta_time`
    /// (in 10^-6 day).  On success the system holds exactly the state that
    /// `sys_step` gives; on failure nothing has changed.
    #[verifier::loop_isolation(false)]
    pub fn kick_drift_kick_step(&mut self, delta_time: i64) -> (r: Result<(), StepError>)
        requires
            old(self).wf(),
            -DT_LIMIT <= delta_time <= DT_LIMIT,
        ensures
            final(self).wf(),
            final(self)@.len() == old(self)@.len(),
            match sys_step(old(self)@, delta_time as int) {
                Ok(m) => r == Ok::<(), StepError>(()) && final(self)@ == m,
                Err(e) => r == Err::<(), StepError>(e) && final(self)@ == old(self)@,
            },
    {
        let ghost s0 = self@;
        let n = self.bodies.len();

        // Working copies of the flat state arrays.
        let mut ms: Vec<i64> = Vec::new();
        let mut ps: Vec<Vec3> = Vec::new();
        let mut vs: Vec<Vec3> = Vec::new();
        let mut k: usize = 0;
        while k < n
            invariant
                k <= n,
                n == self.bodies@.len(),
                self@ == s0,
                old(self).wf(),
                ms@.len() == k,
                ps@.len() == k,
                vs@.len() == k,
                forall|m: int| 0 <= m < k ==> ms@[m] == s0[m].gravitational_mass,
                forall|m: int| 0 <= m < k ==> ps@[m] == s0[m].position,
                forall|m: int| 0 <= m < k ==> vs@[m] == s0[m].velocity,
            decreases n - k,
        {
            proof {
                assert(s0[k as int] == self.bodies@[k as int]@);
            }
            ms.push(self.bodies[k].mass());
            ps.push(self.bodies[k].position());
            vs.push(self.bodies[k].velocity());
            k += 1;
        }
        proof {
            assert(ms@ =~= masses_of(s0));
            assert(ps@ =~= positions_of(s0));
            assert(vs@ =~= velocities_of(s0));
            assert(masses_wf(ms@));
            assert(all_within(ps@, POS_LIMIT as int));
            assert(all_within(vs@, VEL_LIMIT as int));
        }

        let h = delta_time / 2;
        proof {
            lemma_div_trunc_mag(delta_time as int, 2);
            assert(h as int == div_trunc(delta_time as int, 2));
        }
        let ghost spec_result = sys_step(s0, delta_time as int);

        // First half-step kick at the pre-drift positions.
        let v1 = match exchange_gravitational_forces(&ms, &ps, vs, h) {
            Err(e) => {
                return Err(e);
            },
            Ok(v1) => v1,
        };
        proof {
            lemma_each_unordered_pair_once(n as int);
            lemma_kick_seq_within(ms@, ps@, velocities_of(s0), pair_seq(n as int), h as int);
        }

        // Full-step drift of every position by its own velocity.
        let p1 = match apply_individual_velocities(&ps, &v1, delta_time) {
            Err(e) => {
                return Err(e);
            },
            Ok(p1) => p1,
        };
        proof {
            assert forall|m: int| 0 <= m < p1@.len() implies (#[trigger] p1@[m]).within(
                POS_LIMIT as int,
            ) by {
                assert(shift_within(ps@[m], v1@[m], delta_time as int, POS_LIMIT as int));
                assert(p1@[m] == shifted(ps@[m], v1@[m], delta_time as int));
            }
            assert(all_within(p1@, POS_LIMIT as int));
        }

        // Second half-step kick at the drifted positions.
        let v2 = match exchange_gravitational_forces(&ms, &p1, v1, h) {
            Err(e) => {
                return Err(e);
            },
            Ok(v2) => v2,
        };
        proof {
            lemma_kick_seq_within(ms@, p1@, v1@, pair_seq(n as int), h as int);
        }

        // Commit: write the drifted positions and twice-kicked velocities
        // back into the bodies; names, masses and radii stay untouched.
        let ghost target = spec_result->Ok_0;
        proof {
            assert forall|m: int| 0 <= m < n implies (#[trigger] self.bodies@[m]@).wf() by {
                assert(self.bodies@[m]@ == s0[m]);
                assert(s0[m].wf());
            }
        }
        let mut idx: usize = 0;
        while idx < n
            invariant
                idx <= n,
                n == self.bodies@.len(),
                p1@.len() == n,
                v2@.len() == n,
                target.len() == n,
                forall|m: int| 0 <= m < target.len() ==> #[trigger] target[m] == (BodyView {
                    name: s0[m].name,
                    gravitational_mass: s0[m].gravitational_mass,
                    radius: s0[m].radius,
                    position: p1@[m],
                    velocity: v2@[m],
                }),
                forall|m: int| idx <= m < n ==> #[trigger] self.bodies@[m]@ == s0[m],
                forall|m: int| 0 <= m < idx ==> #[trigger] self.bodies@[m]@ == target[m],
                forall|m: int| 0 <= m < n ==> (#[trigger] self.bodies@[m]@).wf(),
            decreases n - idx,
        {
            proof {
                assert(s0[idx as int].wf());
                assert(p1@[idx as int].within(POS_LIMIT as int));
                assert(v2@[idx as int].within(VEL_LIMIT as int));
            }
            let np = p1[idx];
            let nv = v2[idx];
            let b = &mut self.bodies[idx];
            b.set_state(np, nv);
            idx += 1;
        }
        proof {
            assert(self@ =~= target);
        }
        Ok(())
    }
}

} // verus!
