//! Global properties of the integrator, stated and proved once for every
//! well-formed system: a zero step changes nothing, stepping never touches a
//! body's identity, and the force pass accumulates per-pair contributions
//! additively.

use vstd::prelude::*;
use crate::body::BodyView;
use crate::forces::{accel_vec, all_within, drifted_seq, kick_pair, kick_seq, StepError};
use crate::math::div_trunc;
use crate::pairs::pair_seq;
use crate::system::{masses_of, positions_of, sys_step, sys_wf, velocities_of};
use crate::units::{POS_LIMIT, TIME_SCALE, VEL_LIMIT};
use crate::vec3::{lemma_shift_zero, shift_within, shifted, Vec3};

verus! {

/// A force pass for a zero increment leaves the velocities exactly as they
/// were whenever it succeeds.
proof fn lemma_kick_seq_zero(
    ms: Seq<i64>,
    ps: Seq<Vec3>,
    vs: Seq<Vec3>,
    pairs: Seq<(int, int)>,
)
    requires
        all_within(vs, VEL_LIMIT as int),
        forall|k: int|
            0 <= k < pairs.len() ==> 0 <= (#[trigger] pairs[k]).0 < vs.len() && 0 <= pairs[k].1
                < vs.len(),
    ensures
        kick_seq(ms, ps, vs, pairs, 0) matches Ok(out) ==> out == vs,
    decreases pairs.len(),
{
    if pairs.len() > 0 {
        let p = pairs[0];
        match kick_pair(ms[p.0], ms[p.1], ps[p.0], ps[p.1], vs[p.0], vs[p.1], 0) {
            Ok(nv) => {
                lemma_shift_zero(vs[p.0], accel_vec(ms[p.1], ps[p.0], ps[p.1]));
                lemma_shift_zero(vs[p.1], accel_vec(ms[p.0], ps[p.0], ps[p.1]));
                assert(nv.0 == vs[p.0] && nv.1 == vs[p.1]);
                let vs2 = vs.update(p.0, nv.0).update(p.1, nv.1);
                assert(vs2 =~= vs);
                lemma_kick_seq_zero(ms, ps, vs2, pairs.drop_first());
            },
            Err(_) => {},
        }
    }
}

/// A step with a zero time increment leaves every body's position and
/// velocity numerically unchanged: whenever it succeeds, the new state is
/// the old one.  (When it fails, the step leaves the system untouched by its
/// own contract.)
pub proof fn lemma_zero_step_identity(s: Seq<BodyView>)
    requires
        sys_wf(s),
    ensures
        sys_step(s, 0) matches Ok(m) ==> m == s,
{
    let ms = masses_of(s);
    let ps = positions_of(s);
    let vs = velocities_of(s);
    let n = s.len() as int;
    assert(div_trunc(0, 2) == 0) by {
        vstd::arithmetic::div_mod::lemma_div_by_multiple(0int, 2int);
    }
    crate::pairs::lemma_each_unordered_pair_once(n);
    assert(all_within(vs, VEL_LIMIT as int));
    lemma_kick_seq_zero(ms, ps, vs, pair_seq(n));
    match kick_seq(ms, ps, vs, pair_seq(n), 0) {
        Ok(v1) => {
            assert(v1 == vs);
            assert forall|k: int| 0 <= k < ps.len() implies shift_within(
                #[trigger] ps[k],
                v1[k],
                0,
                POS_LIMIT as int,
            ) by {
                lemma_shift_zero(ps[k], v1[k]);
                assert(s[k].wf());
            }
            let p1 = drifted_seq(ps, v1, 0);
            assert forall|k: int| 0 <= k < p1.len() implies #[trigger] p1[k] == ps[k] by {
                lemma_shift_zero(ps[k], v1[k]);
            }
            assert(p1 =~= ps);
            lemma_kick_seq_zero(ms, p1, v1, pair_seq(n));
            match kick_seq(ms, p1, v1, pair_seq(n), 0) {
                Ok(v2) => {
                    assert(v2 == vs);
                    match sys_step(s, 0) {
                        Ok(m) => {
                            assert forall|i: int| 0 <= i < s.len() implies #[trigger] m[i]
                                == s[i] by {
                                assert(m[i].position == ps[i] && m[i].velocity == vs[i]);
                            }
                            assert(m =~= s);
                        },
                        Err(_) => {},
                    }
                },
                Err(_) => {},
            }
        },
        Err(_) => {},
    }
}

/// One step never touches a body's name, gravitational parameter or radius,
/// and never reorders or resizes the collection.
pub proof fn lemma_step_preserves_identity(s: Seq<BodyView>, dt: int)
    ensures
        sys_step(s, dt) matches Ok(m) ==> m.len() == s.len() && forall|i: int|
            0 <= i < s.len() ==> (#[trigger] m[i]).name == s[i].name
                && m[i].gravitational_mass == s[i].gravitational_mass && m[i].radius == s[i].radius,
{
}

/// The state after a whole run of steps, one per entry of `dts`; a step that
/// fails leaves the state as it was, as the integrator does.
pub open spec fn run_steps(s: Seq<BodyView>, dts: Seq<int>) -> Seq<BodyView>
    decreases dts.len(),
{
    if dts.len() == 0 {
        s
    } else {
        let next = match sys_step(s, dts[0]) {
            Ok(m) => m,
            Err(_) => s,
        };
        run_steps(next, dts.drop_first())
    }
}

/// Index stability: after any number of integration steps, the body at a
/// fixed index is still the body that was supplied at construction — same
/// name, same gravitational parameter, same radius, same position in the
/// collection.
pub proof fn lemma_index_stability(s: Seq<BodyView>, dts: Seq<int>)
    ensures
        run_steps(s, dts).len() == s.len(),
        forall|i: int|
            0 <= i < s.len() ==> (#[trigger] run_steps(s, dts)[i]).name == s[i].name
                && run_steps(s, dts)[i].gravitational_mass == s[i].gravitational_mass
                && run_steps(s, dts)[i].radius == s[i].radius,
    decreases dts.len(),
{
    if dts.len() > 0 {
        let next = match sys_step(s, dts[0]) {
            Ok(m) => m,
            Err(_) => s,
        };
        lemma_step_preserves_identity(s, dts[0]);
        lemma_index_stability(next, dts.drop_first());
    }
}

/// The velocity change a body receives from one pair exchange: its partner's
/// acceleration contribution integrated over `dt`, componentwise.
pub open spec fn pair_dv(m: i64, pa: Vec3, pb: Vec3, dt: int) -> (int, int, int) {
    let a = accel_vec(m, pa, pb);
    (
        div_trunc(a.x as int * dt, TIME_SCALE as int),
        div_trunc(a.y as int * dt, TIME_SCALE as int),
        div_trunc(a.z as int * dt, TIME_SCALE as int),
    )
}

/// A velocity plus two per-pair contributions, componentwise.
pub open spec fn v3_sum(v: Vec3, d1: (int, int, int), d2: (int, int, int)) -> Vec3 {
    Vec3 {
        x: (v.x + d1.0 + d2.0) as i64,
        y: (v.y + d1.1 + d2.1) as i64,
        z: (v.z + d1.2 + d2.2) as i64,
    }
}

/// The total velocity change body `k` receives from the pairs it belongs
/// to, accumulated in pass order over fixed positions, componentwise.
pub open spec fn dv_sum(
    ms: Seq<i64>,
    ps: Seq<Vec3>,
    k: int,
    pairs: Seq<(int, int)>,
    dt: int,
) -> (int, int, int)
    decreases pairs.len(),
{
    if pairs.len() == 0 {
        (0, 0, 0)
    } else {
        let p = pairs[0];
        let head = if k == p.0 {
            pair_dv(ms[p.1], ps[p.0], ps[p.1], dt)
        } else if k == p.1 {
            pair_dv(ms[p.0], ps[p.0], ps[p.1], dt)
        } else {
            (0, 0, 0)
        };
        let rest = dv_sum(ms, ps, k, pairs.drop_first(), dt);
        (head.0 + rest.0, head.1 + rest.1, head.2 + rest.2)
    }
}

/// Additivity of the force pass for any number of bodies: when it succeeds,
/// each body's new velocity is its old velocity plus the sum of the
/// contributions of exactly the pairs it belongs to, each computed
/// independently from the unchanged positions.  This is why the final state
/// does not depend on the order in which pairs are processed.
pub proof fn lemma_kick_accumulates_pair_contributions(
    ms: Seq<i64>,
    ps: Seq<Vec3>,
    vs: Seq<Vec3>,
    pairs: Seq<(int, int)>,
    dt: int,
)
    requires
        forall|q: int|
            0 <= q < pairs.len() ==> 0 <= (#[trigger] pairs[q]).0 && pairs[q].0 < pairs[q].1
                < vs.len(),
        kick_seq(ms, ps, vs, pairs, dt) is Ok,
    ensures
        kick_seq(ms, ps, vs, pairs, dt) matches Ok(out) ==> out.len() == vs.len() && forall|k: int|
            0 <= k < vs.len() ==> (#[trigger] out[k]).x as int == vs[k].x
                + dv_sum(ms, ps, k, pairs, dt).0 && out[k].y as int == vs[k].y
                + dv_sum(ms, ps, k, pairs, dt).1 && out[k].z as int == vs[k].z
                + dv_sum(ms, ps, k, pairs, dt).2,
    decreases pairs.len(),
{
    if pairs.len() > 0 {
        let p = pairs[0];
        let r0 = kick_pair(ms[p.0], ms[p.1], ps[p.0], ps[p.1], vs[p.0], vs[p.1], dt);
        match r0 {
            Ok(nv) => {
                let vs2 = vs.update(p.0, nv.0).update(p.1, nv.1);
                let rest = pairs.drop_first();
                lemma_kick_accumulates_pair_contributions(ms, ps, vs2, rest, dt);
                let out = kick_seq(ms, ps, vs, pairs, dt)->Ok_0;
                assert(kick_seq(ms, ps, vs2, rest, dt) == Ok::<Seq<Vec3>, StepError>(out));
                assert(nv.0 == shifted(vs[p.0], accel_vec(ms[p.1], ps[p.0], ps[p.1]), dt));
                assert(nv.1 == shifted(vs[p.1], accel_vec(ms[p.0], ps[p.0], ps[p.1]), dt));
                assert forall|k: int|
                    0 <= k < vs.len() implies (#[trigger] out[k]).x as int == vs[k].x
                        + dv_sum(ms, ps, k, pairs, dt).0 && out[k].y as int == vs[k].y
                        + dv_sum(ms, ps, k, pairs, dt).1 && out[k].z as int == vs[k].z
                        + dv_sum(ms, ps, k, pairs, dt).2 by {
                    if k == p.0 {
                        assert(vs2[k] == nv.0);
                        assert(vs2[k].x as int == vs[k].x + pair_dv(
                            ms[p.1],
                            ps[p.0],
                            ps[p.1],
                            dt,
                        ).0);
                    } else if k == p.1 {
                        assert(vs2[k] == nv.1);
                        assert(vs2[k].x as int == vs[k].x + pair_dv(
                            ms[p.0],
                            ps[p.0],
                            ps[p.1],
                            dt,
                        ).0);
                    } else {
                        assert(vs2[k] == vs[k]);
                    }
                }
            },
            Err(_) => {},
        }
    }
}

/// Symmetry of the force pass for three bodies: when the pass succeeds, the
/// accumulated velocity change of each body is exactly the sum of the
/// contributions of the two pairs it belongs to, computed independently from
/// the (unchanged) positions — no pair is counted twice and none is left
/// out.
pub proof fn lemma_three_body_kick_additive(s: Seq<BodyView>, dt: int)
    requires
        sys_wf(s),
        s.len() == 3,
    ensures
        kick_seq(
            masses_of(s),
            positions_of(s),
            velocities_of(s),
            pair_seq(3),
            dt,
        ) matches Ok(out) ==> {
            let ms = masses_of(s);
            let ps = positions_of(s);
            let vs = velocities_of(s);
            &&& out.len() == 3
            &&& out[0] == v3_sum(
                vs[0],
                pair_dv(ms[1], ps[0], ps[1], dt),
                pair_dv(ms[2], ps[0], ps[2], dt),
            )
            &&& out[1] == v3_sum(
                vs[1],
                pair_dv(ms[0], ps[0], ps[1], dt),
                pair_dv(ms[2], ps[1], ps[2], dt),
            )
            &&& out[2] == v3_sum(
                vs[2],
                pair_dv(ms[0], ps[0], ps[2], dt),
                pair_dv(ms[1], ps[1], ps[2], dt),
            )
        },
{
    let ms = masses_of(s);
    let ps = positions_of(s);
    let vs = velocities_of(s);
    let pairs = pair_seq(3);
    assert(crate::pairs::pairs_below(0, 3) =~= Seq::<(int, int)>::empty());
    assert(crate::pairs::row_pairs(0, 3) =~= seq![(0int, 1int), (0int, 2int)]);
    assert(crate::pairs::row_pairs(1, 3) =~= seq![(1int, 2int)]);
    assert(crate::pairs::row_pairs(2, 3) =~= Seq::<(int, int)>::empty());
    assert(crate::pairs::pairs_below(1, 3) =~= seq![(0int, 1int), (0int, 2int)]);
    assert(crate::pairs::pairs_below(2, 3) =~= seq![(0int, 1int), (0int, 2int), (1int, 2int)]);
    assert(pairs =~= seq![(0int, 1int), (0int, 2int), (1int, 2int)]);
    if kick_seq(ms, ps, vs, pairs, dt) is Ok {
        let r01 = kick_pair(ms[0], ms[1], ps[0], ps[1], vs[0], vs[1], dt);
        assert(r01 is Ok);
        let nv01 = r01->Ok_0;
        let vs1 = vs.update(0, nv01.0).update(1, nv01.1);
        let rest1 = pairs.drop_first();
        assert(rest1 =~= seq![(0int, 2int), (1int, 2int)]);
        assert(kick_seq(ms, ps, vs1, rest1, dt) is Ok);

        let r02 = kick_pair(ms[0], ms[2], ps[0], ps[2], vs1[0], vs1[2], dt);
        assert(r02 is Ok);
        let nv02 = r02->Ok_0;
        let vs2 = vs1.update(0, nv02.0).update(2, nv02.1);
        let rest2 = rest1.drop_first();
        assert(rest2 =~= seq![(1int, 2int)]);
        assert(kick_seq(ms, ps, vs2, rest2, dt) is Ok);

        let r12 = kick_pair(ms[1], ms[2], ps[1], ps[2], vs2[1], vs2[2], dt);
        assert(r12 is Ok);
        let nv12 = r12->Ok_0;
        let vs3 = vs2.update(1, nv12.0).update(2, nv12.1);
        let rest3 = rest2.drop_first();
        assert(rest3 =~= Seq::<(int, int)>::empty());
        assert(kick_seq(ms, ps, vs3, rest3, dt) == Ok::<Seq<Vec3>, StepError>(vs3));
        let out = kick_seq(ms, ps, vs, pairs, dt)->Ok_0;
        assert(out == vs3);

        // Body 0: kicked by pairs (0,1) and (0,2); each shift stays in the
        // working range, so the casts compose into one exact sum.
        let a01 = accel_vec(ms[1], ps[0], ps[1]);
        let a02 = accel_vec(ms[0], ps[0], ps[1]);
        assert(nv01.0 == shifted(vs[0], a01, dt));
        assert(out[0] == shifted(nv01.0, accel_vec(ms[2], ps[0], ps[2]), dt));
        assert(out[0] == v3_sum(
            vs[0],
            pair_dv(ms[1], ps[0], ps[1], dt),
            pair_dv(ms[2], ps[0], ps[2], dt),
        ));

        // Body 1: kicked by pairs (0,1) and (1,2).
        assert(nv01.1 == shifted(vs[1], accel_vec(ms[0], ps[0], ps[1]), dt));
        assert(vs2[1] == nv01.1);
        assert(out[1] == shifted(nv01.1, accel_vec(ms[2], ps[1], ps[2]), dt));
        assert(out[1] == v3_sum(
            vs[1],
            pair_dv(ms[0], ps[0], ps[1], dt),
            pair_dv(ms[2], ps[1], ps[2], dt),
        ));

        // Body 2: kicked by pairs (0,2) and (1,2).
        assert(nv02.1 == shifted(vs[2], accel_vec(ms[0], ps[0], ps[2]), dt));
        assert(out[2] == shifted(nv02.1, accel_vec(ms[1], ps[1], ps[2]), dt));
        assert(out[2] == v3_sum(
            vs[2],
            pair_dv(ms[0], ps[0], ps[2], dt),
            pair_dv(ms[1], ps[1], ps[2], dt),
        ));
    }
}

} // verus!
