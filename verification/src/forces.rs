//! The pairwise gravitational force exchange and the position drift, on the
//! flat state arrays of a system: masses, positions and velocities.
//!
//! For a pair `{A, B}` the pass forms the difference `D = pos(A) - pos(B)`,
//! the floor square root `r` of `|D|^2`, and adds to each body's velocity the
//! other body's contribution `ACCEL_NUM * m_other * D / r^3 * dt / TIME_SCALE`
//! with every division rounding toward zero.  The same difference vector `D`
//! is used for both bodies of the pair, each scaled by the other body's
//! gravitational parameter, exactly as the force law of this integrator is
//! stated.  A pair closer than `MIN_DIST` stops the pass with
//! [`StepError::TooClose`]; a velocity or position leaving the fixed-point
//! working range stops it with [`StepError::OutOfRange`].

use vstd::prelude::*;
use vstd::math::abs;
use vstd::arithmetic::div_mod::{lemma_div_is_ordered};
use vstd::arithmetic::mul::{lemma_mul_left_inequality, lemma_mul_nonnegative};
use crate::math::{
    div_trunc, div_trunc_i128, isqrt, lemma_div_bound_by_denominator, lemma_div_trunc_chain3,
    lemma_div_trunc_cube_bound, lemma_mul_abs_bound, lemma_sqrt_floor_bounds, sqrt_floor,
};
use crate::pairs::{build_pairs, pair_seq};
use crate::units::{ACCEL_LIMIT, ACCEL_NUM, DT_LIMIT, MASS_LIMIT, MIN_DIST, MIN_DIST_SQ, POS_LIMIT, VEL_LIMIT};
use crate::vec3::{shift_checked, shift_within, shifted, Vec3};

verus! {

/// Why an integration step could not be carried out.  Either way the system
/// is left exactly as it was.
#[derive(Clone, Copy, Debug, PartialEq, Eq, Structural)]
pub enum StepError {
    /// Two bodies were closer than `MIN_DIST`; the force law's cube would
    /// vanish or explode there.
    TooClose,
    /// A velocity or position component left the fixed-point working range.
    OutOfRange,
}

/// The squared separation of two positions.
pub open spec fn dist_sq(a: Vec3, b: Vec3) -> int {
    (a.x - b.x) * (a.x - b.x) + (a.y - b.y) * (a.y - b.y) + (a.z - b.z) * (a.z - b.z)
}

/// The floor square root of the squared separation.
pub open spec fn sep_r(a: Vec3, b: Vec3) -> int {
    sqrt_floor(dist_sq(a, b) as nat) as int
}

/// One component of the acceleration a body receives from a partner of
/// gravitational parameter `m` across the difference component `delta`,
/// at separation `r`: `ACCEL_NUM * m * delta / r^3`, rounded toward zero.
pub open spec fn accel_comp(m: i64, delta: int, r: int) -> int {
    div_trunc(ACCEL_NUM as int * m as int * delta, r * r * r)
}

/// The acceleration received across the difference `pa - pb` from a partner
/// of gravitational parameter `m`.  Under the working-range bounds every
/// component is at most `ACCEL_LIMIT` in magnitude, so the casts are exact.
pub open spec fn accel_vec(m: i64, pa: Vec3, pb: Vec3) -> Vec3 {
    let r = sep_r(pa, pb);
    Vec3 {
        x: accel_comp(m, pa.x - pb.x, r) as i64,
        y: accel_comp(m, pa.y - pb.y, r) as i64,
        z: accel_comp(m, pa.z - pb.z, r) as i64,
    }
}

/// What one pair exchange does to the two velocities, or why it fails.
/// `(pi, vi)` belong to the body named first in the pair.
pub open spec fn kick_pair(
    mi: i64,
    mj: i64,
    pi: Vec3,
    pj: Vec3,
    vi: Vec3,
    vj: Vec3,
    dt: int,
) -> Result<(Vec3, Vec3), StepError> {
    if dist_sq(pi, pj) < MIN_DIST_SQ {
        Err(StepError::TooClose)
    } else {
        let ai = accel_vec(mj, pi, pj);
        let aj = accel_vec(mi, pi, pj);
        if shift_within(vi, ai, dt, VEL_LIMIT as int) && shift_within(vj, aj, dt, VEL_LIMIT as int) {
            Ok((shifted(vi, ai, dt), shifted(vj, aj, dt)))
        } else {
            Err(StepError::OutOfRange)
        }
    }
}

/// The velocities after exchanging forces across `pairs` in order, starting
/// from `vs`, or the first failure.
pub open spec fn kick_seq(
    ms: Seq<i64>,
    ps: Seq<Vec3>,
    vs: Seq<Vec3>,
    pairs: Seq<(int, int)>,
    dt: int,
) -> Result<Seq<Vec3>, StepError>
    decreases pairs.len(),
{
    if pairs.len() == 0 {
        Ok(vs)
    } else {
        let p = pairs[0];
        match kick_pair(ms[p.0], ms[p.1], ps[p.0], ps[p.1], vs[p.0], vs[p.1], dt) {
            Err(e) => Err(e),
            Ok(nv) => kick_seq(
                ms,
                ps,
                vs.update(p.0, nv.0).update(p.1, nv.1),
                pairs.drop_first(),
                dt,
            ),
        }
    }
}

/// Every drifted position stays within the working range.
pub open spec fn drift_ok(ps: Seq<Vec3>, vs: Seq<Vec3>, dt: int) -> bool {
    forall|k: int|
        0 <= k < ps.len() ==> shift_within(#[trigger] ps[k], vs[k], dt, POS_LIMIT as int)
}

/// Every position advanced by its own velocity for `dt`.
pub open spec fn drifted_seq(ps: Seq<Vec3>, vs: Seq<Vec3>, dt: int) -> Seq<Vec3> {
    Seq::new(ps.len(), |k: int| shifted(ps[k], vs[k], dt))
}

/// All gravitational parameters are in the admissible range.
pub open spec fn masses_wf(ms: Seq<i64>) -> bool {
    forall|k: int| 0 <= k < ms.len() ==> 0 <= #[trigger] ms[k] <= MASS_LIMIT
}

/// All vectors have components within `limit`.
pub open spec fn all_within(vs: Seq<Vec3>, limit: int) -> bool {
    forall|k: int| 0 <= k < vs.len() ==> (#[trigger] vs[k]).within(limit)
}

/// A force pass over valid pairs keeps every velocity within the working
/// range it started in.
pub proof fn lemma_kick_seq_within(
    ms: Seq<i64>,
    ps: Seq<Vec3>,
    vs: Seq<Vec3>,
    pairs: Seq<(int, int)>,
    dt: int,
)
    requires
        all_within(vs, VEL_LIMIT as int),
        forall|k: int|
            0 <= k < pairs.len() ==> 0 <= (#[trigger] pairs[k]).0 < vs.len() && 0 <= pairs[k].1
                < vs.len(),
        kick_seq(ms, ps, vs, pairs, dt) is Ok,
    ensures
        kick_seq(ms, ps, vs, pairs, dt) matches Ok(out) ==> out.len() == vs.len() && all_within(
            out,
            VEL_LIMIT as int,
        ),
    decreases pairs.len(),
{
    if pairs.len() > 0 {
        let p = pairs[0];
        match kick_pair(ms[p.0], ms[p.1], ps[p.0], ps[p.1], vs[p.0], vs[p.1], dt) {
            Ok(nv) => {
                let vs2 = vs.update(p.0, nv.0).update(p.1, nv.1);
                assert(nv.0.within(VEL_LIMIT as int) && nv.1.within(VEL_LIMIT as int));
                assert(all_within(vs2, VEL_LIMIT as int));
                assert(forall|k: int|
                    0 <= k < pairs.drop_first().len() ==> 0 <= (#[trigger] pairs.drop_first()[
                        k
                    ]).0 < vs2.len() && 0 <= pairs.drop_first()[k].1 < vs2.len());
                lemma_kick_seq_within(ms, ps, vs2, pairs.drop_first(), dt);
            },
            Err(_) => {},
        }
    }
}

/// One acceleration component, `ACCEL_NUM * m * delta / r^3` rounded toward
/// zero, computed by three successive divisions in 128 bits.
fn accel_comp_exec(m: i64, delta: i64, r: u64) -> (a: i64)
    requires
        0 <= m <= MASS_LIMIT,
        MIN_DIST <= r <= 7_000_000_000_000,
        -(r as int) <= delta as int <= r as int,
    ensures
        a as int == accel_comp(m, delta as int, r as int),
        -ACCEL_LIMIT <= a <= ACCEL_LIMIT,
{
    proof {
        lemma_mul_abs_bound(ACCEL_NUM as int, m as int, ACCEL_NUM as int, MASS_LIMIT as int);
    }
    let c: i128 = (ACCEL_NUM as i128) * (m as i128);
    proof {
        lemma_mul_nonnegative(ACCEL_NUM as int, m as int);
        lemma_mul_abs_bound(
            c as int,
            delta as int,
            ACCEL_NUM as int * MASS_LIMIT as int,
            7_000_000_000_000int,
        );
    }
    let num: i128 = c * (delta as i128);
    let ri = r as i128;
    let q1 = div_trunc_i128(num, ri);
    let q2 = div_trunc_i128(q1, ri);
    let q3 = div_trunc_i128(q2, ri);
    proof {
        let rr = r as int;
        lemma_div_trunc_chain3(num as int, rr);
        assert(q3 as int == accel_comp(m, delta as int, rr));
        // Magnitude bound: |num| <= (ACCEL_NUM * m) * r, so the quotient by
        // r^3 is at most ACCEL_NUM * m / r^2 <= ACCEL_NUM * MASS_LIMIT /
        // MIN_DIST^2 == ACCEL_LIMIT.
        lemma_mul_abs_bound(c as int, delta as int, c as int, rr);
        lemma_div_trunc_cube_bound(num as int, rr, c as int);
        assert(MIN_DIST as int * MIN_DIST as int <= rr * rr) by (nonlinear_arith)
            requires MIN_DIST as int <= rr,
        ;
        lemma_div_bound_by_denominator(c as int, MIN_DIST_SQ as int, rr * rr);
        lemma_mul_left_inequality(ACCEL_NUM as int, m as int, MASS_LIMIT as int);
        lemma_div_is_ordered(c as int, ACCEL_NUM as int * MASS_LIMIT as int, MIN_DIST_SQ as int);
        assert(ACCEL_NUM as int * MASS_LIMIT as int / (MIN_DIST_SQ as int) == ACCEL_LIMIT as int);
        assert(abs(q3 as int) <= ACCEL_LIMIT as int);
    }
    q3 as i64
}

/// The acceleration received by the body at `pa` from a partner of
/// gravitational parameter `m` at `pb`, given the precomputed separation.
fn accel_vec_exec(m: i64, pa: Vec3, pb: Vec3, r: u64) -> (a: Vec3)
    requires
        0 <= m <= MASS_LIMIT,
        pa.within(POS_LIMIT as int),
        pb.within(POS_LIMIT as int),
        r as int == sep_r(pa, pb),
        MIN_DIST <= r <= 7_000_000_000_000,
        -(r as int) <= pa.x - pb.x <= r as int,
        -(r as int) <= pa.y - pb.y <= r as int,
        -(r as int) <= pa.z - pb.z <= r as int,
    ensures
        a == accel_vec(m, pa, pb),
        a.within(ACCEL_LIMIT as int),
{
    let ax = accel_comp_exec(m, pa.x - pb.x, r);
    let ay = accel_comp_exec(m, pa.y - pb.y, r);
    let az = accel_comp_exec(m, pa.z - pb.z, r);
    Vec3 { x: ax, y: ay, z: az }
}

/// Exchange forces across one pair, returning the two new velocities.
fn pair_kick(mi: i64, mj: i64, pi: Vec3, pj: Vec3, vi: Vec3, vj: Vec3, dt: i64) -> (res: Result<
    (Vec3, Vec3),
    StepError,
>)
    requires
        0 <= mi <= MASS_LIMIT,
        0 <= mj <= MASS_LIMIT,
        pi.within(POS_LIMIT as int),
        pj.within(POS_LIMIT as int),
        -DT_LIMIT <= dt <= DT_LIMIT,
    ensures
        res == kick_pair(mi, mj, pi, pj, vi, vj, dt as int),
{
    let dx = pi.x - pj.x;
    let dy = pi.y - pj.y;
    let dz = pi.z - pj.z;
    proof {
        lemma_mul_abs_bound(dx as int, dx as int, 2 * POS_LIMIT as int, 2 * POS_LIMIT as int);
        lemma_mul_abs_bound(dy as int, dy as int, 2 * POS_LIMIT as int, 2 * POS_LIMIT as int);
        lemma_mul_abs_bound(dz as int, dz as int, 2 * POS_LIMIT as int, 2 * POS_LIMIT as int);
        assert(dx as int * dx as int >= 0) by (nonlinear_arith);
        assert(dy as int * dy as int >= 0) by (nonlinear_arith);
        assert(dz as int * dz as int >= 0) by (nonlinear_arith);
    }
    let d2: i128 = (dx as i128) * (dx as i128) + (dy as i128) * (dy as i128) + (dz as i128) * (dz
        as i128);
    proof {
        assert(d2 as int == dist_sq(pi, pj));
    }
    if d2 < MIN_DIST_SQ as i128 {
        return Err(StepError::TooClose);
    }
    let r: u64 = isqrt(d2 as u128);
    proof {
        lemma_sqrt_floor_bounds(d2 as nat);
        let rr = r as int;
        assert(rr == sep_r(pi, pj));
        assert(rr >= MIN_DIST) by (nonlinear_arith)
            requires
                rr >= 0,
                (rr + 1) * (rr + 1) > d2 as int,
                d2 as int >= MIN_DIST_SQ as int,
                MIN_DIST_SQ as int == 1_000_000,
                MIN_DIST as int == 1_000,
        ;
        assert(rr <= 7_000_000_000_000) by (nonlinear_arith)
            requires
                rr >= 0,
                rr * rr <= d2 as int,
                d2 as int <= 12 * (POS_LIMIT as int) * (POS_LIMIT as int),
                POS_LIMIT as int == 2_000_000_000_000,
        ;
        assert(-(rr) <= dx as int <= rr && -(rr) <= dy as int <= rr && -(rr) <= dz as int <= rr)
            by (nonlinear_arith)
            requires
                rr >= 0,
                (rr + 1) * (rr + 1) > d2 as int,
                d2 as int == dx as int * (dx as int) + dy as int * (dy as int) + dz as int * (dz
                    as int),
        ;
    }
    let ai = accel_vec_exec(mj, pi, pj, r);
    let aj = accel_vec_exec(mi, pi, pj, r);
    let nvi = shift_checked(vi, ai, dt, VEL_LIMIT);
    let nvj = shift_checked(vj, aj, dt, VEL_LIMIT);
    match (nvi, nvj) {
        (Some(a), Some(b)) => Ok((a, b)),
        _ => Err(StepError::OutOfRange),
    }
}

/// Exchange gravitational forces across every unordered pair of bodies, in
/// pass order, for the time increment `dt`.  On success the returned vector
/// holds the new velocities; on failure the first error of the pass is
/// returned.  This is the specification `kick_seq` made executable.
#[verifier::loop_isolation(false)]
pub(crate) fn exchange_gravitational_forces(
    masses: &Vec<i64>,
    pos: &Vec<Vec3>,
    vel: Vec<Vec3>,
    dt: i64,
) -> (res: Result<Vec<Vec3>, StepError>)
    requires
        masses@.len() == pos@.len(),
        masses@.len() == vel@.len(),
        masses_wf(masses@),
        all_within(pos@, POS_LIMIT as int),
        -DT_LIMIT <= dt <= DT_LIMIT,
    ensures
        match res {
            Ok(out) => kick_seq(masses@, pos@, vel@, pair_seq(masses@.len() as int), dt as int)
                == Ok::<Seq<Vec3>, StepError>(out@),
            Err(e) => kick_seq(masses@, pos@, vel@, pair_seq(masses@.len() as int), dt as int)
                == Err::<Seq<Vec3>, StepError>(e),
        },
{
    let n = masses.len();
    let ghost all = pair_seq(n as int);
    let ghost goal = kick_seq(masses@, pos@, vel@, all, dt as int);
    let pairs = build_pairs(n);
    let mut v = vel;
    let mut k: usize = 0;
    proof {
        assert(all.skip(0) =~= all);
    }
    while k < pairs.len()
        invariant
            k <= pairs.len(),
            pairs@.len() == all.len(),
            v@.len() == n,
            kick_seq(masses@, pos@, v@, all.skip(k as int), dt as int) == goal,
        decreases pairs.len() - k,
    {
        let (i, j) = pairs[k];
        proof {
            assert((i as int, j as int) == all[k as int]);
            assert(all.skip(k as int)[0] == all[k as int]);
        }
        let res = pair_kick(masses[i], masses[j], pos[i], pos[j], v[i], v[j], dt);
        proof {
            assert(all.skip(k as int).drop_first() =~= all.skip(k as int + 1));
        }
        match res {
            Err(e) => {
                return Err(e);
            },
            Ok((nvi, nvj)) => {
                v[i] = nvi;
                v[j] = nvj;
            },
        }
        k += 1;
    }
    proof {
        assert(all.skip(pairs@.len() as int) =~= Seq::<(int, int)>::empty());
    }
    Ok(v)
}

/// Advance every position by its own velocity for the time increment `dt`.
/// Fails, changing nothing, when a new position would leave the working
/// range.
#[verifier::loop_isolation(false)]
pub(crate) fn apply_individual_velocities(pos: &Vec<Vec3>, vel: &Vec<Vec3>, dt: i64) -> (res:
    Result<Vec<Vec3>, StepError>)
    requires
        pos@.len() == vel@.len(),
    ensures
        match res {
            Ok(out) => drift_ok(pos@, vel@, dt as int) && out@ == drifted_seq(
                pos@,
                vel@,
                dt as int,
            ),
            Err(e) => !drift_ok(pos@, vel@, dt as int) && e == StepError::OutOfRange,
        },
{
    let n = pos.len();
    let mut out: Vec<Vec3> = Vec::new();
    let mut k: usize = 0;
    while k < n
        invariant
            k <= n,
            out@.len() == k,
            forall|m: int|
                0 <= m < k ==> shift_within(#[trigger] pos@[m], vel@[m], dt as int, POS_LIMIT as int),
            forall|m: int| 0 <= m < k ==> out@[m] == shifted(pos@[m], vel@[m], dt as int),
        decreases n - k,
    {
        match shift_checked(pos[k], vel[k], dt, POS_LIMIT) {
            Some(np) => {
                out.push(np);
            },
            None => {
                return Err(StepError::OutOfRange);
            },
        }
        k += 1;
    }
    proof {
        assert(out@ =~= drifted_seq(pos@, vel@, dt as int));
    }
    Ok(out)
}

} // verus!
