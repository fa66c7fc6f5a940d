use nbodysim::body::Body;
use nbodysim::forces::StepError;
use nbodysim::system::System;
use nbodysim::vec3::Vec3;

fn body(name: &str, mass: i64, pos: Vec3, vel: Vec3) -> Body {
    Body::new(name.to_string(), mass, 1, pos, vel)
}

/// Two bodies, one step, against the force law worked out by hand.
///
/// With A at the origin and B at (3e9, 4e9, 0) the separation is exactly
/// 5e9.  The acceleration on A is
/// `2229724710 * m_B * d / r^3` componentwise with `d = posA - posB`,
/// which truncates to (-107, -142, 0); on B, with `m_A`, to (-53, -71, 0).
/// With dt = 2_000_000 each half kick lasts 1_000_000, one time unit scale,
/// so each kick adds the acceleration once.  The initial velocities are the
/// negated first kick, so the drift moves nothing and the second kick equals
/// the first.
#[test]
fn two_body_step_matches_hand_computation() {
    let mut sys = System::new();
    sys.add(body(
        "A",
        1_000_000_000_000,
        Vec3 { x: 0, y: 0, z: 0 },
        Vec3 { x: 107, y: 142, z: 0 },
    ));
    sys.add(body(
        "B",
        2_000_000_000_000,
        Vec3 { x: 3_000_000_000, y: 4_000_000_000, z: 0 },
        Vec3 { x: 53, y: 71, z: 0 },
    ));
    assert_eq!(sys.kick_drift_kick_step(2_000_000), Ok(()));
    let a = sys.object_from_index(0).unwrap();
    assert_eq!(a.position(), Vec3 { x: 0, y: 0, z: 0 });
    assert_eq!(a.velocity(), Vec3 { x: -107, y: -142, z: 0 });
    let b = sys.object_from_index(1).unwrap();
    assert_eq!(b.position(), Vec3 { x: 3_000_000_000, y: 4_000_000_000, z: 0 });
    assert_eq!(b.velocity(), Vec3 { x: -53, y: -71, z: 0 });
}

/// Three collinear bodies: the velocity change of each body is the sum of
/// the hand-computed contributions of the two pairs it belongs to, each
/// unordered pair counted exactly once.
#[test]
fn three_body_pair_contributions_add() {
    // Per-pair acceleration contributions (x component; all on the x axis):
    // pair (A,B), r = 3e9: on A -495, on B -247;
    // pair (A,C), r = 9e9: on A -82, on C -27;
    // pair (B,C), r = 6e9: on B -185, on C -123.
    let ka_ab = 495;
    let kb_ab = 247;
    let ka_ac = 82;
    let kc_ac = 27;
    let kb_bc = 185;
    let kc_bc = 123;
    let mut sys = System::new();
    sys.add(body(
        "A",
        1_000_000_000_000,
        Vec3 { x: 0, y: 0, z: 0 },
        Vec3 { x: ka_ab + ka_ac, y: 0, z: 0 },
    ));
    sys.add(body(
        "B",
        2_000_000_000_000,
        Vec3 { x: 3_000_000_000, y: 0, z: 0 },
        Vec3 { x: kb_ab + kb_bc, y: 0, z: 0 },
    ));
    sys.add(body(
        "C",
        3_000_000_000_000,
        Vec3 { x: 9_000_000_000, y: 0, z: 0 },
        Vec3 { x: kc_ac + kc_bc, y: 0, z: 0 },
    ));
    assert_eq!(sys.kick_drift_kick_step(2_000_000), Ok(()));
    // The first kick cancels the initial velocity exactly, so nothing
    // drifts and the second kick contributes the same sums again.
    let a = sys.object_from_index(0).unwrap();
    assert_eq!(a.velocity().x, (ka_ab + ka_ac) - 2 * (ka_ab + ka_ac));
    let b = sys.object_from_index(1).unwrap();
    assert_eq!(b.velocity().x, (kb_ab + kb_bc) - 2 * (kb_ab + kb_bc));
    let c = sys.object_from_index(2).unwrap();
    assert_eq!(c.velocity().x, (kc_ac + kc_bc) - 2 * (kc_ac + kc_bc));
    // Positions never moved.
    assert_eq!(a.position().x, 0);
    assert_eq!(b.position().x, 3_000_000_000);
    assert_eq!(c.position().x, 9_000_000_000);
}

/// A zero time increment leaves every body numerically unchanged.
#[test]
fn zero_step_leaves_state_unchanged() {
    let mut sys = System::new();
    sys.add(body(
        "A",
        1_000_000_000_000,
        Vec3 { x: 0, y: 0, z: 0 },
        Vec3 { x: 11, y: -22, z: 33 },
    ));
    sys.add(body(
        "B",
        2_000_000_000_000,
        Vec3 { x: 3_000_000_000, y: 4_000_000_000, z: 0 },
        Vec3 { x: -44, y: 55, z: -66 },
    ));
    assert_eq!(sys.kick_drift_kick_step(0), Ok(()));
    let a = sys.object_from_index(0).unwrap();
    assert_eq!(a.position(), Vec3 { x: 0, y: 0, z: 0 });
    assert_eq!(a.velocity(), Vec3 { x: 11, y: -22, z: 33 });
    let b = sys.object_from_index(1).unwrap();
    assert_eq!(b.position(), Vec3 { x: 3_000_000_000, y: 4_000_000_000, z: 0 });
    assert_eq!(b.velocity(), Vec3 { x: -44, y: 55, z: -66 });
}

/// After any number of steps, a fixed index still refers to the body that
/// was supplied at construction, in construction order.
#[test]
fn object_from_index_is_stable_across_steps() {
    let mut sys = System::new();
    sys.add(body(
        "alpha",
        1_000_000_000_000,
        Vec3 { x: 0, y: 0, z: 0 },
        Vec3 { x: 0, y: 0, z: 0 },
    ));
    sys.add(body(
        "beta",
        2_000_000_000_000,
        Vec3 { x: 5_000_000_000, y: 0, z: 0 },
        Vec3 { x: 0, y: 1000, z: 0 },
    ));
    sys.add(body(
        "gamma",
        3_000_000_000_000,
        Vec3 { x: 0, y: 8_000_000_000, z: 0 },
        Vec3 { x: -1000, y: 0, z: 0 },
    ));
    assert_eq!(sys.size(), 3);
    for _ in 0..50 {
        assert_eq!(sys.kick_drift_kick_step(1_000_000), Ok(()));
    }
    assert_eq!(sys.size(), 3);
    assert_eq!(sys.object_from_index(0).unwrap().name(), "alpha");
    assert_eq!(sys.object_from_index(1).unwrap().name(), "beta");
    assert_eq!(sys.object_from_index(2).unwrap().name(), "gamma");
    assert_eq!(sys.object_from_index(0).unwrap().mass(), 1_000_000_000_000);
    assert_eq!(sys.object_from_index(1).unwrap().mass(), 2_000_000_000_000);
    assert_eq!(sys.object_from_index(2).unwrap().mass(), 3_000_000_000_000);
    assert!(sys.object_from_index(3).is_none());
}

/// Bodies closer than the minimum separation stop the step and leave the
/// system untouched.
#[test]
fn too_close_pair_fails_and_changes_nothing() {
    let mut sys = System::new();
    sys.add(body(
        "A",
        1_000_000_000_000,
        Vec3 { x: 0, y: 0, z: 0 },
        Vec3 { x: 5, y: 6, z: 7 },
    ));
    sys.add(body(
        "B",
        1_000_000_000_000,
        Vec3 { x: 500, y: 0, z: 0 },
        Vec3 { x: 0, y: 0, z: 0 },
    ));
    assert_eq!(sys.kick_drift_kick_step(1_000_000), Err(StepError::TooClose));
    let a = sys.object_from_index(0).unwrap();
    assert_eq!(a.velocity(), Vec3 { x: 5, y: 6, z: 7 });
    assert_eq!(a.position(), Vec3 { x: 0, y: 0, z: 0 });
    let b = sys.object_from_index(1).unwrap();
    assert_eq!(b.position(), Vec3 { x: 500, y: 0, z: 0 });
}

/// A kick that would push a velocity out of the working range stops the
/// step and leaves the system untouched.
#[test]
fn out_of_range_kick_fails_and_changes_nothing() {
    let mut sys = System::new();
    // Two maximal masses just above the minimum separation: the velocity
    // change dwarfs the working range.
    sys.add(body(
        "A",
        4_000_000_000_000_000,
        Vec3 { x: 2000, y: 0, z: 0 },
        Vec3 { x: 0, y: 0, z: 0 },
    ));
    sys.add(body(
        "B",
        4_000_000_000_000_000,
        Vec3 { x: 0, y: 0, z: 0 },
        Vec3 { x: 0, y: 0, z: 0 },
    ));
    assert_eq!(sys.kick_drift_kick_step(1_000_000), Err(StepError::OutOfRange));
    let a = sys.object_from_index(0).unwrap();
    assert_eq!(a.position(), Vec3 { x: 2000, y: 0, z: 0 });
    assert_eq!(a.velocity(), Vec3 { x: 0, y: 0, z: 0 });
}

/// An empty system and a single body are both fixed points of the step: no
/// pair, no force.
#[test]
fn lone_body_only_drifts() {
    let mut sys = System::new();
    assert_eq!(sys.kick_drift_kick_step(1_000_000), Ok(()));
    assert_eq!(sys.size(), 0);
    sys.add(body(
        "wanderer",
        1_000_000_000_000,
        Vec3 { x: 0, y: 0, z: 0 },
        Vec3 { x: 1000, y: -2000, z: 3000 },
    ));
    assert_eq!(sys.kick_drift_kick_step(1_000_000), Ok(()));
    let w = sys.object_from_index(0).unwrap();
    assert_eq!(w.position(), Vec3 { x: 1000, y: -2000, z: 3000 });
    assert_eq!(w.velocity(), Vec3 { x: 1000, y: -2000, z: 3000 });
}
