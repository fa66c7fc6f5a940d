use nbodysim::body::Body;
use nbodysim::vec3::Vec3;

fn sol() -> Body {
    Body::new(
        "Sol".to_string(),
        132712440041939,
        1408,
        Vec3 { x: 4494340, y: 910461, z: -60994 },
        Vec3 { x: -472, y: 5597, z: -12 },
    )
}

#[test]
fn accessors_return_the_constructed_values() {
    let b = sol();
    assert_eq!(b.name(), "Sol");
    assert_eq!(b.mass(), 132712440041939);
    assert_eq!(b.radius(), 1408);
    assert_eq!(b.position(), Vec3 { x: 4494340, y: 910461, z: -60994 });
    assert_eq!(b.velocity(), Vec3 { x: -472, y: 5597, z: -12 });
}

#[test]
fn apply_acceleration_integrates_velocity() {
    let mut b = Body::new(
        "probe".to_string(),
        0,
        1,
        Vec3 { x: 0, y: 0, z: 0 },
        Vec3 { x: 10, y: -10, z: 0 },
    );
    // dv = a * dt / TIME_SCALE, rounded toward zero: 3 * 1_500_000 / 1_000_000
    // is 4.5, so +4 on x; -3 * 1_500_000 / 1_000_000 is -4.5, so -4 on y.
    b.apply_acceleration(Vec3 { x: 3, y: -3, z: 2 }, 1_500_000);
    assert_eq!(b.velocity(), Vec3 { x: 14, y: -14, z: 3 });
    // The position is untouched by a kick.
    assert_eq!(b.position(), Vec3 { x: 0, y: 0, z: 0 });
}

#[test]
fn update_position_integrates_position() {
    let mut b = Body::new(
        "probe".to_string(),
        0,
        1,
        Vec3 { x: 100, y: 0, z: -100 },
        Vec3 { x: 7, y: -7, z: 1 },
    );
    // dp = v * dt / TIME_SCALE: 7 * 500_000 / 1_000_000 is 3.5, so +3 / -3.
    b.update_position(500_000);
    assert_eq!(b.position(), Vec3 { x: 103, y: -3, z: -100 });
    // The velocity is untouched by a drift.
    assert_eq!(b.velocity(), Vec3 { x: 7, y: -7, z: 1 });
}

#[test]
fn negative_time_reverses_a_drift() {
    let mut b = Body::new(
        "probe".to_string(),
        0,
        1,
        Vec3 { x: 0, y: 0, z: 0 },
        Vec3 { x: 5, y: 0, z: 0 },
    );
    b.update_position(1_000_000);
    assert_eq!(b.position(), Vec3 { x: 5, y: 0, z: 0 });
    b.update_position(-1_000_000);
    assert_eq!(b.position(), Vec3 { x: 0, y: 0, z: 0 });
}
