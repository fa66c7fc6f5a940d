use nbodysim::body::Body;
use nbodysim::system::System;
use nbodysim::vec3::Vec3;

/// One day, in the integrator's time units of 10^-6 day.
const DAY: i64 = 1_000_000;

/// Build a body from astronomical values: a gravitational parameter in
/// km^3/s^2, a radius in km, positions in AU and velocities in AU/day.
fn astro_body(name: &str, gm: f64, radius_km: f64, p: [f64; 3], v: [f64; 3]) -> Body {
    Body::new(
        name.to_string(),
        (gm * 1e3).round() as i64,
        (radius_km * 1e3).round() as i64,
        Vec3 {
            x: (p[0] * 1e9).round() as i64,
            y: (p[1] * 1e9).round() as i64,
            z: (p[2] * 1e9).round() as i64,
        },
        Vec3 {
            x: (v[0] * 1e9).round() as i64,
            y: (v[1] * 1e9).round() as i64,
            z: (v[2] * 1e9).round() as i64,
        },
    )
}

/// The Sun and the four inner planets on 1969-07-16, barycentric ecliptic
/// coordinates in AU and AU/day.
fn inner_solar_system() -> System {
    let mut sys = System::new();
    sys.add(astro_body(
        "(10)Sun",
        132712440041.93938,
        695700.0,
        [0.004494340582683912, 0.0009104614297180857, -0.00006099490045495054],
        [-4.728900304182371e-7, 5.597222756099664e-6, -1.29597103647589e-8],
    ));
    sys.add(astro_body(
        "(199)Mercury",
        22031.86855,
        2440.0,
        [0.06070711234471207, 0.3026468028702081, 0.01941189349867229],
        [-0.03329788198291871, 0.006209252911230533, 0.003565339249484719],
    ));
    sys.add(astro_body(
        "(299)Venus",
        324858.592,
        6051.8,
        [0.7277190107771533, -0.05797334573515864, -0.04262367265271026],
        [0.001548125944714224, 0.02007264491630452, 0.0001831615503605528],
    ));
    sys.add(astro_body(
        "(399)Earth",
        398600.435436,
        6371.01,
        [0.4133060075292528, -0.9296817278172866, -0.0001236944559827514],
        [0.01547590112466981, 0.006866255831713478, 9.70628931268737e-7],
    ));
    sys.add(astro_body(
        "(499)Mars",
        42828.375214,
        3389.5,
        [0.1509005281414424, -1.434525832388259, -0.03372714180567889],
        [0.01445229001740577, 0.002626682942613087, -0.0003013214316118337],
    ));
    sys
}

/// The distance in AU between two bodies of the system.
fn distance_au(sys: &System, i: usize, j: usize) -> f64 {
    let a = sys.object_from_index(i).unwrap().position();
    let b = sys.object_from_index(j).unwrap().position();
    let dx = (a.x - b.x) as f64;
    let dy = (a.y - b.y) as f64;
    let dz = (a.z - b.z) as f64;
    (dx * dx + dy * dy + dz * dz).sqrt() / 1e9
}

fn simulate_days(sys: &mut System, days: usize) {
    for _ in 0..days {
        assert_eq!(sys.kick_drift_kick_step(DAY), Ok(()));
    }
}

/// After almost exactly one orbital period, a planet's distance from its
/// star must be back within a small relative tolerance of where it started.
fn assert_distance_kept(sys: &System, start: &System, index: usize) {
    let before = distance_au(start, 0, index);
    let after = distance_au(sys, 0, index);
    let relative = ((after - before) / before).abs();
    assert!(
        relative < 2.0e-2,
        "body {} drifted from {} AU to {} AU ({} relative)",
        index,
        before,
        after,
        relative
    );
}

#[test]
fn simulate_planets_for_year() {
    let start = inner_solar_system();
    let mut sys = inner_solar_system();
    // 365 days is close enough to one Earth period for the phase to line
    // up again; Venus is nearly circular, so any phase will do.
    simulate_days(&mut sys, 365);
    assert_distance_kept(&sys, &start, 2);
    assert_distance_kept(&sys, &start, 3);
}

#[test]
fn simulate_planets_for_decade() {
    let start = inner_solar_system();
    let mut sys = inner_solar_system();
    // Ten sidereal years; Venus's orbit is circular enough for its
    // star distance to be phase-independent over the whole horizon.
    simulate_days(&mut sys, 3652);
    assert_distance_kept(&sys, &start, 2);
}

#[test]
fn simulated_year_keeps_mercury_bound() {
    let mut sys = inner_solar_system();
    simulate_days(&mut sys, 365);
    // Mercury stays between perihelion and aphelion of its real orbit,
    // with a broad margin for the integrator's step size.
    let d = distance_au(&sys, 0, 1);
    assert!(0.2 < d && d < 0.6, "Mercury at {} AU", d);
}
