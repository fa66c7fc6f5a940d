use nbodysim::body::Body;
use nbodysim::system::System;
use nbodysim::vec3::Vec3;

fn sol() -> Body {
    Body::new(
        "Sol".to_string(),
        132712440041939,
        1408,
        Vec3 { x: 4494340, y: 910461, z: -60994 },
        Vec3 { x: -472, y: 5597, z: -12 },
    )
}

#[test]
fn body_record_has_the_documented_shape() {
    let b = Body::new(
        "Sol".to_string(),
        5,
        7,
        Vec3 { x: 1, y: -2, z: 3 },
        Vec3 { x: 0, y: 0, z: -1 },
    );
    assert_eq!(b.encode(), "3:Sol 5 7 1 -2 3 0 0 -1;");
}

#[test]
fn body_save_and_load() {
    let b = sol();
    let record = b.encode();
    let back = Body::decode(record.as_str()).expect("a canonical record decodes");
    assert_eq!(back, b);
}

#[test]
fn name_with_separators_round_trips() {
    let b = Body::new(
        "1 Ceres; (A801: AA)".to_string(),
        62628,
        722336,
        Vec3 { x: 1_592_773_884, y: -2_463_766_259, z: -365_347_844 },
        Vec3 { x: 8_151_272, y: 5_008_550, z: -1_362_500 },
    );
    let back = Body::decode(b.encode().as_str()).expect("a canonical record decodes");
    assert_eq!(back, b);
}

#[test]
fn system_save_and_load() {
    let mut sys = System::new();
    sys.add(sol());
    sys.add(Body::new(
        "(399)Earth".to_string(),
        398600435,
        5510,
        Vec3 { x: 413_306_007, y: -929_681_727, z: -123_694 },
        Vec3 { x: 15_475_901, y: 6_866_255, z: 970 },
    ));
    let record = sys.encode();
    let back = System::decode(record.as_str()).expect("a canonical record decodes");
    assert_eq!(back.size(), 2);
    for i in 0..sys.size() {
        let want = sys.object_from_index(i).unwrap();
        let got = back.object_from_index(i).unwrap();
        assert_eq!(got, want);
    }
}

#[test]
fn empty_system_round_trips() {
    let sys = System::new();
    let record = sys.encode();
    assert_eq!(record, "");
    let back = System::decode(record.as_str()).expect("the empty record decodes");
    assert_eq!(back.size(), 0);
}

#[test]
fn malformed_records_are_rejected() {
    assert!(Body::decode("").is_none());
    assert!(Body::decode("3:Sol").is_none());
    assert!(Body::decode("3:Sol 5 7 1 -2 3 0 0 -1").is_none());
    assert!(Body::decode("x:Sol 5 7 1 -2 3 0 0 -1;").is_none());
    assert!(Body::decode("4:Sol 5 7 1 -2 3 0 0 -1;").is_none());
    // Trailing garbage after one full record.
    assert!(Body::decode("3:Sol 5 7 1 -2 3 0 0 -1; ").is_none());
    // A mass outside the working range.
    assert!(Body::decode("3:Sol -5 7 1 -2 3 0 0 -1;").is_none());
    assert!(Body::decode("3:Sol 9223372036854775807 7 1 -2 3 0 0 -1;").is_none());
    // A position outside the working range.
    assert!(Body::decode("3:Sol 5 7 3000000000000 -2 3 0 0 -1;").is_none());
    assert!(System::decode("3:Sol 5 7 1 -2 3 0 0 -1; junk").is_none());
}
