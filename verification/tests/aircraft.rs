use camden::aircraft::{Aircraft, AircraftDb, AircraftType, EngineType, guess_aircraft_types, guess_aircraft_types_probed, pick_best_at};

fn model(designator: &str, name: &str) -> Aircraft {
    Aircraft {
        name: name.to_owned(),
        description: String::new(),
        wtc: "M".to_owned(),
        wtg: "MEDIUM".to_owned(),
        designator: designator.to_owned(),
        manufacturer_code: "BOEING".to_owned(),
        aircraft_type: AircraftType::LandPlane,
        engine_count: 2,
        engine_type: EngineType::Jet,
    }
}

fn small_db() -> AircraftDb {
    AircraftDb::from_models(vec![
        model("B738", "737-800"),
        model("B738", "737-800BCF"),
        model("A320", "A-320"),
        model("C17", "C-17 Globemaster 3"),
    ])
}

#[test]
fn test_atype() {
    let db = small_db();
    let atype = guess_aircraft_types(&db, "B738");
    assert!(atype.is_some());
    let atype = atype.unwrap();
    assert_eq!(atype.name, "737-800");
}

#[test]
fn guess_takes_longest_prefix() {
    let db = small_db();
    // a match on the first three characters after the four-character probe misses
    let atype = guess_aircraft_types(&db, "C17X");
    assert_eq!(atype.unwrap().name, "C-17 Globemaster 3");
    assert!(guess_aircraft_types(&db, "ZZZZ").is_none());
    assert!(guess_aircraft_types(&db, "").is_none());
}

#[test]
fn guess_probe_count_is_bounded() {
    let db = small_db();
    let (_r, probes) = guess_aircraft_types_probed(&db, "ZZ");
    assert!(probes <= 2);
    let (_r, probes) = guess_aircraft_types_probed(&db, "ZZZZZZZZ");
    assert!(probes <= 4);
    let (r, probes) = guess_aircraft_types_probed(&db, "A320");
    assert!(r.is_some());
    assert!(probes <= 4);
}

#[test]
fn first_record_wins_a_shared_designator() {
    let db = small_db();
    assert_eq!(guess_aircraft_types(&db, "B738").unwrap().name, "737-800");
    let options = vec![model("B738", "first"), model("B738", "second")];
    assert_eq!(pick_best_at(&options).name, "first");
}
