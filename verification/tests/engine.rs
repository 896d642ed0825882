use camden::fixed::{Airport, Boundaries, FIR, GeoShape, GeonamesCountry};
use camden::manager::{Manager, Snapshot};
use camden::moving::{Controller, Facility, Pilot, RawController, controller_from_raw, pilot_from_raw, RawPilot};
use camden::strmap::StrMap;
use camden::types::{Envelope, Point, Rect};
use camden::web::session::{SessionState, chunk_pilot_sets, session_tick};
use camden::weather::WeatherManager;

fn pilot(callsign: &str, lat: i64, lng: i64) -> Pilot {
    Pilot {
        cid: 1000001,
        name: "Test Pilot".to_owned(),
        callsign: callsign.to_owned(),
        server: "TEST".to_owned(),
        pilot_rating: 1,
        position: Point { lat, lng },
        altitude: 35000,
        groundspeed: 430,
        transponder: "2000".to_owned(),
        heading: 90,
        qnh_i_hg: 2992,
        qnh_mb: 1013,
        flight_plan: None,
        logon_time: 1_700_000_000,
        last_updated: 1_700_000_300,
        aircraft_type: None,
    }
}

fn controller(callsign: &str, facility: Facility) -> Controller {
    Controller {
        cid: 900001,
        name: "Test Controller".to_owned(),
        callsign: callsign.to_owned(),
        freq: 118_375,
        facility,
        rating: 5,
        server: "TEST".to_owned(),
        visual_range: 50,
        atis_code: String::new(),
        text_atis: String::new(),
        human_readable: None,
        last_updated: 1_700_000_300,
        logon_time: 1_700_000_000,
    }
}

fn airport(icao: &str, iata: &str, lat: i64, lng: i64) -> Airport {
    Airport {
        icao: icao.to_owned(),
        iata: iata.to_owned(),
        name: icao.to_owned(),
        position: Point { lat, lng },
        fir_id: String::new(),
        is_pseudo: false,
        controllers: camden::moving::ControllerSet::empty(),
        runways: StrMap::new(),
    }
}

fn fir(icao: &str, min: Point, max: Point) -> FIR {
    FIR {
        icao: icao.to_owned(),
        name: icao.to_owned(),
        prefix: icao.to_owned(),
        boundaries: Boundaries {
            id: icao.to_owned(),
            region: String::new(),
            division: String::new(),
            is_oceanic: false,
            min,
            max,
            center: Point { lat: 0, lng: 0 },
            points: Vec::new(),
        },
        controllers: StrMap::new(),
    }
}

fn snapshot(at: i64, pilots: Vec<Pilot>, controllers: Vec<Controller>) -> Snapshot {
    Snapshot { updated_at: at, pilots, controllers }
}

fn viewport() -> Rect {
    Rect::new(-80_000_000, 35_000_000, -70_000_000, 45_000_000)
}

#[test]
fn single_pilot_appears_then_disappears() {
    let mut m = Manager::new(false);
    let conn = "conn-000000000000000".to_owned();
    let mut session = SessionState::new();
    let rect = viewport();

    let out = m.process_snapshot(snapshot(100, vec![pilot("AAL1", 40_000_000, -74_000_000)], vec![]), 1000);
    assert!(out.processed);
    let msgs = session_tick(&conn, &m, &rect, false, None, &mut session);
    assert_eq!(msgs.len(), 1);
    let set = msgs[0].data.set.as_ref().unwrap().pilots.as_ref().unwrap();
    assert_eq!(set.len(), 1);
    assert_eq!(set[0].callsign, "AAL1");

    let out = m.process_snapshot(snapshot(200, vec![], vec![]), 1005);
    assert!(out.processed);
    let msgs = session_tick(&conn, &m, &rect, false, None, &mut session);
    assert_eq!(msgs.len(), 1);
    let del = msgs[0].data.delete.as_ref().unwrap().pilots.as_ref().unwrap();
    assert_eq!(del.len(), 1);
    assert_eq!(del[0].callsign, "AAL1");
}

#[test]
fn a_second_pass_of_the_same_snapshot_is_silent() {
    let mut m = Manager::new(false);
    let conn = "conn-000000000000001".to_owned();
    let mut session = SessionState::new();
    let rect = viewport();

    m.process_snapshot(snapshot(100, vec![pilot("AAL1", 40_000_000, -74_000_000)], vec![]), 1000);
    let first = session_tick(&conn, &m, &rect, false, None, &mut session);
    assert_eq!(first.len(), 1);

    // the same snapshot again: the manager skips it as stale
    let out = m.process_snapshot(snapshot(100, vec![pilot("AAL1", 40_000_000, -74_000_000)], vec![]), 1005);
    assert!(!out.processed);
    let second = session_tick(&conn, &m, &rect, false, None, &mut session);
    assert_eq!(second.len(), 0);
}

#[test]
fn a_wrapped_viewport_sees_both_sides_of_the_antimeridian() {
    let mut m = Manager::new(false);
    m.process_snapshot(
        snapshot(100, vec![pilot("QFA1", 5_000_000, 175_000_000), pilot("UAL2", 5_000_000, -175_000_000), pilot("FAR3", 5_000_000, 0)], vec![]),
        1000,
    );
    let rect = Rect::new(170_000_000, 0, -170_000_000, 10_000_000);
    let found = m.get_pilots(&rect);
    let mut names: Vec<String> = found.iter().map(|p| p.callsign.clone()).collect();
    names.sort();
    assert_eq!(names, vec!["QFA1".to_owned(), "UAL2".to_owned()]);
}

#[test]
fn a_filtered_session_never_sends_the_rejected_pilot() {
    let mut m = Manager::new(false);
    let conn = "conn-000000000000002".to_owned();
    let mut session = SessionState::new();
    let rect = viewport();
    let filter = camden::web::filter::make_filter("callsign =~ \"^AAL\"").unwrap();

    m.process_snapshot(
        snapshot(100, vec![pilot("AAL1", 40_000_000, -74_000_000), pilot("DAL2", 40_000_000, -74_000_000)], vec![]),
        1000,
    );
    let msgs = session_tick(&conn, &m, &rect, false, Some(&filter), &mut session);
    assert_eq!(msgs.len(), 1);
    let set = msgs[0].data.set.as_ref().unwrap().pilots.as_ref().unwrap();
    assert_eq!(set.len(), 1);
    assert_eq!(set[0].callsign, "AAL1");
}

#[test]
fn large_sets_are_chunked_in_hundreds() {
    let conn = "conn-000000000000003".to_owned();
    let mut set = Vec::new();
    for i in 0..250 {
        set.push(pilot(&format!("AAL{}", i), 40_000_000, -74_000_000));
    }
    let msgs = chunk_pilot_sets(&conn, set);
    assert_eq!(msgs.len(), 3);
    let lens: Vec<usize> = msgs
        .iter()
        .map(|msg| msg.data.set.as_ref().unwrap().pilots.as_ref().unwrap().len())
        .collect();
    assert_eq!(lens, vec![100, 100, 50]);
    assert!(chunk_pilot_sets(&conn, Vec::new()).is_empty());
}

#[test]
fn reconciliation_replaces_the_callsign_set() {
    let mut m = Manager::new(false);
    m.process_snapshot(snapshot(100, vec![pilot("AAL1", 0, 0), pilot("DAL2", 0, 0)], vec![]), 1000);
    m.process_snapshot(snapshot(200, vec![pilot("DAL2", 1_000_000, 0), pilot("UAL3", 0, 0)], vec![]), 1005);
    assert!(m.get_pilot_by_callsign(&"AAL1".to_owned()).is_none());
    let d = m.get_pilot_by_callsign(&"DAL2".to_owned()).unwrap();
    assert_eq!(d.position.lat, 1_000_000);
    assert!(m.get_pilot_by_callsign(&"UAL3".to_owned()).is_some());
}

#[test]
fn controllers_attach_to_airports_and_regions() {
    let mut m = Manager::new(false);
    m.add_airport(airport("EGLL", "LHR", 51_470_000, -454_000));
    m.add_fir(fir("EGTT", Point { lat: 49_000_000, lng: -8_000_000 }, Point { lat: 55_000_000, lng: 2_000_000 }));

    let twr = controller("EGLL_TWR", Facility::Tower);
    let ctr = controller("EGTT_CTR", Facility::Radar);
    let out = m.process_snapshot(snapshot(100, vec![], vec![twr, ctr]), 1000);
    assert!(out.processed);
    assert!(out.atis_airports.is_empty());

    let a = m.find_airport(&"EGLL".to_owned()).unwrap();
    assert!(a.controllers.tower.is_some());
    let firs = m.get_all_firs();
    assert_eq!(firs.len(), 1);
    assert_eq!(firs[0].icao, "EGTT");

    // the controllers leave with the next snapshot
    m.process_snapshot(snapshot(200, vec![], vec![]), 1005);
    let a = m.find_airport(&"EGLL".to_owned()).unwrap();
    assert!(a.controllers.tower.is_none());
    assert!(m.get_all_firs().is_empty());
}

#[test]
fn an_atis_controller_asks_for_runway_rederivation() {
    let mut m = Manager::new(false);
    m.add_airport(airport("EGLL", "LHR", 51_470_000, -454_000));
    let atis = controller("EGLL_ATIS", Facility::ATIS);
    let out = m.process_snapshot(snapshot(100, vec![], vec![atis]), 1000);
    assert_eq!(out.atis_airports, vec!["EGLL".to_owned()]);
}

#[test]
fn the_cleanup_cadence_fires_every_fifth_tick() {
    let mut m = Manager::new(false);
    let mut fired = Vec::new();
    for t in 0..10 {
        let out = m.process_snapshot(snapshot(100 + t, vec![], vec![]), 1000 + t);
        fired.push(out.do_cleanup);
    }
    assert_eq!(fired, vec![false, false, false, false, true, false, false, false, false, true]);
}

#[test]
fn track_appends_follow_the_snapshot_order() {
    let mut m = Manager::new(true);
    let out = m.process_snapshot(snapshot(100, vec![pilot("AAL1", 1_000_000, 2_000_000)], vec![]), 1000);
    assert_eq!(out.track_appends.len(), 1);
    assert_eq!(out.track_appends[0].code, "1000001:AAL1:1700000000");
    assert_eq!(out.track_appends[0].point.lat, 1_000_000);
    assert_eq!(out.track_appends[0].point.ts, 1_700_000_300);
}

#[test]
fn facility_codes_round_trip() {
    for code in 0i8..=6i8 {
        let f = Facility::from(code);
        assert_eq!(f.code(), code);
    }
    assert_eq!(Facility::from(-1), Facility::Reject);
    assert_eq!(Facility::from(7), Facility::Reject);
    assert_eq!(Facility::from(99), Facility::Reject);
}

#[test]
fn controller_decode_normalizes_the_record() {
    let raw = RawController {
        cid: 900001,
        name: "Name".to_owned(),
        callsign: "EGLL_ATIS".to_owned(),
        freq_khz: 118_375,
        facility: 1,
        rating: 5,
        server: "TEST".to_owned(),
        visual_range: 50,
        atis_code: None,
        text_atis: Some(vec!["LINE ONE".to_owned(), "LINE TWO".to_owned()]),
        logon_time: "not a timestamp".to_owned(),
        last_updated: "not a timestamp".to_owned(),
    };
    let (c, fails) = controller_from_raw(raw, 424242);
    assert_eq!(c.facility, Facility::ATIS);
    assert_eq!(c.text_atis, "LINE ONE\nLINE TWO");
    assert_eq!(c.atis_code, "");
    // unparsable timestamps fall back to the supplied instant
    assert_eq!(c.logon_time, 424242);
    assert_eq!(c.last_updated, 424242);
    assert_eq!(fails, 2);
}

#[test]
fn pilot_decode_parses_timestamps_and_plan_numbers() {
    let raw = RawPilot {
        cid: 1000001,
        name: "Name".to_owned(),
        callsign: "AAL1".to_owned(),
        server: "TEST".to_owned(),
        pilot_rating: 1,
        lat_micro: 40_000_000,
        lng_micro: -74_000_000,
        altitude: 35000,
        groundspeed: 430,
        transponder: "2000".to_owned(),
        heading: 90,
        qnh_i_hg: 2992,
        qnh_mb: 1013,
        flight_plan: Some(camden::moving::RawFlightPlan {
            flight_rules: "I".to_owned(),
            aircraft: "B738/M".to_owned(),
            departure: "KJFK".to_owned(),
            arrival: "EGLL".to_owned(),
            alternate: "EGKK".to_owned(),
            cruise_tas: "450".to_owned(),
            altitude: "junk".to_owned(),
            deptime: "1200".to_owned(),
            enroute_time: "0600".to_owned(),
            fuel_time: "0800".to_owned(),
            remarks: String::new(),
            route: "DCT".to_owned(),
        }),
        logon_time: "2023-11-14T22:13:20Z".to_owned(),
        last_updated: "bad".to_owned(),
    };
    let db = camden::aircraft::AircraftDb::from_models(Vec::new());
    let (p, fails) = pilot_from_raw(raw, &db, 777);
    let fp = p.flight_plan.as_ref().unwrap();
    assert_eq!(fp.cruise_tas, 450);
    assert_eq!(fp.altitude, 0);
    assert_eq!(p.logon_time, 1_700_000_000);
    assert_eq!(p.last_updated, 777);
    assert_eq!(fails, 1);
}

#[test]
fn reverse_geocoding_finds_the_surrounding_shape() {
    let mut m = Manager::new(false);
    m.add_geonames_country(GeonamesCountry {
        iso: "US".to_owned(),
        iso3: "USA".to_owned(),
        name: "United States".to_owned(),
        capital: "Washington".to_owned(),
        continent: "NA".to_owned(),
        neighbours: "CA,MX".to_owned(),
        geoname_id: 6252001,
    });
    let ring = vec![
        Point { lat: 30_000_000, lng: -80_000_000 },
        Point { lat: 30_000_000, lng: -70_000_000 },
        Point { lat: 45_000_000, lng: -70_000_000 },
        Point { lat: 45_000_000, lng: -80_000_000 },
    ];
    m.add_shape(GeoShape {
        ref_id: 6252001,
        ring,
        bbox: Envelope { min_lng: -80_000_000, min_lat: 30_000_000, max_lng: -70_000_000, max_lat: 45_000_000 },
    });
    let inside = m.search_country(Point { lat: 40_000_000, lng: -74_000_000 }).unwrap();
    assert_eq!(inside.iso, "US");
    assert!(m.search_country(Point { lat: 10_000_000, lng: -74_000_000 }).is_none());
}

#[test]
fn weather_blackout_doubles_on_repeated_empty_answers() {
    let mut wx = WeatherManager::new(600);
    let loc = "XXXX".to_owned();
    let t0 = 1_000_000;
    wx.note_empty_response(&loc, t0);
    assert!(wx.is_blacklisted(&loc, t0 + 3599));
    assert!(!wx.is_blacklisted(&loc, t0 + 3601));
    // a second empty answer: exactly two hours
    wx.note_empty_response(&loc, t0 + 4000);
    assert!(wx.is_blacklisted(&loc, t0 + 4000 + 7200));
    assert!(!wx.is_blacklisted(&loc, t0 + 4000 + 7201));
    // a third after expiry: four hours
    wx.note_empty_response(&loc, t0 + 20_000);
    assert!(wx.is_blacklisted(&loc, t0 + 20_000 + 14_400));
    assert!(!wx.is_blacklisted(&loc, t0 + 20_000 + 14_401));
}

#[test]
fn the_preload_plan_skips_cached_and_blacklisted_stations() {
    let mut wx = WeatherManager::new(600);
    let now = 1_000_000;
    wx.note_empty_response(&"AAAA".to_owned(), now);
    wx.note_result(
        &"BBBB".to_owned(),
        Some(camden::weather::Metar {
            icao_id: "BBBB".to_owned(),
            receipt_time: now - 10,
            report_time: now - 20,
            temp: Some(155),
            dewp: Some(100),
            wdir: None,
            wspd: Some(10),
            wgst: None,
            raw_ob: "BBBB 121200Z".to_owned(),
        }),
        now,
    );
    let plan = wx.preload_plan(&vec!["AAAA".to_owned(), "BBBB".to_owned(), "CCCC".to_owned()], now);
    assert_eq!(plan, vec!["CCCC".to_owned()]);
    // the cached station answers from the cache while fresh
    let hit = wx.get_cached(&"BBBB".to_owned(), now).unwrap();
    assert_eq!(hit.temperature, Some(155));
    assert!(wx.get_cached(&"BBBB".to_owned(), now + 1000).is_none());
}

#[test]
fn diff_is_empty_when_nothing_changed() {
    let mut state = StrMap::new();
    let candidates = vec![pilot("AAL1", 0, 0), pilot("DAL2", 0, 0)];
    let (set, del) = camden::web::session::calc_pilots(&candidates, &mut state);
    assert_eq!(set.len(), 2);
    assert_eq!(del.len(), 0);
    let candidates = vec![pilot("AAL1", 0, 0), pilot("DAL2", 0, 0)];
    let (set, del) = camden::web::session::calc_pilots(&candidates, &mut state);
    assert_eq!(set.len(), 0);
    assert_eq!(del.len(), 0);
}

#[test]
fn test_counter() {
    let mut counter = camden::util::Counter::new();
    counter.inc(&"abc".to_owned());
    counter.inc(&"abc".to_owned());
    let keys = counter.keys();
    assert_eq!(keys.len(), 1);
    assert_eq!(keys[0], "abc");
    assert_eq!(counter.get(&"abc".to_owned()), 2);
}

#[test]
fn airports_are_found_by_icao_or_compound_key() {
    let mut m = Manager::new(false);
    m.add_airport(airport("EGLL", "LHR", 51_470_000, -454_000));
    assert!(m.find_airport(&"EGLL".to_owned()).is_some());
    assert!(m.find_airport(&"EGLL:LHR".to_owned()).is_some());
    assert!(m.find_airport(&"egll".to_owned()).is_none());
    assert!(m.find_airport(&"EGKK".to_owned()).is_none());
}

#[test]
fn runway_activation_follows_the_given_idents() {
    let mut a = airport("EGLL", "LHR", 51_470_000, -454_000);
    let mut runways = StrMap::new();
    runways.insert(
        "27L".to_owned(),
        camden::fixed::Runway {
            ident: "27L".to_owned(),
            heading: 271,
            length_ft: 12_001,
            active_lnd: false,
            active_to: false,
        },
    );
    runways.insert(
        "27R".to_owned(),
        camden::fixed::Runway {
            ident: "27R".to_owned(),
            heading: 271,
            length_ft: 12_799,
            active_lnd: false,
            active_to: false,
        },
    );
    a.runways = runways;
    a.set_active_runways(&vec!["27L".to_owned()], &vec!["27R".to_owned()]);
    let lnd = a.runways.get(&"27L".to_owned()).unwrap();
    assert!(lnd.active_lnd && !lnd.active_to);
    let to = a.runways.get(&"27R".to_owned()).unwrap();
    assert!(!to.active_lnd && to.active_to);
    a.reset_active_runways();
    let lnd = a.runways.get(&"27L".to_owned()).unwrap();
    assert!(!lnd.active_lnd && !lnd.active_to);
}

#[test]
fn staffed_airports_reach_the_session_stream() {
    let mut m = Manager::new(false);
    m.add_airport(airport("EGLL", "LHR", 51_470_000, -454_000));
    m.process_snapshot(snapshot(100, vec![], vec![controller("EGLL_TWR", Facility::Tower)]), 1000);
    let conn = "conn-000000000000004".to_owned();
    let mut session = SessionState::new();
    let rect = Rect::new(-10_000_000, 45_000_000, 10_000_000, 60_000_000);
    let msgs = session_tick(&conn, &m, &rect, false, None, &mut session);
    assert_eq!(msgs.len(), 1);
    assert_eq!(msgs[0].object_type, "airport");
    let set = msgs[0].data.set.as_ref().unwrap().airports.as_ref().unwrap();
    assert_eq!(set.len(), 1);
    assert_eq!(set[0].icao, "EGLL");
    // an unstaffed airport is never sent
    let mut session2 = SessionState::new();
    m.process_snapshot(snapshot(200, vec![], vec![]), 1005);
    let msgs = session_tick(&conn, &m, &rect, false, None, &mut session2);
    assert_eq!(msgs.len(), 0);
}

#[test]
fn the_compound_id_joins_icao_and_iata() {
    let a = airport("EGLL", "LHR", 0, 0);
    assert_eq!(a.compound_id(), "EGLL:LHR");
}

#[test]
fn track_code_formats_cid_callsign_and_logon() {
    let p = pilot("AAL1", 0, 0);
    assert_eq!(p.track_code(), "1000001:AAL1:1700000000");
}
