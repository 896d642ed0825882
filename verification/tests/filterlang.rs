use camden::lee::condition::{Dec, Operator, PartCondition, Value};
use camden::lee::parser::make_expr;
use camden::moving::{FlightPlan, Pilot};
use camden::types::Point;
use camden::web::filter::{check_query, make_filter};

fn plan(aircraft: &str, departure: &str, arrival: &str) -> FlightPlan {
    FlightPlan {
        flight_rules: "I".to_owned(),
        aircraft: aircraft.to_owned(),
        departure: departure.to_owned(),
        arrival: arrival.to_owned(),
        alternate: String::new(),
        cruise_tas: 450,
        altitude: 36000,
        deptime: String::new(),
        enroute_time: String::new(),
        fuel_time: String::new(),
        remarks: String::new(),
        route: String::new(),
    }
}

fn pilot(callsign: &str, alt: i32, lat: i64, lng: i64, fp: Option<FlightPlan>) -> Pilot {
    Pilot {
        cid: 1000001,
        name: "Test Pilot".to_owned(),
        callsign: callsign.to_owned(),
        server: "TEST".to_owned(),
        pilot_rating: 1,
        position: Point { lat, lng },
        altitude: alt,
        groundspeed: 430,
        transponder: "2000".to_owned(),
        heading: 90,
        qnh_i_hg: 2992,
        qnh_mb: 1013,
        flight_plan: fp,
        logon_time: 1_700_000_000,
        last_updated: 1_700_000_300,
        aircraft_type: None,
    }
}

#[test]
fn callsign_regex_filters_pilots() {
    let expr = make_filter("callsign =~ \"^AAL\"").unwrap();
    let aal = pilot("AAL1", 35000, 40_000_000, -74_000_000, None);
    let dal = pilot("DAL2", 35000, 40_000_000, -74_000_000, None);
    assert!(expr.evaluate(&aal));
    assert!(!expr.evaluate(&dal));
}

#[test]
fn evaluation_is_repeatable() {
    let expr = make_filter("alt > 30000 && gs >= 400").unwrap();
    let p = pilot("AAL1", 35000, 0, 0, None);
    let first = expr.evaluate(&p);
    let second = expr.evaluate(&p);
    assert!(first);
    assert_eq!(first, second);
}

#[test]
fn boolean_combination_is_left_associative() {
    // a && b || c reads (a && b) || c: with a false and c true it holds
    let expr = make_filter("alt > 90000 && gs > 0 || gs >= 400").unwrap();
    let p = pilot("AAL1", 35000, 0, 0, None);
    assert!(expr.evaluate(&p));
}

#[test]
fn decimal_comparisons_are_exact() {
    let expr = make_filter("lat < 40.5 && lng <= -73.9").unwrap();
    let inside = pilot("AAL1", 0, 40_499_999, -74_000_000, None);
    let outside = pilot("AAL2", 0, 40_500_001, -74_000_000, None);
    assert!(expr.evaluate(&inside));
    assert!(!expr.evaluate(&outside));
}

#[test]
fn flight_plan_fields_are_false_without_a_plan() {
    let expr = make_filter("arrival == \"EGLL\"").unwrap();
    let without = pilot("AAL1", 0, 0, 0, None);
    let with = pilot("AAL2", 0, 0, 0, Some(plan("B738", "KJFK", "EGLL")));
    assert!(!expr.evaluate(&without));
    assert!(expr.evaluate(&with));
}

#[test]
fn a_bad_regex_fails_matches_and_passes_not_matches() {
    let cond = PartCondition {
        ident: "callsign".to_owned(),
        operator: Operator::Matches,
        value: Value::String("[".to_owned()),
    };
    assert!(!cond.eval_str(&"AAL1".to_owned()));
    let cond = PartCondition {
        ident: "callsign".to_owned(),
        operator: Operator::NotMatches,
        value: Value::String("[".to_owned()),
    };
    assert!(cond.eval_str(&"AAL1".to_owned()));
}

#[test]
fn ordering_operators_on_strings_are_false() {
    let cond = PartCondition {
        ident: "callsign".to_owned(),
        operator: Operator::Less,
        value: Value::String("ZZZ".to_owned()),
    };
    assert!(!cond.eval_str(&"AAL1".to_owned()));
}

#[test]
fn integer_field_against_decimal_literal() {
    let cond = PartCondition {
        ident: "alt".to_owned(),
        operator: Operator::Less,
        value: Value::Float(Dec { mant: 305, scale: 1 }),
    };
    assert!(cond.eval_i64(30));
    assert!(!cond.eval_i64(31));
}

#[test]
fn a_truncated_query_is_a_parse_error() {
    assert!(make_expr("alt >").is_err());
    let err = check_query("alt >").unwrap_err();
    assert_eq!(err.code, 400);
}

#[test]
fn an_unknown_field_is_a_compile_error() {
    assert!(make_expr("speed > 100").is_ok());
    let err = check_query("speed > 100").unwrap_err();
    assert_eq!(err.code, 400);
    assert!(err.message.contains("error compiling query"));
}

#[test]
fn a_valid_query_checks_out() {
    let ok = check_query("callsign =~ \"^AAL\" && alt > 10000").unwrap();
    assert_eq!(ok.status, "ok");
}

#[test]
fn operator_literals_round_trip_through_the_lexer() {
    for (text, op) in [
        ("=~", Operator::Matches),
        ("!~", Operator::NotMatches),
        ("==", Operator::Equals),
        ("!=", Operator::NotEquals),
        ("<", Operator::Less),
        ("<=", Operator::LessOrEqual),
        (">", Operator::Greater),
        (">=", Operator::GreaterOrEqual),
    ] {
        assert_eq!(op.literal(), text);
        let q = format!("alt {} 10", text);
        assert!(make_expr(&q).is_ok());
    }
}

#[test]
fn parenthesised_subexpressions_parse() {
    let expr = make_filter("(alt > 10000 || gs > 100) && callsign == \"AAL1\"").unwrap();
    let p = pilot("AAL1", 35000, 0, 0, None);
    assert!(expr.evaluate(&p));
    let q = pilot("DAL2", 35000, 0, 0, None);
    assert!(!expr.evaluate(&q));
}

#[test]
fn an_unterminated_string_is_a_parse_error() {
    assert!(make_expr("callsign == \"AAL").is_err());
}

#[test]
fn a_lone_ampersand_is_a_parse_error() {
    assert!(make_expr("alt > 1 & gs > 2").is_err());
}

#[test]
fn trailing_tokens_are_a_parse_error() {
    assert!(make_expr("alt > 1 gs").is_err());
}

#[test]
fn numbers_keep_their_sign_and_decimals() {
    let expr = make_filter("lng < -73.5 && lat > -10").unwrap();
    let p = pilot("AAL1", 0, -5_000_000, -74_000_000, None);
    assert!(expr.evaluate(&p));
}

#[test]
fn value_type_names_each_literal_kind() {
    assert_eq!(Value::Integer(5).value_type(), "integer");
    assert_eq!(Value::Float(Dec { mant: 15, scale: 1 }).value_type(), "float");
    assert_eq!(Value::String("x".to_owned()).value_type(), "string");
    assert_eq!(Value::Integer(5).as_string(), "int(5)");
}

#[test]
fn message_payload_emptiness_checks_every_kind() {
    let empty = camden::web::message::ObjectsSet { pilots: Some(Vec::new()), airports: None, firs: None };
    assert!(empty.is_empty());
    let full = camden::web::message::ObjectsSet {
        pilots: Some(vec![pilot("AAL1", 0, 0, 0, None)]),
        airports: None,
        firs: None,
    };
    assert!(!full.is_empty());
    let u = camden::web::message::Update { set: None, delete: None };
    assert!(u.is_empty());
}
