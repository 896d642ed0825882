//! Live objects of the network: pilots and controllers, and the
//! normalization of one upstream snapshot record into each.
//!
//! The boundary code decodes upstream JSON and converts its floating-point
//! fields once (coordinates to microdegrees, QNH to hundredths of an inch,
//! frequency to kilohertz); everything else about a record is normalized
//! here: facility codes, ATIS text, timestamps with their documented
//! fallback, flight-plan numbers, and the aircraft-type guess.

use vstd::prelude::*;
use crate::aircraft::{Aircraft, AircraftDb, aircraft_eq, spec_guess, guess_aircraft_types};
use crate::textnum::{spec_parse_u16, parse_u16, spec_join_lines, join_lines, dec_str, dec_str_i64, fmt_u64, fmt_i64};
use crate::types::Point;
use crate::util::{spec_time_or, parse_time_or};

verus! {

/// Deep equality of optional strings.
pub open spec fn opt_str_eq(a: Option<String>, b: Option<String>) -> bool {
    match (a, b) {
        (Option::None, Option::None) => true,
        (Option::Some(x), Option::Some(y)) => x@ == y@,
        _ => false,
    }
}

/// The kind of position a controller works.
#[derive(Debug, Clone, Copy, PartialEq, Eq, Structural)]
pub enum Facility {
    Reject,
    ATIS,
    Delivery,
    Ground,
    Tower,
    Approach,
    Radar,
}

/// The facility that an upstream integer code denotes; codes outside 0..=6
/// fold to `Reject`.
pub open spec fn spec_facility_from(v: i8) -> Facility {
    if v == 1 {
        Facility::ATIS
    } else if v == 2 {
        Facility::Delivery
    } else if v == 3 {
        Facility::Ground
    } else if v == 4 {
        Facility::Tower
    } else if v == 5 {
        Facility::Approach
    } else if v == 6 {
        Facility::Radar
    } else {
        Facility::Reject
    }
}

/// The integer code of a facility.
pub open spec fn spec_facility_code(f: Facility) -> i8 {
    match f {
        Facility::Reject => 0,
        Facility::ATIS => 1,
        Facility::Delivery => 2,
        Facility::Ground => 3,
        Facility::Tower => 4,
        Facility::Approach => 5,
        Facility::Radar => 6,
    }
}

impl From<i8> for Facility {
    /// Decode an upstream facility code.
    fn from(v: i8) -> (r: Facility) {
        match v {
            1 => Facility::ATIS,
            2 => Facility::Delivery,
            3 => Facility::Ground,
            4 => Facility::Tower,
            5 => Facility::Approach,
            6 => Facility::Radar,
            _ => Facility::Reject,
        }
    }
}

impl vstd::std_specs::convert::FromSpecImpl<i8> for Facility {
    open spec fn obeys_from_spec() -> bool {
        true
    }

    open spec fn from_spec(v: i8) -> Facility {
        spec_facility_from(v)
    }
}

impl Facility {
    /// The integer code of this facility.
    pub fn code(&self) -> (r: i8)
        ensures
            r == spec_facility_code(*self),
    {
        match self {
            Facility::Reject => 0,
            Facility::ATIS => 1,
            Facility::Delivery => 2,
            Facility::Ground => 3,
            Facility::Tower => 4,
            Facility::Approach => 5,
            Facility::Radar => 6,
        }
    }
}

/// Codes 0 through 6 survive the integer-to-facility-to-integer round trip;
/// every other code folds to `Reject`.
pub proof fn lemma_facility_roundtrip(v: i8)
    ensures
        0 <= v <= 6 ==> spec_facility_code(spec_facility_from(v)) == v,
        !(0 <= v <= 6) ==> spec_facility_from(v) == Facility::Reject,
{
}

/// One live ATC position.
#[derive(Debug)]
pub struct Controller {
    pub cid: u32,
    pub name: String,
    pub callsign: String,
    pub freq: u32,
    pub facility: Facility,
    pub rating: i32,
    pub server: String,
    pub visual_range: u32,
    pub atis_code: String,
    pub text_atis: String,
    pub human_readable: Option<String>,
    pub last_updated: i64,
    pub logon_time: i64,
}

/// Controller equality, which deliberately ignores `last_updated`: a record
/// that differs only there counts as the same controller.
pub open spec fn controller_eq(a: Controller, b: Controller) -> bool {
    &&& a.cid == b.cid
    &&& a.name@ == b.name@
    &&& a.callsign@ == b.callsign@
    &&& a.freq == b.freq
    &&& a.facility == b.facility
    &&& a.rating == b.rating
    &&& a.server@ == b.server@
    &&& a.visual_range == b.visual_range
    &&& a.atis_code@ == b.atis_code@
    &&& a.text_atis@ == b.text_atis@
    &&& opt_str_eq(a.human_readable, b.human_readable)
    &&& a.logon_time == b.logon_time
}

impl Controller {
    /// Equality without `last_updated`.
    pub fn same_as(&self, other: &Controller) -> (r: bool)
        ensures
            r == controller_eq(*self, *other),
    {
        let hr_eq: bool = match (&self.human_readable, &other.human_readable) {
            (Option::None, Option::None) => true,
            (Option::Some(x), Option::Some(y)) => x.eq(y),
            _ => false,
        };
        self.cid == other.cid
            && self.name.eq(&other.name)
            && self.callsign.eq(&other.callsign)
            && self.freq == other.freq
            && self.facility == other.facility
            && self.rating == other.rating
            && self.server.eq(&other.server)
            && self.visual_range == other.visual_range
            && self.atis_code.eq(&other.atis_code)
            && self.text_atis.eq(&other.text_atis)
            && hr_eq
            && self.logon_time == other.logon_time
    }

    /// A field-by-field copy.
    pub fn duplicate(&self) -> (r: Controller)
        ensures
            r == *self,
    {
        Controller {
            cid: self.cid,
            name: self.name.clone(),
            callsign: self.callsign.clone(),
            freq: self.freq,
            facility: self.facility,
            rating: self.rating,
            server: self.server.clone(),
            visual_range: self.visual_range,
            atis_code: self.atis_code.clone(),
            text_atis: self.text_atis.clone(),
            human_readable: match &self.human_readable {
                Option::Some(s) => Some(s.clone()),
                Option::None => None,
            },
            last_updated: self.last_updated,
            logon_time: self.logon_time,
        }
    }
}

/// One upstream controller record with its floating-point fields already
/// converted at the boundary (the frequency to kilohertz).
#[derive(Debug)]
pub struct RawController {
    pub cid: u32,
    pub name: String,
    pub callsign: String,
    pub freq_khz: u32,
    pub facility: i8,
    pub rating: i32,
    pub server: String,
    pub visual_range: u32,
    pub atis_code: Option<String>,
    pub text_atis: Option<Vec<String>>,
    pub logon_time: String,
    pub last_updated: String,
}

/// The joined ATIS text of a raw record: its lines joined by line feeds, or
/// empty when absent.
pub open spec fn spec_atis_text(ta: Option<Vec<String>>) -> Seq<char> {
    match ta {
        Option::Some(lines) => spec_join_lines(lines@.map_values(|s: String| s@)),
        Option::None => Seq::empty(),
    }
}

/// One when a timestamp text fails to parse (and the current instant
/// stood in for it), else zero: the unit of the parse-failure counter.
pub open spec fn spec_time_fail(s: Seq<char>) -> int {
    if crate::util::rfc3339_secs(s) is None {
        1int
    } else {
        0int
    }
}

/// Normalize one upstream controller record: decode the facility code, join
/// the ATIS lines, default a missing ATIS letter to empty, and parse the
/// timestamps with `now` standing in for unparsable text.
pub fn controller_from_raw(raw: RawController, now: i64) -> (r: (Controller, u64))
    ensures
        r.0.cid == raw.cid,
        r.0.name@ == raw.name@,
        r.0.callsign@ == raw.callsign@,
        r.0.freq == raw.freq_khz,
        r.0.facility == spec_facility_from(raw.facility),
        r.0.rating == raw.rating,
        r.0.server@ == raw.server@,
        r.0.visual_range == raw.visual_range,
        r.0.atis_code@ == (match raw.atis_code {
            Option::Some(s) => s@,
            Option::None => Seq::<char>::empty(),
        }),
        r.0.text_atis@ == spec_atis_text(raw.text_atis),
        r.0.human_readable is None,
        r.0.logon_time == spec_time_or(raw.logon_time@, now),
        r.0.last_updated == spec_time_or(raw.last_updated@, now),
        // how many of the record's timestamps failed to parse
        r.1 as int == spec_time_fail(raw.logon_time@) + spec_time_fail(raw.last_updated@),
{
    let facility: Facility = Facility::from(raw.facility);
    let text_atis: String = match &raw.text_atis {
        Option::Some(lines) => join_lines(lines),
        Option::None => String::new(),
    };
    let atis_code: String = match raw.atis_code {
        Option::Some(s) => s,
        Option::None => String::new(),
    };
    let (logon_time, f1) = parse_time_or_counted(&raw.logon_time, now);
    let (last_updated, f2) = parse_time_or_counted(&raw.last_updated, now);
    let c = Controller {
        cid: raw.cid,
        name: raw.name,
        callsign: raw.callsign,
        freq: raw.freq_khz,
        facility,
        rating: raw.rating,
        server: raw.server,
        visual_range: raw.visual_range,
        atis_code,
        text_atis,
        human_readable: None,
        last_updated,
        logon_time,
    };
    (c, f1 + f2)
}

/// Parse a timestamp with the fallback, reporting whether it failed.
fn parse_time_or_counted(s: &String, fallback: i64) -> (r: (i64, u64))
    ensures
        r.0 == spec_time_or(s@, fallback),
        r.1 as int == spec_time_fail(s@),
{
    match crate::util::parse_rfc3339(s) {
        Option::Some(t) => (t, 0),
        Option::None => (fallback, 1),
    }
}

/// The per-airport working set of controllers: one optional slot per
/// facility that attaches to an airport.
#[derive(Debug)]
pub struct ControllerSet {
    pub atis: Option<Controller>,
    pub delivery: Option<Controller>,
    pub ground: Option<Controller>,
    pub tower: Option<Controller>,
    pub approach: Option<Controller>,
}

/// Deep equality of optional controllers (by `controller_eq`).
pub open spec fn opt_controller_eq(a: Option<Controller>, b: Option<Controller>) -> bool {
    match (a, b) {
        (Option::None, Option::None) => true,
        (Option::Some(x), Option::Some(y)) => controller_eq(x, y),
        _ => false,
    }
}

/// Deep equality of controller sets.
pub open spec fn controller_set_eq(a: ControllerSet, b: ControllerSet) -> bool {
    &&& opt_controller_eq(a.atis, b.atis)
    &&& opt_controller_eq(a.delivery, b.delivery)
    &&& opt_controller_eq(a.ground, b.ground)
    &&& opt_controller_eq(a.tower, b.tower)
    &&& opt_controller_eq(a.approach, b.approach)
}

/// Whether every slot of a controller set is empty.
pub open spec fn spec_controller_set_empty(s: ControllerSet) -> bool {
    s.atis is None && s.delivery is None && s.ground is None && s.tower is None
        && s.approach is None
}

fn opt_controller_same(a: &Option<Controller>, b: &Option<Controller>) -> (r: bool)
    ensures
        r == opt_controller_eq(*a, *b),
{
    match (a, b) {
        (Option::None, Option::None) => true,
        (Option::Some(x), Option::Some(y)) => x.same_as(y),
        _ => false,
    }
}

fn opt_controller_duplicate(a: &Option<Controller>) -> (r: Option<Controller>)
    ensures
        r == *a,
{
    match a {
        Option::Some(c) => Some(c.duplicate()),
        Option::None => None,
    }
}

impl ControllerSet {
    /// The set with every slot empty.
    pub fn empty() -> (r: ControllerSet)
        ensures
            spec_controller_set_empty(r),
            r.atis is None && r.delivery is None && r.ground is None
                && r.tower is None && r.approach is None,
    {
        ControllerSet { atis: None, delivery: None, ground: None, tower: None, approach: None }
    }

    /// Whether every slot is empty.
    pub fn is_empty(&self) -> (r: bool)
        ensures
            r == spec_controller_set_empty(*self),
    {
        self.atis.is_none() && self.delivery.is_none() && self.ground.is_none()
            && self.tower.is_none() && self.approach.is_none()
    }

    /// Deep equality.
    pub fn same_as(&self, other: &ControllerSet) -> (r: bool)
        ensures
            r == controller_set_eq(*self, *other),
    {
        opt_controller_same(&self.atis, &other.atis)
            && opt_controller_same(&self.delivery, &other.delivery)
            && opt_controller_same(&self.ground, &other.ground)
            && opt_controller_same(&self.tower, &other.tower)
            && opt_controller_same(&self.approach, &other.approach)
    }

    /// A field-by-field copy.
    pub fn duplicate(&self) -> (r: ControllerSet)
        ensures
            r == *self,
    {
        ControllerSet {
            atis: opt_controller_duplicate(&self.atis),
            delivery: opt_controller_duplicate(&self.delivery),
            ground: opt_controller_duplicate(&self.ground),
            tower: opt_controller_duplicate(&self.tower),
            approach: opt_controller_duplicate(&self.approach),
        }
    }
}

/// A filed flight plan, numbers already parsed.
#[derive(Debug)]
pub struct FlightPlan {
    pub flight_rules: String,
    pub aircraft: String,
    pub departure: String,
    pub arrival: String,
    pub alternate: String,
    pub cruise_tas: u16,
    pub altitude: u16,
    pub deptime: String,
    pub enroute_time: String,
    pub fuel_time: String,
    pub remarks: String,
    pub route: String,
}

/// Deep equality of flight plans.
pub open spec fn flight_plan_eq(a: FlightPlan, b: FlightPlan) -> bool {
    &&& a.flight_rules@ == b.flight_rules@
    &&& a.aircraft@ == b.aircraft@
    &&& a.departure@ == b.departure@
    &&& a.arrival@ == b.arrival@
    &&& a.alternate@ == b.alternate@
    &&& a.cruise_tas == b.cruise_tas
    &&& a.altitude == b.altitude
    &&& a.deptime@ == b.deptime@
    &&& a.enroute_time@ == b.enroute_time@
    &&& a.fuel_time@ == b.fuel_time@
    &&& a.remarks@ == b.remarks@
    &&& a.route@ == b.route@
}

/// One upstream flight-plan record, all fields as filed (text).
#[derive(Debug)]
pub struct RawFlightPlan {
    pub flight_rules: String,
    pub aircraft: String,
    pub departure: String,
    pub arrival: String,
    pub alternate: String,
    pub cruise_tas: String,
    pub altitude: String,
    pub deptime: String,
    pub enroute_time: String,
    pub fuel_time: String,
    pub remarks: String,
    pub route: String,
}

/// A filed number read as an unsigned 16-bit value; malformed text counts
/// as zero.
pub open spec fn spec_u16_or_zero(s: Seq<char>) -> u16 {
    match spec_parse_u16(s) {
        Option::Some(v) => v,
        Option::None => 0,
    }
}

impl FlightPlan {
    /// Normalize a filed flight plan: the cruise speed and altitude are
    /// parsed, with user errors folding to zero.
    pub fn from_raw(raw: RawFlightPlan) -> (r: FlightPlan)
        ensures
            r.flight_rules@ == raw.flight_rules@,
            r.aircraft@ == raw.aircraft@,
            r.departure@ == raw.departure@,
            r.arrival@ == raw.arrival@,
            r.alternate@ == raw.alternate@,
            r.cruise_tas == spec_u16_or_zero(raw.cruise_tas@),
            r.altitude == spec_u16_or_zero(raw.altitude@),
            r.deptime@ == raw.deptime@,
            r.enroute_time@ == raw.enroute_time@,
            r.fuel_time@ == raw.fuel_time@,
            r.remarks@ == raw.remarks@,
            r.route@ == raw.route@,
    {
        let cruise_tas: u16 = match parse_u16(&raw.cruise_tas) {
            Option::Some(v) => v,
            Option::None => 0,
        };
        let altitude: u16 = match parse_u16(&raw.altitude) {
            Option::Some(v) => v,
            Option::None => 0,
        };
        FlightPlan {
            flight_rules: raw.flight_rules,
            aircraft: raw.aircraft,
            departure: raw.departure,
            arrival: raw.arrival,
            alternate: raw.alternate,
            cruise_tas,
            altitude,
            deptime: raw.deptime,
            enroute_time: raw.enroute_time,
            fuel_time: raw.fuel_time,
            remarks: raw.remarks,
            route: raw.route,
        }
    }

    /// A field-by-field copy.
    pub fn duplicate(&self) -> (r: FlightPlan)
        ensures
            r == *self,
    {
        FlightPlan {
            flight_rules: self.flight_rules.clone(),
            aircraft: self.aircraft.clone(),
            departure: self.departure.clone(),
            arrival: self.arrival.clone(),
            alternate: self.alternate.clone(),
            cruise_tas: self.cruise_tas,
            altitude: self.altitude,
            deptime: self.deptime.clone(),
            enroute_time: self.enroute_time.clone(),
            fuel_time: self.fuel_time.clone(),
            remarks: self.remarks.clone(),
            route: self.route.clone(),
        }
    }

    /// Deep equality.
    pub fn same_as(&self, other: &FlightPlan) -> (r: bool)
        ensures
            r == flight_plan_eq(*self, *other),
    {
        self.flight_rules.eq(&other.flight_rules)
            && self.aircraft.eq(&other.aircraft)
            && self.departure.eq(&other.departure)
            && self.arrival.eq(&other.arrival)
            && self.alternate.eq(&other.alternate)
            && self.cruise_tas == other.cruise_tas
            && self.altitude == other.altitude
            && self.deptime.eq(&other.deptime)
            && self.enroute_time.eq(&other.enroute_time)
            && self.fuel_time.eq(&other.fuel_time)
            && self.remarks.eq(&other.remarks)
            && self.route.eq(&other.route)
    }
}

/// One live aircraft.
#[derive(Debug)]
pub struct Pilot {
    pub cid: u32,
    pub name: String,
    pub callsign: String,
    pub server: String,
    pub pilot_rating: i32,
    pub position: Point,
    pub altitude: i32,
    pub groundspeed: i32,
    pub transponder: String,
    pub heading: i16,
    pub qnh_i_hg: u16,
    pub qnh_mb: u16,
    pub flight_plan: Option<FlightPlan>,
    pub logon_time: i64,
    pub last_updated: i64,
    pub aircraft_type: Option<Aircraft>,
}

/// Deep equality of optional flight plans.
pub open spec fn opt_flight_plan_eq(a: Option<FlightPlan>, b: Option<FlightPlan>) -> bool {
    match (a, b) {
        (Option::None, Option::None) => true,
        (Option::Some(x), Option::Some(y)) => flight_plan_eq(x, y),
        _ => false,
    }
}

/// Deep equality of optional aircraft records.
pub open spec fn opt_aircraft_eq(a: Option<Aircraft>, b: Option<Aircraft>) -> bool {
    match (a, b) {
        (Option::None, Option::None) => true,
        (Option::Some(x), Option::Some(y)) => aircraft_eq(x, y),
        _ => false,
    }
}

/// Structural equality of pilots: every field, views for the strings.
pub open spec fn pilot_eq(a: Pilot, b: Pilot) -> bool {
    &&& a.cid == b.cid
    &&& a.name@ == b.name@
    &&& a.callsign@ == b.callsign@
    &&& a.server@ == b.server@
    &&& a.pilot_rating == b.pilot_rating
    &&& a.position == b.position
    &&& a.altitude == b.altitude
    &&& a.groundspeed == b.groundspeed
    &&& a.transponder@ == b.transponder@
    &&& a.heading == b.heading
    &&& a.qnh_i_hg == b.qnh_i_hg
    &&& a.qnh_mb == b.qnh_mb
    &&& opt_flight_plan_eq(a.flight_plan, b.flight_plan)
    &&& a.logon_time == b.logon_time
    &&& a.last_updated == b.last_updated
    &&& opt_aircraft_eq(a.aircraft_type, b.aircraft_type)
}

/// The track grouping code of a pilot: `{cid}:{callsign}:{logon_time}`.
pub open spec fn spec_track_code(p: Pilot) -> Seq<char> {
    dec_str(p.cid as nat) + seq![':'] + p.callsign@ + seq![':'] + dec_str_i64(p.logon_time as int)
}

impl Pilot {
    /// The code that groups this pilot's positions into one flight.
    pub fn track_code(&self) -> (r: String)
        ensures
            r@ == spec_track_code(*self),
    {
        let mut r = fmt_u64(self.cid as u64);
        r.append(":");
        proof {
            reveal_strlit(":");
            assert(":"@ =~= seq![':']);
        }
        r.append(self.callsign.as_str());
        r.append(":");
        let tail = fmt_i64(self.logon_time);
        r.append(tail.as_str());
        r
    }

    /// Deep equality.
    pub fn same_as(&self, other: &Pilot) -> (r: bool)
        ensures
            r == pilot_eq(*self, *other),
    {
        let fp_eq: bool = match (&self.flight_plan, &other.flight_plan) {
            (Option::None, Option::None) => true,
            (Option::Some(x), Option::Some(y)) => x.same_as(y),
            _ => false,
        };
        let at_eq: bool = match (&self.aircraft_type, &other.aircraft_type) {
            (Option::None, Option::None) => true,
            (Option::Some(x), Option::Some(y)) => x.same_as(y),
            _ => false,
        };
        self.cid == other.cid
            && self.name.eq(&other.name)
            && self.callsign.eq(&other.callsign)
            && self.server.eq(&other.server)
            && self.pilot_rating == other.pilot_rating
            && self.position == other.position
            && self.altitude == other.altitude
            && self.groundspeed == other.groundspeed
            && self.transponder.eq(&other.transponder)
            && self.heading == other.heading
            && self.qnh_i_hg == other.qnh_i_hg
            && self.qnh_mb == other.qnh_mb
            && fp_eq
            && self.logon_time == other.logon_time
            && self.last_updated == other.last_updated
            && at_eq
    }

    /// A field-by-field copy.
    pub fn duplicate(&self) -> (r: Pilot)
        ensures
            r == *self,
    {
        Pilot {
            cid: self.cid,
            name: self.name.clone(),
            callsign: self.callsign.clone(),
            server: self.server.clone(),
            pilot_rating: self.pilot_rating,
            position: self.position,
            altitude: self.altitude,
            groundspeed: self.groundspeed,
            transponder: self.transponder.clone(),
            heading: self.heading,
            qnh_i_hg: self.qnh_i_hg,
            qnh_mb: self.qnh_mb,
            flight_plan: match &self.flight_plan {
                Option::Some(fp) => Some(fp.duplicate()),
                Option::None => None,
            },
            logon_time: self.logon_time,
            last_updated: self.last_updated,
            aircraft_type: match &self.aircraft_type {
                Option::Some(a) => Some(a.duplicate()),
                Option::None => None,
            },
        }
    }
}

/// One upstream pilot record with its floating-point fields already
/// converted at the boundary (position to microdegrees, QNH to hundredths
/// of an inch and whole millibars).
#[derive(Debug)]
pub struct RawPilot {
    pub cid: u32,
    pub name: String,
    pub callsign: String,
    pub server: String,
    pub pilot_rating: i32,
    pub lat_micro: i64,
    pub lng_micro: i64,
    pub altitude: i32,
    pub groundspeed: i32,
    pub transponder: String,
    pub heading: i16,
    pub qnh_i_hg: u16,
    pub qnh_mb: u16,
    pub flight_plan: Option<RawFlightPlan>,
    pub logon_time: String,
    pub last_updated: String,
}

/// Normalize one upstream pilot record: parse the timestamps with `now`
/// standing in for unparsable text, normalize the flight plan, and attach
/// the aircraft-type guess from the flight plan's aircraft text.
pub fn pilot_from_raw(raw: RawPilot, db: &AircraftDb, now: i64) -> (r: (Pilot, u64))
    requires
        db.inv(),
    ensures
        r.1 as int == spec_time_fail(raw.logon_time@) + spec_time_fail(raw.last_updated@),
        r.0.cid == raw.cid,
        r.0.name@ == raw.name@,
        r.0.callsign@ == raw.callsign@,
        r.0.server@ == raw.server@,
        r.0.pilot_rating == raw.pilot_rating,
        r.0.position == (Point { lat: raw.lat_micro, lng: raw.lng_micro }),
        r.0.altitude == raw.altitude,
        r.0.groundspeed == raw.groundspeed,
        r.0.transponder@ == raw.transponder@,
        r.0.heading == raw.heading,
        r.0.qnh_i_hg == raw.qnh_i_hg,
        r.0.qnh_mb == raw.qnh_mb,
        match (r.0.flight_plan, raw.flight_plan) {
            (Option::Some(fp), Option::Some(rfp)) => {
                &&& fp.flight_rules@ == rfp.flight_rules@
                &&& fp.aircraft@ == rfp.aircraft@
                &&& fp.departure@ == rfp.departure@
                &&& fp.arrival@ == rfp.arrival@
                &&& fp.alternate@ == rfp.alternate@
                &&& fp.cruise_tas == spec_u16_or_zero(rfp.cruise_tas@)
                &&& fp.altitude == spec_u16_or_zero(rfp.altitude@)
                &&& fp.deptime@ == rfp.deptime@
                &&& fp.enroute_time@ == rfp.enroute_time@
                &&& fp.fuel_time@ == rfp.fuel_time@
                &&& fp.remarks@ == rfp.remarks@
                &&& fp.route@ == rfp.route@
            },
            (Option::None, Option::None) => true,
            _ => false,
        },
        r.0.logon_time == spec_time_or(raw.logon_time@, now),
        r.0.last_updated == spec_time_or(raw.last_updated@, now),
        r.0.aircraft_type == (match raw.flight_plan {
            Option::Some(rfp) => spec_guess(
                db@,
                rfp.aircraft@,
                vstd::math::min(rfp.aircraft@.len() as int, 4) as nat,
            ),
            Option::None => None::<Aircraft>,
        }),
{
    let (logon_time, f1) = parse_time_or_counted(&raw.logon_time, now);
    let (last_updated, f2) = parse_time_or_counted(&raw.last_updated, now);
    let flight_plan: Option<FlightPlan> = match raw.flight_plan {
        Option::Some(rfp) => Some(FlightPlan::from_raw(rfp)),
        Option::None => None,
    };
    let aircraft_type: Option<Aircraft> = match &flight_plan {
        Option::Some(fp) => guess_aircraft_types(db, fp.aircraft.as_str()),
        Option::None => None,
    };
    let p = Pilot {
        cid: raw.cid,
        name: raw.name,
        callsign: raw.callsign,
        server: raw.server,
        pilot_rating: raw.pilot_rating,
        position: Point { lat: raw.lat_micro, lng: raw.lng_micro },
        altitude: raw.altitude,
        groundspeed: raw.groundspeed,
        transponder: raw.transponder,
        heading: raw.heading,
        qnh_i_hg: raw.qnh_i_hg,
        qnh_mb: raw.qnh_mb,
        flight_plan,
        logon_time,
        last_updated,
        aircraft_type,
    };
    (p, f1 + f2)
}

} // verus!
