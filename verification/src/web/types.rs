//! Response shapes of the read-only endpoints.

use vstd::prelude::*;
use crate::moving::{FlightPlan, Pilot};
use crate::persistent::TrackPoint;
use crate::types::Point;

verus! {

/// The single-pilot endpoint's answer: the pilot with its track attached.
#[derive(Debug)]
pub struct PilotApiResponse {
    pub cid: u32,
    pub name: String,
    pub callsign: String,
    pub server: String,
    pub pilot_rating: i32,
    pub position: Point,
    pub altitude: i32,
    pub groundspeed: i32,
    pub transponder: String,
    pub heading: i16,
    pub qnh_i_hg: u16,
    pub qnh_mb: u16,
    pub flight_plan: Option<FlightPlan>,
    pub logon_time: i64,
    pub last_updated: i64,
    pub track: Option<Vec<TrackPoint>>,
}

impl PilotApiResponse {
    /// A pilot's fields carried over, with no track attached yet.
    pub fn from_pilot(p: &Pilot) -> (r: PilotApiResponse)
        ensures
            r.cid == p.cid,
            r.name@ == p.name@,
            r.callsign@ == p.callsign@,
            r.server@ == p.server@,
            r.pilot_rating == p.pilot_rating,
            r.position == p.position,
            r.altitude == p.altitude,
            r.groundspeed == p.groundspeed,
            r.transponder@ == p.transponder@,
            r.heading == p.heading,
            r.qnh_i_hg == p.qnh_i_hg,
            r.qnh_mb == p.qnh_mb,
            crate::moving::opt_flight_plan_eq(r.flight_plan, p.flight_plan),
            r.logon_time == p.logon_time,
            r.last_updated == p.last_updated,
            r.track is None,
    {
        let d = p.duplicate();
        proof {
            lemma_opt_fp_eq_refl(d.flight_plan);
        }
        PilotApiResponse {
            cid: d.cid,
            name: d.name,
            callsign: d.callsign,
            server: d.server,
            pilot_rating: d.pilot_rating,
            position: d.position,
            altitude: d.altitude,
            groundspeed: d.groundspeed,
            transponder: d.transponder,
            heading: d.heading,
            qnh_i_hg: d.qnh_i_hg,
            qnh_mb: d.qnh_mb,
            flight_plan: d.flight_plan,
            logon_time: d.logon_time,
            last_updated: d.last_updated,
            track: None,
        }
    }
}

proof fn lemma_opt_fp_eq_refl(fp: Option<FlightPlan>)
    ensures
        crate::moving::opt_flight_plan_eq(fp, fp),
{
}

/// What the build endpoint reports about the running binary.
#[derive(Debug)]
pub struct BuildInfo {
    pub name: String,
    pub version: String,
    pub repository: String,
    pub license: String,
}

/// The affirmative answer of the filter-checking endpoint.
#[derive(Debug)]
pub struct QueryCheckOkResponse {
    pub status: &'static str,
}

} // verus!
