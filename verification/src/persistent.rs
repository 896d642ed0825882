//! Persistent track records: the values written to the document store, and
//! the decisions about them.  The store itself is an external collaborator;
//! this module fixes what is written and when old data is evicted.

use vstd::prelude::*;
use crate::moving::{Pilot, spec_track_code};

verus! {

/// One flight track, grouped by its code.
#[derive(Debug)]
pub struct Track {
    pub code: String,
    pub created_at: i64,
}

/// One recorded position of a flight.
#[derive(Debug, Clone, Copy, PartialEq, Eq, Structural)]
pub struct TrackPoint {
    pub lat: i64,
    pub lng: i64,
    pub alt: i32,
    pub hdg: i16,
    pub gs: i32,
    pub ts: i64,
}

impl TrackPoint {
    /// The point that one pilot snapshot appends to its track: position,
    /// altitude, heading, groundspeed, stamped with the record's update
    /// time.
    pub fn from_pilot(p: &Pilot) -> (r: TrackPoint)
        ensures
            r == (TrackPoint {
                lat: p.position.lat,
                lng: p.position.lng,
                alt: p.altitude,
                hdg: p.heading,
                gs: p.groundspeed,
                ts: p.last_updated,
            }),
    {
        TrackPoint {
            lat: p.position.lat,
            lng: p.position.lng,
            alt: p.altitude,
            hdg: p.heading,
            gs: p.groundspeed,
            ts: p.last_updated,
        }
    }
}

/// One track append: the code that groups a flight, and the point to add.
#[derive(Debug)]
pub struct TrackAppend {
    pub code: String,
    pub point: TrackPoint,
}

impl TrackAppend {
    /// The append command for one pilot snapshot.
    pub fn for_pilot(p: &Pilot) -> (r: TrackAppend)
        ensures
            r.code@ == spec_track_code(*p),
            r.point == (TrackPoint {
                lat: p.position.lat,
                lng: p.position.lng,
                alt: p.altitude,
                hdg: p.heading,
                gs: p.groundspeed,
                ts: p.last_updated,
            }),
    {
        TrackAppend { code: p.track_code(), point: TrackPoint::from_pilot(p) }
    }
}

/// Whether a track whose newest point carries `last_point_ts` has aged out
/// at `now` under the given retention window (seconds).
pub open spec fn spec_track_stale(last_point_ts: int, now: int, retention_secs: int) -> bool {
    now - last_point_ts > retention_secs
}

/// The cleanup decision for one track: evict it, with its points, when its
/// most recent point is older than the retention window.
pub fn track_is_stale(last_point_ts: i64, now: i64, retention_secs: i64) -> (r: bool)
    requires
        0 <= retention_secs,
        -1_000_000_000_000 <= last_point_ts <= 1_000_000_000_000,
        -1_000_000_000_000 <= now <= 1_000_000_000_000,
        retention_secs <= 1_000_000_000_000,
    ensures
        r == spec_track_stale(last_point_ts as int, now as int, retention_secs as int),
{
    now - last_point_ts > retention_secs
}

} // verus!
