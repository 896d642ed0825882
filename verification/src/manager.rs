//! The live-state engine: one manager owns the static data, the spatial
//! indices and the live objects, and one reconciliation pass per upstream
//! snapshot turns the snapshot into in-memory state.
//!
//! All I/O stays outside: the caller fetches and decodes a snapshot, hands
//! it in, and carries out the returned commands (track appends, the
//! periodic cleanup, the runway re-derivations).

use vstd::prelude::*;
use vstd::multiset::Multiset;
use crate::fixed::{Airport, FixedData, FIR, GeoShape, GeonamesCountry, Country, spec_compound_id, airport_eq, fir_eq, spec_point_in_ring, point_in_ring, spec_fir_matches, spec_callsign_prefix};
use crate::moving::{Controller, Facility, Pilot, spec_controller_set_empty};
use crate::persistent::TrackAppend;
use crate::spatial::{PilotStore, PointTree, RectIndex, point_tree_contents};
use crate::strmap::StrMap;
use crate::types::{Envelope, Point, Rect, env_contains, env_intersects, point_in_range, spec_env_wrapped, COORD_INPUT_LIMIT};
use crate::util::Counter;

verus! {

broadcast use vstd::multiset::group_multiset_axioms;

/// The integer counters the engine maintains; the caller renders them,
/// together with its own timings, into the metrics text.
#[derive(Debug, Clone, Copy, PartialEq, Eq, Structural)]
pub struct Metrics {
    pub pilots_online: u64,
    pub controllers_online: u64,
    pub track_count: u64,
    pub track_point_count: u64,
    pub vatsim_data_timestamp: i64,
    pub timestamp_parse_failures: u64,
}

impl Metrics {
    /// All counters at zero.
    pub fn new() -> (r: Metrics)
        ensures
            r == (Metrics {
                pilots_online: 0,
                controllers_online: 0,
                track_count: 0,
                track_point_count: 0,
                vatsim_data_timestamp: 0,
                timestamp_parse_failures: 0,
            }),
    {
        Metrics {
            pilots_online: 0,
            controllers_online: 0,
            track_count: 0,
            track_point_count: 0,
            vatsim_data_timestamp: 0,
            timestamp_parse_failures: 0,
        }
    }
}

/// One decoded upstream snapshot.
#[derive(Debug)]
pub struct Snapshot {
    pub updated_at: i64,
    pub pilots: Vec<Pilot>,
    pub controllers: Vec<Controller>,
}

/// What one reconciliation tick asks the caller to do.
#[derive(Debug)]
pub struct TickOutput {
    /// Whether the snapshot was newer than the last processed one.
    pub processed: bool,
    /// Track points to append to the persistent store, one per snapshot
    /// pilot, in snapshot order (empty when tracking is off).
    pub track_appends: Vec<TrackAppend>,
    /// Airports whose ATIS changed: the caller re-derives their active
    /// runways from the new ATIS text.
    pub atis_airports: Vec<String>,
    /// Pilots counted per country identifier, for the metrics labels.
    pub country_counts: Counter,
    /// Whether the periodic track cleanup is due this tick.
    pub do_cleanup: bool,
}

/// The position of the last snapshot pilot before `i` flying a callsign,
/// or -1.
pub open spec fn last_pilot_before(ps: Seq<Pilot>, cs: Seq<char>, i: int) -> int
    decreases i,
{
    if i <= 0 {
        -1
    } else if ps[i - 1].callsign@ == cs {
        i - 1
    } else {
        last_pilot_before(ps, cs, i - 1)
    }
}

proof fn lemma_last_pilot_before(ps: Seq<Pilot>, cs: Seq<char>, i: int)
    requires
        0 <= i <= ps.len(),
    ensures
        last_pilot_before(ps, cs, i) == -1
            ==> forall|j: int| 0 <= j < i ==> (#[trigger] ps[j]).callsign@ != cs,
        last_pilot_before(ps, cs, i) != -1 ==> {
            let l = last_pilot_before(ps, cs, i);
            0 <= l < i && ps[l].callsign@ == cs
                && forall|j: int| l < j < i ==> (#[trigger] ps[j]).callsign@ != cs
        },
    decreases i,
{
    if i > 0 && ps[i - 1].callsign@ != cs {
        lemma_last_pilot_before(ps, cs, i - 1);
    }
}

/// The position of the last snapshot controller before `i` with a callsign
/// and a facility other than `Reject`, or -1.
pub open spec fn last_ctrl_before(ctrls: Seq<Controller>, cs: Seq<char>, i: int) -> int
    decreases i,
{
    if i <= 0 {
        -1
    } else if ctrls[i - 1].callsign@ == cs && !(ctrls[i - 1].facility is Reject) {
        i - 1
    } else {
        last_ctrl_before(ctrls, cs, i - 1)
    }
}

/// The bounding envelope of a region: its boundary corners, normalized.
pub open spec fn fir_env(f: FIR) -> Envelope {
    Envelope {
        min_lng: if f.boundaries.min.lng <= f.boundaries.max.lng {
            f.boundaries.min.lng
        } else {
            f.boundaries.max.lng
        },
        min_lat: if f.boundaries.min.lat <= f.boundaries.max.lat {
            f.boundaries.min.lat
        } else {
            f.boundaries.max.lat
        },
        max_lng: if f.boundaries.min.lng <= f.boundaries.max.lng {
            f.boundaries.max.lng
        } else {
            f.boundaries.min.lng
        },
        max_lat: if f.boundaries.min.lat <= f.boundaries.max.lat {
            f.boundaries.max.lat
        } else {
            f.boundaries.min.lat
        },
    }
}

/// The airport point index matches the static data: one tree entry per
/// compound key, at the airport's position.
pub open spec fn airports_tree_ok(fixed: FixedData, tree: PointTree) -> bool {
    forall|e: (Seq<char>, Point)| #[trigger] point_tree_contents(tree).count(e)
        == (if fixed.spec_compound().contains_key(e.0)
            && fixed.spec_airports()[fixed.spec_compound()[e.0]@].position == e.1 {
            1nat
        } else {
            0nat
        })
}

proof fn lemma_airports_tree_stable(f0: FixedData, f1: FixedData, tree: PointTree)
    requires
        f0.inv(),
        airports_tree_ok(f0, tree),
        f1.spec_compound() == f0.spec_compound(),
        f1.spec_airports().dom() =~= f0.spec_airports().dom(),
        forall|k: Seq<char>| #[trigger] f0.spec_airports().contains_key(k)
            ==> f1.spec_airports()[k].position == f0.spec_airports()[k].position,
    ensures
        airports_tree_ok(f1, tree),
{
    assert forall|e: (Seq<char>, Point)| #[trigger] point_tree_contents(tree).count(e)
        == (if f1.spec_compound().contains_key(e.0)
            && f1.spec_airports()[f1.spec_compound()[e.0]@].position == e.1 {
            1nat
        } else {
            0nat
        }) by {
        f0.lemma_compound_resolves();
        if f1.spec_compound().contains_key(e.0) {
            assert(f0.spec_airports().contains_key(f0.spec_compound()[e.0]@));
        }
    }
}

/// The live-state manager.
pub struct Manager {
    fixed: FixedData,
    pilots: PilotStore,
    airports2d: PointTree,
    firs2d: RectIndex,
    shapes: Vec<GeoShape>,
    shapes2d: RectIndex,
    gn_countries: Vec<GeonamesCountry>,
    previous_callsigns: StrMap<()>,
    controllers: StrMap<Controller>,
    metrics: Metrics,
    data_updated_at: i64,
    cleanup_countdown: u8,
    track_enabled: bool,
}

impl Manager {
    /// Well-formedness of the whole engine state, including: the airport
    /// index mirrors the static data; the region index holds one box per
    /// region; and the previous-callsign set equals the key set of the
    /// pilot map (the reconciliation invariant).
    pub closed spec fn inv(self) -> bool {
        &&& self.fixed.inv()
        &&& self.pilots.inv()
        &&& self.previous_callsigns.inv()
        &&& self.controllers.inv()
        &&& airports_tree_ok(self.fixed, self.airports2d)
        &&& self.firs2d.inv()
        &&& self.firs2d@.len() == self.fixed.spec_firs().len()
        &&& forall|i: int| 0 <= i < self.fixed.spec_firs().len()
            ==> self.firs2d@[i] == fir_env(#[trigger] self.fixed.spec_firs()[i])
        &&& self.geo_ok()
        &&& self.previous_callsigns@.dom() == self.pilots@.dom()
        &&& forall|cs: Seq<char>| #[trigger] self.controllers@.contains_key(cs)
            ==> !(self.controllers@[cs].facility is Reject)
                && self.controllers@[cs].callsign@ == cs
        &&& 1 <= self.cleanup_countdown <= 5
    }

    /// Well-formedness of the reverse-geocoding state alone: the shape
    /// index holds one box per shape, at its position.
    pub closed spec fn geo_ok(self) -> bool {
        &&& self.shapes2d.inv()
        &&& self.shapes2d@.len() == self.shapes@.len()
        &&& forall|i: int| 0 <= i < self.shapes@.len()
            ==> (#[trigger] self.shapes@[i]).inv() && self.shapes2d@[i] == self.shapes@[i].bbox
    }

    /// The cleanup cadence position: ticks left until the next cleanup.
    pub closed spec fn spec_countdown(self) -> u8 {
        self.cleanup_countdown
    }

    /// Whether track persistence is on.
    pub closed spec fn spec_track_enabled(self) -> bool {
        self.track_enabled
    }

    /// The pilot map: callsign to live pilot.
    pub closed spec fn pilots_view(self) -> Map<Seq<char>, Pilot> {
        self.pilots@
    }

    /// The set of callsigns of the previous snapshot.
    pub closed spec fn previous_view(self) -> Set<Seq<char>> {
        self.previous_callsigns@.dom()
    }

    /// The controller working set.
    pub closed spec fn controllers_view(self) -> Map<Seq<char>, Controller> {
        self.controllers@
    }

    /// The static data.
    pub closed spec fn spec_fixed(self) -> FixedData {
        self.fixed
    }

    /// The loaded shapes.
    pub closed spec fn spec_shapes(self) -> Seq<GeoShape> {
        self.shapes@
    }

    /// The loaded reverse-geocoding countries.
    pub closed spec fn spec_gn_countries(self) -> Seq<GeonamesCountry> {
        self.gn_countries@
    }

    /// The timestamp of the last processed snapshot.
    pub closed spec fn spec_updated_at(self) -> i64 {
        self.data_updated_at
    }

    /// The live pilot store.
    pub closed spec fn spec_pilot_store(self) -> PilotStore {
        self.pilots
    }

    /// After every reconciliation tick, the previous-callsign set equals
    /// the key set of the pilot map; it is an invariant of the engine.
    pub proof fn lemma_previous_matches_pilots(self)
        requires
            self.inv(),
        ensures
            self.previous_view() =~= self.pilots_view().dom(),
    {
    }

    /// A fresh engine with no data loaded.
    pub fn new(track_enabled: bool) -> (r: Manager)
        ensures
            r.inv(),
            r.pilots_view() =~= Map::<Seq<char>, Pilot>::empty(),
            r.controllers_view() =~= Map::<Seq<char>, Controller>::empty(),
            r.spec_fixed().spec_airports() =~= Map::<Seq<char>, Airport>::empty(),
            r.spec_fixed().spec_firs() =~= Seq::<FIR>::empty(),
            r.spec_shapes() =~= Seq::<GeoShape>::empty(),
            r.spec_updated_at() == 0,
    {
        let r = Manager {
            fixed: FixedData::empty(),
            pilots: PilotStore::new(),
            airports2d: PointTree::new(),
            firs2d: RectIndex::new(),
            shapes: Vec::new(),
            shapes2d: RectIndex::new(),
            gn_countries: Vec::new(),
            previous_callsigns: StrMap::new(),
            controllers: StrMap::new(),
            metrics: Metrics::new(),
            data_updated_at: 0,
            cleanup_countdown: 5,
            track_enabled,
        };
        proof {
            assert(r.previous_callsigns@.dom() =~= r.pilots@.dom());
        }
        r
    }

    /// The current metric counters.
    pub fn metrics(&self) -> (r: Metrics)
        ensures
            r == self.spec_metrics(),
    {
        self.metrics
    }

    /// The current metric counters.
    pub closed spec fn spec_metrics(self) -> Metrics {
        self.metrics
    }

    /// The number of controllers in the working set.
    pub closed spec fn spec_controllers_count(self) -> nat {
        self.controllers.spec_len()
    }

    /// Count upstream timestamps that failed to parse during decoding (the
    /// documented fallback to the current instant masks them otherwise).
    pub fn note_timestamp_parse_failures(&mut self, n: u64)
        requires
            old(self).inv(),
        ensures
            final(self).inv(),
            final(self).spec_metrics() == (Metrics {
                timestamp_parse_failures:
                    (if old(self).spec_metrics().timestamp_parse_failures as int + n as int
                        > u64::MAX as int {
                        u64::MAX as int
                    } else {
                        old(self).spec_metrics().timestamp_parse_failures as int + n as int
                    }) as u64,
                ..old(self).spec_metrics()
            }),
            final(self).pilots_view() == old(self).pilots_view(),
            final(self).controllers_view() == old(self).controllers_view(),
            final(self).spec_fixed() == old(self).spec_fixed(),
    {
        let cur = self.metrics.timestamp_parse_failures;
        self.metrics.timestamp_parse_failures = if cur > u64::MAX - n {
            u64::MAX
        } else {
            cur + n
        };
    }

    /// Record the persistent-store object counts the caller read.
    pub fn set_db_counters(&mut self, track_count: u64, track_point_count: u64)
        requires
            old(self).inv(),
        ensures
            final(self).inv(),
            final(self).spec_metrics() == (Metrics {
                track_count,
                track_point_count,
                ..old(self).spec_metrics()
            }),
            final(self).pilots_view() == old(self).pilots_view(),
            final(self).spec_fixed() == old(self).spec_fixed(),
    {
        self.metrics.track_count = track_count;
        self.metrics.track_point_count = track_point_count;
    }

    /// Load one airport into the static data and the airport index.
    pub fn add_airport(&mut self, a: Airport)
        requires
            old(self).inv(),
            a.inv(),
            point_in_range(a.position),
            !old(self).spec_fixed().spec_airports().contains_key(a.icao@),
            !old(self).spec_fixed().spec_compound().contains_key(spec_compound_id(a)),
        ensures
            final(self).inv(),
            final(self).spec_fixed().spec_airports()
                =~= old(self).spec_fixed().spec_airports().insert(a.icao@, a),
            final(self).pilots_view() == old(self).pilots_view(),
    {
        let ghost cid = spec_compound_id(a);
        let ghost pos = a.position;
        let key = a.compound_id();
        let position = a.position;
        self.fixed.add_airport(a);
        self.airports2d.insert(&key, position);
        proof {
            assert forall|e: (Seq<char>, Point)|
                #[trigger] point_tree_contents(self.airports2d).count(e)
                    == (if self.fixed.spec_compound().contains_key(e.0)
                        && self.fixed.spec_airports()[self.fixed.spec_compound()[e.0]@].position
                            == e.1 {
                        1nat
                    } else {
                        0nat
                    }) by {
                old(self).fixed.lemma_compound_resolves();
                if e == (cid, pos) {
                    assert(point_tree_contents(old(self).airports2d).count(e) == 0);
                } else {
                    assert(point_tree_contents(self.airports2d).count(e)
                        == point_tree_contents(old(self).airports2d).count(e));
                    if e.0 == cid {
                        assert(self.fixed.spec_airports()[self.fixed.spec_compound()[e.0]@]
                            .position == pos);
                    } else if old(self).fixed.spec_compound().contains_key(e.0) {
                        let tgt = old(self).fixed.spec_compound()[e.0]@;
                        assert(tgt != cid ==> true);
                        assert(old(self).fixed.spec_airports().contains_key(tgt));
                        assert(tgt != a.icao@);
                        assert(self.fixed.spec_airports()[tgt]
                            == old(self).fixed.spec_airports()[tgt]);
                    }
                }
            }
        }
    }

    /// Load one region into the static data and the region index.
    pub fn add_fir(&mut self, f: FIR)
        requires
            old(self).inv(),
            f.inv(),
            point_in_range(f.boundaries.min),
            point_in_range(f.boundaries.max),
        ensures
            final(self).inv(),
            final(self).spec_fixed().spec_firs()
                =~= old(self).spec_fixed().spec_firs().push(f),
            final(self).pilots_view() == old(self).pilots_view(),
    {
        let b = &f.boundaries;
        let env = Envelope {
            min_lng: if b.min.lng <= b.max.lng {
                b.min.lng
            } else {
                b.max.lng
            },
            min_lat: if b.min.lat <= b.max.lat {
                b.min.lat
            } else {
                b.max.lat
            },
            max_lng: if b.min.lng <= b.max.lng {
                b.max.lng
            } else {
                b.min.lng
            },
            max_lat: if b.min.lat <= b.max.lat {
                b.max.lat
            } else {
                b.min.lat
            },
        };
        proof {
            assert(env == fir_env(f));
        }
        let ghost f0 = self.fixed;
        self.firs2d.push(env);
        self.fixed.add_fir(f);
        proof {
            lemma_airports_tree_stable(f0, self.fixed, self.airports2d);
        }
    }

    /// Load one vatspy country record.
    pub fn add_country(&mut self, c: Country)
        requires
            old(self).inv(),
        ensures
            final(self).inv(),
            final(self).spec_fixed().spec_countries()
                =~= old(self).spec_fixed().spec_countries().push(c),
            final(self).spec_fixed().spec_airports()
                == old(self).spec_fixed().spec_airports(),
            final(self).spec_fixed().spec_firs() == old(self).spec_fixed().spec_firs(),
            final(self).pilots_view() == old(self).pilots_view(),
    {
        let ghost f0 = self.fixed;
        self.fixed.add_country(c);
        proof {
            lemma_airports_tree_stable(f0, self.fixed, self.airports2d);
        }
    }

    /// Load one reverse-geocoding country record.
    pub fn add_geonames_country(&mut self, c: GeonamesCountry)
        requires
            old(self).inv(),
        ensures
            final(self).inv(),
            final(self).spec_gn_countries()
                =~= old(self).spec_gn_countries().push(c),
            final(self).pilots_view() == old(self).pilots_view(),
    {
        self.gn_countries.push(c);
    }

    /// Load one country shape into the shape index.
    pub fn add_shape(&mut self, sh: GeoShape)
        requires
            old(self).inv(),
            sh.inv(),
            sh.bbox.min_lng <= sh.bbox.max_lng,
            sh.bbox.min_lat <= sh.bbox.max_lat,
            -crate::types::LNG_LIMIT <= sh.bbox.min_lng,
            sh.bbox.max_lng <= crate::types::LNG_LIMIT,
            -crate::types::LAT_LIMIT <= sh.bbox.min_lat,
            sh.bbox.max_lat <= crate::types::LAT_LIMIT,
        ensures
            final(self).inv(),
            final(self).spec_shapes() =~= old(self).spec_shapes().push(sh),
            final(self).pilots_view() == old(self).pilots_view(),
    {
        let env = Envelope {
            min_lng: sh.bbox.min_lng,
            min_lat: sh.bbox.min_lat,
            max_lng: sh.bbox.max_lng,
            max_lat: sh.bbox.max_lat,
        };
        self.shapes2d.push(env);
        self.shapes.push(sh);
    }

    /// Look an airport up by identifier or compound key.
    pub fn find_airport(&self, code: &String) -> (r: Option<Airport>)
        requires
            self.inv(),
        ensures
            match r {
                Some(a) => self.spec_fixed().spec_find_airport(code@) is Some && a.inv()
                    && airport_eq(a, self.spec_fixed().spec_find_airport(code@)->Some_0),
                None => self.spec_fixed().spec_find_airport(code@) is None,
            },
    {
        self.fixed.find_airport(code)
    }

    /// Borrow the pilot flying under a callsign.
    pub fn get_pilot_by_callsign(&self, callsign: &String) -> (r: Option<&Pilot>)
        requires
            self.inv(),
        ensures
            match r {
                Some(p) => self.pilots_view().contains_key(callsign@)
                    && *p == self.pilots_view()[callsign@],
                None => !self.pilots_view().contains_key(callsign@),
            },
    {
        self.pilots.get(callsign)
    }

    /// Re-derive the active runways of one airport from ATIS-derived
    /// identifier lists; the caller extracts those from the ATIS text.
    /// Every runway of the named airport becomes active for landing
    /// exactly when the arrival list names it, and for take-off exactly
    /// when the departure list does; everything else is untouched.
    pub fn apply_active_runways(
        &mut self,
        icao: &String,
        arrivals: &Vec<String>,
        departures: &Vec<String>,
    )
        requires
            old(self).inv(),
        ensures
            final(self).inv(),
            final(self).pilots_view() == old(self).pilots_view(),
            final(self).controllers_view() == old(self).controllers_view(),
            final(self).spec_fixed().spec_compound()
                == old(self).spec_fixed().spec_compound(),
            final(self).spec_fixed().spec_firs() == old(self).spec_fixed().spec_firs(),
            final(self).spec_fixed().spec_airports().dom()
                =~= old(self).spec_fixed().spec_airports().dom(),
            forall|k: Seq<char>|
                #[trigger] old(self).spec_fixed().spec_airports().contains_key(k) && k != icao@
                ==> final(self).spec_fixed().spec_airports()[k]
                    == old(self).spec_fixed().spec_airports()[k],
            old(self).spec_fixed().spec_airports().contains_key(icao@) ==> {
                let b0 = old(self).spec_fixed().spec_airports()[icao@];
                let b1 = final(self).spec_fixed().spec_airports()[icao@];
                &&& b1.icao@ == b0.icao@ && b1.position == b0.position
                &&& b1.controllers == b0.controllers
                &&& forall|k: Seq<char>| b1.runways@.contains_key(k)
                    == b0.runways@.contains_key(k)
                &&& forall|k: Seq<char>| #[trigger] b1.runways@.contains_key(k)
                    ==> b1.runways@[k] == (crate::fixed::Runway {
                        active_lnd: arrivals@.map_values(|s: String| s@).contains(k),
                        active_to: departures@.map_values(|s: String| s@).contains(k),
                        ..b0.runways@[k]
                    })
            },
            !old(self).spec_fixed().spec_airports().contains_key(icao@)
                ==> final(self).spec_fixed().spec_airports()
                    == old(self).spec_fixed().spec_airports(),
    {
        let ghost f0 = self.fixed;
        self.fixed.apply_active_runways(icao, arrivals, departures);
        proof {
            lemma_airports_tree_stable(f0, self.fixed, self.airports2d);
        }
    }
}


/// Whether a shape's box holds a point and its ring contains it.
pub open spec fn shape_contains(sh: GeoShape, p: Point) -> bool {
    &&& sh.bbox.min_lng <= p.lng <= sh.bbox.max_lng
    &&& sh.bbox.min_lat <= p.lat <= sh.bbox.max_lat
    &&& spec_point_in_ring(p, sh.ring@)
}

/// First position of a country identifier in the reverse-geocoding table,
/// or -1.
pub open spec fn geoname_index(cs: Seq<GeonamesCountry>, id: u32) -> int
    decreases cs.len(),
{
    if cs.len() == 0 {
        -1
    } else if cs[0].geoname_id == id {
        0
    } else {
        let r = geoname_index(cs.drop_first(), id);
        if r == -1 {
            -1
        } else {
            r + 1
        }
    }
}

proof fn lemma_geoname_index_first_hit(cs: Seq<GeonamesCountry>, id: u32, i: int)
    requires
        0 <= i < cs.len(),
        cs[i].geoname_id == id,
        forall|j: int| 0 <= j < i ==> (#[trigger] cs[j]).geoname_id != id,
    ensures
        geoname_index(cs, id) == i,
    decreases cs.len(),
{
    if i > 0 {
        assert(cs.drop_first()[i - 1] == cs[i]);
        assert forall|j: int| 0 <= j < i - 1 implies (#[trigger] cs.drop_first()[j]).geoname_id
            != id by {
            assert(cs.drop_first()[j] == cs[j + 1]);
        }
        lemma_geoname_index_first_hit(cs.drop_first(), id, i - 1);
    }
}

proof fn lemma_geoname_index(cs: Seq<GeonamesCountry>, id: u32)
    ensures
        geoname_index(cs, id) == -1 ==> forall|i: int| 0 <= i < cs.len()
            ==> (#[trigger] cs[i]).geoname_id != id,
        geoname_index(cs, id) != -1 ==> 0 <= geoname_index(cs, id) < cs.len()
            && cs[geoname_index(cs, id)].geoname_id == id,
    decreases cs.len(),
{
    if cs.len() > 0 && cs[0].geoname_id != id {
        lemma_geoname_index(cs.drop_first(), id);
        let sub = geoname_index(cs.drop_first(), id);
        if sub == -1 {
            assert forall|i: int| 0 <= i < cs.len() implies cs[i].geoname_id != id by {
                if i > 0 {
                    assert(cs.drop_first()[i - 1] == cs[i]);
                }
            }
        } else {
            assert(cs.drop_first()[sub] == cs[sub + 1]);
        }
    }
}

impl Manager {
    /// The reverse-geocoding country stored under an identifier: the first
    /// loaded record with it.
    pub fn find_geonames_country(&self, id: u32) -> (r: Option<&GeonamesCountry>)
        ensures
            match r {
                Some(c) => geoname_index(self.spec_gn_countries(), id) != -1
                    && *c == self.spec_gn_countries()[geoname_index(self.spec_gn_countries(), id)],
                None => geoname_index(self.spec_gn_countries(), id) == -1,
            },
    {
        let n: usize = self.gn_countries.len();
        let mut i: usize = 0;
        while i < n
            invariant
                i <= n,
                n == self.gn_countries@.len(),
                forall|j: int| 0 <= j < i ==> (#[trigger] self.gn_countries@[j]).geoname_id != id,
            decreases n - i,
        {
            if self.gn_countries[i].geoname_id == id {
                proof {
                    lemma_geoname_index_first_hit(self.gn_countries@, id, i as int);
                }
                return Some(&self.gn_countries[i]);
            }
            i += 1;
        }
        proof {
            lemma_geoname_index(self.gn_countries@, id);
            if geoname_index(self.gn_countries@, id) != -1 {
                assert(self.gn_countries@[geoname_index(self.gn_countries@, id)].geoname_id == id);
            }
        }
        None
    }

    /// Reverse-geocode a position: some shape whose box and ring hold the
    /// point and whose country is known decides; nothing comes back exactly
    /// when no such shape exists.  Which shape decides when several overlap
    /// is left open, as the index returns candidates in no fixed order.
    pub fn search_country(&self, position: Point) -> (r: Option<GeonamesCountry>)
        requires
            self.geo_ok(),
            point_in_range(position),
        ensures
            match r {
                Some(c) => exists|i: int| 0 <= i < self.spec_shapes().len()
                    && shape_contains(#[trigger] self.spec_shapes()[i], position)
                    && geoname_index(self.spec_gn_countries(), self.spec_shapes()[i].ref_id) != -1
                    && c == self.spec_gn_countries()[
                        geoname_index(self.spec_gn_countries(), self.spec_shapes()[i].ref_id)
                    ],
                None => forall|i: int| 0 <= i < self.spec_shapes().len()
                    && shape_contains(#[trigger] self.spec_shapes()[i], position)
                    ==> geoname_index(self.spec_gn_countries(), self.spec_shapes()[i].ref_id)
                        == -1,
            },
    {
        let env = position.envelope();
        let cands: Vec<u64> = self.shapes2d.query_intersecting(&env);
        let n: usize = cands.len();
        let mut k: usize = 0;
        while k < n
            invariant
                self.geo_ok(),
                point_in_range(position),
                k <= n,
                n == cands@.len(),
                env == (Envelope {
                    min_lng: position.lng,
                    min_lat: position.lat,
                    max_lng: position.lng,
                    max_lat: position.lat,
                }),
                forall|l: int| 0 <= l < cands@.len() ==> (#[trigger] cands@[l]) < self.shapes@.len()
                    && env_intersects(
                        env,
                        self.shapes2d@[cands@[l] as int].min_lng as int,
                        self.shapes2d@[cands@[l] as int].min_lat as int,
                        self.shapes2d@[cands@[l] as int].max_lng as int,
                        self.shapes2d@[cands@[l] as int].max_lat as int,
                    ),
                forall|i2: int| 0 <= i2 < self.shapes@.len() && env_intersects(
                    env,
                    (#[trigger] self.shapes2d@[i2]).min_lng as int,
                    self.shapes2d@[i2].min_lat as int,
                    self.shapes2d@[i2].max_lng as int,
                    self.shapes2d@[i2].max_lat as int,
                ) ==> exists|l: int| 0 <= l < cands@.len() && cands@[l] == i2,
                forall|l: int| 0 <= l < k ==> !(
                    shape_contains(self.shapes@[#[trigger] cands@[l] as int], position)
                    && geoname_index(self.spec_gn_countries(),
                        self.shapes@[cands@[l] as int].ref_id) != -1
                ),
            decreases n - k,
        {
            let shn: usize = self.shapes.len();
            proof {
                assert(cands@[k as int] < self.shapes@.len());
            }
            let idx: usize = cands[k] as usize;
            proof {
                assert(idx as int == cands@[k as int] as int);
            }
            let sh = &self.shapes[idx];
            let mut hit: bool = false;
            if point_in_ring(position, &sh.ring) {
                match self.find_geonames_country(sh.ref_id) {
                    Option::Some(c) => {
                        proof {
                            assert(env_intersects(
                                env,
                                self.shapes2d@[idx as int].min_lng as int,
                                self.shapes2d@[idx as int].min_lat as int,
                                self.shapes2d@[idx as int].max_lng as int,
                                self.shapes2d@[idx as int].max_lat as int,
                            ));
                            assert(shape_contains(self.shapes@[idx as int], position));
                            let gi = geoname_index(self.spec_gn_countries(),
                                self.shapes@[idx as int].ref_id);
                            assert(gi != -1 && *c == self.spec_gn_countries()[gi]);
                            assert((idx as int) < self.spec_shapes().len()
                                && shape_contains(self.spec_shapes()[idx as int], position)
                                && geoname_index(self.spec_gn_countries(),
                                    self.spec_shapes()[idx as int].ref_id) != -1
                                && *c == self.spec_gn_countries()[
                                    geoname_index(self.spec_gn_countries(),
                                        self.spec_shapes()[idx as int].ref_id)
                                ]);
                        }
                        return Some(c.duplicate());
                    },
                    Option::None => {
                        proof {
                            assert(geoname_index(self.spec_gn_countries(),
                                self.shapes@[idx as int].ref_id) == -1);
                        }
                    },
                }
            } else {
                proof {
                    assert(!spec_point_in_ring(position, self.shapes@[idx as int].ring@));
                }
            }
            proof {
                assert forall|l: int| 0 <= l < k as int + 1 implies !(
                    shape_contains(self.shapes@[#[trigger] cands@[l] as int], position)
                    && geoname_index(self.spec_gn_countries(),
                        self.shapes@[cands@[l] as int].ref_id) != -1
                ) by {
                    if l == k as int {
                        assert(cands@[l] as int == idx as int);
                    }
                }
            }
            k += 1;
        }
        proof {
            assert forall|i: int| 0 <= i < self.spec_shapes().len()
                && shape_contains(#[trigger] self.spec_shapes()[i], position)
                implies geoname_index(self.spec_gn_countries(), self.spec_shapes()[i].ref_id)
                    == -1 by {
                let b = self.shapes@[i].bbox;
                assert(self.shapes2d@[i] == b);
                assert(env_intersects(env, b.min_lng as int, b.min_lat as int,
                    b.max_lng as int, b.max_lat as int));
                let l = choose|l: int| 0 <= l < cands@.len() && cands@[l] == i;
                assert(!(shape_contains(self.shapes@[cands@[l] as int], position)
                    && geoname_index(self.spec_gn_countries(),
                        self.shapes@[cands@[l] as int].ref_id) != -1));
            }
        }
        None
    }

    /// One reconciliation pass over a decoded snapshot.
    ///
    /// A snapshot no newer than the last processed one leaves the live
    /// state untouched and only runs the periodic bookkeeping.  A fresh
    /// snapshot replaces the pilot views with exactly its pilots (the last
    /// record winning a repeated callsign), replaces the controller
    /// working set with its controllers other than rejects, attaches and
    /// detaches controllers on the static data, and hands back the track
    /// appends, the per-country counts, the airports whose ATIS changed,
    /// and the cleanup decision.
    pub fn process_snapshot(&mut self, data: Snapshot, now: i64) -> (r: TickOutput)
        requires
            old(self).inv(),
        ensures
            final(self).inv(),
            r.processed == (data.updated_at > old(self).spec_updated_at()),
            r.processed ==> {
                let ps = data.pilots@;
                let ctrls = data.controllers@;
                &&& final(self).spec_updated_at() == data.updated_at
                &&& forall|cs: Seq<char>| final(self).pilots_view().contains_key(cs)
                    <==> last_pilot_before(ps, cs, ps.len() as int) != -1
                &&& forall|cs: Seq<char>| #[trigger] final(self).pilots_view().contains_key(cs)
                    ==> final(self).pilots_view()[cs]
                        == crate::spatial::spec_norm_pilot(
                            ps[last_pilot_before(ps, cs, ps.len() as int)],
                        )
                &&& forall|cs: Seq<char>| final(self).controllers_view().contains_key(cs)
                    <==> last_ctrl_before(ctrls, cs, ctrls.len() as int) != -1
                &&& forall|cs: Seq<char>| #[trigger] final(self).controllers_view().contains_key(cs)
                    ==> final(self).controllers_view()[cs]
                        == ctrls[last_ctrl_before(ctrls, cs, ctrls.len() as int)]
            },
            !r.processed ==> {
                &&& final(self).pilots_view() == old(self).pilots_view()
                &&& final(self).controllers_view() == old(self).controllers_view()
                &&& final(self).spec_updated_at() == old(self).spec_updated_at()
                &&& final(self).spec_fixed() == old(self).spec_fixed()
            },
            // the previous-callsign set ends every tick equal to the pilot keys
            final(self).previous_view() =~= final(self).pilots_view().dom(),
            // track appends: one per snapshot pilot, in order, when tracking
            (r.processed && old(self).spec_track_enabled()) ==> {
                &&& r.track_appends@.len() == data.pilots@.len()
                &&& forall|j: int| 0 <= j < data.pilots@.len()
                    ==> (#[trigger] r.track_appends@[j]).code@
                            == crate::moving::spec_track_code(data.pilots@[j])
                        && r.track_appends@[j].point == (crate::persistent::TrackPoint {
                            lat: data.pilots@[j].position.lat,
                            lng: data.pilots@[j].position.lng,
                            alt: data.pilots@[j].altitude,
                            hdg: data.pilots@[j].heading,
                            gs: data.pilots@[j].groundspeed,
                            ts: data.pilots@[j].last_updated,
                        })
            },
            (!r.processed || !old(self).spec_track_enabled())
                ==> r.track_appends@.len() == 0,
            // the metric counters the pass maintains
            r.processed ==> {
                &&& final(self).spec_metrics().vatsim_data_timestamp == data.updated_at
                &&& final(self).spec_metrics().pilots_online as int
                    == final(self).spec_pilot_store().spec_len()
                &&& final(self).spec_metrics().controllers_online as int
                    == final(self).spec_controllers_count()
                &&& final(self).spec_metrics().track_count
                    == old(self).spec_metrics().track_count
                &&& final(self).spec_metrics().track_point_count
                    == old(self).spec_metrics().track_point_count
                &&& final(self).spec_metrics().timestamp_parse_failures
                    == old(self).spec_metrics().timestamp_parse_failures
            },
            !r.processed ==> final(self).spec_metrics() == old(self).spec_metrics(),
            // the cleanup cadence: due on every fifth tick
            r.do_cleanup == (old(self).spec_countdown() == 1),
            final(self).spec_countdown() == (if old(self).spec_countdown() == 1 {
                5u8
            } else {
                (old(self).spec_countdown() - 1) as u8
            }),
    {
        let mut track_appends: Vec<TrackAppend> = Vec::new();
        let mut country_counts = Counter::new();
        let mut atis_airports: Vec<String> = Vec::new();
        let processed: bool = data.updated_at > self.data_updated_at;
        if processed {
            self.data_updated_at = data.updated_at;
            self.metrics.vatsim_data_timestamp = data.updated_at;
            let ghost m0 = self.metrics;

            // pilots pass: upsert every snapshot pilot into the tri-view
            // store, collecting the fresh callsign set
            let ghost ps = data.pilots@;
            let mut fresh: StrMap<()> = StrMap::new();
            let n: usize = data.pilots.len();
            let mut i: usize = 0;
            while i < n
                invariant
                    self.fixed.inv(),
                    self.pilots.inv(),
                    self.controllers.inv(),
                    airports_tree_ok(self.fixed, self.airports2d),
                    self.firs2d.inv(),
                    self.firs2d@.len() == self.fixed.spec_firs().len(),
                    forall|q: int| 0 <= q < self.fixed.spec_firs().len()
                        ==> self.firs2d@[q] == fir_env(#[trigger] self.fixed.spec_firs()[q]),
                    self.geo_ok(),
                    forall|cs: Seq<char>| #[trigger] self.controllers@.contains_key(cs)
                        ==> !(self.controllers@[cs].facility is Reject)
                            && self.controllers@[cs].callsign@ == cs,
                    1 <= self.cleanup_countdown <= 5,
                    fresh.inv(),
                    country_counts.inv(),
                    i <= n,
                    n == ps.len(),
                    ps == data.pilots@,
                    self.fixed == old(self).fixed,
                    self.airports2d == old(self).airports2d,
                    self.firs2d == old(self).firs2d,
                    self.shapes == old(self).shapes,
                    self.shapes2d == old(self).shapes2d,
                    self.gn_countries == old(self).gn_countries,
                    self.previous_callsigns == old(self).previous_callsigns,
                    self.controllers == old(self).controllers,
                    self.track_enabled == old(self).track_enabled,
                    self.cleanup_countdown == old(self).cleanup_countdown,
                    self.data_updated_at == data.updated_at,
                    self.metrics == m0,
                    forall|cs: Seq<char>| fresh@.contains_key(cs)
                        <==> last_pilot_before(ps, cs, i as int) != -1,
                    forall|cs: Seq<char>| last_pilot_before(ps, cs, i as int) != -1
                        ==> self.pilots@.contains_key(cs)
                            && self.pilots@[cs] == crate::spatial::spec_norm_pilot(
                                ps[last_pilot_before(ps, cs, i as int)],
                            ),
                    forall|cs: Seq<char>| last_pilot_before(ps, cs, i as int) == -1
                        ==> self.pilots@.contains_key(cs)
                                == old(self).pilots@.contains_key(cs)
                            && (self.pilots@.contains_key(cs)
                                ==> self.pilots@[cs] == old(self).pilots@[cs]),
                    self.track_enabled ==> track_appends@.len() == i as int,
                    !self.track_enabled ==> track_appends@.len() == 0,
                    forall|j: int| 0 <= j < track_appends@.len()
                        ==> (#[trigger] track_appends@[j]).code@
                                == crate::moving::spec_track_code(ps[j])
                            && track_appends@[j].point == (crate::persistent::TrackPoint {
                                lat: ps[j].position.lat,
                                lng: ps[j].position.lng,
                                alt: ps[j].altitude,
                                hdg: ps[j].heading,
                                gs: ps[j].groundspeed,
                                ts: ps[j].last_updated,
                            }),
                decreases n - i,
            {
                let p = &data.pilots[i];
                if self.track_enabled {
                    track_appends.push(TrackAppend::for_pilot(p));
                }
                if p.position.lat >= -COORD_INPUT_LIMIT && p.position.lat <= COORD_INPUT_LIMIT
                    && p.position.lng >= -COORD_INPUT_LIMIT
                    && p.position.lng <= COORD_INPUT_LIMIT {
                    let cp = p.position.clamp();
                    match self.search_country(cp) {
                        Option::Some(c) => {
                            let key = crate::textnum::fmt_u64(c.geoname_id as u64);
                            country_counts.inc(&key);
                        },
                        Option::None => {},
                    }
                }
                fresh.insert(p.callsign.clone(), ());
                self.pilots.insert_pilot(p.duplicate());
                proof {
                    let ii = i as int;
                    assert forall|cs: Seq<char>| fresh@.contains_key(cs)
                        <==> #[trigger] last_pilot_before(ps, cs, ii + 1) != -1 by {
                        if ps[ii].callsign@ == cs {
                            assert(last_pilot_before(ps, cs, ii + 1) == ii);
                        } else {
                            assert(last_pilot_before(ps, cs, ii + 1)
                                == last_pilot_before(ps, cs, ii));
                        }
                    }
                    assert forall|cs: Seq<char>|
                        #[trigger] last_pilot_before(ps, cs, ii + 1) != -1
                        implies self.pilots@.contains_key(cs)
                            && self.pilots@[cs] == crate::spatial::spec_norm_pilot(
                                ps[last_pilot_before(ps, cs, ii + 1)],
                            ) by {
                        if ps[ii].callsign@ == cs {
                            assert(last_pilot_before(ps, cs, ii + 1) == ii);
                        } else {
                            assert(last_pilot_before(ps, cs, ii + 1)
                                == last_pilot_before(ps, cs, ii));
                        }
                    }
                    assert forall|cs: Seq<char>|
                        #[trigger] last_pilot_before(ps, cs, ii + 1) == -1
                        implies self.pilots@.contains_key(cs)
                                == old(self).pilots@.contains_key(cs)
                            && (self.pilots@.contains_key(cs)
                                ==> self.pilots@[cs] == old(self).pilots@[cs]) by {
                        assert(ps[ii].callsign@ != cs);
                        assert(last_pilot_before(ps, cs, ii + 1)
                            == last_pilot_before(ps, cs, ii));
                    }
                }
                i += 1;
            }

            // removal pass: purge callsigns of the previous snapshot that
            // this one no longer carries
            proof {
                self.previous_callsigns.lemma_enumeration();
            }
            let prev_keys: Vec<String> = self.previous_callsigns.key_list();
            let ghost pk = prev_keys@.map_values(|s: String| s@);
            let m: usize = prev_keys.len();
            let mut j: usize = 0;
            while j < m
                invariant
                    self.pilots.inv(),
                    fresh.inv(),
                    self.fixed == old(self).fixed,
                    self.airports2d == old(self).airports2d,
                    self.firs2d == old(self).firs2d,
                    self.shapes == old(self).shapes,
                    self.shapes2d == old(self).shapes2d,
                    self.gn_countries == old(self).gn_countries,
                    self.previous_callsigns == old(self).previous_callsigns,
                    self.controllers == old(self).controllers,
                    self.track_enabled == old(self).track_enabled,
                    self.cleanup_countdown == old(self).cleanup_countdown,
                    self.data_updated_at == data.updated_at,
                    self.metrics == m0,
                    old(self).inv(),
                    j <= m,
                    m == pk.len(),
                    pk == prev_keys@.map_values(|s: String| s@),
                    ps == data.pilots@,
                    forall|cs: Seq<char>| fresh@.contains_key(cs)
                        <==> last_pilot_before(ps, cs, ps.len() as int) != -1,
                    forall|cs: Seq<char>| last_pilot_before(ps, cs, ps.len() as int) != -1
                        ==> self.pilots@.contains_key(cs)
                            && self.pilots@[cs] == crate::spatial::spec_norm_pilot(
                                ps[last_pilot_before(ps, cs, ps.len() as int)],
                            ),
                    forall|cs: Seq<char>| last_pilot_before(ps, cs, ps.len() as int) == -1
                        && self.pilots@.contains_key(cs)
                        ==> old(self).pilots@.contains_key(cs)
                            && !(exists|l: int| 0 <= l < j && pk[l] == cs),
                decreases m - j,
            {
                let cs = &prev_keys[j];
                if !fresh.contains_key(cs) {
                    self.pilots.remove_pilot(cs);
                }
                proof {
                    assert forall|cs2: Seq<char>|
                        last_pilot_before(ps, cs2, ps.len() as int) == -1
                            && self.pilots@.contains_key(cs2)
                        implies old(self).pilots@.contains_key(cs2)
                            && !(exists|l: int| 0 <= l < j + 1 && pk[l] == cs2) by {
                        if cs2 == cs@ {
                            assert(!fresh@.contains_key(cs2));
                            assert(!self.pilots@.contains_key(cs2));
                        }
                    }
                }
                j += 1;
            }
            self.previous_callsigns = fresh;
            proof {
                // every stale key was in the previous set, whose keys were
                // all walked, so the pilot keys now equal the fresh set
                assert forall|cs: Seq<char>| #[trigger] self.pilots@.contains_key(cs)
                    implies last_pilot_before(ps, cs, ps.len() as int) != -1 by {
                    if last_pilot_before(ps, cs, ps.len() as int) == -1 {
                        assert(old(self).pilots@.contains_key(cs));
                        assert(old(self).previous_callsigns@.dom().contains(cs));
                        old(self).previous_callsigns.lemma_enumeration();
                        assert(old(self).previous_callsigns.spec_keys().contains(cs));
                        let l = choose|l: int| 0 <= l
                            < old(self).previous_callsigns.spec_keys().len()
                            && old(self).previous_callsigns.spec_keys()[l] == cs;
                        assert(pk[l] == cs);
                    }
                }
                assert(self.previous_callsigns@.dom() =~= self.pilots@.dom());
            }
            let pcount: usize = self.pilots.len();
            self.metrics.pilots_online = pcount as u64;
            let ghost m1 = self.metrics;
            let ghost pilots_done = self.pilots;
            let ghost previous_done = self.previous_callsigns;

            // controllers pass: rebuild the working set, attaching each
            // non-reject controller to its region or airport
            let ghost ctrls = data.controllers@;
            let mut fresh_ctrl: StrMap<Controller> = StrMap::new();
            let nc: usize = data.controllers.len();
            let mut c: usize = 0;
            while c < nc
                invariant
                    self.fixed.inv(),
                    self.pilots.inv(),
                    self.previous_callsigns.inv(),
                    self.controllers.inv(),
                    fresh_ctrl.inv(),
                    airports_tree_ok(self.fixed, self.airports2d),
                    self.firs2d.inv(),
                    self.firs2d@.len() == self.fixed.spec_firs().len(),
                    forall|q: int| 0 <= q < self.fixed.spec_firs().len()
                        ==> self.firs2d@[q] == fir_env(#[trigger] self.fixed.spec_firs()[q]),
                    self.geo_ok(),
                    self.pilots == pilots_done,
                    self.previous_callsigns == previous_done,
                    self.shapes == old(self).shapes,
                    self.shapes2d == old(self).shapes2d,
                    self.gn_countries == old(self).gn_countries,
                    self.track_enabled == old(self).track_enabled,
                    self.cleanup_countdown == old(self).cleanup_countdown,
                    self.data_updated_at == data.updated_at,
                    self.metrics == m1,
                    self.previous_callsigns@.dom() == self.pilots@.dom(),
                    forall|cs: Seq<char>| #[trigger] self.controllers@.contains_key(cs)
                        ==> !(self.controllers@[cs].facility is Reject)
                            && self.controllers@[cs].callsign@ == cs,
                    1 <= self.cleanup_countdown <= 5,
                    c <= nc,
                    nc == ctrls.len(),
                    ctrls == data.controllers@,
                    self.controllers == old(self).controllers,
                    forall|cs: Seq<char>| fresh_ctrl@.contains_key(cs)
                        <==> last_ctrl_before(ctrls, cs, c as int) != -1,
                    forall|cs: Seq<char>| #[trigger] fresh_ctrl@.contains_key(cs)
                        ==> fresh_ctrl@[cs] == ctrls[last_ctrl_before(ctrls, cs, c as int)]
                            && fresh_ctrl@[cs].callsign@ == cs
                            && !(fresh_ctrl@[cs].facility is Reject),
                decreases nc - c,
            {
                let ctrl = &data.controllers[c];
                let ghost fpre = self.fixed;
                match ctrl.facility {
                    Facility::Reject => {},
                    Facility::Radar => {
                        fresh_ctrl.insert(ctrl.callsign.clone(), ctrl.duplicate());
                        self.fixed.set_fir_controller(ctrl.duplicate());
                        proof {
                            lemma_airports_tree_stable(fpre, self.fixed, self.airports2d);
                            assert forall|q: int| 0 <= q < self.fixed.spec_firs().len()
                                implies self.firs2d@[q]
                                    == fir_env(#[trigger] self.fixed.spec_firs()[q]) by {
                                let pfx = spec_callsign_prefix(ctrl.callsign@);
                                if spec_fir_matches(fpre.spec_firs()[q], pfx) {
                                    assert(self.fixed.spec_firs()[q].boundaries
                                        == fpre.spec_firs()[q].boundaries);
                                } else {
                                    assert(self.fixed.spec_firs()[q] == fpre.spec_firs()[q]);
                                }
                            }
                        }
                    },
                    _ => {
                        fresh_ctrl.insert(ctrl.callsign.clone(), ctrl.duplicate());
                        match self.fixed.set_airport_controller(ctrl.duplicate()) {
                            Option::Some(icao) => {
                                atis_airports.push(icao);
                            },
                            Option::None => {},
                        }
                        proof {
                            fpre.lemma_compound_resolves();
                            lemma_airports_tree_stable(fpre, self.fixed, self.airports2d);
                        }
                    },
                }
                proof {
                    let ci = c as int;
                    assert forall|cs: Seq<char>| (fresh_ctrl@.contains_key(cs)
                        <==> last_ctrl_before(ctrls, cs, ci + 1) != -1)
                        && (fresh_ctrl@.contains_key(cs)
                            ==> fresh_ctrl@[cs] == ctrls[last_ctrl_before(ctrls, cs, ci + 1)]
                                && fresh_ctrl@[cs].callsign@ == cs
                                && !(fresh_ctrl@[cs].facility is Reject)) by {
                        if ctrls[ci].callsign@ == cs && !(ctrls[ci].facility is Reject) {
                            assert(last_ctrl_before(ctrls, cs, ci + 1) == ci);
                        } else {
                            assert(last_ctrl_before(ctrls, cs, ci + 1)
                                == last_ctrl_before(ctrls, cs, ci));
                        }
                    }
                }
                c += 1;
            }

            // detach the controllers of the previous snapshot that this one
            // no longer carries
            proof {
                self.controllers.lemma_enumeration();
            }
            let oc: usize = self.controllers.len();
            let mut d: usize = 0;
            while d < oc
                invariant
                    self.fixed.inv(),
                    self.pilots.inv(),
                    self.previous_callsigns.inv(),
                    self.controllers.inv(),
                    fresh_ctrl.inv(),
                    airports_tree_ok(self.fixed, self.airports2d),
                    self.firs2d.inv(),
                    self.firs2d@.len() == self.fixed.spec_firs().len(),
                    forall|q: int| 0 <= q < self.fixed.spec_firs().len()
                        ==> self.firs2d@[q] == fir_env(#[trigger] self.fixed.spec_firs()[q]),
                    self.geo_ok(),
                    self.pilots == pilots_done,
                    self.previous_callsigns == previous_done,
                    self.shapes == old(self).shapes,
                    self.shapes2d == old(self).shapes2d,
                    self.gn_countries == old(self).gn_countries,
                    self.track_enabled == old(self).track_enabled,
                    self.cleanup_countdown == old(self).cleanup_countdown,
                    self.data_updated_at == data.updated_at,
                    self.metrics == m1,
                    self.previous_callsigns@.dom() == self.pilots@.dom(),
                    forall|cs: Seq<char>| #[trigger] self.controllers@.contains_key(cs)
                        ==> !(self.controllers@[cs].facility is Reject)
                            && self.controllers@[cs].callsign@ == cs,
                    1 <= self.cleanup_countdown <= 5,
                    d <= oc,
                    oc == self.controllers.spec_len(),
                    self.controllers == old(self).controllers,
                    ctrls == data.controllers@,
                    forall|cs: Seq<char>| fresh_ctrl@.contains_key(cs)
                        <==> last_ctrl_before(ctrls, cs, ctrls.len() as int) != -1,
                    forall|cs: Seq<char>| #[trigger] fresh_ctrl@.contains_key(cs)
                        ==> fresh_ctrl@[cs]
                                == ctrls[last_ctrl_before(ctrls, cs, ctrls.len() as int)]
                            && fresh_ctrl@[cs].callsign@ == cs
                            && !(fresh_ctrl@[cs].facility is Reject),
                decreases oc - d,
            {
                proof {
                    self.controllers.lemma_enumeration();
                }
                let (cs, stored) = self.controllers.entry_at(d);
                if !fresh_ctrl.contains_key(cs) {
                    let ghost fpre = self.fixed;
                    let is_radar: bool = matches!(stored.facility, Facility::Radar);
                    if is_radar {
                        self.fixed.reset_fir_controller(stored);
                        proof {
                            lemma_airports_tree_stable(fpre, self.fixed, self.airports2d);
                            assert forall|q: int| 0 <= q < self.fixed.spec_firs().len()
                                implies self.firs2d@[q]
                                    == fir_env(#[trigger] self.fixed.spec_firs()[q]) by {
                                assert(self.fixed.spec_firs()[q].boundaries
                                    == fpre.spec_firs()[q].boundaries);
                            }
                        }
                    } else {
                        self.fixed.reset_airport_controller(stored);
                        proof {
                            fpre.lemma_compound_resolves();
                            lemma_airports_tree_stable(fpre, self.fixed, self.airports2d);
                        }
                    }
                }
                d += 1;
            }
            self.controllers = fresh_ctrl;
            let ccount: usize = self.controllers.len();
            self.metrics.controllers_online = ccount as u64;
        }

        // periodic bookkeeping: the cleanup cadence runs on every tick
        let do_cleanup: bool = self.cleanup_countdown == 1;
        if do_cleanup {
            self.cleanup_countdown = 5;
        } else {
            self.cleanup_countdown = self.cleanup_countdown - 1;
        }
        TickOutput { processed, track_appends, atis_airports, country_counts, do_cleanup }
    }
}


/// An envelope with its corners ordered, as the spatial trees store boxes:
/// what querying with unordered corners means.
pub open spec fn env_norm(e: Envelope) -> Envelope {
    Envelope {
        min_lng: if e.min_lng <= e.max_lng { e.min_lng } else { e.max_lng },
        max_lng: if e.min_lng <= e.max_lng { e.max_lng } else { e.min_lng },
        min_lat: if e.min_lat <= e.max_lat { e.min_lat } else { e.max_lat },
        max_lat: if e.min_lat <= e.max_lat { e.max_lat } else { e.min_lat },
    }
}

/// Order an envelope's corners.
pub fn normalize_envelope(e: &Envelope) -> (r: Envelope)
    ensures
        r == env_norm(*e),
        r.min_lng <= r.max_lng,
        r.min_lat <= r.max_lat,
{
    Envelope {
        min_lng: if e.min_lng <= e.max_lng { e.min_lng } else { e.max_lng },
        max_lng: if e.min_lng <= e.max_lng { e.max_lng } else { e.min_lng },
        min_lat: if e.min_lat <= e.max_lat { e.min_lat } else { e.max_lat },
        max_lat: if e.min_lat <= e.max_lat { e.max_lat } else { e.min_lat },
    }
}

/// The eastern clip of a wrapped envelope.
pub open spec fn east_part(env: Envelope) -> Envelope {
    Envelope { min_lng: env.min_lng, min_lat: env.min_lat, max_lng: crate::types::SPLIT_LNG_MAX, max_lat: env.max_lat }
}

/// The western clip of a wrapped envelope.
pub open spec fn west_part(env: Envelope) -> Envelope {
    Envelope { min_lng: crate::types::SPLIT_LNG_MIN, min_lat: env.min_lat, max_lng: env.max_lng, max_lat: env.max_lat }
}

/// Whether a viewport rectangle covers a position: its envelope, split at
/// the antimeridian when wrapped, with corners ordered as the index orders
/// them.
pub open spec fn rect_covers(rect: Rect, lng: int, lat: int) -> bool {
    let env = Envelope {
        min_lng: rect.south_west.lng,
        min_lat: rect.south_west.lat,
        max_lng: rect.north_east.lng,
        max_lat: rect.north_east.lat,
    };
    if spec_env_wrapped(env) {
        env_contains(env_norm(east_part(env)), lng, lat)
            || env_contains(env_norm(west_part(env)), lng, lat)
    } else {
        env_contains(env_norm(env), lng, lat)
    }
}

/// Whether a viewport rectangle touches a bounding box, by the same
/// splitting rule with edge-inclusive intersection.
pub open spec fn rect_meets(rect: Rect, b: Envelope) -> bool {
    let env = Envelope {
        min_lng: rect.south_west.lng,
        min_lat: rect.south_west.lat,
        max_lng: rect.north_east.lng,
        max_lat: rect.north_east.lat,
    };
    if spec_env_wrapped(env) {
        env_intersects(env_norm(east_part(env)), b.min_lng as int, b.min_lat as int,
            b.max_lng as int, b.max_lat as int)
            || env_intersects(env_norm(west_part(env)), b.min_lng as int, b.min_lat as int,
                b.max_lng as int, b.max_lat as int)
    } else {
        env_intersects(env_norm(env), b.min_lng as int, b.min_lat as int,
            b.max_lng as int, b.max_lat as int)
    }
}

impl Manager {
    /// The live pilots inside a viewport: exactly those whose position the
    /// rectangle covers, each once.
    pub fn get_pilots(&self, rect: &Rect) -> (r: Vec<Pilot>)
        requires
            self.inv(),
        ensures
            forall|i: int| 0 <= i < r@.len()
                ==> self.pilots_view().contains_key((#[trigger] r@[i]).callsign@)
                    && r@[i] == self.pilots_view()[r@[i].callsign@]
                    && rect_covers(*rect, r@[i].position.lng as int, r@[i].position.lat as int),
            forall|cs: Seq<char>| #[trigger] self.pilots_view().contains_key(cs)
                && rect_covers(*rect, self.pilots_view()[cs].position.lng as int,
                    self.pilots_view()[cs].position.lat as int)
                ==> exists|i: int| 0 <= i < r@.len() && r@[i].callsign@ == cs,
            forall|i: int, j: int| 0 <= i < j < r@.len()
                ==> r@[i].callsign@ != r@[j].callsign@,
    {
        let env = rect.envelope();
        if env.min_lng > 0 && env.max_lng < 0 {
            let east = normalize_envelope(&Envelope {
                min_lng: env.min_lng,
                min_lat: env.min_lat,
                max_lng: crate::types::SPLIT_LNG_MAX,
                max_lat: env.max_lat,
            });
            let west = normalize_envelope(&Envelope {
                min_lng: crate::types::SPLIT_LNG_MIN,
                min_lat: env.min_lat,
                max_lng: env.max_lng,
                max_lat: env.max_lat,
            });
            let ghost envg = env;
            let mut out = self.pilots.query_env(&east);
            let more = self.pilots.query_env(&west);
            let ghost e1 = out@;
            let ghost e2 = more@;
            let mut k: usize = 0;
            let nm: usize = more.len();
            while k < nm
                invariant
                    k <= nm,
                    nm == e2.len(),
                    e2 == more@,
                    out@ == e1 + e2.subrange(0, k as int),
                decreases nm - k,
            {
                let p = more[k].duplicate();
                out.push(p);
                proof {
                    assert(out@ =~= e1 + e2.subrange(0, k as int + 1));
                }
                k += 1;
            }
            proof {
                assert(e2.subrange(0, e2.len() as int) =~= e2);
                assert(out@ == e1 + e2);
                assert(east == env_norm(east_part(envg)) && west == env_norm(west_part(envg)));
                assert forall|i: int| 0 <= i < out@.len()
                    implies self.pilots_view().contains_key((#[trigger] out@[i]).callsign@)
                        && out@[i] == self.pilots_view()[out@[i].callsign@]
                        && rect_covers(*rect, out@[i].position.lng as int,
                            out@[i].position.lat as int) by {
                    if i < e1.len() {
                        assert(out@[i] == e1[i]);
                    } else {
                        assert(out@[i] == e2[i - e1.len()]);
                    }
                }
                assert forall|cs: Seq<char>| #[trigger] self.pilots_view().contains_key(cs)
                    && rect_covers(*rect, self.pilots_view()[cs].position.lng as int,
                        self.pilots_view()[cs].position.lat as int)
                    implies exists|i: int| 0 <= i < out@.len()
                        && out@[i].callsign@ == cs by {
                    let pos = self.pilots_view()[cs].position;
                    if env_contains(east, pos.lng as int, pos.lat as int) {
                        let i = choose|i: int| 0 <= i < e1.len() && e1[i].callsign@ == cs;
                        assert(out@[i].callsign@ == cs);
                    } else {
                        assert(env_contains(west, pos.lng as int, pos.lat as int));
                        let i = choose|i: int| 0 <= i < e2.len() && e2[i].callsign@ == cs;
                        assert(out@[i + e1.len()].callsign@ == cs);
                    }
                }
                assert forall|i: int, j: int| 0 <= i < j < out@.len()
                    implies out@[i].callsign@ != out@[j].callsign@ by {
                    if i < e1.len() && j >= e1.len() {
                        // the two halves lie in disjoint longitude bands
                        if out@[i].callsign@ == out@[j].callsign@ {
                            let cs = out@[i].callsign@;
                            assert(e1[i] == self.pilots_view()[cs]);
                            assert(e2[j - e1.len()] == self.pilots_view()[cs]);
                            assert(e1[i].position.lng >= east.min_lng);
                            assert(e2[j - e1.len()].position.lng <= west.max_lng);
                        }
                    } else if i < e1.len() && j < e1.len() {
                        assert(e1[i].callsign@ != e1[j].callsign@);
                    } else {
                        assert(e2[i - e1.len()].callsign@ != e2[j - e1.len()].callsign@);
                    }
                }
            }
            out
        } else {
            let ne = normalize_envelope(&env);
            self.pilots.query_env(&ne)
        }
    }

    /// The located airport entries for a viewport: each names a stored
    /// compound key at its airport's position inside the viewport, and
    /// every covered airport appears.
    fn locate_airport_hits(&self, rect: &Rect) -> (hits: Vec<(String, Point)>)
        requires
            self.inv(),
        ensures
            forall|h: int| 0 <= h < hits@.len() ==> {
                let cid = (#[trigger] hits@[h]).0@;
                &&& self.spec_fixed().spec_compound().contains_key(cid)
                &&& self.spec_fixed().spec_airports()[
                        self.spec_fixed().spec_compound()[cid]@].position == hits@[h].1
                &&& rect_covers(*rect, hits@[h].1.lng as int, hits@[h].1.lat as int)
            },
            forall|cid: Seq<char>|
                #[trigger] self.spec_fixed().spec_compound().contains_key(cid)
                && rect_covers(
                    *rect,
                    self.spec_fixed().spec_airports()[
                        self.spec_fixed().spec_compound()[cid]@].position.lng as int,
                    self.spec_fixed().spec_airports()[
                        self.spec_fixed().spec_compound()[cid]@].position.lat as int,
                )
                ==> exists|h: int| 0 <= h < hits@.len() && (hits@[h]).0@ == cid,
            forall|h: int, h2: int| 0 <= h < h2 < hits@.len()
                ==> (hits@[h]).0@ != (hits@[h2]).0@,
    {
        broadcast use vstd::seq_lib::group_to_multiset_ensures;

        let env = rect.envelope();
        if env.min_lng > 0 && env.max_lng < 0 {
            let east = normalize_envelope(&Envelope {
                min_lng: env.min_lng,
                min_lat: env.min_lat,
                max_lng: crate::types::SPLIT_LNG_MAX,
                max_lat: env.max_lat,
            });
            let west = normalize_envelope(&Envelope {
                min_lng: crate::types::SPLIT_LNG_MIN,
                min_lat: env.min_lat,
                max_lng: env.max_lng,
                max_lat: env.max_lat,
            });
            let mut hits = self.airports2d.locate(&east);
            let mut more = self.airports2d.locate(&west);
            let ghost t1 = hits@.map_values(|t: (String, Point)| (t.0@, t.1));
            let ghost t2 = more@.map_values(|t: (String, Point)| (t.0@, t.1));
            let ghost ine = |e: (Seq<char>, Point)| env_contains(east, e.1.lng as int, e.1.lat as int);
            let ghost inw = |e: (Seq<char>, Point)| env_contains(west, e.1.lng as int, e.1.lat as int);
            hits.append(&mut more);
            proof {
                assert(hits@.map_values(|t: (String, Point)| (t.0@, t.1)) =~= t1 + t2);
                let tuples = hits@.map_values(|t: (String, Point)| (t.0@, t.1));
                assert forall|h: int| 0 <= h < hits@.len() implies {
                    let cid = (#[trigger] hits@[h]).0@;
                    &&& self.spec_fixed().spec_compound().contains_key(cid)
                    &&& self.spec_fixed().spec_airports()[
                            self.spec_fixed().spec_compound()[cid]@].position == hits@[h].1
                    &&& rect_covers(*rect, hits@[h].1.lng as int, hits@[h].1.lat as int)
                } by {
                    let e = tuples[h];
                    assert(e == (hits@[h].0@, hits@[h].1));
                    if h < t1.len() {
                        assert(t1[h] == e);
                        assert(t1.contains(e));
                        assert(t1.to_multiset().count(e) > 0);
                        assert(point_tree_contents(self.airports2d).count(e) > 0 && ine(e));
                    } else {
                        assert(t2[h - t1.len()] == e);
                        assert(t2.contains(e));
                        assert(t2.to_multiset().count(e) > 0);
                        assert(point_tree_contents(self.airports2d).count(e) > 0 && inw(e));
                    }
                }
                assert forall|cid: Seq<char>|
                    #[trigger] self.spec_fixed().spec_compound().contains_key(cid)
                    && rect_covers(
                        *rect,
                        self.spec_fixed().spec_airports()[
                            self.spec_fixed().spec_compound()[cid]@].position.lng as int,
                        self.spec_fixed().spec_airports()[
                            self.spec_fixed().spec_compound()[cid]@].position.lat as int,
                    )
                    implies exists|h: int| 0 <= h < hits@.len() && (hits@[h]).0@ == cid by {
                    let pos = self.spec_fixed().spec_airports()[
                        self.spec_fixed().spec_compound()[cid]@].position;
                    let e = (cid, pos);
                    assert(point_tree_contents(self.airports2d).count(e) == 1);
                    if env_contains(east, pos.lng as int, pos.lat as int) {
                        assert(t1.to_multiset().count(e) > 0);
                        assert(t1.contains(e));
                        let h = choose|h: int| 0 <= h < t1.len() && t1[h] == e;
                        assert(hits@[h].0@ == cid);
                    } else {
                        assert(env_contains(west, pos.lng as int, pos.lat as int));
                        assert(t2.to_multiset().count(e) > 0);
                        assert(t2.contains(e));
                        let h = choose|h: int| 0 <= h < t2.len() && t2[h] == e;
                        assert(hits@[h + t1.len()].0@ == cid);
                    }
                }
                assert forall|h: int, h2: int| 0 <= h < h2 < hits@.len()
                    implies (hits@[h]).0@ != (hits@[h2]).0@ by {
                    if (hits@[h]).0@ == (hits@[h2]).0@ {
                        let cid = (hits@[h]).0@;
                        // both entries carry the airport's one stored position
                        assert(tuples[h].0 == cid && tuples[h2].0 == cid);
                        if h < t1.len() {
                            assert(t1.contains(tuples[h]));
                            assert(t1.to_multiset().count(tuples[h]) > 0);
                        } else {
                            assert(t2.contains(tuples[h]));
                            assert(t2.to_multiset().count(tuples[h]) > 0);
                        }
                        if h2 < t1.len() {
                            assert(t1.contains(tuples[h2]));
                            assert(t1.to_multiset().count(tuples[h2]) > 0);
                        } else {
                            assert(t2.contains(tuples[h2]));
                            assert(t2.to_multiset().count(tuples[h2]) > 0);
                        }
                        let pos = self.spec_fixed().spec_airports()[
                            self.spec_fixed().spec_compound()[cid]@].position;
                        assert(tuples[h].1 == pos && tuples[h2].1 == pos);
                        let e = tuples[h];
                        assert(tuples[h2] == e);
                        if h < t1.len() && h2 < t1.len() {
                            assert(t1[h] == e && t1[h2] == e);
                            crate::spatial::lemma_dup_count(t1, h, h2);
                            assert(t1.to_multiset().count(e) >= 2);
                        } else if h >= t1.len() && h2 >= t1.len() {
                            assert(t2[h - t1.len()] == e && t2[h2 - t1.len()] == e);
                            crate::spatial::lemma_dup_count(t2, h - t1.len(), h2 - t1.len());
                            assert(t2.to_multiset().count(e) >= 2);
                        } else {
                            // one entry per band: the one stored position
                            // cannot lie in both disjoint longitude bands
                            assert(env_contains(east, pos.lng as int, pos.lat as int));
                            assert(env_contains(west, pos.lng as int, pos.lat as int));
                        }
                    }
                }
            }
            hits
        } else {
            let ne = normalize_envelope(&env);
            let hits = self.airports2d.locate(&ne);
            let ghost t1 = hits@.map_values(|t: (String, Point)| (t.0@, t.1));
            let ghost inn = |e: (Seq<char>, Point)| env_contains(ne, e.1.lng as int, e.1.lat as int);
            proof {
                assert forall|h: int| 0 <= h < hits@.len() implies {
                    let cid = (#[trigger] hits@[h]).0@;
                    &&& self.spec_fixed().spec_compound().contains_key(cid)
                    &&& self.spec_fixed().spec_airports()[
                            self.spec_fixed().spec_compound()[cid]@].position == hits@[h].1
                    &&& rect_covers(*rect, hits@[h].1.lng as int, hits@[h].1.lat as int)
                } by {
                    let e = t1[h];
                    assert(e == (hits@[h].0@, hits@[h].1));
                    assert(t1.contains(e));
                    assert(t1.to_multiset().count(e) > 0);
                    assert(point_tree_contents(self.airports2d).count(e) > 0 && inn(e));
                }
                assert forall|cid: Seq<char>|
                    #[trigger] self.spec_fixed().spec_compound().contains_key(cid)
                    && rect_covers(
                        *rect,
                        self.spec_fixed().spec_airports()[
                            self.spec_fixed().spec_compound()[cid]@].position.lng as int,
                        self.spec_fixed().spec_airports()[
                            self.spec_fixed().spec_compound()[cid]@].position.lat as int,
                    )
                    implies exists|h: int| 0 <= h < hits@.len() && (hits@[h]).0@ == cid by {
                    let pos = self.spec_fixed().spec_airports()[
                        self.spec_fixed().spec_compound()[cid]@].position;
                    let e = (cid, pos);
                    assert(point_tree_contents(self.airports2d).count(e) == 1);
                    assert(t1.to_multiset().count(e) > 0);
                    assert(t1.contains(e));
                    let h = choose|h: int| 0 <= h < t1.len() && t1[h] == e;
                    assert(hits@[h].0@ == cid);
                }
                assert forall|h: int, h2: int| 0 <= h < h2 < hits@.len()
                    implies (hits@[h]).0@ != (hits@[h2]).0@ by {
                    if (hits@[h]).0@ == (hits@[h2]).0@ {
                        let cid = (hits@[h]).0@;
                        assert(t1.contains(t1[h]));
                        assert(t1.to_multiset().count(t1[h]) > 0);
                        assert(t1.contains(t1[h2]));
                        assert(t1.to_multiset().count(t1[h2]) > 0);
                        let pos = self.spec_fixed().spec_airports()[
                            self.spec_fixed().spec_compound()[cid]@].position;
                        assert(t1[h].1 == pos && t1[h2].1 == pos);
                        let e = t1[h];
                        assert(t1[h2] == e);
                        crate::spatial::lemma_dup_count(t1, h, h2);
                        assert(t1.to_multiset().count(e) >= 2);
                    }
                }
            }
            hits
        }
    }

    /// The airports inside a viewport that have at least one controller
    /// online: exactly those, each under its own compound key.
    pub fn get_airports(&self, rect: &Rect) -> (r: Vec<Airport>)
        requires
            self.inv(),
        ensures
            forall|i: int| 0 <= i < r@.len() ==> {
                let cid = spec_compound_id(#[trigger] r@[i]);
                &&& r@[i].inv()
                &&& self.spec_fixed().spec_compound().contains_key(cid)
                &&& airport_eq(r@[i], self.spec_fixed().spec_airports()[
                        self.spec_fixed().spec_compound()[cid]@])
                &&& !spec_controller_set_empty(r@[i].controllers)
                &&& rect_covers(*rect, r@[i].position.lng as int, r@[i].position.lat as int)
            },
            forall|cid: Seq<char>| #[trigger] self.spec_fixed().spec_compound().contains_key(cid)
                && !spec_controller_set_empty(self.spec_fixed().spec_airports()[
                    self.spec_fixed().spec_compound()[cid]@].controllers)
                && rect_covers(
                    *rect,
                    self.spec_fixed().spec_airports()[
                        self.spec_fixed().spec_compound()[cid]@].position.lng as int,
                    self.spec_fixed().spec_airports()[
                        self.spec_fixed().spec_compound()[cid]@].position.lat as int,
                )
                ==> exists|i: int| 0 <= i < r@.len() && spec_compound_id(r@[i]) == cid,
            forall|i: int, j: int| 0 <= i < j < r@.len()
                ==> spec_compound_id(r@[i]) != spec_compound_id(r@[j]),
    {
        let hits = self.locate_airport_hits(rect);
        let n: usize = hits.len();
        let mut out: Vec<Airport> = Vec::new();
        let mut i: usize = 0;
        while i < n
            invariant
                self.inv(),
                i <= n,
                n == hits@.len(),
                forall|h: int| 0 <= h < hits@.len() ==> {
                    let cid = (#[trigger] hits@[h]).0@;
                    &&& self.spec_fixed().spec_compound().contains_key(cid)
                    &&& self.spec_fixed().spec_airports()[
                            self.spec_fixed().spec_compound()[cid]@].position == hits@[h].1
                    &&& rect_covers(*rect, hits@[h].1.lng as int, hits@[h].1.lat as int)
                },
                forall|x: int| 0 <= x < out@.len() ==> {
                    let cid = spec_compound_id(#[trigger] out@[x]);
                    &&& out@[x].inv()
                    &&& self.spec_fixed().spec_compound().contains_key(cid)
                    &&& airport_eq(out@[x], self.spec_fixed().spec_airports()[
                            self.spec_fixed().spec_compound()[cid]@])
                    &&& !spec_controller_set_empty(out@[x].controllers)
                    &&& rect_covers(*rect, out@[x].position.lng as int,
                            out@[x].position.lat as int)
                },
                forall|h: int| 0 <= h < i && !spec_controller_set_empty(
                    self.spec_fixed().spec_airports()[
                        self.spec_fixed().spec_compound()[(#[trigger] hits@[h]).0@]@
                    ].controllers,
                ) ==> exists|x: int| 0 <= x < out@.len()
                    && spec_compound_id(out@[x]) == (hits@[h]).0@,
                forall|x: int| 0 <= x < out@.len() ==> exists|h: int| 0 <= h < i
                    && spec_compound_id(#[trigger] out@[x]) == (hits@[h]).0@,
                forall|h: int, h2: int| 0 <= h < h2 < hits@.len()
                    ==> (hits@[h]).0@ != (hits@[h2]).0@,
                forall|x: int, y: int| 0 <= x < y < out@.len()
                    ==> spec_compound_id(out@[x]) != spec_compound_id(out@[y]),
            decreases n - i,
        {
            let ghost out_pre = out@;
            let cid_ref = &hits[i].0;
            let ghost cid = hits@[i as int].0@;
            let ghost tgt = self.spec_fixed().spec_compound()[cid]@;
            match self.fixed.find_airport_compound(cid_ref) {
                Option::Some(a) => {
                    if !a.controllers.is_empty() {
                        out.push(a);
                    }
                },
                Option::None => {
                    proof {
                        assert(false);
                    }
                },
            }
            proof {
                assert forall|h: int| 0 <= h < i as int + 1 && !spec_controller_set_empty(
                    self.spec_fixed().spec_airports()[
                        self.spec_fixed().spec_compound()[(#[trigger] hits@[h]).0@]@
                    ].controllers,
                ) implies exists|x: int| 0 <= x < out@.len()
                    && spec_compound_id(out@[x]) == (hits@[h]).0@ by {
                    if h < i as int {
                        let x0 = choose|x0: int| 0 <= x0 < out_pre.len()
                            && spec_compound_id(out_pre[x0]) == (hits@[h]).0@;
                        assert(out@[x0] == out_pre[x0]);
                    } else {
                        assert(spec_compound_id(out@[out@.len() - 1]) == (hits@[h]).0@);
                    }
                }
                assert forall|x: int| 0 <= x < out@.len()
                    implies exists|h: int| 0 <= h < i as int + 1
                        && spec_compound_id(#[trigger] out@[x]) == (hits@[h]).0@ by {
                    if x < out_pre.len() {
                        assert(out@[x] == out_pre[x]);
                        let h0 = choose|h0: int| 0 <= h0 < i as int
                            && spec_compound_id(out_pre[x]) == (hits@[h0]).0@;
                    } else {
                        assert(spec_compound_id(out@[x]) == (hits@[i as int]).0@);
                    }
                }
                assert forall|x: int, y: int| 0 <= x < y < out@.len()
                    implies spec_compound_id(out@[x]) != spec_compound_id(out@[y]) by {
                    let hx = choose|hx: int| 0 <= hx < i as int + 1
                        && spec_compound_id(out@[x]) == (hits@[hx]).0@;
                    let hy = choose|hy: int| 0 <= hy < i as int + 1
                        && spec_compound_id(out@[y]) == (hits@[hy]).0@;
                    if out@.len() > out_pre.len() && y == out@.len() - 1 {
                        // the new entry's key is fresh among the walked hits
                        assert(spec_compound_id(out@[y]) == (hits@[i as int]).0@);
                    }
                    if spec_compound_id(out@[x]) == spec_compound_id(out@[y]) {
                        assert((hits@[hx]).0@ == (hits@[hy]).0@);
                        assert(hx == hy);
                        if x < out_pre.len() && y < out_pre.len() {
                            assert(out@[x] == out_pre[x] && out@[y] == out_pre[y]);
                        }
                    }
                }
            }
            i += 1;
        }
        proof {
            assert forall|cid2: Seq<char>|
                #[trigger] self.spec_fixed().spec_compound().contains_key(cid2)
                && !spec_controller_set_empty(self.spec_fixed().spec_airports()[
                    self.spec_fixed().spec_compound()[cid2]@].controllers)
                && rect_covers(
                    *rect,
                    self.spec_fixed().spec_airports()[
                        self.spec_fixed().spec_compound()[cid2]@].position.lng as int,
                    self.spec_fixed().spec_airports()[
                        self.spec_fixed().spec_compound()[cid2]@].position.lat as int,
                )
                implies exists|x: int| 0 <= x < out@.len()
                    && spec_compound_id(out@[x]) == cid2 by {
                let h = choose|h: int| 0 <= h < hits@.len() && (hits@[h]).0@ == cid2;
            }
        }
        out
    }
}


impl Manager {
    /// Every live pilot, each once.
    pub fn get_all_pilots(&self) -> (r: Vec<Pilot>)
        requires
            self.inv(),
        ensures
            forall|i: int| 0 <= i < r@.len()
                ==> self.pilots_view().contains_key((#[trigger] r@[i]).callsign@)
                    && r@[i] == self.pilots_view()[r@[i].callsign@],
            forall|cs: Seq<char>| #[trigger] self.pilots_view().contains_key(cs)
                ==> exists|i: int| 0 <= i < r@.len() && r@[i].callsign@ == cs,
            forall|i: int, j: int| 0 <= i < j < r@.len()
                ==> r@[i].callsign@ != r@[j].callsign@,
    {
        self.pilots.all_pilots()
    }

    /// The regions that touch a viewport and have a controller online,
    /// one per region identifier.
    pub fn get_firs(&self, rect: &Rect) -> (r: Vec<FIR>)
        requires
            self.inv(),
        ensures
            forall|x: int| 0 <= x < r@.len() ==> (#[trigger] r@[x]).inv()
                && exists|j: int| 0 <= j < self.spec_fixed().spec_firs().len()
                    && fir_eq(r@[x], #[trigger] self.spec_fixed().spec_firs()[j])
                    && rect_meets(*rect, fir_env(self.spec_fixed().spec_firs()[j]))
                    && self.spec_fixed().spec_firs()[j].controllers.spec_len() > 0,
            forall|j: int| 0 <= j < self.spec_fixed().spec_firs().len()
                && rect_meets(*rect, fir_env(#[trigger] self.spec_fixed().spec_firs()[j]))
                && self.spec_fixed().spec_firs()[j].controllers.spec_len() > 0
                ==> exists|x: int| 0 <= x < r@.len()
                    && r@[x].icao@ == self.spec_fixed().spec_firs()[j].icao@,
            forall|x: int, y: int| 0 <= x < y < r@.len() ==> r@[x].icao@ != r@[y].icao@,
    {
        let env = rect.envelope();
        let n: usize = self.fixed.firs_len();
        let mut included: Vec<bool> = vec![false; n];
        if env.min_lng > 0 && env.max_lng < 0 {
            let east = normalize_envelope(&Envelope {
                min_lng: env.min_lng,
                min_lat: env.min_lat,
                max_lng: crate::types::SPLIT_LNG_MAX,
                max_lat: env.max_lat,
            });
            let west = normalize_envelope(&Envelope {
                min_lng: crate::types::SPLIT_LNG_MIN,
                min_lat: env.min_lat,
                max_lng: env.max_lng,
                max_lat: env.max_lat,
            });
            let h1 = self.firs2d.query_intersecting(&east);
            let h2 = self.firs2d.query_intersecting(&west);
            mark_included(&mut included, &h1);
            let ghost inc_mid = included@;
            mark_included(&mut included, &h2);
            proof {
                assert forall|j: int| 0 <= j < included@.len()
                    implies included@[j] == rect_meets(*rect, self.firs2d@[j]) by {
                    if included@[j] {
                        if inc_mid[j] {
                            let k = choose|k: int| 0 <= k < h1@.len() && h1@[k] == j;
                        } else {
                            let k = choose|k: int| 0 <= k < h2@.len() && h2@[k] == j;
                        }
                    } else {
                        if env_intersects(east, self.firs2d@[j].min_lng as int,
                            self.firs2d@[j].min_lat as int, self.firs2d@[j].max_lng as int,
                            self.firs2d@[j].max_lat as int) {
                            let k = choose|k: int| 0 <= k < h1@.len() && h1@[k] == j;
                            assert(inc_mid[j]);
                        }
                        if env_intersects(west, self.firs2d@[j].min_lng as int,
                            self.firs2d@[j].min_lat as int, self.firs2d@[j].max_lng as int,
                            self.firs2d@[j].max_lat as int) {
                            let k = choose|k: int| 0 <= k < h2@.len() && h2@[k] == j;
                        }
                    }
                }
            }
        } else {
            let ne = normalize_envelope(&env);
            let h1 = self.firs2d.query_intersecting(&ne);
            mark_included(&mut included, &h1);
            proof {
                assert forall|j: int| 0 <= j < included@.len()
                    implies included@[j] == rect_meets(*rect, self.firs2d@[j]) by {
                    if included@[j] {
                        let k = choose|k: int| 0 <= k < h1@.len() && h1@[k] == j;
                    } else {
                        if env_intersects(ne, self.firs2d@[j].min_lng as int,
                            self.firs2d@[j].min_lat as int, self.firs2d@[j].max_lng as int,
                            self.firs2d@[j].max_lat as int) {
                            let k = choose|k: int| 0 <= k < h1@.len() && h1@[k] == j;
                        }
                    }
                }
            }
        }
        let mut out: Vec<FIR> = Vec::new();
        let mut seen: StrMap<()> = StrMap::new();
        let mut i: usize = 0;
        while i < n
            invariant
                self.inv(),
                i <= n,
                n == self.spec_fixed().spec_firs().len(),
                included@.len() == n as int,
                seen.inv(),
                forall|j: int| 0 <= j < n
                    ==> included@[j] == rect_meets(*rect,
                        fir_env(#[trigger] self.spec_fixed().spec_firs()[j])),
                forall|x: int| 0 <= x < out@.len() ==> (#[trigger] out@[x]).inv()
                    && exists|j: int| 0 <= j < self.spec_fixed().spec_firs().len()
                        && fir_eq(out@[x], #[trigger] self.spec_fixed().spec_firs()[j])
                        && rect_meets(*rect, fir_env(self.spec_fixed().spec_firs()[j]))
                        && self.spec_fixed().spec_firs()[j].controllers.spec_len() > 0,
                forall|x: int| 0 <= x < out@.len()
                    ==> seen@.contains_key((#[trigger] out@[x]).icao@),
                forall|cs: Seq<char>| #[trigger] seen@.contains_key(cs)
                    ==> exists|x: int| 0 <= x < out@.len() && out@[x].icao@ == cs,
                forall|j: int| 0 <= j < i
                    && rect_meets(*rect, fir_env(#[trigger] self.spec_fixed().spec_firs()[j]))
                    && self.spec_fixed().spec_firs()[j].controllers.spec_len() > 0
                    ==> seen@.contains_key(self.spec_fixed().spec_firs()[j].icao@),
                forall|x: int, y: int| 0 <= x < y < out@.len()
                    ==> out@[x].icao@ != out@[y].icao@,
            decreases n - i,
        {
            let ghost out_pre = out@;
            let ghost seen_pre = seen@;
            if included[i] {
                let fir = self.fixed.fir_at(i);
                if fir.controllers.len() > 0 {
                    if !seen.contains_key(&fir.icao) {
                        let d = fir.duplicate();
                        seen.insert(fir.icao.clone(), ());
                        out.push(d);
                        proof {
                            let w = out@.len() - 1;
                            assert(fir_eq(out@[w], self.spec_fixed().spec_firs()[i as int]));
                            assert forall|x: int| 0 <= x < out@.len()
                                implies seen@.contains_key((#[trigger] out@[x]).icao@) by {
                                if x < out_pre.len() {
                                    assert(out@[x] == out_pre[x]);
                                }
                            }
                            assert forall|cs: Seq<char>| #[trigger] seen@.contains_key(cs)
                                implies exists|x: int| 0 <= x < out@.len()
                                    && out@[x].icao@ == cs by {
                                if seen_pre.contains_key(cs) {
                                    let x0 = choose|x0: int| 0 <= x0 < out_pre.len()
                                        && out_pre[x0].icao@ == cs;
                                    assert(out@[x0].icao@ == cs);
                                } else {
                                    assert(out@[w].icao@ == cs);
                                }
                            }
                        }
                    }
                }
            }
            proof {
                assert forall|x: int| 0 <= x < out@.len()
                    implies (#[trigger] out@[x]).inv()
                        && exists|j: int| 0 <= j < self.spec_fixed().spec_firs().len()
                            && fir_eq(out@[x], #[trigger] self.spec_fixed().spec_firs()[j])
                            && rect_meets(*rect, fir_env(self.spec_fixed().spec_firs()[j]))
                            && self.spec_fixed().spec_firs()[j].controllers.spec_len()
                                > 0 by {
                    if x < out_pre.len() {
                        assert(out@[x] == out_pre[x]);
                        let j0 = choose|j0: int| 0 <= j0 < self.spec_fixed().spec_firs().len()
                            && fir_eq(out_pre[x], self.spec_fixed().spec_firs()[j0])
                            && rect_meets(*rect, fir_env(self.spec_fixed().spec_firs()[j0]))
                            && self.spec_fixed().spec_firs()[j0].controllers.spec_len() > 0;
                        assert(fir_eq(out@[x], self.spec_fixed().spec_firs()[j0]));
                    }
                }
            }
            i += 1;
        }
        out
    }
}

/// Mark the listed positions of a flag vector.
fn mark_included(flags: &mut Vec<bool>, hits: &Vec<u64>)
    requires
        forall|k: int| 0 <= k < hits@.len() ==> (#[trigger] hits@[k]) < old(flags)@.len(),
    ensures
        final(flags)@.len() == old(flags)@.len(),
        forall|j: int| 0 <= j < final(flags)@.len()
            ==> final(flags)@[j] == (old(flags)@[j]
                || exists|k: int| 0 <= k < hits@.len() && hits@[k] == j),
{
    let n: usize = hits.len();
    let mut k: usize = 0;
    while k < n
        invariant
            k <= n,
            n == hits@.len(),
            forall|l: int| 0 <= l < hits@.len() ==> (#[trigger] hits@[l]) < flags@.len(),
            flags@.len() == old(flags)@.len(),
            forall|j: int| 0 <= j < flags@.len()
                ==> flags@[j] == (old(flags)@[j]
                    || exists|l: int| 0 <= l < k && hits@[l] == j),
        decreases n - k,
    {
        let ghost pre = flags@;
        let fl: usize = flags.len();
        proof {
            assert(hits@[k as int] < fl);
        }
        let idx: usize = hits[k] as usize;
        proof {
            assert(idx as int == hits@[k as int] as int);
        }
        flags[idx] = true;
        proof {
            assert forall|j: int| 0 <= j < flags@.len()
                implies flags@[j] == (old(flags)@[j]
                    || exists|l: int| 0 <= l < k as int + 1 && hits@[l] == j) by {
                if j == idx as int {
                    assert(hits@[k as int] == j);
                } else {
                    assert(flags@[j] == pre[j]);
                    if exists|l: int| 0 <= l < k as int + 1 && hits@[l] == j {
                        let l = choose|l: int| 0 <= l < k as int + 1 && hits@[l] == j;
                        assert(l < k as int);
                    }
                }
            }
        }
        k += 1;
    }
}


impl Manager {
    /// Every staffed airport, whatever the viewport.
    pub fn get_all_airports(&self) -> (r: Vec<Airport>)
        requires
            self.inv(),
        ensures
            forall|i: int| 0 <= i < r@.len() ==> {
                let cid = spec_compound_id(#[trigger] r@[i]);
                &&& r@[i].inv()
                &&& self.spec_fixed().spec_compound().contains_key(cid)
                &&& airport_eq(r@[i], self.spec_fixed().spec_airports()[
                        self.spec_fixed().spec_compound()[cid]@])
                &&& !spec_controller_set_empty(r@[i].controllers)
            },
            forall|cid: Seq<char>| #[trigger] self.spec_fixed().spec_compound().contains_key(cid)
                && !spec_controller_set_empty(self.spec_fixed().spec_airports()[
                    self.spec_fixed().spec_compound()[cid]@].controllers)
                ==> exists|i: int| 0 <= i < r@.len() && spec_compound_id(r@[i]) == cid,
            forall|i: int, j: int| 0 <= i < j < r@.len()
                ==> spec_compound_id(r@[i]) != spec_compound_id(r@[j]),
    {
        self.fixed.staffed_airports()
    }

    /// Every staffed region, one per identifier, whatever the viewport.
    pub fn get_all_firs(&self) -> (r: Vec<FIR>)
        requires
            self.inv(),
        ensures
            forall|x: int| 0 <= x < r@.len() ==> (#[trigger] r@[x]).inv()
                && exists|j: int| 0 <= j < self.spec_fixed().spec_firs().len()
                    && fir_eq(r@[x], #[trigger] self.spec_fixed().spec_firs()[j])
                    && self.spec_fixed().spec_firs()[j].controllers.spec_len() > 0,
            forall|j: int| 0 <= j < self.spec_fixed().spec_firs().len()
                && (#[trigger] self.spec_fixed().spec_firs()[j]).controllers.spec_len() > 0
                ==> exists|x: int| 0 <= x < r@.len()
                    && r@[x].icao@ == self.spec_fixed().spec_firs()[j].icao@,
            forall|x: int, y: int| 0 <= x < y < r@.len() ==> r@[x].icao@ != r@[y].icao@,
    {
        let n: usize = self.fixed.firs_len();
        let mut out: Vec<FIR> = Vec::new();
        let mut seen: StrMap<()> = StrMap::new();
        let mut i: usize = 0;
        while i < n
            invariant
                self.inv(),
                i <= n,
                n == self.spec_fixed().spec_firs().len(),
                seen.inv(),
                forall|x: int| 0 <= x < out@.len() ==> (#[trigger] out@[x]).inv()
                    && exists|j: int| 0 <= j < self.spec_fixed().spec_firs().len()
                        && fir_eq(out@[x], #[trigger] self.spec_fixed().spec_firs()[j])
                        && self.spec_fixed().spec_firs()[j].controllers.spec_len() > 0,
                forall|x: int| 0 <= x < out@.len()
                    ==> seen@.contains_key((#[trigger] out@[x]).icao@),
                forall|cs: Seq<char>| #[trigger] seen@.contains_key(cs)
                    ==> exists|x: int| 0 <= x < out@.len() && out@[x].icao@ == cs,
                forall|j: int| 0 <= j < i
                    && (#[trigger] self.spec_fixed().spec_firs()[j]).controllers.spec_len() > 0
                    ==> seen@.contains_key(self.spec_fixed().spec_firs()[j].icao@),
                forall|x: int, y: int| 0 <= x < y < out@.len()
                    ==> out@[x].icao@ != out@[y].icao@,
            decreases n - i,
        {
            let ghost out_pre = out@;
            let ghost seen_pre = seen@;
            let fir = self.fixed.fir_at(i);
            if fir.controllers.len() > 0 {
                if !seen.contains_key(&fir.icao) {
                    let d = fir.duplicate();
                    seen.insert(fir.icao.clone(), ());
                    out.push(d);
                    proof {
                        let w = out@.len() - 1;
                        assert(fir_eq(out@[w], self.spec_fixed().spec_firs()[i as int]));
                        assert forall|x: int| 0 <= x < out@.len()
                            implies seen@.contains_key((#[trigger] out@[x]).icao@) by {
                            if x < out_pre.len() {
                                assert(out@[x] == out_pre[x]);
                            }
                        }
                        assert forall|cs: Seq<char>| #[trigger] seen@.contains_key(cs)
                            implies exists|x: int| 0 <= x < out@.len()
                                && out@[x].icao@ == cs by {
                            if seen_pre.contains_key(cs) {
                                let x0 = choose|x0: int| 0 <= x0 < out_pre.len()
                                    && out_pre[x0].icao@ == cs;
                                assert(out@[x0].icao@ == cs);
                            } else {
                                assert(out@[w].icao@ == cs);
                            }
                        }
                    }
                }
            }
            proof {
                assert forall|x: int| 0 <= x < out@.len()
                    implies (#[trigger] out@[x]).inv()
                        && exists|j: int| 0 <= j < self.spec_fixed().spec_firs().len()
                            && fir_eq(out@[x], #[trigger] self.spec_fixed().spec_firs()[j])
                            && self.spec_fixed().spec_firs()[j].controllers.spec_len()
                                > 0 by {
                    if x < out_pre.len() {
                        assert(out@[x] == out_pre[x]);
                        let j0 = choose|j0: int| 0 <= j0 < self.spec_fixed().spec_firs().len()
                            && fir_eq(out_pre[x], self.spec_fixed().spec_firs()[j0])
                            && self.spec_fixed().spec_firs()[j0].controllers.spec_len() > 0;
                        assert(fir_eq(out@[x], self.spec_fixed().spec_firs()[j0]));
                    }
                }
            }
            i += 1;
        }
        out
    }
}

} // verus!
