//! The per-airport weather cache: a TTL cache of decoded observations,
//! with an exponential blackout for stations that answer empty.
//!
//! The fetches themselves stay outside: the caller asks which stations to
//! fetch, performs the request, and hands the decoded answers (or the
//! empty answer) back.

use vstd::prelude::*;
use crate::strmap::StrMap;

verus! {

/// A wind direction: a bearing in degrees, or variable.
#[derive(Debug)]
pub enum WindDirection {
    Variable(String),
    Degree(u64),
}

impl WindDirection {
    /// A copy.
    pub fn duplicate(&self) -> (r: WindDirection)
        ensures
            r == *self,
    {
        match self {
            WindDirection::Variable(s) => WindDirection::Variable(s.clone()),
            WindDirection::Degree(d) => WindDirection::Degree(*d),
        }
    }
}

fn opt_wind_duplicate(w: &Option<WindDirection>) -> (r: Option<WindDirection>)
    ensures
        r == *w,
{
    match w {
        Option::Some(d) => Some(d.duplicate()),
        Option::None => None,
    }
}

/// One decoded observation, already normalized at the boundary:
/// temperatures in tenths of a degree, times in seconds since the epoch.
#[derive(Debug)]
pub struct Metar {
    pub icao_id: String,
    pub receipt_time: i64,
    pub report_time: i64,
    pub temp: Option<i64>,
    pub dewp: Option<i64>,
    pub wdir: Option<WindDirection>,
    pub wspd: Option<u64>,
    pub wgst: Option<u64>,
    pub raw_ob: String,
}

/// The cached weather of one airport.
#[derive(Debug)]
pub struct WeatherInfo {
    pub temperature: Option<i64>,
    pub dew_point: Option<i64>,
    pub wind_speed: Option<u64>,
    pub wind_gust: Option<u64>,
    pub wind_direction: Option<WindDirection>,
    pub raw: String,
    pub ts: i64,
}

impl WeatherInfo {
    /// The cache value of one observation: its fields, stamped with the
    /// server receipt time.
    pub fn from_metar(m: &Metar) -> (r: WeatherInfo)
        ensures
            r == (WeatherInfo {
                temperature: m.temp,
                dew_point: m.dewp,
                wind_speed: m.wspd,
                wind_gust: m.wgst,
                wind_direction: m.wdir,
                raw: m.raw_ob,
                ts: m.receipt_time,
            }),
    {
        WeatherInfo {
            temperature: m.temp,
            dew_point: m.dewp,
            wind_speed: m.wspd,
            wind_gust: m.wgst,
            wind_direction: opt_wind_duplicate(&m.wdir),
            raw: m.raw_ob.clone(),
            ts: m.receipt_time,
        }
    }

    /// A copy.
    pub fn duplicate(&self) -> (r: WeatherInfo)
        ensures
            r == *self,
    {
        WeatherInfo {
            temperature: self.temperature,
            dew_point: self.dew_point,
            wind_speed: self.wind_speed,
            wind_gust: self.wind_gust,
            wind_direction: opt_wind_duplicate(&self.wind_direction),
            raw: self.raw.clone(),
            ts: self.ts,
        }
    }
}

/// The cache entry one observation produces.
pub open spec fn spec_cache_value(m: Metar) -> WeatherInfo {
    WeatherInfo {
        temperature: m.temp,
        dew_point: m.dewp,
        wind_speed: m.wspd,
        wind_gust: m.wgst,
        wind_direction: m.wdir,
        raw: m.raw_ob,
        ts: m.receipt_time,
    }
}

/// The initial blackout span: one hour, in seconds.
pub const BLACKOUT_INITIAL_SECS: i64 = 3600;

/// One blackout entry: when it was set, and for how long.
#[derive(Debug, Clone, Copy, PartialEq, Eq, Structural)]
pub struct BlackListItem {
    pub set_at: i64,
    pub duration: i64,
}

/// A doubled blackout span, capped only at the type limit.
pub open spec fn spec_doubled(d: i64) -> i64 {
    if d > i64::MAX / 2 {
        i64::MAX
    } else if d < 0 {
        0
    } else {
        (2 * d) as i64
    }
}

impl BlackListItem {
    /// A fresh blackout of one hour, starting now.
    pub fn new(now: i64) -> (r: BlackListItem)
        ensures
            r == (BlackListItem { set_at: now, duration: BLACKOUT_INITIAL_SECS }),
    {
        BlackListItem { set_at: now, duration: BLACKOUT_INITIAL_SECS }
    }

    /// The renewed blackout: twice as long, starting now.
    pub fn double(&self, now: i64) -> (r: BlackListItem)
        ensures
            r == (BlackListItem { set_at: now, duration: spec_doubled(self.duration) }),
    {
        let duration: i64 = if self.duration > i64::MAX / 2 {
            i64::MAX
        } else if self.duration < 0 {
            0
        } else {
            2 * self.duration
        };
        BlackListItem { set_at: now, duration }
    }

    /// Whether the blackout has passed.
    pub fn expired(&self, now: i64) -> (r: bool)
        ensures
            r == ((now as int) > self.set_at as int + self.duration as int),
    {
        (now as i128) > (self.set_at as i128) + (self.duration as i128)
    }
}

/// Whether a blackout entry still holds at an instant.
pub open spec fn spec_blacklisted(bl: Map<Seq<char>, BlackListItem>, loc: Seq<char>, now: i64) -> bool {
    bl.contains_key(loc) && !((now as int) > bl[loc].set_at as int + bl[loc].duration as int)
}

/// Whether a cache entry is still fresh at an instant.
pub open spec fn spec_fresh(
    cache: Map<Seq<char>, WeatherInfo>,
    ttl: i64,
    loc: Seq<char>,
    now: i64,
) -> bool {
    cache.contains_key(loc) && (now as int) - (cache[loc].ts as int) < ttl as int
}

/// The weather cache: observations by airport, a blackout map, and the
/// count of outward requests the caller reported.
pub struct WeatherManager {
    metar_ttl: i64,
    cache: StrMap<WeatherInfo>,
    blacklist: StrMap<BlackListItem>,
    apireq_num: u64,
}

impl WeatherManager {
    /// Well-formedness of the two maps.
    pub closed spec fn inv(self) -> bool {
        self.cache.inv() && self.blacklist.inv()
    }

    /// The cached observations.
    pub closed spec fn cache_view(self) -> Map<Seq<char>, WeatherInfo> {
        self.cache@
    }

    /// The blackout entries.
    pub closed spec fn blacklist_view(self) -> Map<Seq<char>, BlackListItem> {
        self.blacklist@
    }

    /// The configured freshness window.
    pub closed spec fn spec_ttl(self) -> i64 {
        self.metar_ttl
    }

    /// The count of outward requests.
    pub closed spec fn spec_request_num(self) -> u64 {
        self.apireq_num
    }

    /// An empty cache with the given freshness window (seconds).
    pub fn new(metar_ttl: i64) -> (r: WeatherManager)
        ensures
            r.inv(),
            r.cache_view() =~= Map::<Seq<char>, WeatherInfo>::empty(),
            r.blacklist_view() =~= Map::<Seq<char>, BlackListItem>::empty(),
            r.spec_ttl() == metar_ttl,
            r.spec_request_num() == 0,
    {
        WeatherManager {
            metar_ttl,
            cache: StrMap::new(),
            blacklist: StrMap::new(),
            apireq_num: 0,
        }
    }

    /// How many outward requests have been made.
    pub fn request_num(&self) -> (r: u64)
        ensures
            r == self.spec_request_num(),
    {
        self.apireq_num
    }

    /// Count one outward request.
    pub fn note_request(&mut self)
        requires
            old(self).inv(),
        ensures
            final(self).inv(),
            final(self).cache_view() == old(self).cache_view(),
            final(self).blacklist_view() == old(self).blacklist_view(),
            final(self).spec_ttl() == old(self).spec_ttl(),
            final(self).spec_request_num() == (if old(self).spec_request_num() < u64::MAX {
                old(self).spec_request_num() + 1
            } else {
                old(self).spec_request_num() as int
            }),
    {
        if self.apireq_num < u64::MAX {
            self.apireq_num = self.apireq_num + 1;
        }
    }

    /// Whether the cache still holds fresh weather for a station.
    pub fn has_valid_cache_for(&self, location: &String, now: i64) -> (r: bool)
        requires
            self.inv(),
            -1_000_000_000_000 <= now <= 1_000_000_000_000,
        ensures
            r == spec_fresh(self.cache_view(), self.spec_ttl(), location@, now),
    {
        match self.cache.get(location) {
            Option::Some(value) => {
                let delta: i128 = (now as i128) - (value.ts as i128);
                delta < self.metar_ttl as i128
            },
            Option::None => false,
        }
    }

    /// Whether a station is currently blacked out.
    pub fn is_blacklisted(&self, location: &String, now: i64) -> (r: bool)
        requires
            self.inv(),
        ensures
            r == spec_blacklisted(self.blacklist_view(), location@, now),
    {
        match self.blacklist.get(location) {
            Option::Some(item) => !item.expired(now),
            Option::None => false,
        }
    }

    /// The stations worth fetching from a wanted list: those neither
    /// blacked out nor freshly cached, in order.
    pub fn preload_plan(&self, locations: &Vec<String>, now: i64) -> (r: Vec<String>)
        requires
            self.inv(),
            -1_000_000_000_000 <= now <= 1_000_000_000_000,
        ensures
            r@.map_values(|s: String| s@) == locations@.map_values(|s: String| s@).filter(
                |l: Seq<char>| !spec_blacklisted(self.blacklist_view(), l, now)
                    && !spec_fresh(self.cache_view(), self.spec_ttl(), l, now),
            ),
    {
        let ghost pred = |l: Seq<char>| !spec_blacklisted(self.blacklist_view(), l, now)
            && !spec_fresh(self.cache_view(), self.spec_ttl(), l, now);
        let n: usize = locations.len();
        let mut out: Vec<String> = Vec::new();
        let mut i: usize = 0;
        while i < n
            invariant
                self.inv(),
                -1_000_000_000_000 <= now <= 1_000_000_000_000,
                i <= n,
                n == locations@.len(),
                pred == (|l: Seq<char>| !spec_blacklisted(self.blacklist_view(), l, now)
                    && !spec_fresh(self.cache_view(), self.spec_ttl(), l, now)),
                out@.map_values(|s: String| s@)
                    == locations@.map_values(|s: String| s@).subrange(0, i as int)
                        .filter(pred),
            decreases n - i,
        {
            let loc = &locations[i];
            let keep: bool = !self.is_blacklisted(loc, now)
                && !self.has_valid_cache_for(loc, now);
            if keep {
                out.push(loc.clone());
            }
            proof {
                let ii = i as int;
                let views = locations@.map_values(|s: String| s@);
                let sub1 = views.subrange(0, ii + 1);
                assert(sub1.drop_last() =~= views.subrange(0, ii));
                assert(sub1.last() == views[ii]);
                reveal(Seq::filter);
                assert(keep == pred(views[ii]));
                assert(out@.map_values(|s: String| s@) =~= sub1.filter(pred));
            }
            i += 1;
        }
        proof {
            let views = locations@.map_values(|s: String| s@);
            assert(views.subrange(0, n as int) =~= views);
        }
        out
    }

    /// Cache a batch of decoded observations, each under its own station
    /// identifier; on a repeated identifier the later record wins.
    pub fn store_metars(&mut self, metars: Vec<Metar>)
        requires
            old(self).inv(),
        ensures
            final(self).inv(),
            final(self).blacklist_view() == old(self).blacklist_view(),
            final(self).spec_ttl() == old(self).spec_ttl(),
            final(self).spec_request_num() == old(self).spec_request_num(),
            forall|loc: Seq<char>| final(self).cache_view().contains_key(loc)
                <==> old(self).cache_view().contains_key(loc)
                    || exists|j: int| 0 <= j < metars@.len()
                        && (#[trigger] metars@[j]).icao_id@ == loc,
            forall|j: int| 0 <= j < metars@.len()
                && !(exists|j2: int| j < j2 < metars@.len()
                    && (#[trigger] metars@[j2]).icao_id@ == metars@[j].icao_id@)
                ==> final(self).cache_view()[(#[trigger] metars@[j]).icao_id@]
                    == spec_cache_value(metars@[j]),
    {
        let n: usize = metars.len();
        let mut i: usize = 0;
        while i < n
            invariant
                self.cache.inv(),
                self.blacklist == old(self).blacklist,
                self.metar_ttl == old(self).metar_ttl,
                self.apireq_num == old(self).apireq_num,
                old(self).inv(),
                i <= n,
                n == metars@.len(),
                forall|loc: Seq<char>| self.cache@.contains_key(loc)
                    <==> old(self).cache@.contains_key(loc)
                        || exists|j: int| 0 <= j < i
                            && (#[trigger] metars@[j]).icao_id@ == loc,
                forall|j: int| 0 <= j < i
                    && !(exists|j2: int| j < j2 < i
                        && (#[trigger] metars@[j2]).icao_id@ == metars@[j].icao_id@)
                    ==> self.cache@[(#[trigger] metars@[j]).icao_id@]
                        == spec_cache_value(metars@[j]),
            decreases n - i,
        {
            let m = &metars[i];
            let info = WeatherInfo::from_metar(m);
            self.cache.insert(m.icao_id.clone(), info);
            proof {
                let ii = i as int;
                assert forall|j: int| 0 <= j < ii + 1
                    && !(exists|j2: int| j < j2 < ii + 1
                        && (#[trigger] metars@[j2]).icao_id@ == metars@[j].icao_id@)
                    implies self.cache@[(#[trigger] metars@[j]).icao_id@]
                        == spec_cache_value(metars@[j]) by {
                    if j < ii {
                        assert(metars@[j].icao_id@ != metars@[ii].icao_id@);
                    }
                }
            }
            i += 1;
        }
    }

    /// The cached weather of a station, when still fresh.
    pub fn get_cached(&self, location: &String, now: i64) -> (r: Option<WeatherInfo>)
        requires
            self.inv(),
            -1_000_000_000_000 <= now <= 1_000_000_000_000,
        ensures
            match r {
                Some(w) => spec_fresh(self.cache_view(), self.spec_ttl(), location@, now)
                    && w == self.cache_view()[location@],
                None => !spec_fresh(self.cache_view(), self.spec_ttl(), location@, now),
            },
    {
        match self.cache.get(location) {
            Option::Some(value) => {
                let delta: i128 = (now as i128) - (value.ts as i128);
                if delta < self.metar_ttl as i128 {
                    Some(value.duplicate())
                } else {
                    None
                }
            },
            Option::None => None,
        }
    }

    /// Record that a station answered empty: a fresh one-hour blackout,
    /// or double the previous one.  Two successive empty answers leave a
    /// blackout of exactly two hours; a third after expiry, four.
    pub fn note_empty_response(&mut self, location: &String, now: i64)
        requires
            old(self).inv(),
        ensures
            final(self).inv(),
            final(self).cache_view() == old(self).cache_view(),
            final(self).spec_ttl() == old(self).spec_ttl(),
            final(self).spec_request_num() == old(self).spec_request_num(),
            final(self).blacklist_view() =~= old(self).blacklist_view().insert(
                location@,
                match old(self).blacklist_view().contains_key(location@) {
                    true => BlackListItem {
                        set_at: now,
                        duration: spec_doubled(old(self).blacklist_view()[location@].duration),
                    },
                    false => BlackListItem { set_at: now, duration: BLACKOUT_INITIAL_SECS },
                },
            ),
    {
        let item: BlackListItem = match self.blacklist.get(location) {
            Option::Some(prev) => prev.double(now),
            Option::None => BlackListItem::new(now),
        };
        self.blacklist.insert(location.clone(), item);
    }

    /// Record the outcome of a single-station fetch: an observation is
    /// cached under the station and returned; an empty answer extends the
    /// blackout and returns nothing.
    pub fn note_result(&mut self, location: &String, result: Option<Metar>, now: i64) -> (r:
        Option<WeatherInfo>)
        requires
            old(self).inv(),
        ensures
            final(self).inv(),
            final(self).spec_ttl() == old(self).spec_ttl(),
            match result {
                Option::Some(m) => {
                    &&& final(self).blacklist_view() == old(self).blacklist_view()
                    &&& final(self).cache_view() =~= old(self).cache_view().insert(
                        location@,
                        spec_cache_value(m),
                    )
                    &&& r == Some(spec_cache_value(m))
                },
                Option::None => {
                    &&& final(self).cache_view() == old(self).cache_view()
                    &&& r is None
                    &&& final(self).blacklist_view() =~= old(self).blacklist_view().insert(
                        location@,
                        match old(self).blacklist_view().contains_key(location@) {
                            true => BlackListItem {
                                set_at: now,
                                duration: spec_doubled(
                                    old(self).blacklist_view()[location@].duration,
                                ),
                            },
                            false => BlackListItem {
                                set_at: now,
                                duration: BLACKOUT_INITIAL_SECS,
                            },
                        },
                    )
                },
            },
    {
        match result {
            Option::Some(m) => {
                let info = WeatherInfo::from_metar(&m);
                let out = info.duplicate();
                self.cache.insert(location.clone(), info);
                Some(out)
            },
            Option::None => {
                self.note_empty_response(location, now);
                None
            },
        }
    }
}

} // verus!
