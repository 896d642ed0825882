//! Geodetic primitives.
//!
//! Coordinates are integer microdegrees: one unit is 10^-6 of a degree.
//! Latitude lives in [-90_000_000, 90_000_000]; longitude is wrapped into
//! [-180_000_000, 180_000_000).  A `Rect` may be "wrapped" (its south-west
//! corner lies east of its north-east corner); spatial queries must split
//! such a rectangle at the antimeridian before consulting any index.

use vstd::prelude::*;
use vstd::arithmetic::div_mod::{lemma_mod_multiples_vanish, lemma_small_mod};

verus! {

/// 90 degrees in microdegrees: the latitude bound.
pub const LAT_LIMIT: i64 = 90_000_000;

/// 180 degrees in microdegrees: the longitude bound.
pub const LNG_LIMIT: i64 = 180_000_000;

/// 360 degrees in microdegrees: the longitude wrap period.
pub const LNG_PERIOD: i64 = 360_000_000;

/// A multiple of `LNG_PERIOD` large enough to shift any accepted input
/// longitude into the non-negative range before taking the remainder.
pub const LNG_SHIFT: i64 = 1_152_921_600_000_000_000;

/// `LNG_SHIFT / LNG_PERIOD`.
pub const LNG_SHIFT_PERIODS: i64 = 3_202_560_000;

/// Largest coordinate magnitude `Point::clamp` accepts; far beyond any
/// coordinate that survives decoding, but small enough that the wrap
/// arithmetic cannot overflow an `i64`.
pub const COORD_INPUT_LIMIT: i64 = 1_152_921_504_606_846_976;

/// Latitude clamped into [-LAT_LIMIT, LAT_LIMIT].
pub open spec fn spec_clamp_lat(lat: int) -> int {
    if lat < -(LAT_LIMIT as int) {
        -(LAT_LIMIT as int)
    } else if lat > LAT_LIMIT as int {
        LAT_LIMIT as int
    } else {
        lat
    }
}

/// Longitude wrapped into [-LNG_LIMIT, LNG_LIMIT) by
/// `((lng + 180) mod 360) - 180`, in microdegrees.
pub open spec fn spec_wrap_lng(lng: int) -> int {
    (lng + LNG_LIMIT + LNG_SHIFT) % (LNG_PERIOD as int) - LNG_LIMIT
}

/// A position: latitude and longitude in microdegrees.
#[derive(Debug, Clone, Copy, PartialEq, Eq, Structural)]
pub struct Point {
    pub lat: i64,
    pub lng: i64,
}

/// The normalized image of a point under `spec_clamp`.
pub open spec fn spec_clamp(p: Point) -> (int, int) {
    (spec_clamp_lat(p.lat as int), spec_wrap_lng(p.lng as int))
}

/// A point is in range when its latitude is clamped and its longitude wrapped.
pub open spec fn point_in_range(p: Point) -> bool {
    &&& -LAT_LIMIT <= p.lat
    &&& p.lat <= LAT_LIMIT
    &&& -LNG_LIMIT <= p.lng
    &&& p.lng < LNG_LIMIT
}

proof fn lemma_wrap_range(lng: int)
    ensures
        -(LNG_LIMIT as int) <= spec_wrap_lng(lng),
        spec_wrap_lng(lng) < (LNG_LIMIT as int),
{
}

proof fn lemma_wrap_fixes_range(lng: int)
    requires
        -(LNG_LIMIT as int) <= lng,
        lng < (LNG_LIMIT as int),
    ensures
        spec_wrap_lng(lng) == lng,
{
    let m = LNG_PERIOD as int;
    let b = lng + LNG_LIMIT;
    lemma_mod_multiples_vanish(LNG_SHIFT_PERIODS as int, b, m);
    assert(m * (LNG_SHIFT_PERIODS as int) + b == lng + LNG_LIMIT + LNG_SHIFT);
    lemma_small_mod(b as nat, m as nat);
}

impl Point {
    /// Normalize a point: clamp the latitude, wrap the longitude.
    pub fn clamp(&self) -> (r: Point)
        requires
            -COORD_INPUT_LIMIT <= self.lat <= COORD_INPUT_LIMIT,
            -COORD_INPUT_LIMIT <= self.lng <= COORD_INPUT_LIMIT,
        ensures
            r.lat as int == spec_clamp_lat(self.lat as int),
            r.lng as int == spec_wrap_lng(self.lng as int),
            point_in_range(r),
    {
        let lat: i64 = if self.lat < -LAT_LIMIT {
            -LAT_LIMIT
        } else if self.lat > LAT_LIMIT {
            LAT_LIMIT
        } else {
            self.lat
        };
        let shifted: i64 = self.lng + LNG_LIMIT + LNG_SHIFT;
        let wrapped: i64 = shifted % LNG_PERIOD - LNG_LIMIT;
        proof {
            lemma_wrap_range(self.lng as int);
        }
        Point { lat, lng: wrapped }
    }

    /// The degenerate envelope holding exactly this point.
    pub fn envelope(&self) -> (r: Envelope)
        ensures
            r == (Envelope {
                min_lng: self.lng,
                min_lat: self.lat,
                max_lng: self.lng,
                max_lat: self.lat,
            }),
    {
        Envelope { min_lng: self.lng, min_lat: self.lat, max_lng: self.lng, max_lat: self.lat }
    }
}

/// A coordinate saturated into the widest magnitude the wrap arithmetic
/// accepts; real coordinates are far inside this bound.
pub open spec fn spec_sat_coord(v: int) -> int {
    if v < -(COORD_INPUT_LIMIT as int) {
        -(COORD_INPUT_LIMIT as int)
    } else if v > COORD_INPUT_LIMIT as int {
        COORD_INPUT_LIMIT as int
    } else {
        v
    }
}

impl Point {
    /// Total normalization: saturate absurd magnitudes, then clamp the
    /// latitude and wrap the longitude.  A point already in range is
    /// returned unchanged.
    pub fn normalize(&self) -> (r: Point)
        ensures
            r.lat as int == spec_clamp_lat(spec_sat_coord(self.lat as int)),
            r.lng as int == spec_wrap_lng(spec_sat_coord(self.lng as int)),
            point_in_range(r),
            point_in_range(*self) ==> r == *self,
    {
        let lat: i64 = if self.lat < -COORD_INPUT_LIMIT {
            -COORD_INPUT_LIMIT
        } else if self.lat > COORD_INPUT_LIMIT {
            COORD_INPUT_LIMIT
        } else {
            self.lat
        };
        let lng: i64 = if self.lng < -COORD_INPUT_LIMIT {
            -COORD_INPUT_LIMIT
        } else if self.lng > COORD_INPUT_LIMIT {
            COORD_INPUT_LIMIT
        } else {
            self.lng
        };
        let r = Point { lat, lng }.clamp();
        proof {
            if point_in_range(*self) {
                lemma_wrap_fixes_range(self.lng as int);
            }
        }
        r
    }
}

/// Normalizing twice is the same as normalizing once, and the result is
/// always in range.
pub proof fn lemma_clamp_idempotent(p: Point)
    ensures
        -(LAT_LIMIT as int) <= spec_clamp(p).0 <= (LAT_LIMIT as int),
        -(LNG_LIMIT as int) <= spec_clamp(p).1,
        spec_clamp(p).1 < (LNG_LIMIT as int),
        spec_clamp_lat(spec_clamp(p).0) == spec_clamp(p).0,
        spec_wrap_lng(spec_clamp(p).1) == spec_clamp(p).1,
{
    lemma_wrap_range(p.lng as int);
    lemma_wrap_fixes_range(spec_wrap_lng(p.lng as int));
}

/// An axis-aligned query box, corners included.  Unlike `Rect` it is the raw
/// query shape handed to the spatial indices: `min_lng` may exceed `max_lng`
/// only for the envelope of a wrapped `Rect`, which must be split before use.
#[derive(Debug, Clone, Copy, PartialEq, Eq, Structural)]
pub struct Envelope {
    pub min_lng: i64,
    pub min_lat: i64,
    pub max_lng: i64,
    pub max_lat: i64,
}

/// Whether a coordinate pair lies inside an envelope (corners included).
pub open spec fn env_contains(env: Envelope, lng: int, lat: int) -> bool {
    &&& (env.min_lng as int) <= lng
    &&& lng <= (env.max_lng as int)
    &&& (env.min_lat as int) <= lat
    &&& lat <= (env.max_lat as int)
}

/// Whether a bounding box intersects an envelope (edges included).
pub open spec fn env_intersects(env: Envelope, min_lng: int, min_lat: int, max_lng: int, max_lat: int) -> bool {
    &&& (env.min_lng as int) <= max_lng
    &&& min_lng <= (env.max_lng as int)
    &&& (env.min_lat as int) <= max_lat
    &&& min_lat <= (env.max_lat as int)
}

/// Largest longitude used when a wrapped envelope is clipped at the
/// antimeridian: 179.9999 degrees.
pub const SPLIT_LNG_MAX: i64 = 179_999_900;

/// Smallest longitude used when a wrapped envelope is clipped at the
/// antimeridian: -179.9999 degrees.
pub const SPLIT_LNG_MIN: i64 = -179_999_900;

/// Whether an envelope wraps the antimeridian and must be split.
pub open spec fn spec_env_wrapped(env: Envelope) -> bool {
    env.min_lng > 0 && env.max_lng < 0
}

/// Split an envelope at the antimeridian.
///
/// A non-wrapped envelope is returned unchanged as a single element.  A
/// wrapped one becomes its eastern part, clipped at `SPLIT_LNG_MAX`, followed
/// by its western part, clipped at `SPLIT_LNG_MIN`; both keep the latitude
/// range of the input.
pub fn split_envelope(env: &Envelope) -> (r: Vec<Envelope>)
    ensures
        !spec_env_wrapped(*env) ==> r@ =~= seq![*env],
        spec_env_wrapped(*env) ==> r@ =~= seq![
            Envelope {
                min_lng: env.min_lng,
                min_lat: env.min_lat,
                max_lng: SPLIT_LNG_MAX,
                max_lat: env.max_lat,
            },
            Envelope {
                min_lng: SPLIT_LNG_MIN,
                min_lat: env.min_lat,
                max_lng: env.max_lng,
                max_lat: env.max_lat,
            },
        ],
{
    if env.min_lng > 0 && env.max_lng < 0 {
        let east = Envelope {
            min_lng: env.min_lng,
            min_lat: env.min_lat,
            max_lng: SPLIT_LNG_MAX,
            max_lat: env.max_lat,
        };
        let west = Envelope {
            min_lng: SPLIT_LNG_MIN,
            min_lat: env.min_lat,
            max_lng: env.max_lng,
            max_lat: env.max_lat,
        };
        vec![east, west]
    } else {
        vec![*env]
    }
}

/// Splitting a wrapped envelope yields two parts that cover disjoint
/// longitude bands, jointly cover every in-range longitude of the original
/// band up to the antimeridian clip, and preserve the latitude range.
pub proof fn lemma_split_envelope_wrapped(env: Envelope, east: Envelope, west: Envelope)
    requires
        spec_env_wrapped(env),
        east == (Envelope {
            min_lng: env.min_lng,
            min_lat: env.min_lat,
            max_lng: SPLIT_LNG_MAX,
            max_lat: env.max_lat,
        }),
        west == (Envelope {
            min_lng: SPLIT_LNG_MIN,
            min_lat: env.min_lat,
            max_lng: env.max_lng,
            max_lat: env.max_lat,
        }),
    ensures
        // the two longitude bands are disjoint: the western band ends below
        // the eastern band's start
        west.max_lng < 0 < east.min_lng,
        west.max_lng < east.min_lng,
        // together they cover the wrapped band [sw.lng, SPLIT_LNG_MAX] and
        // [SPLIT_LNG_MIN, ne.lng], clipped at the antimeridian
        east.min_lng == env.min_lng && east.max_lng == SPLIT_LNG_MAX,
        west.min_lng == SPLIT_LNG_MIN && west.max_lng == env.max_lng,
        // both keep the latitude range of the input
        east.min_lat == env.min_lat && east.max_lat == env.max_lat,
        west.min_lat == env.min_lat && west.max_lat == env.max_lat,
{
}

/// A south-west/north-east rectangle, the client-facing viewport shape.
/// It is "wrapped" when `south_west.lng > north_east.lng`.
#[derive(Debug, Clone, Copy, PartialEq, Eq, Structural)]
pub struct Rect {
    pub south_west: Point,
    pub north_east: Point,
}

/// Signed division truncating towards zero, for a positive divisor.
pub open spec fn spec_div_trunc(a: int, b: int) -> int {
    if a >= 0 {
        a / b
    } else {
        -((-a) / b)
    }
}

/// The scaled image of a rectangle: each half-axis grows by
/// `(multiplier - 1) / 2`, the multiplier given in thousandths, and the
/// corners are then normalized.
pub open spec fn spec_scale(r: Rect, multiplier_milli: int) -> Rect {
    let ext = multiplier_milli - 1000;
    let lng_ext = spec_div_trunc((r.north_east.lng - r.south_west.lng) * ext, 2000);
    let lat_ext = spec_div_trunc((r.north_east.lat - r.south_west.lat) * ext, 2000);
    let sw = (
        spec_clamp_lat(r.south_west.lat - lat_ext),
        spec_wrap_lng(r.south_west.lng - lng_ext),
    );
    let ne = (
        spec_clamp_lat(r.north_east.lat + lat_ext),
        spec_wrap_lng(r.north_east.lng + lng_ext),
    );
    Rect {
        south_west: Point { lat: sw.0 as i64, lng: sw.1 as i64 },
        north_east: Point { lat: ne.0 as i64, lng: ne.1 as i64 },
    }
}

impl Rect {
    /// Build a rectangle from its corner coordinates.
    pub fn new(min_lng: i64, min_lat: i64, max_lng: i64, max_lat: i64) -> (r: Rect)
        ensures
            r == (Rect {
                south_west: Point { lat: min_lat, lng: min_lng },
                north_east: Point { lat: max_lat, lng: max_lng },
            }),
    {
        Rect {
            south_west: Point { lat: min_lat, lng: min_lng },
            north_east: Point { lat: max_lat, lng: max_lng },
        }
    }

    /// Longitudinal extent; negative when the rectangle is wrapped.
    pub fn width(&self) -> (r: i64)
        requires
            point_in_range(self.south_west),
            point_in_range(self.north_east),
        ensures
            r as int == self.north_east.lng - self.south_west.lng,
    {
        self.north_east.lng - self.south_west.lng
    }

    /// Latitudinal extent.
    pub fn height(&self) -> (r: i64)
        requires
            point_in_range(self.south_west),
            point_in_range(self.north_east),
        ensures
            r as int == self.north_east.lat - self.south_west.lat,
    {
        self.north_east.lat - self.south_west.lat
    }

    /// Grow (or shrink) the rectangle around its center.  The multiplier is
    /// given in thousandths: 1000 leaves the rectangle unchanged.
    pub fn scale(&self, multiplier_milli: i64) -> (r: Rect)
        requires
            point_in_range(self.south_west),
            point_in_range(self.north_east),
            0 <= multiplier_milli <= 1_000_000,
        ensures
            r == spec_scale(*self, multiplier_milli as int),
            point_in_range(r.south_west),
            point_in_range(r.north_east),
    {
        let ext: i64 = multiplier_milli - 1000;
        let lng_span: i64 = self.north_east.lng - self.south_west.lng;
        let lat_span: i64 = self.north_east.lat - self.south_west.lat;
        proof {
            assert(-1_000_000_000_000_000_000 <= lng_span * ext <= 1_000_000_000_000_000_000
                && -1_000_000_000_000_000_000 <= lat_span * ext <= 1_000_000_000_000_000_000)
                by (nonlinear_arith)
                requires
                    -360_000_000 <= lng_span <= 360_000_000,
                    -180_000_000 <= lat_span <= 180_000_000,
                    -1000 <= ext <= 999_000,
            ;
        }
        let lng_ext: i64 = div_trunc_by_2000(lng_span * ext);
        let lat_ext: i64 = div_trunc_by_2000(lat_span * ext);
        let south_west = Point {
            lat: self.south_west.lat - lat_ext,
            lng: self.south_west.lng - lng_ext,
        };
        let north_east = Point {
            lat: self.north_east.lat + lat_ext,
            lng: self.north_east.lng + lng_ext,
        };
        Rect { south_west: south_west.clamp(), north_east: north_east.clamp() }
    }

    /// The raw envelope of the rectangle: south-west as minimum corner,
    /// north-east as maximum.  For a wrapped rectangle the result is a
    /// wrapped envelope, which `split_envelope` takes apart.
    pub fn envelope(&self) -> (r: Envelope)
        ensures
            r == (Envelope {
                min_lng: self.south_west.lng,
                min_lat: self.south_west.lat,
                max_lng: self.north_east.lng,
                max_lat: self.north_east.lat,
            }),
    {
        Envelope {
            min_lng: self.south_west.lng,
            min_lat: self.south_west.lat,
            max_lng: self.north_east.lng,
            max_lat: self.north_east.lat,
        }
    }
}

/// Division by 2000 truncating towards zero, as the scaling arithmetic needs.
fn div_trunc_by_2000(a: i64) -> (r: i64)
    requires
        -1_000_000_000_000_000_000 <= a <= 1_000_000_000_000_000_000,
    ensures
        r as int == spec_div_trunc(a as int, 2000),
{
    if a >= 0 {
        a / 2000
    } else {
        -((-a) / 2000)
    }
}

} // verus!
