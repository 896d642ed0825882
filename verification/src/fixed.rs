//! Static reference data: airports, flight information regions, countries
//! and country shapes, with the live controller slots attached to them.

use vstd::prelude::*;
use crate::moving::{Controller, ControllerSet, controller_eq, controller_set_eq, spec_controller_set_empty, Facility};
use crate::strmap::StrMap;
use crate::types::{Envelope, Point};

verus! {

/// One runway of an airport, with its activation flags driven by ATIS.
#[derive(Debug)]
pub struct Runway {
    pub ident: String,
    pub heading: u16,
    pub length_ft: u32,
    pub active_lnd: bool,
    pub active_to: bool,
}

/// Deep equality of runways.
pub open spec fn runway_eq(a: Runway, b: Runway) -> bool {
    &&& a.ident@ == b.ident@
    &&& a.heading == b.heading
    &&& a.length_ft == b.length_ft
    &&& a.active_lnd == b.active_lnd
    &&& a.active_to == b.active_to
}

impl Runway {
    /// Deep equality.
    pub fn same_as(&self, other: &Runway) -> (r: bool)
        ensures
            r == runway_eq(*self, *other),
    {
        self.ident.eq(&other.ident) && self.heading == other.heading
            && self.length_ft == other.length_ft && self.active_lnd == other.active_lnd
            && self.active_to == other.active_to
    }

    /// A field-by-field copy.
    pub fn duplicate(&self) -> (r: Runway)
        ensures
            r == *self,
    {
        Runway {
            ident: self.ident.clone(),
            heading: self.heading,
            length_ft: self.length_ft,
            active_lnd: self.active_lnd,
            active_to: self.active_to,
        }
    }
}

/// Deep equality of two runway maps.
pub open spec fn runway_map_eq(a: Map<Seq<char>, Runway>, b: Map<Seq<char>, Runway>) -> bool {
    &&& forall|k: Seq<char>| #[trigger] a.contains_key(k)
        ==> b.contains_key(k) && runway_eq(a[k], b[k])
    &&& forall|k: Seq<char>| #[trigger] b.contains_key(k) ==> a.contains_key(k)
}

/// Compare two runway maps entry by entry.
pub fn runway_maps_same(a: &StrMap<Runway>, b: &StrMap<Runway>) -> (r: bool)
    requires
        a.inv(),
        b.inv(),
    ensures
        r == runway_map_eq(a@, b@),
{
    proof {
        a.lemma_enumeration();
        b.lemma_enumeration();
    }
    let na: usize = a.len();
    let nb: usize = b.len();
    let mut i: usize = 0;
    while i < na
        invariant
            a.inv(),
            b.inv(),
            i <= na,
            na == a.spec_len(),
            forall|j: int| 0 <= j < i ==> {
                let k = #[trigger] a.spec_keys()[j];
                b@.contains_key(k) && runway_eq(a@[k], b@[k])
            },
        decreases na - i,
    {
        proof {
            a.lemma_enumeration();
        }
        let (k, v) = a.entry_at(i);
        match b.get(k) {
            Option::Some(w) => {
                if !v.same_as(w) {
                    proof {
                        assert(!runway_map_eq(a@, b@));
                    }
                    return false;
                }
            },
            Option::None => {
                proof {
                    assert(!runway_map_eq(a@, b@));
                }
                return false;
            },
        }
        i += 1;
    }
    let mut j: usize = 0;
    while j < nb
        invariant
            a.inv(),
            b.inv(),
            j <= nb,
            nb == b.spec_len(),
            forall|k: Seq<char>| #[trigger] a@.contains_key(k)
                ==> b@.contains_key(k) && runway_eq(a@[k], b@[k]),
            forall|l: int| 0 <= l < j ==> a@.contains_key(#[trigger] b.spec_keys()[l]),
        decreases nb - j,
    {
        proof {
            b.lemma_enumeration();
        }
        let (k, _w) = b.entry_at(j);
        if !a.contains_key(k) {
            proof {
                assert(!runway_map_eq(a@, b@));
            }
            return false;
        }
        j += 1;
    }
    proof {
        a.lemma_enumeration();
        b.lemma_enumeration();
        assert forall|k: Seq<char>| #[trigger] a@.contains_key(k)
            implies b@.contains_key(k) && runway_eq(a@[k], b@[k]) by {}
        assert forall|k: Seq<char>| #[trigger] b@.contains_key(k)
            implies a@.contains_key(k) by {
            assert(b.spec_keys().contains(k));
            let l = choose|l: int| 0 <= l < b.spec_keys().len() && b.spec_keys()[l] == k;
        }
    }
    true
}

/// Copy a runway map entry by entry.
pub fn runway_map_duplicate(m: &StrMap<Runway>) -> (r: StrMap<Runway>)
    requires
        m.inv(),
    ensures
        r.inv(),
        r@ =~= m@,
{
    proof {
        m.lemma_enumeration();
    }
    let n: usize = m.len();
    let mut out: StrMap<Runway> = StrMap::new();
    let mut i: usize = 0;
    while i < n
        invariant
            m.inv(),
            out.inv(),
            i <= n,
            n == m.spec_len(),
            forall|k: Seq<char>| #[trigger] out@.contains_key(k) ==> m@.contains_key(k)
                && out@[k] == m@[k],
            forall|j: int| 0 <= j < i ==> out@.contains_key(#[trigger] m.spec_keys()[j]),
        decreases n - i,
    {
        proof {
            m.lemma_enumeration();
        }
        let (k, v) = m.entry_at(i);
        out.insert(k.clone(), v.duplicate());
        i += 1;
    }
    proof {
        m.lemma_enumeration();
        assert forall|k: Seq<char>| #[trigger] m@.contains_key(k)
            implies out@.contains_key(k) by {
            assert(m.spec_keys().contains(k));
            let j = choose|j: int| 0 <= j < m.spec_keys().len() && m.spec_keys()[j] == k;
        }
        assert(out@ =~= m@);
    }
    out
}

/// Deep equality of two controller maps (by `controller_eq`).
pub open spec fn controller_map_eq(
    a: Map<Seq<char>, Controller>,
    b: Map<Seq<char>, Controller>,
) -> bool {
    &&& forall|k: Seq<char>| #[trigger] a.contains_key(k)
        ==> b.contains_key(k) && controller_eq(a[k], b[k])
    &&& forall|k: Seq<char>| #[trigger] b.contains_key(k) ==> a.contains_key(k)
}

/// Compare two controller maps entry by entry.
pub fn controller_maps_same(a: &StrMap<Controller>, b: &StrMap<Controller>) -> (r: bool)
    requires
        a.inv(),
        b.inv(),
    ensures
        r == controller_map_eq(a@, b@),
{
    proof {
        a.lemma_enumeration();
        b.lemma_enumeration();
    }
    let na: usize = a.len();
    let nb: usize = b.len();
    let mut i: usize = 0;
    while i < na
        invariant
            a.inv(),
            b.inv(),
            i <= na,
            na == a.spec_len(),
            forall|j: int| 0 <= j < i ==> {
                let k = #[trigger] a.spec_keys()[j];
                b@.contains_key(k) && controller_eq(a@[k], b@[k])
            },
        decreases na - i,
    {
        proof {
            a.lemma_enumeration();
        }
        let (k, v) = a.entry_at(i);
        match b.get(k) {
            Option::Some(w) => {
                if !v.same_as(w) {
                    proof {
                        assert(!controller_map_eq(a@, b@));
                    }
                    return false;
                }
            },
            Option::None => {
                proof {
                    assert(!controller_map_eq(a@, b@));
                }
                return false;
            },
        }
        i += 1;
    }
    let mut j: usize = 0;
    while j < nb
        invariant
            a.inv(),
            b.inv(),
            j <= nb,
            nb == b.spec_len(),
            forall|k: Seq<char>| #[trigger] a@.contains_key(k)
                ==> b@.contains_key(k) && controller_eq(a@[k], b@[k]),
            forall|l: int| 0 <= l < j ==> a@.contains_key(#[trigger] b.spec_keys()[l]),
        decreases nb - j,
    {
        proof {
            b.lemma_enumeration();
        }
        let (k, _w) = b.entry_at(j);
        if !a.contains_key(k) {
            proof {
                assert(!controller_map_eq(a@, b@));
            }
            return false;
        }
        j += 1;
    }
    proof {
        b.lemma_enumeration();
        assert forall|k: Seq<char>| #[trigger] b@.contains_key(k)
            implies a@.contains_key(k) by {
            assert(b.spec_keys().contains(k));
            let l = choose|l: int| 0 <= l < b.spec_keys().len() && b.spec_keys()[l] == k;
        }
    }
    true
}

/// Copy a controller map entry by entry.
pub fn controller_map_duplicate(m: &StrMap<Controller>) -> (r: StrMap<Controller>)
    requires
        m.inv(),
    ensures
        r.inv(),
        r@ =~= m@,
{
    proof {
        m.lemma_enumeration();
    }
    let n: usize = m.len();
    let mut out: StrMap<Controller> = StrMap::new();
    let mut i: usize = 0;
    while i < n
        invariant
            m.inv(),
            out.inv(),
            i <= n,
            n == m.spec_len(),
            forall|k: Seq<char>| #[trigger] out@.contains_key(k) ==> m@.contains_key(k)
                && out@[k] == m@[k],
            forall|j: int| 0 <= j < i ==> out@.contains_key(#[trigger] m.spec_keys()[j]),
        decreases n - i,
    {
        proof {
            m.lemma_enumeration();
        }
        let (k, v) = m.entry_at(i);
        out.insert(k.clone(), v.duplicate());
        i += 1;
    }
    proof {
        m.lemma_enumeration();
        assert forall|k: Seq<char>| #[trigger] m@.contains_key(k)
            implies out@.contains_key(k) by {
            assert(m.spec_keys().contains(k));
            let j = choose|j: int| 0 <= j < m.spec_keys().len() && m.spec_keys()[j] == k;
        }
        assert(out@ =~= m@);
    }
    out
}

/// One airport of the static data set, with its live controller slots.
#[derive(Debug)]
pub struct Airport {
    pub icao: String,
    pub iata: String,
    pub name: String,
    pub position: Point,
    pub fir_id: String,
    pub is_pseudo: bool,
    pub controllers: ControllerSet,
    pub runways: StrMap<Runway>,
}

/// The spatial-index key of an airport: `{icao}:{iata}`.
pub open spec fn spec_compound_id(a: Airport) -> Seq<char> {
    a.icao@ + seq![':'] + a.iata@
}

/// Deep equality of airports.
pub open spec fn airport_eq(a: Airport, b: Airport) -> bool {
    &&& a.icao@ == b.icao@
    &&& a.iata@ == b.iata@
    &&& a.name@ == b.name@
    &&& a.position == b.position
    &&& a.fir_id@ == b.fir_id@
    &&& a.is_pseudo == b.is_pseudo
    &&& controller_set_eq(a.controllers, b.controllers)
    &&& runway_map_eq(a.runways@, b.runways@)
}

impl Airport {
    /// Well-formedness of the runway map.
    pub open spec fn inv(self) -> bool {
        self.runways.inv()
    }

    /// The spatial-index key: `{icao}:{iata}`, retained for deletion.
    pub fn compound_id(&self) -> (r: String)
        ensures
            r@ == spec_compound_id(*self),
    {
        let mut r = self.icao.clone();
        r.append(":");
        proof {
            reveal_strlit(":");
            assert(":"@ =~= seq![':']);
        }
        r.append(self.iata.as_str());
        r
    }

    /// Deep equality.
    pub fn same_as(&self, other: &Airport) -> (r: bool)
        requires
            self.inv(),
            other.inv(),
        ensures
            r == airport_eq(*self, *other),
    {
        self.icao.eq(&other.icao) && self.iata.eq(&other.iata) && self.name.eq(&other.name)
            && self.position == other.position && self.fir_id.eq(&other.fir_id)
            && self.is_pseudo == other.is_pseudo
            && self.controllers.same_as(&other.controllers)
            && runway_maps_same(&self.runways, &other.runways)
    }

    /// A field-by-field copy.
    pub fn duplicate(&self) -> (r: Airport)
        requires
            self.inv(),
        ensures
            r.inv(),
            r.icao@ == self.icao@,
            r.iata@ == self.iata@,
            r.name@ == self.name@,
            r.position == self.position,
            r.fir_id@ == self.fir_id@,
            r.is_pseudo == self.is_pseudo,
            r.controllers == self.controllers,
            r.runways@ =~= self.runways@,
            airport_eq(r, *self),
    {
        let r = Airport {
            icao: self.icao.clone(),
            iata: self.iata.clone(),
            name: self.name.clone(),
            position: self.position,
            fir_id: self.fir_id.clone(),
            is_pseudo: self.is_pseudo,
            controllers: self.controllers.duplicate(),
            runways: runway_map_duplicate(&self.runways),
        };
        proof {
            lemma_controller_set_eq_refl(r.controllers);
        }
        r
    }

    /// Clear the activation flags of every runway.
    pub fn reset_active_runways(&mut self)
        requires
            old(self).inv(),
        ensures
            final(self).inv(),
            final(self).icao@ == old(self).icao@,
            final(self).iata@ == old(self).iata@,
            final(self).name@ == old(self).name@,
            final(self).position == old(self).position,
            final(self).fir_id@ == old(self).fir_id@,
            final(self).is_pseudo == old(self).is_pseudo,
            final(self).controllers == old(self).controllers,
            forall|k: Seq<char>| final(self).runways@.contains_key(k)
                == old(self).runways@.contains_key(k),
            forall|k: Seq<char>| #[trigger] final(self).runways@.contains_key(k)
                ==> final(self).runways@[k] == (Runway {
                    active_lnd: false,
                    active_to: false,
                    ..old(self).runways@[k]
                }),
    {
        proof {
            self.runways.lemma_enumeration();
        }
        let n: usize = self.runways.len();
        let mut fresh: StrMap<Runway> = StrMap::new();
        let mut i: usize = 0;
        while i < n
            invariant
                old(self).runways.inv(),
                fresh.inv(),
                i <= n,
                n == old(self).runways.spec_len(),
                self.runways == old(self).runways,
                forall|k: Seq<char>| #[trigger] fresh@.contains_key(k)
                    ==> old(self).runways@.contains_key(k)
                        && fresh@[k] == (Runway {
                            active_lnd: false,
                            active_to: false,
                            ..old(self).runways@[k]
                        }),
                forall|j: int| 0 <= j < i
                    ==> fresh@.contains_key(#[trigger] old(self).runways.spec_keys()[j]),
            decreases n - i,
        {
            proof {
                old(self).runways.lemma_enumeration();
            }
            let (k, v) = self.runways.entry_at(i);
            let mut w = v.duplicate();
            w.active_lnd = false;
            w.active_to = false;
            fresh.insert(k.clone(), w);
            i += 1;
        }
        proof {
            old(self).runways.lemma_enumeration();
            assert forall|k: Seq<char>| #[trigger] old(self).runways@.contains_key(k)
                implies fresh@.contains_key(k) by {
                assert(old(self).runways.spec_keys().contains(k));
                let j = choose|j: int| 0 <= j < old(self).runways.spec_keys().len()
                    && old(self).runways.spec_keys()[j] == k;
            }
        }
        self.runways = fresh;
    }

    /// Mark the runways named by the ATIS-derived arrival and departure
    /// lists active for landing and take-off, after clearing all flags.
    /// The identifier lists come from the ATIS text, which an external
    /// collaborator normalizes and scans.
    pub fn set_active_runways(&mut self, arrivals: &Vec<String>, departures: &Vec<String>)
        requires
            old(self).inv(),
        ensures
            final(self).inv(),
            final(self).icao@ == old(self).icao@,
            final(self).iata@ == old(self).iata@,
            final(self).name@ == old(self).name@,
            final(self).position == old(self).position,
            final(self).fir_id@ == old(self).fir_id@,
            final(self).is_pseudo == old(self).is_pseudo,
            final(self).controllers == old(self).controllers,
            forall|k: Seq<char>| final(self).runways@.contains_key(k)
                == old(self).runways@.contains_key(k),
            forall|k: Seq<char>| #[trigger] final(self).runways@.contains_key(k)
                ==> final(self).runways@[k] == (Runway {
                    active_lnd: arrivals@.map_values(|s: String| s@).contains(k),
                    active_to: departures@.map_values(|s: String| s@).contains(k),
                    ..old(self).runways@[k]
                }),
    {
        proof {
            self.runways.lemma_enumeration();
        }
        let ghost arr = arrivals@.map_values(|s: String| s@);
        let ghost dep = departures@.map_values(|s: String| s@);
        let n: usize = self.runways.len();
        let mut fresh: StrMap<Runway> = StrMap::new();
        let mut i: usize = 0;
        while i < n
            invariant
                old(self).runways.inv(),
                fresh.inv(),
                i <= n,
                n == old(self).runways.spec_len(),
                self.runways == old(self).runways,
                arr == arrivals@.map_values(|s: String| s@),
                dep == departures@.map_values(|s: String| s@),
                forall|k: Seq<char>| #[trigger] fresh@.contains_key(k)
                    ==> old(self).runways@.contains_key(k)
                        && fresh@[k] == (Runway {
                            active_lnd: arr.contains(k),
                            active_to: dep.contains(k),
                            ..old(self).runways@[k]
                        }),
                forall|j: int| 0 <= j < i
                    ==> fresh@.contains_key(#[trigger] old(self).runways.spec_keys()[j]),
            decreases n - i,
        {
            proof {
                old(self).runways.lemma_enumeration();
            }
            let (k, v) = self.runways.entry_at(i);
            let mut w = v.duplicate();
            w.active_lnd = contains_str(arrivals, k);
            w.active_to = contains_str(departures, k);
            fresh.insert(k.clone(), w);
            i += 1;
        }
        proof {
            old(self).runways.lemma_enumeration();
            assert forall|k: Seq<char>| #[trigger] old(self).runways@.contains_key(k)
                implies fresh@.contains_key(k) by {
                assert(old(self).runways.spec_keys().contains(k));
                let j = choose|j: int| 0 <= j < old(self).runways.spec_keys().len()
                    && old(self).runways.spec_keys()[j] == k;
            }
        }
        self.runways = fresh;
    }
}

proof fn lemma_controller_set_eq_refl(s: ControllerSet)
    ensures
        controller_set_eq(s, s),
{
}

/// Whether a string list holds given text.
pub fn contains_str(list: &Vec<String>, needle: &String) -> (r: bool)
    ensures
        r == list@.map_values(|s: String| s@).contains(needle@),
{
    let ghost views = list@.map_values(|s: String| s@);
    let n: usize = list.len();
    let mut i: usize = 0;
    while i < n
        invariant
            i <= n,
            n == list@.len(),
            views == list@.map_values(|s: String| s@),
            forall|j: int| 0 <= j < i ==> views[j] != needle@,
        decreases n - i,
    {
        if list[i].eq(needle) {
            proof {
                assert(views[i as int] == needle@);
            }
            return true;
        }
        i += 1;
    }
    proof {
        if views.contains(needle@) {
            let j = choose|j: int| 0 <= j < views.len() && views[j] == needle@;
        }
    }
    false
}


/// The bounding data of a flight information region.
#[derive(Debug)]
pub struct Boundaries {
    pub id: String,
    pub region: String,
    pub division: String,
    pub is_oceanic: bool,
    pub min: Point,
    pub max: Point,
    pub center: Point,
    pub points: Vec<Vec<Point>>,
}

/// Equality of boundaries goes by the identifier alone: boundary geometry
/// never changes within a run.
pub open spec fn boundaries_eq(a: Boundaries, b: Boundaries) -> bool {
    a.id@ == b.id@
}

impl Boundaries {
    /// A copy, identical up to vector identity.
    pub fn duplicate(&self) -> (r: Boundaries)
        ensures
            r.id@ == self.id@,
            r.region@ == self.region@,
            r.division@ == self.division@,
            r.is_oceanic == self.is_oceanic,
            r.min == self.min && r.max == self.max && r.center == self.center,
            boundaries_eq(r, *self),
    {
        let mut points: Vec<Vec<Point>> = Vec::new();
        let n: usize = self.points.len();
        let mut i: usize = 0;
        while i < n
            invariant
                i <= n,
                n == self.points@.len(),
            decreases n - i,
        {
            let ring = &self.points[i];
            let m: usize = ring.len();
            let mut out_ring: Vec<Point> = Vec::new();
            let mut j: usize = 0;
            while j < m
                invariant
                    j <= m,
                    m == ring@.len(),
                decreases m - j,
            {
                out_ring.push(ring[j]);
                j += 1;
            }
            points.push(out_ring);
            i += 1;
        }
        Boundaries {
            id: self.id.clone(),
            region: self.region.clone(),
            division: self.division.clone(),
            is_oceanic: self.is_oceanic,
            min: self.min,
            max: self.max,
            center: self.center,
            points,
        }
    }
}

/// One flight information region with its live radar controllers.
#[derive(Debug)]
pub struct FIR {
    pub icao: String,
    pub name: String,
    pub prefix: String,
    pub boundaries: Boundaries,
    pub controllers: StrMap<Controller>,
}

/// Deep equality of regions: fields, boundaries by identifier, and the
/// controller map under controller equality.
pub open spec fn fir_eq(a: FIR, b: FIR) -> bool {
    &&& a.icao@ == b.icao@
    &&& a.name@ == b.name@
    &&& a.prefix@ == b.prefix@
    &&& boundaries_eq(a.boundaries, b.boundaries)
    &&& controller_map_eq(a.controllers@, b.controllers@)
}

impl FIR {
    /// Well-formedness of the controller map.
    pub open spec fn inv(self) -> bool {
        self.controllers.inv()
    }

    /// Whether no controller works the region.
    pub fn is_empty(&self) -> (r: bool)
        requires
            self.inv(),
        ensures
            r == (self.controllers.spec_len() == 0),
    {
        self.controllers.len() == 0
    }

    /// Deep equality.
    pub fn same_as(&self, other: &FIR) -> (r: bool)
        requires
            self.inv(),
            other.inv(),
        ensures
            r == fir_eq(*self, *other),
    {
        self.icao.eq(&other.icao) && self.name.eq(&other.name)
            && self.prefix.eq(&other.prefix)
            && self.boundaries.id.eq(&other.boundaries.id)
            && controller_maps_same(&self.controllers, &other.controllers)
    }

    /// A deep copy.
    pub fn duplicate(&self) -> (r: FIR)
        requires
            self.inv(),
        ensures
            r.inv(),
            r.icao@ == self.icao@,
            r.name@ == self.name@,
            r.prefix@ == self.prefix@,
            boundaries_eq(r.boundaries, self.boundaries),
            r.controllers@ =~= self.controllers@,
            fir_eq(r, *self),
    {
        let r = FIR {
            icao: self.icao.clone(),
            name: self.name.clone(),
            prefix: self.prefix.clone(),
            boundaries: self.boundaries.duplicate(),
            controllers: controller_map_duplicate(&self.controllers),
        };
        proof {
            assert(controller_map_eq(r.controllers@, self.controllers@)) by {
                lemma_controller_map_eq_refl(self.controllers@);
            }
        }
        r
    }
}

proof fn lemma_controller_map_eq_refl(m: Map<Seq<char>, Controller>)
    ensures
        controller_map_eq(m, m),
{
    assert forall|k: Seq<char>| #[trigger] m.contains_key(k)
        implies m.contains_key(k) && controller_eq(m[k], m[k]) by {}
}

/// One country of the static country table.
#[derive(Debug)]
pub struct Country {
    pub name: String,
    pub prefix: String,
    pub control_name: Option<String>,
}

/// An upper information region: a named group of regions.
#[derive(Debug)]
pub struct UIR {
    pub icao: String,
    pub name: String,
    pub fir_ids: Vec<String>,
}

/// One country of the reverse-geocoding table, keyed by its numeric
/// identifier.
#[derive(Debug)]
pub struct GeonamesCountry {
    pub iso: String,
    pub iso3: String,
    pub name: String,
    pub capital: String,
    pub continent: String,
    pub neighbours: String,
    pub geoname_id: u32,
}

impl GeonamesCountry {
    /// A field-by-field copy.
    pub fn duplicate(&self) -> (r: GeonamesCountry)
        ensures
            r == *self,
    {
        GeonamesCountry {
            iso: self.iso.clone(),
            iso3: self.iso3.clone(),
            name: self.name.clone(),
            capital: self.capital.clone(),
            continent: self.continent.clone(),
            neighbours: self.neighbours.clone(),
            geoname_id: self.geoname_id,
        }
    }
}

/// One country shape: a polygon ring with its country's identifier and its
/// bounding box.
#[derive(Debug)]
pub struct GeoShape {
    pub ref_id: u32,
    pub ring: Vec<Point>,
    pub bbox: Envelope,
}

impl GeoShape {
    /// Well-formedness: every vertex within coordinate range, so that the
    /// containment arithmetic stays exact.
    pub open spec fn inv(self) -> bool {
        forall|i: int| 0 <= i < self.ring@.len()
            ==> crate::types::point_in_range(#[trigger] self.ring@[i])
    }
}

/// Whether the edge from `a` to `b` crosses the horizontal ray running east
/// from `p`, by the standard exact integer test.
pub open spec fn edge_crosses(p: Point, a: Point, b: Point) -> bool {
    &&& ((a.lat > p.lat) != (b.lat > p.lat))
    &&& {
        let cross = (b.lng - a.lng) * (p.lat - a.lat) - (p.lng - a.lng) * (b.lat - a.lat);
        if b.lat > a.lat {
            cross > 0
        } else {
            cross < 0
        }
    }
}

/// The number of polygon edges among the first `i` that cross the ray from
/// `p`; the edge `j` runs from vertex `j` to vertex `j + 1` modulo the ring
/// length.
pub open spec fn spec_crossings(p: Point, ring: Seq<Point>, i: nat) -> nat
    decreases i,
{
    if i == 0 {
        0
    } else {
        let prev = spec_crossings(p, ring, (i - 1) as nat);
        let a = ring[i - 1];
        let b = ring[if i == ring.len() { 0int } else { i as int }];
        if edge_crosses(p, a, b) {
            prev + 1
        } else {
            prev
        }
    }
}

/// Whether a point lies inside a polygon ring, by the even-odd rule: the
/// eastbound ray from the point crosses the boundary an odd number of
/// times.
pub open spec fn spec_point_in_ring(p: Point, ring: Seq<Point>) -> bool {
    spec_crossings(p, ring, ring.len()) % 2 == 1
}

/// The even-odd containment test on exact integer coordinates.
pub fn point_in_ring(p: Point, ring: &Vec<Point>) -> (r: bool)
    requires
        crate::types::point_in_range(p),
        forall|i: int| 0 <= i < ring@.len()
            ==> crate::types::point_in_range(#[trigger] ring@[i]),
    ensures
        r == spec_point_in_ring(p, ring@),
{
    let n: usize = ring.len();
    let mut crossings: u64 = 0;
    let mut i: usize = 0;
    while i < n
        invariant
            i <= n,
            n == ring@.len(),
            crate::types::point_in_range(p),
            forall|j: int| 0 <= j < ring@.len()
                ==> crate::types::point_in_range(#[trigger] ring@[j]),
            crossings == spec_crossings(p, ring@, i as nat),
            crossings <= i,
        decreases n - i,
    {
        let a: Point = ring[i];
        let b: Point = if i + 1 == n {
            ring[0]
        } else {
            ring[i + 1]
        };
        if (a.lat > p.lat) != (b.lat > p.lat) {
            proof {
                assert(-200_000_000_000_000_000
                    <= (b.lng as int - a.lng as int) * (p.lat as int - a.lat as int)
                    <= 200_000_000_000_000_000
                    && -200_000_000_000_000_000
                        <= (p.lng as int - a.lng as int) * (b.lat as int - a.lat as int)
                        <= 200_000_000_000_000_000) by (nonlinear_arith)
                    requires
                        -400_000_000 <= b.lng as int - a.lng as int <= 400_000_000,
                        -400_000_000 <= p.lat as int - a.lat as int <= 400_000_000,
                        -400_000_000 <= p.lng as int - a.lng as int <= 400_000_000,
                        -400_000_000 <= b.lat as int - a.lat as int <= 400_000_000,
                ;
            }
            let cross: i64 = (b.lng - a.lng) * (p.lat - a.lat)
                - (p.lng - a.lng) * (b.lat - a.lat);
            let hit: bool = if b.lat > a.lat {
                cross > 0
            } else {
                cross < 0
            };
            if hit {
                crossings = crossings + 1;
            }
        }
        i += 1;
    }
    crossings % 2 == 1
}


/// First position of an underscore in a callsign, or the length.
pub open spec fn underscore_pos(s: Seq<char>) -> int
    decreases s.len(),
{
    if s.len() == 0 {
        0
    } else if s[0] == '_' {
        0
    } else {
        1 + underscore_pos(s.drop_first())
    }
}

proof fn lemma_underscore_pos(s: Seq<char>)
    ensures
        0 <= underscore_pos(s) <= s.len(),
        forall|j: int| 0 <= j < underscore_pos(s) ==> s[j] != '_',
        underscore_pos(s) < s.len() ==> s[underscore_pos(s)] == '_',
    decreases s.len(),
{
    if s.len() > 0 && s[0] != '_' {
        lemma_underscore_pos(s.drop_first());
        assert forall|j: int| 0 <= j < underscore_pos(s) implies s[j] != '_' by {
            if j > 0 {
                assert(s.drop_first()[j - 1] == s[j]);
            }
        }
        if underscore_pos(s) < s.len() {
            assert(s.drop_first()[underscore_pos(s) - 1] == s[underscore_pos(s)]);
        }
    }
}

/// The station prefix of a callsign: everything before the first
/// underscore, or the whole callsign.
pub open spec fn spec_callsign_prefix(s: Seq<char>) -> Seq<char> {
    s.subrange(0, underscore_pos(s))
}

/// The station prefix of a callsign, the key that attaches a controller to
/// an airport or a region.
pub fn callsign_prefix(s: &String) -> (r: String)
    ensures
        r@ == spec_callsign_prefix(s@),
{
    let st: &str = s.as_str();
    let n: usize = st.unicode_len();
    let mut i: usize = 0;
    while i < n
        invariant
            i <= n,
            n == s@.len(),
            st@ == s@,
            forall|j: int| 0 <= j < i ==> s@[j] != '_',
        decreases n - i,
    {
        if st.get_char(i) == '_' {
            proof {
                lemma_underscore_pos(s@);
                assert(underscore_pos(s@) == i) by {
                    if underscore_pos(s@) < i {
                        assert(s@[underscore_pos(s@)] != '_');
                    }
                    if underscore_pos(s@) > i {
                        assert(s@[i as int] != '_');
                    }
                }
            }
            return st.substring_char(0, i).to_owned();
        }
        i += 1;
    }
    proof {
        lemma_underscore_pos(s@);
        assert(underscore_pos(s@) == n) by {
            if underscore_pos(s@) < n {
                assert(s@[underscore_pos(s@)] != '_');
            }
        }
        assert(s@.subrange(0, n as int) =~= s@);
    }
    s.clone()
}

/// A controller set with one slot replaced according to a facility; the
/// facilities that do not attach to airports leave the set unchanged.
pub open spec fn with_slot(s: ControllerSet, f: Facility, c: Option<Controller>) -> ControllerSet {
    match f {
        Facility::ATIS => ControllerSet { atis: c, ..s },
        Facility::Delivery => ControllerSet { delivery: c, ..s },
        Facility::Ground => ControllerSet { ground: c, ..s },
        Facility::Tower => ControllerSet { tower: c, ..s },
        Facility::Approach => ControllerSet { approach: c, ..s },
        _ => s,
    }
}

/// Whether a region answers to a station prefix: by its identifier or its
/// radio prefix.
pub open spec fn spec_fir_matches(f: FIR, pfx: Seq<char>) -> bool {
    f.icao@ == pfx || f.prefix@ == pfx
}

/// The static data store: airports by identifier and by compound key,
/// regions, countries, and upper regions.
pub struct FixedData {
    airports: StrMap<Airport>,
    compound: StrMap<String>,
    firs: Vec<FIR>,
    countries: Vec<Country>,
    uirs: Vec<UIR>,
}

impl FixedData {
    /// Well-formedness: the maps are sound, every airport sits under its
    /// own identifier, every compound key resolves to a stored airport.
    pub closed spec fn inv(self) -> bool {
        &&& self.airports.inv()
        &&& self.compound.inv()
        &&& forall|k: Seq<char>| #[trigger] self.airports@.contains_key(k)
            ==> self.airports@[k].inv() && self.airports@[k].icao@ == k
        &&& forall|k: Seq<char>| #[trigger] self.compound@.contains_key(k)
            ==> self.airports@.contains_key(self.compound@[k]@)
                && spec_compound_id(self.airports@[self.compound@[k]@]) == k
        &&& forall|i: int| 0 <= i < self.firs@.len() ==> (#[trigger] self.firs@[i]).inv()
    }

    /// The airports by identifier.
    pub closed spec fn spec_airports(self) -> Map<Seq<char>, Airport> {
        self.airports@
    }

    /// The compound-key directory.
    pub closed spec fn spec_compound(self) -> Map<Seq<char>, String> {
        self.compound@
    }

    /// The regions, in load order.
    pub closed spec fn spec_firs(self) -> Seq<FIR> {
        self.firs@
    }

    /// The countries, in load order.
    pub closed spec fn spec_countries(self) -> Seq<Country> {
        self.countries@
    }

    /// The compound directory always resolves: every compound key names a
    /// stored airport whose compound identifier is that key.
    pub proof fn lemma_compound_resolves(self)
        requires
            self.inv(),
        ensures
            forall|k: Seq<char>| #[trigger] self.spec_compound().contains_key(k)
                ==> self.spec_airports().contains_key(self.spec_compound()[k]@)
                    && spec_compound_id(self.spec_airports()[self.spec_compound()[k]@]) == k,
            forall|k: Seq<char>| #[trigger] self.spec_airports().contains_key(k)
                ==> self.spec_airports()[k].icao@ == k && self.spec_airports()[k].inv(),
    {
    }

    /// An empty store.
    pub fn empty() -> (r: FixedData)
        ensures
            r.inv(),
            r.spec_airports() =~= Map::<Seq<char>, Airport>::empty(),
            r.spec_compound() =~= Map::<Seq<char>, String>::empty(),
            r.spec_firs() =~= Seq::<FIR>::empty(),
            r.spec_countries() =~= Seq::<Country>::empty(),
    {
        FixedData {
            airports: StrMap::new(),
            compound: StrMap::new(),
            firs: Vec::new(),
            countries: Vec::new(),
            uirs: Vec::new(),
        }
    }

    /// Load one airport, registering its compound key.
    pub fn add_airport(&mut self, a: Airport)
        requires
            old(self).inv(),
            a.inv(),
            !old(self).spec_airports().contains_key(a.icao@),
            !old(self).spec_compound().contains_key(spec_compound_id(a)),
        ensures
            final(self).inv(),
            final(self).spec_airports() =~= old(self).spec_airports().insert(a.icao@, a),
            final(self).spec_compound() =~= old(self).spec_compound().insert(
                spec_compound_id(a),
                final(self).spec_compound()[spec_compound_id(a)],
            ),
            final(self).spec_compound().contains_key(spec_compound_id(a)),
            final(self).spec_compound()[spec_compound_id(a)]@ == a.icao@,
            final(self).spec_firs() == old(self).spec_firs(),
    {
        let icao = a.icao.clone();
        let cid = a.compound_id();
        self.airports.insert(a.icao.clone(), a);
        self.compound.insert(cid, icao);
    }

    /// Load one region.
    pub fn add_fir(&mut self, f: FIR)
        requires
            old(self).inv(),
            f.inv(),
        ensures
            final(self).inv(),
            final(self).spec_firs() =~= old(self).spec_firs().push(f),
            final(self).spec_airports() == old(self).spec_airports(),
            final(self).spec_compound() == old(self).spec_compound(),
    {
        self.firs.push(f);
    }

    /// Load one country.
    pub fn add_country(&mut self, c: Country)
        requires
            old(self).inv(),
        ensures
            final(self).inv(),
            final(self).spec_countries() =~= old(self).spec_countries().push(c),
            final(self).spec_airports() == old(self).spec_airports(),
            final(self).spec_compound() == old(self).spec_compound(),
            final(self).spec_firs() == old(self).spec_firs(),
    {
        self.countries.push(c);
    }

    /// Load one upper region.
    pub fn add_uir(&mut self, u: UIR)
        requires
            old(self).inv(),
        ensures
            final(self).inv(),
            final(self).spec_airports() == old(self).spec_airports(),
            final(self).spec_compound() == old(self).spec_compound(),
            final(self).spec_firs() == old(self).spec_firs(),
    {
        self.uirs.push(u);
    }

    /// What looking a code up finds: the airport stored under the code as
    /// an identifier, else the one its compound key names, else nothing.
    pub open spec fn spec_find_airport(self, code: Seq<char>) -> Option<Airport> {
        if self.spec_airports().contains_key(code) {
            Some(self.spec_airports()[code])
        } else if self.spec_compound().contains_key(code)
            && self.spec_airports().contains_key(self.spec_compound()[code]@) {
            Some(self.spec_airports()[self.spec_compound()[code]@])
        } else {
            None
        }
    }

    /// Look an airport up by identifier or compound key, case-sensitively.
    pub fn find_airport(&self, code: &String) -> (r: Option<Airport>)
        requires
            self.inv(),
        ensures
            match r {
                Some(a) => self.spec_find_airport(code@) is Some && a.inv()
                    && airport_eq(a, self.spec_find_airport(code@)->Some_0),
                None => self.spec_find_airport(code@) is None,
            },
    {
        match self.airports.get(code) {
            Option::Some(a) => Some(a.duplicate()),
            Option::None => match self.compound.get(code) {
                Option::Some(icao) => match self.airports.get(icao) {
                    Option::Some(a) => Some(a.duplicate()),
                    Option::None => None,
                },
                Option::None => None,
            },
        }
    }

    /// Look an airport up by its compound key alone.
    pub fn find_airport_compound(&self, cid: &String) -> (r: Option<Airport>)
        requires
            self.inv(),
        ensures
            match r {
                Some(a) => self.spec_compound().contains_key(cid@) && a.inv()
                    && airport_eq(a, self.spec_airports()[self.spec_compound()[cid@]@])
                    && spec_compound_id(a) == cid@,
                None => !self.spec_compound().contains_key(cid@),
            },
    {
        match self.compound.get(cid) {
            Option::Some(icao) => match self.airports.get(icao) {
                Option::Some(a) => {
                    let d = a.duplicate();
                    proof {
                        assert(spec_compound_id(d) == spec_compound_id(*a));
                    }
                    Some(d)
                },
                Option::None => None,
            },
            Option::None => None,
        }
    }

    /// Every airport that has at least one controller online, each under
    /// its own compound key.
    #[verifier::rlimit(50)]
    #[verifier::spinoff_prover]
    pub fn staffed_airports(&self) -> (r: Vec<Airport>)
        requires
            self.inv(),
        ensures
            forall|x: int| 0 <= x < r@.len() ==> {
                let cid = spec_compound_id(#[trigger] r@[x]);
                &&& r@[x].inv()
                &&& self.spec_compound().contains_key(cid)
                &&& airport_eq(r@[x], self.spec_airports()[self.spec_compound()[cid]@])
                &&& !spec_controller_set_empty(r@[x].controllers)
            },
            forall|cid: Seq<char>| #[trigger] self.spec_compound().contains_key(cid)
                && !spec_controller_set_empty(
                    self.spec_airports()[self.spec_compound()[cid]@].controllers,
                ) ==> exists|x: int| 0 <= x < r@.len() && spec_compound_id(r@[x]) == cid,
            forall|x: int, y: int| 0 <= x < y < r@.len()
                ==> spec_compound_id(r@[x]) != spec_compound_id(r@[y]),
    {
        proof {
            self.compound.lemma_enumeration();
            self.lemma_compound_resolves();
        }
        let n: usize = self.compound.len();
        let mut out: Vec<Airport> = Vec::new();
        let mut i: usize = 0;
        while i < n
            invariant
                self.inv(),
                i <= n,
                n == self.compound.spec_len(),
                forall|x: int| 0 <= x < out@.len() ==> {
                    let cid = spec_compound_id(#[trigger] out@[x]);
                    &&& out@[x].inv()
                    &&& self.spec_compound().contains_key(cid)
                    &&& airport_eq(out@[x],
                        self.spec_airports()[self.spec_compound()[cid]@])
                    &&& !spec_controller_set_empty(out@[x].controllers)
                },
                forall|j: int| 0 <= j < i && !spec_controller_set_empty(
                    self.spec_airports()[
                        self.spec_compound()[#[trigger] self.compound.spec_keys()[j]]@
                    ].controllers,
                ) ==> exists|x: int| 0 <= x < out@.len()
                    && spec_compound_id(out@[x]) == self.compound.spec_keys()[j],
                forall|x: int| 0 <= x < out@.len() ==> exists|j: int| 0 <= j < i
                    && spec_compound_id(#[trigger] out@[x]) == self.compound.spec_keys()[j],
                forall|x: int, y: int| 0 <= x < y < out@.len()
                    ==> spec_compound_id(out@[x]) != spec_compound_id(out@[y]),
            decreases n - i,
        {
            proof {
                self.compound.lemma_enumeration();
                self.lemma_compound_resolves();
            }
            let ghost out_pre = out@;
            let (cid_ref, _icao) = self.compound.entry_at(i);
            match self.find_airport_compound(cid_ref) {
                Option::Some(a) => {
                    if !a.controllers.is_empty() {
                        out.push(a);
                    }
                },
                Option::None => {
                    proof {
                        assert(false);
                    }
                },
            }
            proof {
                self.compound.lemma_enumeration();
                assert forall|j: int| 0 <= j < i as int + 1 && !spec_controller_set_empty(
                    self.spec_airports()[
                        self.spec_compound()[#[trigger] self.compound.spec_keys()[j]]@
                    ].controllers,
                ) implies exists|x: int| 0 <= x < out@.len()
                    && spec_compound_id(out@[x]) == self.compound.spec_keys()[j] by {
                    if j < i as int {
                        let x0 = choose|x0: int| 0 <= x0 < out_pre.len()
                            && spec_compound_id(out_pre[x0]) == self.compound.spec_keys()[j];
                        assert(out@[x0] == out_pre[x0]);
                    } else {
                        assert(spec_compound_id(out@[out@.len() - 1])
                            == self.compound.spec_keys()[j]);
                    }
                }
                assert forall|x: int| 0 <= x < out@.len()
                    implies exists|j: int| 0 <= j < i as int + 1
                        && spec_compound_id(#[trigger] out@[x])
                            == self.compound.spec_keys()[j] by {
                    if x < out_pre.len() {
                        assert(out@[x] == out_pre[x]);
                        let j0 = choose|j0: int| 0 <= j0 < i as int
                            && spec_compound_id(out_pre[x]) == self.compound.spec_keys()[j0];
                    } else {
                        assert(spec_compound_id(out@[x]) == self.compound.spec_keys()[i as int]);
                    }
                }
                assert forall|x: int, y: int| 0 <= x < y < out@.len()
                    implies spec_compound_id(out@[x]) != spec_compound_id(out@[y]) by {
                    let jx = choose|jx: int| 0 <= jx < i as int + 1
                        && spec_compound_id(out@[x]) == self.compound.spec_keys()[jx];
                    let jy = choose|jy: int| 0 <= jy < i as int + 1
                        && spec_compound_id(out@[y]) == self.compound.spec_keys()[jy];
                    if spec_compound_id(out@[x]) == spec_compound_id(out@[y]) {
                        assert(self.compound.spec_keys()[jx] == self.compound.spec_keys()[jy]);
                        assert(jx == jy);
                        if x < out_pre.len() && y < out_pre.len() {
                            assert(out@[x] == out_pre[x] && out@[y] == out_pre[y]);
                        }
                    }
                }
            }
            i += 1;
        }
        proof {
            self.compound.lemma_enumeration();
            assert forall|cid: Seq<char>| #[trigger] self.spec_compound().contains_key(cid)
                && !spec_controller_set_empty(
                    self.spec_airports()[self.spec_compound()[cid]@].controllers,
                ) implies exists|x: int| 0 <= x < out@.len()
                    && spec_compound_id(out@[x]) == cid by {
                assert(self.compound.spec_keys().contains(cid));
                let j = choose|j: int| 0 <= j < self.compound.spec_keys().len()
                    && self.compound.spec_keys()[j] == cid;
            }
        }
        out
    }

    /// Number of loaded regions.
    pub fn firs_len(&self) -> (r: usize)
        ensures
            r == self.spec_firs().len(),
    {
        self.firs.len()
    }

    /// Borrow the region at a load position.
    pub fn fir_at(&self, i: usize) -> (r: &FIR)
        requires
            self.inv(),
            i < self.spec_firs().len(),
        ensures
            *r == self.spec_firs()[i as int],
            r.inv(),
    {
        &self.firs[i]
    }

    /// The regions stored under an identifier; there can be more than one.
    pub fn find_firs(&self, code: &String) -> (r: Vec<FIR>)
        requires
            self.inv(),
        ensures
            forall|k: int| 0 <= k < r@.len() ==> (#[trigger] r@[k]).inv()
                && r@[k].icao@ == code@,
            forall|j: int| 0 <= j < self.spec_firs().len()
                && (#[trigger] self.spec_firs()[j]).icao@ == code@
                ==> exists|k: int| 0 <= k < r@.len() && fir_eq(r@[k], self.spec_firs()[j]),
    {
        let n: usize = self.firs.len();
        let mut out: Vec<FIR> = Vec::new();
        let mut i: usize = 0;
        while i < n
            invariant
                self.inv(),
                i <= n,
                n == self.firs@.len(),
                forall|k: int| 0 <= k < out@.len() ==> (#[trigger] out@[k]).inv()
                    && out@[k].icao@ == code@,
                forall|j: int| 0 <= j < i && (#[trigger] self.firs@[j]).icao@ == code@
                    ==> exists|k: int| 0 <= k < out@.len() && fir_eq(out@[k], self.firs@[j]),
            decreases n - i,
        {
            let ghost out_pre = out@;
            if self.firs[i].icao.eq(code) {
                let d = self.firs[i].duplicate();
                out.push(d);
            }
            proof {
                assert forall|j: int| 0 <= j <= i && (#[trigger] self.firs@[j]).icao@ == code@
                    implies exists|k: int| 0 <= k < out@.len()
                        && fir_eq(out@[k], self.firs@[j]) by {
                    if j < i {
                        let k0 = choose|k0: int| 0 <= k0 < out_pre.len()
                            && fir_eq(out_pre[k0], self.firs@[j]);
                        assert(out@[k0] == out_pre[k0]);
                    } else {
                        let w = out@.len() - 1;
                        assert(fir_eq(out@[w], self.firs@[j]));
                    }
                }
            }
            i += 1;
        }
        out
    }

    /// Attach a radar controller to every region matching its callsign
    /// prefix; other regions and all other state stay untouched.
    pub fn set_fir_controller(&mut self, ctrl: Controller)
        requires
            old(self).inv(),
        ensures
            final(self).inv(),
            final(self).spec_airports() == old(self).spec_airports(),
            final(self).spec_compound() == old(self).spec_compound(),
            final(self).spec_firs().len() == old(self).spec_firs().len(),
            forall|i: int| 0 <= i < old(self).spec_firs().len()
                && spec_fir_matches(#[trigger] old(self).spec_firs()[i],
                    spec_callsign_prefix(ctrl.callsign@))
                ==> {
                    let f0 = old(self).spec_firs()[i];
                    let f1 = final(self).spec_firs()[i];
                    f1.icao == f0.icao && f1.name == f0.name && f1.prefix == f0.prefix
                        && f1.boundaries == f0.boundaries
                        && f1.controllers@ =~= f0.controllers@.insert(ctrl.callsign@, ctrl)
                },
            forall|i: int| 0 <= i < old(self).spec_firs().len()
                && !spec_fir_matches(#[trigger] old(self).spec_firs()[i],
                    spec_callsign_prefix(ctrl.callsign@))
                ==> final(self).spec_firs()[i] == old(self).spec_firs()[i],
    {
        let prefix = callsign_prefix(&ctrl.callsign);
        let n: usize = self.firs.len();
        let mut i: usize = 0;
        while i < n
            invariant
                self.airports == old(self).airports,
                self.compound == old(self).compound,
                old(self).inv(),
                i <= n,
                n == self.firs@.len(),
                n == old(self).firs@.len(),
                prefix@ == spec_callsign_prefix(ctrl.callsign@),
                forall|j: int| 0 <= j < self.firs@.len() ==> (#[trigger] self.firs@[j]).inv(),
                forall|j: int| i <= j < n ==> self.firs@[j] == old(self).firs@[j],
                forall|j: int| 0 <= j < i
                    && spec_fir_matches(#[trigger] old(self).firs@[j], prefix@)
                    ==> {
                        let f0 = old(self).firs@[j];
                        let f1 = self.firs@[j];
                        f1.icao == f0.icao && f1.name == f0.name && f1.prefix == f0.prefix
                            && f1.boundaries == f0.boundaries
                            && f1.controllers@ =~= f0.controllers@.insert(ctrl.callsign@, ctrl)
                    },
                forall|j: int| 0 <= j < i
                    && !spec_fir_matches(#[trigger] old(self).firs@[j], prefix@)
                    ==> self.firs@[j] == old(self).firs@[j],
            decreases n - i,
        {
            let matches: bool = self.firs[i].icao.eq(&prefix) || self.firs[i].prefix.eq(&prefix);
            if matches {
                let ghost pre = self.firs@;
                let mut fir = self.firs.remove(i);
                fir.controllers.insert(ctrl.callsign.clone(), ctrl.duplicate());
                self.firs.insert(i, fir);
                proof {
                    assert(self.firs@ =~= pre.update(i as int, self.firs@[i as int]));
                }
            }
            i += 1;
        }
    }

    /// Detach a radar controller from every region; regions that never
    /// held its callsign are unchanged.
    pub fn reset_fir_controller(&mut self, ctrl: &Controller)
        requires
            old(self).inv(),
        ensures
            final(self).inv(),
            final(self).spec_airports() == old(self).spec_airports(),
            final(self).spec_compound() == old(self).spec_compound(),
            final(self).spec_firs().len() == old(self).spec_firs().len(),
            forall|i: int| 0 <= i < old(self).spec_firs().len() ==> {
                let f0 = #[trigger] old(self).spec_firs()[i];
                let f1 = final(self).spec_firs()[i];
                f1.icao == f0.icao && f1.name == f0.name && f1.prefix == f0.prefix
                    && f1.boundaries == f0.boundaries
                    && f1.controllers@ =~= f0.controllers@.remove(ctrl.callsign@)
            },
    {
        let n: usize = self.firs.len();
        let mut i: usize = 0;
        while i < n
            invariant
                self.airports == old(self).airports,
                self.compound == old(self).compound,
                old(self).inv(),
                i <= n,
                n == self.firs@.len(),
                n == old(self).firs@.len(),
                forall|j: int| 0 <= j < self.firs@.len() ==> (#[trigger] self.firs@[j]).inv(),
                forall|j: int| i <= j < n ==> self.firs@[j] == old(self).firs@[j],
                forall|j: int| 0 <= j < i ==> {
                    let f0 = #[trigger] old(self).firs@[j];
                    let f1 = self.firs@[j];
                    f1.icao == f0.icao && f1.name == f0.name && f1.prefix == f0.prefix
                        && f1.boundaries == f0.boundaries
                        && f1.controllers@ =~= f0.controllers@.remove(ctrl.callsign@)
                },
            decreases n - i,
        {
            let ghost pre = self.firs@;
            let mut fir = self.firs.remove(i);
            fir.controllers.remove(&ctrl.callsign);
            self.firs.insert(i, fir);
            proof {
                assert(self.firs@ =~= pre.update(i as int, self.firs@[i as int]));
            }
            i += 1;
        }
    }

    /// Attach a controller to the airport its callsign prefix names, in the
    /// slot of its facility.  The result carries the airport identifier
    /// when the controller is an ATIS station, whose arrival: the caller
    /// must then re-derive the active runways from the new ATIS text.
    pub fn set_airport_controller(&mut self, ctrl: Controller) -> (r: Option<String>)
        requires
            old(self).inv(),
            !(ctrl.facility is Radar),
            !(ctrl.facility is Reject),
        ensures
            final(self).inv(),
            final(self).spec_compound() == old(self).spec_compound(),
            final(self).spec_firs() == old(self).spec_firs(),
            match old(self).spec_find_airport(spec_callsign_prefix(ctrl.callsign@)) {
                Option::Some(a0) => {
                    let icao = a0.icao@;
                    &&& final(self).spec_airports().dom() =~= old(self).spec_airports().dom()
                    &&& forall|k: Seq<char>| #[trigger] old(self).spec_airports().contains_key(k)
                        && k != icao
                        ==> final(self).spec_airports()[k] == old(self).spec_airports()[k]
                    &&& {
                        let b0 = old(self).spec_airports()[icao];
                        let b1 = final(self).spec_airports()[icao];
                        &&& b1.icao@ == b0.icao@ && b1.iata@ == b0.iata@ && b1.name@ == b0.name@
                        &&& b1.position == b0.position && b1.fir_id@ == b0.fir_id@
                        &&& b1.is_pseudo == b0.is_pseudo
                        &&& b1.controllers == with_slot(b0.controllers, ctrl.facility, Some(ctrl))
                        &&& b1.runways@ =~= b0.runways@
                    }
                    &&& (ctrl.facility is ATIS <==> r is Some)
                    &&& (r matches Some(s) ==> s@ == icao)
                },
                Option::None => final(self).spec_airports() == old(self).spec_airports()
                    && r is None,
            },
    {
        let prefix = callsign_prefix(&ctrl.callsign);
        let icao: String = match self.airports.get(&prefix) {
            Option::Some(_) => prefix.clone(),
            Option::None => match self.compound.get(&prefix) {
                Option::Some(t) => t.clone(),
                Option::None => {
                    return None;
                },
            },
        };
        let is_atis: bool = matches!(ctrl.facility, Facility::ATIS);
        match self.airports.get(&icao) {
            Option::Some(found) => {
                let mut a = found.duplicate();
                let slot: Option<Controller> = Some(ctrl.duplicate());
                match ctrl.facility {
                    Facility::ATIS => {
                        a.controllers.atis = slot;
                    },
                    Facility::Delivery => {
                        a.controllers.delivery = slot;
                    },
                    Facility::Ground => {
                        a.controllers.ground = slot;
                    },
                    Facility::Tower => {
                        a.controllers.tower = slot;
                    },
                    Facility::Approach => {
                        a.controllers.approach = slot;
                    },
                    _ => {},
                }
                let key = a.icao.clone();
                self.airports.insert(key, a);
                proof {
                    assert(final(self).spec_airports().dom()
                        =~= old(self).spec_airports().dom());
                }
                if is_atis {
                    Some(icao)
                } else {
                    None
                }
            },
            Option::None => None,
        }
    }

    /// Detach a controller from the airport its callsign prefix names,
    /// clearing the slot of the stored record's facility; clearing an ATIS
    /// station also clears every runway activation of that airport.
    pub fn reset_airport_controller(&mut self, ctrl: &Controller)
        requires
            old(self).inv(),
        ensures
            final(self).inv(),
            final(self).spec_compound() == old(self).spec_compound(),
            final(self).spec_firs() == old(self).spec_firs(),
            match old(self).spec_find_airport(spec_callsign_prefix(ctrl.callsign@)) {
                Option::Some(a0) => {
                    let icao = a0.icao@;
                    &&& final(self).spec_airports().dom() =~= old(self).spec_airports().dom()
                    &&& forall|k: Seq<char>| #[trigger] old(self).spec_airports().contains_key(k)
                        && k != icao
                        ==> final(self).spec_airports()[k] == old(self).spec_airports()[k]
                    &&& {
                        let b0 = old(self).spec_airports()[icao];
                        let b1 = final(self).spec_airports()[icao];
                        &&& b1.icao@ == b0.icao@ && b1.position == b0.position
                        &&& b1.controllers == with_slot(
                            b0.controllers,
                            ctrl.facility,
                            None::<Controller>,
                        )
                        &&& (!(ctrl.facility is ATIS) ==> b1.runways@ =~= b0.runways@)
                        &&& (ctrl.facility is ATIS ==> {
                            &&& forall|k: Seq<char>| b1.runways@.contains_key(k)
                                == b0.runways@.contains_key(k)
                            &&& forall|k: Seq<char>| #[trigger] b1.runways@.contains_key(k)
                                ==> b1.runways@[k] == (Runway {
                                    active_lnd: false,
                                    active_to: false,
                                    ..b0.runways@[k]
                                })
                        })
                    }
                },
                Option::None => final(self).spec_airports() == old(self).spec_airports(),
            },
    {
        let prefix = callsign_prefix(&ctrl.callsign);
        let icao: String = match self.airports.get(&prefix) {
            Option::Some(_) => prefix.clone(),
            Option::None => match self.compound.get(&prefix) {
                Option::Some(t) => t.clone(),
                Option::None => {
                    return;
                },
            },
        };
        let is_atis: bool = matches!(ctrl.facility, Facility::ATIS);
        match self.airports.get(&icao) {
            Option::Some(found) => {
                let mut a = found.duplicate();
                match ctrl.facility {
                    Facility::ATIS => {
                        a.controllers.atis = None;
                    },
                    Facility::Delivery => {
                        a.controllers.delivery = None;
                    },
                    Facility::Ground => {
                        a.controllers.ground = None;
                    },
                    Facility::Tower => {
                        a.controllers.tower = None;
                    },
                    Facility::Approach => {
                        a.controllers.approach = None;
                    },
                    _ => {},
                }
                if is_atis {
                    a.reset_active_runways();
                }
                let key = a.icao.clone();
                self.airports.insert(key, a);
                proof {
                    assert(final(self).spec_airports().dom()
                        =~= old(self).spec_airports().dom());
                }
            },
            Option::None => {},
        }
    }

    /// Re-derive the active runways of one airport from ATIS-extracted
    /// arrival and departure identifier lists.
    pub fn apply_active_runways(
        &mut self,
        icao: &String,
        arrivals: &Vec<String>,
        departures: &Vec<String>,
    )
        requires
            old(self).inv(),
        ensures
            final(self).inv(),
            final(self).spec_compound() == old(self).spec_compound(),
            final(self).spec_firs() == old(self).spec_firs(),
            final(self).spec_airports().dom() =~= old(self).spec_airports().dom(),
            forall|k: Seq<char>| #[trigger] old(self).spec_airports().contains_key(k)
                && k != icao@
                ==> final(self).spec_airports()[k] == old(self).spec_airports()[k],
            old(self).spec_airports().contains_key(icao@) ==> {
                let b0 = old(self).spec_airports()[icao@];
                let b1 = final(self).spec_airports()[icao@];
                &&& b1.icao@ == b0.icao@ && b1.position == b0.position
                &&& b1.controllers == b0.controllers
                &&& forall|k: Seq<char>| b1.runways@.contains_key(k)
                    == b0.runways@.contains_key(k)
                &&& forall|k: Seq<char>| #[trigger] b1.runways@.contains_key(k)
                    ==> b1.runways@[k] == (Runway {
                        active_lnd: arrivals@.map_values(|s: String| s@).contains(k),
                        active_to: departures@.map_values(|s: String| s@).contains(k),
                        ..b0.runways@[k]
                    })
            },
    {
        match self.airports.get(icao) {
            Option::Some(found) => {
                let mut a = found.duplicate();
                let ghost apre = a;
                a.set_active_runways(arrivals, departures);
                let ghost afin = a;
                let key = a.icao.clone();
                self.airports.insert(key, a);
                proof {
                    let b0 = old(self).spec_airports()[icao@];
                    assert(apre.runways@ == b0.runways@);
                    assert(self.airports@[icao@] == afin);
                    assert(afin.controllers == b0.controllers);
                    assert(final(self).spec_airports().dom()
                        =~= old(self).spec_airports().dom());
                }
            },
            Option::None => {},
        }
    }
}


/// Deep airport equality is transitive; the session state rests on it
/// when a stored copy stands in for the live record.
pub proof fn lemma_airport_eq_trans(a: Airport, b: Airport, c: Airport)
    requires
        airport_eq(a, b),
        airport_eq(b, c),
    ensures
        airport_eq(a, c),
{
    assert forall|k: Seq<char>| #[trigger] a.runways@.contains_key(k)
        implies c.runways@.contains_key(k) && runway_eq(a.runways@[k], c.runways@[k]) by {
        assert(b.runways@.contains_key(k));
    }
    assert forall|k: Seq<char>| #[trigger] c.runways@.contains_key(k)
        implies a.runways@.contains_key(k) by {
        assert(b.runways@.contains_key(k));
    }
}

/// Deep airport equality is symmetric.
pub proof fn lemma_airport_eq_sym(a: Airport, b: Airport)
    requires
        airport_eq(a, b),
    ensures
        airport_eq(b, a),
{
    assert forall|k: Seq<char>| #[trigger] b.runways@.contains_key(k)
        implies a.runways@.contains_key(k) && runway_eq(b.runways@[k], a.runways@[k]) by {
        assert(a.runways@.contains_key(k));
    }
}

/// Deep region equality is symmetric.
pub proof fn lemma_fir_eq_sym(a: FIR, b: FIR)
    requires
        fir_eq(a, b),
    ensures
        fir_eq(b, a),
{
    assert forall|k: Seq<char>| #[trigger] b.controllers@.contains_key(k)
        implies a.controllers@.contains_key(k)
            && crate::moving::controller_eq(b.controllers@[k], a.controllers@[k]) by {
        assert(a.controllers@.contains_key(k));
    }
}

/// Deep region equality is transitive, for the same reason.
pub proof fn lemma_fir_eq_trans(a: FIR, b: FIR, c: FIR)
    requires
        fir_eq(a, b),
        fir_eq(b, c),
    ensures
        fir_eq(a, c),
{
    assert forall|k: Seq<char>| #[trigger] a.controllers@.contains_key(k)
        implies c.controllers@.contains_key(k)
            && crate::moving::controller_eq(a.controllers@[k], c.controllers@[k]) by {
        assert(b.controllers@.contains_key(k));
    }
    assert forall|k: Seq<char>| #[trigger] c.controllers@.contains_key(k)
        implies a.controllers@.contains_key(k) by {
        assert(b.controllers@.contains_key(k));
    }
}

} // verus!
