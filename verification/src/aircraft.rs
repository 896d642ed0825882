//! The aircraft-type table: static reference records looked up from
//! flight-plan aircraft text by longest prefix.

use vstd::prelude::*;
use crate::strmap::StrMap;

verus! {

/// How an aircraft is propelled.
#[derive(Debug, Clone, Copy, PartialEq, Eq, Structural)]
pub enum EngineType {
    Electric,
    Jet,
    Piston,
    Rocket,
    Turboprop,
}

/// The broad airframe category.
#[derive(Debug, Clone, Copy, PartialEq, Eq, Structural)]
pub enum AircraftType {
    Amphibian,
    Gyrocopter,
    Helicopter,
    LandPlane,
    SeaPlane,
    Tiltrotor,
}

/// One aircraft-type record, keyed by its designator.
#[derive(Debug)]
pub struct Aircraft {
    pub name: String,
    pub description: String,
    pub wtc: String,
    pub wtg: String,
    pub designator: String,
    pub manufacturer_code: String,
    pub aircraft_type: AircraftType,
    pub engine_count: u8,
    pub engine_type: EngineType,
}

/// Deep equality of two aircraft records.
pub open spec fn aircraft_eq(a: Aircraft, b: Aircraft) -> bool {
    &&& a.name@ == b.name@
    &&& a.description@ == b.description@
    &&& a.wtc@ == b.wtc@
    &&& a.wtg@ == b.wtg@
    &&& a.designator@ == b.designator@
    &&& a.manufacturer_code@ == b.manufacturer_code@
    &&& a.aircraft_type == b.aircraft_type
    &&& a.engine_count == b.engine_count
    &&& a.engine_type == b.engine_type
}

impl Aircraft {
    /// A field-by-field copy.
    pub fn duplicate(&self) -> (r: Aircraft)
        ensures
            r == *self,
    {
        Aircraft {
            name: self.name.clone(),
            description: self.description.clone(),
            wtc: self.wtc.clone(),
            wtg: self.wtg.clone(),
            designator: self.designator.clone(),
            manufacturer_code: self.manufacturer_code.clone(),
            aircraft_type: self.aircraft_type,
            engine_count: self.engine_count,
            engine_type: self.engine_type,
        }
    }

    /// Deep equality.
    pub fn same_as(&self, other: &Aircraft) -> (r: bool)
        ensures
            r == aircraft_eq(*self, *other),
    {
        self.name.eq(&other.name)
            && self.description.eq(&other.description)
            && self.wtc.eq(&other.wtc)
            && self.wtg.eq(&other.wtg)
            && self.designator.eq(&other.designator)
            && self.manufacturer_code.eq(&other.manufacturer_code)
            && self.aircraft_type == other.aircraft_type
            && self.engine_count == other.engine_count
            && self.engine_type == other.engine_type
    }
}

/// First position of a designator in a model list, or -1.
pub open spec fn designator_index(ms: Seq<Aircraft>, d: Seq<char>) -> int
    decreases ms.len(),
{
    if ms.len() == 0 {
        -1
    } else if ms[0].designator@ == d {
        0
    } else {
        let r = designator_index(ms.drop_first(), d);
        if r == -1 {
            -1
        } else {
            r + 1
        }
    }
}

proof fn lemma_designator_index(ms: Seq<Aircraft>, d: Seq<char>)
    ensures
        designator_index(ms, d) == -1 ==> forall|i: int| 0 <= i < ms.len()
            ==> ms[i].designator@ != d,
        designator_index(ms, d) != -1 ==> 0 <= designator_index(ms, d) < ms.len()
            && ms[designator_index(ms, d)].designator@ == d,
    decreases ms.len(),
{
    if ms.len() == 0 {
    } else if ms[0].designator@ == d {
    } else {
        lemma_designator_index(ms.drop_first(), d);
        let sub = designator_index(ms.drop_first(), d);
        if sub == -1 {
            assert forall|i: int| 0 <= i < ms.len() implies ms[i].designator@ != d by {
                if i > 0 {
                    assert(ms.drop_first()[i - 1] == ms[i]);
                }
            }
        } else {
            assert(ms.drop_first()[sub] == ms[sub + 1]);
        }
    }
}

proof fn lemma_designator_index_first_hit(ms: Seq<Aircraft>, d: Seq<char>, i: int)
    requires
        0 <= i < ms.len(),
        ms[i].designator@ == d,
        forall|j: int| 0 <= j < i ==> ms[j].designator@ != d,
    ensures
        designator_index(ms, d) == i,
    decreases ms.len(),
{
    if i > 0 {
        assert(ms.drop_first()[i - 1] == ms[i]);
        assert forall|j: int| 0 <= j < i - 1 implies ms.drop_first()[j].designator@ != d by {
            assert(ms.drop_first()[j] == ms[j + 1]);
        }
        lemma_designator_index_first_hit(ms.drop_first(), d, i - 1);
    }
}

/// Of several records sharing one designator, the table keeps the first; no
/// ranking heuristic is applied.
pub fn pick_best_at(options: &Vec<Aircraft>) -> (r: Aircraft)
    requires
        options@.len() > 0,
    ensures
        r == options@[0],
{
    options[0].duplicate()
}

/// The static aircraft table: designator to record, first record winning.
pub struct AircraftDb {
    map: StrMap<Aircraft>,
}

impl AircraftDb {
    /// Well-formedness of the underlying map.
    pub closed spec fn inv(self) -> bool {
        self.map.inv()
    }

    /// The table contents.
    pub closed spec fn view(self) -> Map<Seq<char>, Aircraft> {
        self.map@
    }

    /// Build the table from a model list: each designator maps to the first
    /// record of the list carrying it.
    pub fn from_models(models: Vec<Aircraft>) -> (r: AircraftDb)
        ensures
            r.inv(),
            forall|d: Seq<char>| r@.contains_key(d) <==> designator_index(models@, d) != -1,
            forall|d: Seq<char>| #[trigger] r@.contains_key(d)
                ==> r@[d] == models@[designator_index(models@, d)],
    {
        let n: usize = models.len();
        let mut map: StrMap<Aircraft> = StrMap::new();
        let mut i: usize = 0;
        while i < n
            invariant
                map.inv(),
                i <= n,
                n == models@.len(),
                forall|d: Seq<char>| #[trigger] map@.contains_key(d) ==> {
                    let fi = designator_index(models@, d);
                    0 <= fi < i && map@[d] == models@[fi]
                },
                forall|j: int| 0 <= j < i
                    ==> map@.contains_key(#[trigger] models@[j].designator@),
            decreases n - i,
        {
            let m = &models[i];
            if !map.contains_key(&m.designator) {
                let ghost d = m.designator@;
                proof {
                    assert forall|j: int| 0 <= j < i implies models@[j].designator@ != d by {
                        if models@[j].designator@ == d {
                            assert(map@.contains_key(models@[j].designator@));
                        }
                    }
                    lemma_designator_index_first_hit(models@, d, i as int);
                }
                map.insert(m.designator.clone(), m.duplicate());
            }
            i += 1;
        }
        proof {
            assert forall|d: Seq<char>| map@.contains_key(d)
                    == (designator_index(models@, d) != -1) by {
                lemma_designator_index(models@, d);
                if designator_index(models@, d) != -1 {
                    let fi = designator_index(models@, d);
                    assert(map@.contains_key(models@[fi].designator@));
                }
            }
        }
        AircraftDb { map }
    }

    /// Number of designators in the table.
    pub closed spec fn spec_len(self) -> nat {
        self.map.spec_len()
    }

    /// Number of designators in the table.
    pub fn len(&self) -> (r: usize)
        requires
            self.inv(),
        ensures
            r == self.spec_len(),
    {
        self.map.len()
    }
}

/// The longest-prefix match: try the first `l` characters, then shorter
/// prefixes, until the table holds one.
pub open spec fn spec_guess(m: Map<Seq<char>, Aircraft>, code: Seq<char>, l: nat) -> Option<Aircraft>
    decreases l,
{
    if l == 0 {
        None
    } else if l <= code.len() && m.contains_key(code.subrange(0, l as int)) {
        Some(m[code.subrange(0, l as int)])
    } else {
        spec_guess(m, code, (l - 1) as nat)
    }
}

/// Longest-prefix lookup of aircraft text, probing prefixes of length
/// `min(|code|, 4)` down to 1, with the probe count returned: for text of
/// length L it makes at most `min(L, 4)` table probes.
pub fn guess_aircraft_types_probed(db: &AircraftDb, code: &str) -> (r: (Option<Aircraft>, u64))
    requires
        db.inv(),
    ensures
        r.0 == spec_guess(db@, code@, vstd::math::min(code@.len() as int, 4) as nat),
        r.1 <= vstd::math::min(code@.len() as int, 4),
{
    let n: usize = code.unicode_len();
    let start: usize = if n < 4 {
        n
    } else {
        4
    };
    let mut l: usize = start;
    let mut probes: u64 = 0;
    while l > 0
        invariant
            db.inv(),
            l <= start,
            start <= n,
            n == code@.len(),
            start == vstd::math::min(code@.len() as int, 4),
            probes == start - l,
            spec_guess(db@, code@, start as nat) == spec_guess(db@, code@, l as nat),
        decreases l,
    {
        let prefix: String = code.substring_char(0, l).to_owned();
        probes = probes + 1;
        match db.map.get(&prefix) {
            Some(a) => {
                proof {
                    assert(prefix@ == code@.subrange(0, l as int));
                }
                return (Some(a.duplicate()), probes);
            },
            None => {
                proof {
                    assert(prefix@ == code@.subrange(0, l as int));
                }
                l = l - 1;
            },
        }
    }
    (None, probes)
}

/// Longest-prefix lookup of aircraft text against the static table.
pub fn guess_aircraft_types(db: &AircraftDb, code: &str) -> (r: Option<Aircraft>)
    requires
        db.inv(),
    ensures
        r == spec_guess(db@, code@, vstd::math::min(code@.len() as int, 4) as nat),
{
    let (r, _probes) = guess_aircraft_types_probed(db, code);
    r
}

} // verus!
