//! Small utilities: an occurrence counter and the timestamp parser.

use vstd::prelude::*;
use crate::strmap::StrMap;

verus! {

/// Saturating increment, the step `Counter::inc` takes.
pub open spec fn spec_inc1(c: u64) -> u64 {
    if c == u64::MAX {
        c
    } else {
        (c + 1) as u64
    }
}

/// Counts occurrences of string keys (country codes and identifiers).
#[derive(Debug)]
pub struct Counter {
    inner: StrMap<u64>,
}

impl Counter {
    /// Well-formedness of the underlying map.
    pub closed spec fn inv(self) -> bool {
        self.inner.inv()
    }

    /// The abstract contents: each key maps to its count.
    pub closed spec fn view(self) -> Map<Seq<char>, u64> {
        self.inner@
    }

    /// An empty counter.
    pub fn new() -> (r: Self)
        ensures
            r.inv(),
            r@ =~= Map::<Seq<char>, u64>::empty(),
            r.spec_len() == 0,
    {
        Counter { inner: StrMap::new() }
    }

    /// Number of distinct keys seen.
    pub fn len(&self) -> (r: usize)
        requires
            self.inv(),
        ensures
            r == self.spec_len(),
    {
        self.inner.len()
    }

    /// Number of distinct keys seen.
    pub closed spec fn spec_len(self) -> nat {
        self.inner.spec_len()
    }

    /// Count one more occurrence of a key (saturating at the type limit).
    pub fn inc(&mut self, key: &String)
        requires
            old(self).inv(),
        ensures
            final(self).inv(),
            final(self)@ =~= old(self)@.insert(
                key@,
                if old(self)@.contains_key(key@) {
                    spec_inc1(old(self)@[key@])
                } else {
                    1u64
                },
            ),
            final(self).spec_len() == old(self).spec_len()
                + (if old(self)@.contains_key(key@) {
                    0int
                } else {
                    1int
                }),
    {
        let next: u64 = match self.inner.get(key) {
            Option::Some(c) => {
                if *c == u64::MAX {
                    *c
                } else {
                    *c + 1
                }
            },
            Option::None => 1,
        };
        self.inner.insert(key.clone(), next);
    }

    /// The stored count of a key; zero when the key was never seen.
    pub fn get(&self, key: &String) -> (r: u64)
        requires
            self.inv(),
        ensures
            self@.contains_key(key@) ==> r == self@[key@],
            !self@.contains_key(key@) ==> r == 0,
    {
        match self.inner.get(key) {
            Option::Some(c) => *c,
            Option::None => 0,
        }
    }

    /// The distinct keys, in first-seen order.
    pub fn keys(&self) -> (r: Vec<String>)
        requires
            self.inv(),
        ensures
            r@.len() == self.spec_len(),
            forall|j: int| 0 <= j < r@.len() ==> self@.contains_key((#[trigger] r@[j])@),
            forall|k: Seq<char>| #[trigger] self@.contains_key(k)
                ==> exists|j: int| 0 <= j < r@.len() && r@[j]@ == k,
            forall|j: int, l: int| 0 <= j < l < r@.len() ==> r@[j]@ != r@[l]@,
    {
        proof {
            self.inner.lemma_enumeration();
        }
        let r = self.inner.key_list();
        proof {
            assert forall|j: int| 0 <= j < r@.len()
                implies self@.contains_key((#[trigger] r@[j])@) by {
                assert(r@.map_values(|s: String| s@)[j] == r@[j]@);
                assert(self.inner.spec_keys()[j] == r@[j]@);
            }
            assert forall|k: Seq<char>| #[trigger] self@.contains_key(k)
                implies exists|j: int| 0 <= j < r@.len() && r@[j]@ == k by {
                assert(self.inner.spec_keys().contains(k));
                let j = choose|j: int| 0 <= j < self.inner.spec_keys().len()
                    && self.inner.spec_keys()[j] == k;
                assert(r@.map_values(|s: String| s@)[j] == k);
                assert(r@[j]@ == k);
            }
            assert forall|j: int, l: int| 0 <= j < l < r@.len()
                implies r@[j]@ != r@[l]@ by {
                assert(r@.map_values(|s: String| s@)[j] == r@[j]@);
                assert(r@.map_values(|s: String| s@)[l] == r@[l]@);
                assert(self.inner.spec_keys()[j] != self.inner.spec_keys()[l]);
            }
        }
        r
    }
}

/// The number of seconds since the epoch that an RFC-3339 timestamp denotes,
/// or nothing when the text is not a valid timestamp.  The value depends on
/// the text alone; the parser behind `parse_rfc3339` fixes it.
pub uninterp spec fn rfc3339_secs(s: Seq<char>) -> Option<i64>;

/// Relies on chrono's `DateTime::parse_from_rfc3339`: parsing an RFC-3339
/// timestamp is a pure function of the text, named `rfc3339_secs`.
#[verifier::external_body]
pub fn parse_rfc3339(s: &String) -> (r: Option<i64>)
    ensures
        r == rfc3339_secs(s@),
{
    match chrono::DateTime::parse_from_rfc3339(s) {
        Ok(dt) => Some(dt.timestamp()),
        Err(_) => None,
    }
}

/// An RFC-3339 timestamp parsed with a fallback: the fallback stands in for
/// text that does not parse.
pub open spec fn spec_time_or(s: Seq<char>, fallback: i64) -> i64 {
    match rfc3339_secs(s) {
        Some(t) => t,
        None => fallback,
    }
}

/// Parse an upstream timestamp, substituting `fallback` (the current instant,
/// at the call sites) when the text does not parse.
pub fn parse_time_or(s: &String, fallback: i64) -> (r: i64)
    ensures
        r == spec_time_or(s@, fallback),
{
    match parse_rfc3339(s) {
        Some(t) => t,
        None => fallback,
    }
}

} // verus!
