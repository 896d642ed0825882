//! A map keyed by strings, modelled as `Map<Seq<char>, V>`.
//!
//! Live objects (pilots, controllers, airports) are keyed by callsigns and
//! identifiers, so nearly every aggregate of this crate is such a map.  The
//! representation is a pair of parallel vectors with pairwise-distinct keys,
//! which also gives every map a stable enumeration order for diffing.

use vstd::prelude::*;

verus! {

/// First position of a key (by view) in a key vector, or -1.
pub open spec fn key_index(keys: Seq<String>, k: Seq<char>) -> int
    decreases keys.len(),
{
    if keys.len() == 0 {
        -1
    } else if keys[0]@ == k {
        0
    } else {
        let r = key_index(keys.drop_first(), k);
        if r == -1 {
            -1
        } else {
            r + 1
        }
    }
}

proof fn lemma_key_index(keys: Seq<String>, k: Seq<char>)
    ensures
        key_index(keys, k) == -1 ==> forall|i: int| 0 <= i < keys.len() ==> keys[i]@ != k,
        key_index(keys, k) != -1 ==> 0 <= key_index(keys, k) < keys.len()
            && keys[key_index(keys, k)]@ == k,
    decreases keys.len(),
{
    if keys.len() == 0 {
    } else if keys[0]@ == k {
    } else {
        lemma_key_index(keys.drop_first(), k);
        let sub = key_index(keys.drop_first(), k);
        if sub == -1 {
            assert forall|i: int| 0 <= i < keys.len() implies keys[i]@ != k by {
                if i > 0 {
                    assert(keys.drop_first()[i - 1] == keys[i]);
                }
            }
        } else {
            assert(keys.drop_first()[sub] == keys[sub + 1]);
        }
    }
}

proof fn lemma_key_index_first_hit(keys: Seq<String>, k: Seq<char>, i: int)
    requires
        0 <= i < keys.len(),
        keys[i]@ == k,
        forall|j: int| 0 <= j < i ==> keys[j]@ != k,
    ensures
        key_index(keys, k) == i,
    decreases keys.len(),
{
    if i > 0 {
        assert(keys[0]@ != k);
        assert(keys.drop_first()[i - 1]@ == k);
        assert forall|j: int| 0 <= j < i - 1 implies keys.drop_first()[j]@ != k by {
            assert(keys.drop_first()[j] == keys[j + 1]);
        }
        lemma_key_index_first_hit(keys.drop_first(), k, i - 1);
    }
}

/// With pairwise-distinct keys, `key_index` finds exactly the position that
/// holds the key.
proof fn lemma_key_index_unique(keys: Seq<String>, k: Seq<char>, i: int)
    requires
        forall|a: int, b: int| 0 <= a < b < keys.len() ==> keys[a]@ != keys[b]@,
        0 <= i < keys.len(),
        keys[i]@ == k,
    ensures
        key_index(keys, k) == i,
{
    assert forall|j: int| 0 <= j < i implies keys[j]@ != k by {
        assert(keys[j]@ != keys[i]@);
    }
    lemma_key_index_first_hit(keys, k, i);
}

/// A map from strings to values of type `V`.
#[derive(Debug)]
pub struct StrMap<V> {
    keys: Vec<String>,
    vals: Vec<V>,
}

impl<V> StrMap<V> {
    /// Well-formedness: parallel vectors, keys pairwise distinct by view.
    pub closed spec fn inv(self) -> bool {
        &&& self.keys@.len() == self.vals@.len()
        &&& forall|i: int, j: int|
            0 <= i < j < self.keys@.len() ==> self.keys@[i]@ != self.keys@[j]@
    }

    /// The key views in enumeration order.
    pub closed spec fn spec_keys(self) -> Seq<Seq<char>> {
        self.keys@.map_values(|s: String| s@)
    }

    /// The values in enumeration order.
    pub closed spec fn spec_vals(self) -> Seq<V> {
        self.vals@
    }

    /// Number of entries.
    pub open spec fn spec_len(self) -> nat {
        self.spec_keys().len()
    }

    /// The abstract contents.
    pub closed spec fn view(self) -> Map<Seq<char>, V> {
        Map::new(
            |k: Seq<char>| exists|i: int| 0 <= i < self.keys@.len() && self.keys@[i]@ == k,
            |k: Seq<char>| self.vals@[key_index(self.keys@, k)],
        )
    }

    /// The enumeration carries exactly the abstract contents: entry `i` pairs
    /// `spec_keys()[i]` with `self@[spec_keys()[i]]`, the keys are pairwise
    /// distinct, and every key of the map appears.
    pub proof fn lemma_enumeration(self)
        requires
            self.inv(),
        ensures
            self.spec_vals().len() == self.spec_len(),
            forall|i: int| 0 <= i < self.spec_len()
                ==> self@.contains_key(#[trigger] self.spec_keys()[i]),
            forall|i: int| 0 <= i < self.spec_len()
                ==> self@[#[trigger] self.spec_keys()[i]] == self.spec_vals()[i],
            forall|i: int, j: int| 0 <= i < j < self.spec_len()
                ==> self.spec_keys()[i] != self.spec_keys()[j],
            forall|k: Seq<char>| #[trigger] self@.contains_key(k)
                ==> self.spec_keys().contains(k),
    {
        assert forall|i: int| 0 <= i < self.spec_len()
            implies self@.contains_key(#[trigger] self.spec_keys()[i])
                && self@[self.spec_keys()[i]] == self.spec_vals()[i] by {
            let k = self.spec_keys()[i];
            assert(self.keys@[i]@ == k);
            lemma_key_index_unique(self.keys@, k, i);
        }
        assert forall|k: Seq<char>| #[trigger] self@.contains_key(k)
            implies self.spec_keys().contains(k) by {
            let i = choose|i: int| 0 <= i < self.keys@.len() && self.keys@[i]@ == k;
            assert(self.spec_keys()[i] == k);
        }
    }

    /// An empty map.
    pub fn new() -> (r: Self)
        ensures
            r.inv(),
            r@ =~= Map::<Seq<char>, V>::empty(),
            r.spec_len() == 0,
    {
        StrMap { keys: Vec::new(), vals: Vec::new() }
    }

    /// Number of entries.
    pub fn len(&self) -> (r: usize)
        requires
            self.inv(),
        ensures
            r == self.spec_len(),
    {
        self.keys.len()
    }

    /// Position of a key, or `None` when absent.
    fn find(&self, k: &String) -> (r: Option<usize>)
        requires
            self.inv(),
        ensures
            match r {
                Some(i) => i < self.spec_len() && self.keys@[i as int]@ == k@
                    && self@.contains_key(k@),
                None => !self@.contains_key(k@),
            },
    {
        let n: usize = self.keys.len();
        let mut i: usize = 0;
        while i < n
            invariant
                self.inv(),
                n == self.keys@.len(),
                i <= n,
                forall|j: int| 0 <= j < i ==> self.keys@[j]@ != k@,
            decreases n - i,
        {
            if self.keys[i].eq(k) {
                return Some(i);
            }
            i += 1;
        }
        None
    }

    /// Whether a key is present.
    pub fn contains_key(&self, k: &String) -> (r: bool)
        requires
            self.inv(),
        ensures
            r == self@.contains_key(k@),
    {
        self.find(k).is_some()
    }

    /// Borrow the value under a key.
    pub fn get(&self, k: &String) -> (r: Option<&V>)
        requires
            self.inv(),
        ensures
            match r {
                Some(v) => self@.contains_key(k@) && *v == self@[k@],
                None => !self@.contains_key(k@),
            },
    {
        match self.find(k) {
            Some(i) => {
                proof {
                    lemma_key_index_unique(self.keys@, k@, i as int);
                }
                Some(&self.vals[i])
            },
            None => None,
        }
    }

    /// Insert or overwrite the value under a key.
    pub fn insert(&mut self, k: String, v: V)
        requires
            old(self).inv(),
        ensures
            final(self).inv(),
            final(self)@ =~= old(self)@.insert(k@, v),
            old(self)@.contains_key(k@) ==> final(self).spec_len() == old(self).spec_len(),
            !old(self)@.contains_key(k@)
                ==> final(self).spec_len() == old(self).spec_len() + 1,
    {
        match self.find(&k) {
            Some(i) => {
                self.vals[i] = v;
                proof {
                    let ks = self.keys@;
                    assert(ks == old(self).keys@);
                    lemma_key_index_unique(ks, k@, i as int);
                    assert forall|k2: Seq<char>|
                        #![trigger self@.contains_key(k2)]
                        #![trigger self@[k2]]
                        #![trigger old(self)@.insert(k@, v).contains_key(k2)]
                        true implies
                            (self@.contains_key(k2)
                                == old(self)@.insert(k@, v).contains_key(k2))
                            && (self@.contains_key(k2)
                                ==> self@[k2] == old(self)@.insert(k@, v)[k2]) by {
                        lemma_key_index(ks, k2);
                        if self@.contains_key(k2) && k2 != k@ {
                            let fi = key_index(ks, k2);
                            assert(ks[fi]@ == k2);
                            assert(fi != i as int);
                        }
                    }
                }
            },
            None => {
                let ghost oks = self.keys@;
                let ghost n = oks.len() as int;
                self.keys.push(k);
                self.vals.push(v);
                proof {
                    let ks = self.keys@;
                    assert(ks[n]@ == k@);
                    assert forall|j: int| 0 <= j < n implies oks[j]@ != k@ by {
                        assert(!old(self)@.contains_key(k@));
                    }
                    assert(forall|j: int| 0 <= j < n ==> ks[j] == oks[j]);
                    assert forall|a: int, b: int| 0 <= a < b < ks.len()
                        implies ks[a]@ != ks[b]@ by {}
                    assert forall|k2: Seq<char>|
                        #![trigger self@.contains_key(k2)]
                        #![trigger self@[k2]]
                        #![trigger old(self)@.insert(k@, v).contains_key(k2)]
                        true implies
                            (self@.contains_key(k2)
                                == old(self)@.insert(k@, v).contains_key(k2))
                            && (self@.contains_key(k2)
                                ==> self@[k2] == old(self)@.insert(k@, v)[k2]) by {
                        if k2 == k@ {
                            lemma_key_index_unique(ks, k2, n);
                            assert(self@.contains_key(k2));
                            assert(self@[k2] == self.vals@[n]);
                        } else {
                            if self@.contains_key(k2) {
                                let i = choose|i: int| 0 <= i < ks.len() && ks[i]@ == k2;
                                assert(i != n);
                                assert(oks[i]@ == k2);
                                lemma_key_index_unique(ks, k2, i);
                                lemma_key_index_unique(oks, k2, i);
                                assert(old(self)@.contains_key(k2));
                                assert(self@[k2] == old(self)@[k2]);
                            } else if old(self)@.contains_key(k2) {
                                let i = choose|i: int| 0 <= i < oks.len() && oks[i]@ == k2;
                                assert(ks[i]@ == k2);
                                assert(self@.contains_key(k2));
                            }
                        }
                    }
                }
            },
        }
    }

    /// Remove a key, returning its value when it was present.
    pub fn remove(&mut self, k: &String) -> (r: Option<V>)
        requires
            old(self).inv(),
        ensures
            final(self).inv(),
            final(self)@ =~= old(self)@.remove(k@),
            match r {
                Some(v) => old(self)@.contains_key(k@) && v == old(self)@[k@]
                    && final(self).spec_len() == old(self).spec_len() - 1,
                None => !old(self)@.contains_key(k@)
                    && final(self).spec_len() == old(self).spec_len(),
            },
    {
        match self.find(k) {
            Some(i) => {
                let ghost oks = self.keys@;
                let ghost ovals = self.vals@;
                let ghost m = oks.len() as int;
                proof {
                    lemma_key_index_unique(oks, k@, i as int);
                }
                let _removed_key = self.keys.swap_remove(i);
                let removed_val = self.vals.swap_remove(i);
                proof {
                    let ks = self.keys@;
                    let nvals = self.vals@;
                    // each new entry j comes from old entry map_idx(j)
                    let map_idx = |j: int| if j == i as int { m - 1 } else { j };
                    assert forall|j: int| 0 <= j < m - 1 implies
                        ks[j] == oks[map_idx(j)] && nvals[j] == ovals[map_idx(j)] by {}
                    assert forall|a: int, b: int| 0 <= a < b < ks.len()
                        implies ks[a]@ != ks[b]@ by {
                        assert(ks[a] == oks[map_idx(a)] && ks[b] == oks[map_idx(b)]);
                        assert(map_idx(a) != map_idx(b));
                    }
                    assert(self.inv());
                    assert forall|k2: Seq<char>|
                        #![trigger self@.contains_key(k2)]
                        #![trigger self@[k2]]
                        #![trigger old(self)@.remove(k@).contains_key(k2)]
                        true implies
                            (self@.contains_key(k2)
                                == old(self)@.remove(k@).contains_key(k2))
                            && (self@.contains_key(k2)
                                ==> self@[k2] == old(self)@.remove(k@)[k2]) by {
                        if self@.contains_key(k2) {
                            let j = choose|j: int| 0 <= j < ks.len() && ks[j]@ == k2;
                            let o = map_idx(j);
                            assert(oks[o]@ == k2);
                            assert(o != i as int);
                            assert(k2 != k@);
                            lemma_key_index_unique(ks, k2, j);
                            lemma_key_index_unique(oks, k2, o);
                            assert(old(self)@.contains_key(k2));
                            assert(self@[k2] == nvals[j] && old(self)@[k2] == ovals[o]);
                        } else if old(self)@.contains_key(k2) && k2 != k@ {
                            let o = choose|o: int| 0 <= o < oks.len() && oks[o]@ == k2;
                            assert(o != i as int);
                            let j = if o == m - 1 { i as int } else { o };
                            if o == m - 1 {
                                // the last old entry moved into position i unless
                                // the removed entry was itself the last
                                assert(i as int != m - 1);
                                assert(ks[j] == oks[m - 1]);
                            } else {
                                assert(ks[j] == oks[o]);
                            }
                            assert(ks[j]@ == k2);
                            assert(self@.contains_key(k2));
                        }
                    }
                }
                Some(removed_val)
            },
            None => {
                proof {
                    assert(self@ =~= old(self)@.remove(k@));
                }
                None
            },
        }
    }

    /// Borrow entry `i` of the enumeration.
    pub fn entry_at(&self, i: usize) -> (r: (&String, &V))
        requires
            self.inv(),
            i < self.spec_len(),
        ensures
            r.0@ == self.spec_keys()[i as int],
            *r.1 == self.spec_vals()[i as int],
            self@.contains_key(r.0@),
            self@[r.0@] == *r.1,
    {
        proof {
            self.lemma_enumeration();
        }
        (&self.keys[i], &self.vals[i])
    }

    /// The keys as a fresh vector, in enumeration order.
    pub fn key_list(&self) -> (r: Vec<String>)
        requires
            self.inv(),
        ensures
            r@.map_values(|s: String| s@) =~= self.spec_keys(),
    {
        let n: usize = self.keys.len();
        let mut out: Vec<String> = Vec::new();
        let mut i: usize = 0;
        while i < n
            invariant
                self.inv(),
                n == self.keys@.len(),
                i <= n,
                out@.len() == i as int,
                forall|j: int| 0 <= j < i ==> out@[j]@ == self.spec_keys()[j],
            decreases n - i,
        {
            out.push(self.keys[i].clone());
            i += 1;
        }
        proof {
            assert(out@.map_values(|s: String| s@) =~= self.spec_keys());
        }
        out
    }
}

} // verus!
