//! Spatial indices over the live and static objects.
//!
//! The R-trees themselves come from the rstar crate and sit behind trusted
//! wrappers whose contracts speak of the multiset of stored entries.  The
//! structures around them — the pilot store with its three mutually
//! consistent views, and the rectangle index for regions and shapes — are
//! verified against those contracts.

use vstd::prelude::*;
use vstd::multiset::Multiset;
use crate::moving::Pilot;
use crate::strmap::StrMap;
use crate::types::{Envelope, Point, Rect, env_contains, env_intersects};

verus! {

broadcast use vstd::multiset::group_multiset_axioms;

/// One point entry of a spatial index: an identifier at a position.
/// Two point objects with one identifier count as the same entry, whatever
/// their positions; the store relies on that when it removes a pilot.
#[derive(Debug)]
pub struct PointObject {
    pub id: String,
    pub point: Point,
}

impl PointObject {
    /// The entry for one pilot: its callsign at its position.
    pub fn from_pilot(p: &Pilot) -> (r: PointObject)
        ensures
            r.id@ == p.callsign@,
            r.point == p.position,
    {
        PointObject { id: p.callsign.clone(), point: p.position }
    }
}

/// One rectangle entry of a spatial index: an identifier with a bounding
/// box.
#[derive(Debug)]
pub struct RectObject {
    pub id: String,
    pub rect: Rect,
}

/// What a point tree holds: one entry per stored element, an identifier at
/// a position.
pub uninterp spec fn point_tree_contents(t: PointTree) -> Multiset<(Seq<char>, Point)>;

/// An R-tree of identified points, keyed by (longitude, latitude) in
/// microdegrees.
#[verifier::external_body]
pub struct PointTree {
    tree: rstar::RTree<rstar::primitives::GeomWithData<[i64; 2], String>>,
}

impl PointTree {
    /// Relies on rstar's `RTree::new`: a new tree is empty.
    #[verifier::external_body]
    pub fn new() -> (r: PointTree)
        ensures
            point_tree_contents(r) == Multiset::<(Seq<char>, Point)>::empty(),
    {
        PointTree { tree: rstar::RTree::new() }
    }

    /// Relies on rstar's `RTree::insert`: the element is added, nothing
    /// else changes.  The bound keeps rstar's internal area arithmetic,
    /// which multiplies coordinate differences, away from overflow.
    #[verifier::external_body]
    pub fn insert(&mut self, id: &String, point: Point)
        requires
            crate::types::point_in_range(point),
        ensures
            point_tree_contents(*final(self))
                == point_tree_contents(*old(self)).insert((id@, point)),
    {
        let geom = rstar::primitives::GeomWithData::new([point.lng, point.lat], id.clone());
        self.tree.insert(geom);
    }

    /// Relies on rstar's `RTree::remove`: one element equal to the probe
    /// (same coordinates, same identifier) is removed when present.
    #[verifier::external_body]
    pub fn remove(&mut self, id: &String, point: Point) -> (r: bool)
        ensures
            point_tree_contents(*old(self)).count((id@, point)) > 0 ==> r
                && point_tree_contents(*final(self))
                    == point_tree_contents(*old(self)).remove((id@, point)),
            point_tree_contents(*old(self)).count((id@, point)) == 0 ==> !r
                && point_tree_contents(*final(self)) == point_tree_contents(*old(self)),
    {
        let geom = rstar::primitives::GeomWithData::new([point.lng, point.lat], id.clone());
        self.tree.remove(&geom).is_some()
    }

    /// Relies on rstar's `RTree::locate_in_envelope`: exactly the entries
    /// whose point lies in the box (corners included) come back, in some
    /// order.
    #[verifier::external_body]
    pub fn locate(&self, env: &Envelope) -> (r: Vec<(String, Point)>)
        requires
            env.min_lng <= env.max_lng,
            env.min_lat <= env.max_lat,
        ensures
            r@.map_values(|t: (String, Point)| (t.0@, t.1)).to_multiset()
                == point_tree_contents(*self).filter(
                |e: (Seq<char>, Point)| env_contains(*env, e.1.lng as int, e.1.lat as int),
            ),
    {
        let aabb = rstar::AABB::from_corners(
            [env.min_lng, env.min_lat],
            [env.max_lng, env.max_lat],
        );
        self.tree
            .locate_in_envelope(aabb)
            .map(|g| (g.data.clone(), Point { lng: g.geom()[0], lat: g.geom()[1] }))
            .collect()
    }

}

/// What a rectangle tree holds: one entry per stored element, a numeric
/// identifier with its box.
pub uninterp spec fn rect_tree_contents(t: RectTree) -> Multiset<(int, Envelope)>;

/// An R-tree of identified rectangles, corners in microdegrees.
#[verifier::external_body]
pub struct RectTree {
    tree: rstar::RTree<rstar::primitives::GeomWithData<rstar::primitives::Rectangle<[i64; 2]>, u64>>,
}

impl RectTree {
    /// Relies on rstar's `RTree::new`: a new tree is empty.
    #[verifier::external_body]
    pub fn new() -> (r: RectTree)
        ensures
            rect_tree_contents(r) == Multiset::<(int, Envelope)>::empty(),
    {
        RectTree { tree: rstar::RTree::new() }
    }

    /// Relies on rstar's `RTree::insert`: the element is added, nothing
    /// else changes.  The bound keeps rstar's internal area arithmetic,
    /// which multiplies coordinate differences, away from overflow.
    #[verifier::external_body]
    pub fn insert(&mut self, id: u64, env: &Envelope)
        requires
            env.min_lng <= env.max_lng,
            env.min_lat <= env.max_lat,
            -crate::types::LNG_LIMIT <= env.min_lng,
            env.max_lng <= crate::types::LNG_LIMIT,
            -crate::types::LAT_LIMIT <= env.min_lat,
            env.max_lat <= crate::types::LAT_LIMIT,
        ensures
            rect_tree_contents(*final(self))
                == rect_tree_contents(*old(self)).insert((id as int, *env)),
    {
        let rect = rstar::primitives::Rectangle::from_corners(
            [env.min_lng, env.min_lat],
            [env.max_lng, env.max_lat],
        );
        self.tree.insert(rstar::primitives::GeomWithData::new(rect, id));
    }

    /// Relies on rstar's `RTree::locate_in_envelope_intersecting`: exactly
    /// the entries whose box touches the query box (edges included) come
    /// back, in some order.
    #[verifier::external_body]
    pub fn locate_intersecting(&self, env: &Envelope) -> (r: Vec<(u64, Envelope)>)
        requires
            env.min_lng <= env.max_lng,
            env.min_lat <= env.max_lat,
        ensures
            r@.map_values(|t: (u64, Envelope)| (t.0 as int, t.1)).to_multiset()
                == rect_tree_contents(*self).filter(
                |e: (int, Envelope)| env_intersects(
                    *env,
                    e.1.min_lng as int,
                    e.1.min_lat as int,
                    e.1.max_lng as int,
                    e.1.max_lat as int,
                ),
            ),
    {
        let aabb = rstar::AABB::from_corners(
            [env.min_lng, env.min_lat],
            [env.max_lng, env.max_lat],
        );
        self.tree
            .locate_in_envelope_intersecting(aabb)
            .map(|g| (g.data, Envelope {
                min_lng: g.geom().lower()[0], min_lat: g.geom().lower()[1],
                max_lng: g.geom().upper()[0], max_lat: g.geom().upper()[1],
            }))
            .collect()
    }
}



/// The copy of a pilot the store keeps: the position normalized into
/// range (as the data model requires of every position), everything else
/// as given.
pub open spec fn spec_norm_pilot(p: Pilot) -> Pilot {
    Pilot {
        position: Point {
            lat: crate::types::spec_clamp_lat(crate::types::spec_sat_coord(p.position.lat as int)) as i64,
            lng: crate::types::spec_wrap_lng(crate::types::spec_sat_coord(p.position.lng as int)) as i64,
        },
        ..p
    }
}

/// The live-pilot store: the pilot map, the callsign-to-point-object map,
/// and the spatial tree, kept mutually consistent.  The tree cannot be
/// searched by identifier, so the point-object map retains each pilot's
/// exact stored geometry for the removal path; no caller ever sees the
/// three views disagree.
pub struct PilotStore {
    pilots: StrMap<Pilot>,
    po: StrMap<PointObject>,
    tree: PointTree,
}

impl PilotStore {
    /// The three views agree: the pilot map and the point-object map have
    /// the same callsigns, each point object carries its callsign and its
    /// pilot's position, and the tree holds exactly one entry per point
    /// object.
    pub closed spec fn inv(self) -> bool {
        &&& self.pilots.inv()
        &&& self.po.inv()
        &&& self.pilots@.dom() == self.po@.dom()
        &&& forall|cs: Seq<char>| #[trigger] self.pilots@.contains_key(cs)
            ==> self.pilots@[cs].callsign@ == cs
        &&& forall|cs: Seq<char>| #[trigger] self.po@.contains_key(cs)
            ==> self.po@[cs].id@ == cs && self.pilots@.contains_key(cs)
                && self.po@[cs].point == self.pilots@[cs].position
        &&& forall|e: (Seq<char>, Point)| #[trigger] point_tree_contents(self.tree).count(e)
            == (if self.po@.contains_key(e.0) && self.po@[e.0].point == e.1 {
                1nat
            } else {
                0nat
            })
    }

    /// The abstract contents: callsign to pilot.
    pub closed spec fn view(self) -> Map<Seq<char>, Pilot> {
        self.pilots@
    }

    /// The callsign-to-point-object view.
    pub closed spec fn po_map(self) -> Map<Seq<char>, PointObject> {
        self.po@
    }

    /// The entries of the spatial tree.
    pub closed spec fn tree_entries(self) -> Multiset<(Seq<char>, Point)> {
        point_tree_contents(self.tree)
    }

    /// Tri-view consistency: a callsign is in the pilot map exactly when it
    /// is in the point-object map, and exactly when the tree holds an entry
    /// for it — which is then unique and carries the pilot's position.
    pub proof fn lemma_tri_view(self, cs: Seq<char>)
        requires
            self.inv(),
        ensures
            self@.contains_key(cs) <==> self.po_map().contains_key(cs),
            self.po_map().contains_key(cs)
                ==> self.tree_entries().count((cs, self.po_map()[cs].point)) == 1
                    && self.po_map()[cs].point == self@[cs].position,
            forall|pt: Point| #[trigger] self.tree_entries().count((cs, pt)) > 0
                ==> self.po_map().contains_key(cs) && self.po_map()[cs].point == pt,
    {
        assert(self.pilots@.dom() =~= self.po@.dom());
        if self.pilots@.contains_key(cs) {
            assert(self.po@.dom().contains(cs));
        }
        if self.po@.contains_key(cs) {
            assert(self.pilots@.dom().contains(cs));
        }
    }

    /// An empty store.
    pub fn new() -> (r: PilotStore)
        ensures
            r.inv(),
            r@ =~= Map::<Seq<char>, Pilot>::empty(),
    {
        let r = PilotStore { pilots: StrMap::new(), po: StrMap::new(), tree: PointTree::new() };
        proof {
            assert(r.pilots@.dom() =~= r.po@.dom());
        }
        r
    }

    /// Number of live pilots.
    pub closed spec fn spec_len(self) -> nat {
        self.pilots.spec_len()
    }

    /// Number of live pilots.
    pub fn len(&self) -> (r: usize)
        requires
            self.inv(),
        ensures
            r == self.spec_len(),
    {
        self.pilots.len()
    }

    /// Borrow the pilot flying under a callsign.
    pub fn get(&self, callsign: &String) -> (r: Option<&Pilot>)
        requires
            self.inv(),
        ensures
            match r {
                Some(p) => self@.contains_key(callsign@) && *p == self@[callsign@],
                None => !self@.contains_key(callsign@),
            },
    {
        self.pilots.get(callsign)
    }

    /// Remove a pilot from all three views; idempotent, and the mechanism
    /// that makes upserting safe.
    pub fn remove_pilot(&mut self, callsign: &String) -> (r: bool)
        requires
            old(self).inv(),
        ensures
            final(self).inv(),
            final(self)@ =~= old(self)@.remove(callsign@),
            r == old(self)@.contains_key(callsign@),
    {
        let ghost ocs = callsign@;
        proof {
            old(self).lemma_tri_view(ocs);
        }
        match self.po.remove(callsign) {
            Option::Some(pobj) => {
                let ghost e = (ocs, pobj.point);
                proof {
                    assert(point_tree_contents(self.tree).count(e) == 1);
                }
                self.tree.remove(callsign, pobj.point);
                self.pilots.remove(callsign);
                proof {
                    assert(self.pilots@.dom() =~= self.po@.dom());
                    assert forall|e2: (Seq<char>, Point)|
                        #[trigger] point_tree_contents(self.tree).count(e2)
                            == (if self.po@.contains_key(e2.0) && self.po@[e2.0].point == e2.1 {
                                1nat
                            } else {
                                0nat
                            }) by {
                        if e2 == e {
                        } else {
                            assert(point_tree_contents(self.tree).count(e2)
                                == point_tree_contents(old(self).tree).count(e2));
                        }
                    }
                }
                true
            },
            Option::None => {
                proof {
                    assert(self.pilots@ =~= old(self)@.remove(ocs));
                }
                false
            },
        }
    }

    /// Upsert a pilot into all three views: any previous instance under the
    /// same callsign is removed first, so the tree never holds a duplicate.
    /// The stored position is normalized into range, as the data model
    /// requires; an in-range position is stored unchanged.
    pub fn insert_pilot(&mut self, p: Pilot)
        requires
            old(self).inv(),
        ensures
            final(self).inv(),
            final(self)@ =~= old(self)@.insert(p.callsign@, spec_norm_pilot(p)),
    {
        let mut p = p;
        p.position = p.position.normalize();
        let ghost np = p;
        let cs: String = p.callsign.clone();
        self.remove_pilot(&cs);
        let ghost mid = *self;
        let pobj = PointObject::from_pilot(&p);
        proof {
            mid.lemma_tri_view(cs@);
        }
        self.tree.insert(&cs, p.position);
        self.po.insert(cs.clone(), pobj);
        self.pilots.insert(cs, p);
        proof {
            assert(self.pilots@.dom() =~= self.po@.dom());
            assert forall|e2: (Seq<char>, Point)|
                #[trigger] point_tree_contents(self.tree).count(e2)
                    == (if self.po@.contains_key(e2.0) && self.po@[e2.0].point == e2.1 {
                        1nat
                    } else {
                        0nat
                    }) by {
                let e = (np.callsign@, np.position);
                if e2 == e {
                    assert(point_tree_contents(mid.tree).count(e) == 0);
                } else {
                    assert(point_tree_contents(self.tree).count(e2)
                        == point_tree_contents(mid.tree).count(e2));
                }
            }
            assert(self.pilots@ =~= old(self)@.insert(np.callsign@, np));
        }
    }

    /// The pilots whose position lies inside an envelope (corners
    /// included): exactly those, each once.
    pub fn query_env(&self, env: &Envelope) -> (r: Vec<Pilot>)
        requires
            self.inv(),
            env.min_lng <= env.max_lng,
            env.min_lat <= env.max_lat,
        ensures
            forall|i: int| 0 <= i < r@.len()
                ==> self@.contains_key((#[trigger] r@[i]).callsign@)
                    && r@[i] == self@[r@[i].callsign@]
                    && env_contains(*env, r@[i].position.lng as int, r@[i].position.lat as int),
            forall|cs: Seq<char>| #[trigger] self@.contains_key(cs)
                && env_contains(*env, self@[cs].position.lng as int, self@[cs].position.lat as int)
                ==> exists|i: int| 0 <= i < r@.len() && r@[i].callsign@ == cs,
            forall|i: int, j: int| 0 <= i < j < r@.len()
                ==> r@[i].callsign@ != r@[j].callsign@,
    {
        broadcast use vstd::seq_lib::group_to_multiset_ensures;

        let hits: Vec<(String, Point)> = self.tree.locate(env);
        let ghost tuples = hits@.map_values(|t: (String, Point)| (t.0@, t.1));
        let ghost inbox = |e: (Seq<char>, Point)| env_contains(
            *env,
            e.1.lng as int,
            e.1.lat as int,
        );
        proof {
            assert(tuples.to_multiset() == self.tree_entries().filter(inbox));
            assert forall|k: int| 0 <= k < tuples.len() implies
                self.po_map().contains_key((#[trigger] tuples[k]).0)
                    && self.po_map()[tuples[k].0].point == tuples[k].1
                    && inbox(tuples[k]) by {
                assert(tuples.contains(tuples[k]));
                assert(tuples.to_multiset().count(tuples[k]) > 0);
                assert(self.tree_entries().filter(inbox).count(tuples[k])
                    == if inbox(tuples[k]) { self.tree_entries().count(tuples[k]) } else { 0nat });
                self.lemma_tri_view(tuples[k].0);
            }
        }
        let n: usize = hits.len();
        let mut out: Vec<Pilot> = Vec::new();
        let mut i: usize = 0;
        while i < n
            invariant
                self.inv(),
                i <= n,
                n == hits@.len(),
                tuples == hits@.map_values(|t: (String, Point)| (t.0@, t.1)),
                forall|k: int| 0 <= k < tuples.len() ==>
                    self.po_map().contains_key((#[trigger] tuples[k]).0),
                out@.len() == i as int,
                forall|j: int| 0 <= j < i
                    ==> self@.contains_key((#[trigger] tuples[j]).0)
                        && out@[j] == self@[tuples[j].0]
                        && out@[j].callsign@ == tuples[j].0,
            decreases n - i,
        {
            proof {
                self.lemma_tri_view(tuples[i as int].0);
            }
            match self.pilots.get(&hits[i].0) {
                Option::Some(pl) => {
                    out.push(pl.duplicate());
                },
                Option::None => {
                    proof {
                        assert(false);
                    }
                },
            }
            i += 1;
        }
        proof {
            assert forall|i2: int| 0 <= i2 < out@.len()
                implies self@.contains_key((#[trigger] out@[i2]).callsign@)
                    && out@[i2] == self@[out@[i2].callsign@]
                    && env_contains(
                        *env,
                        out@[i2].position.lng as int,
                        out@[i2].position.lat as int,
                    ) by {
                assert(tuples.contains(tuples[i2]));
                assert(tuples.to_multiset().count(tuples[i2]) > 0);
                self.lemma_tri_view(tuples[i2].0);
                assert(inbox(tuples[i2]));
                assert(self@[tuples[i2].0].position == tuples[i2].1);
            }
            assert forall|cs: Seq<char>| #[trigger] self@.contains_key(cs)
                && env_contains(
                    *env,
                    self@[cs].position.lng as int,
                    self@[cs].position.lat as int,
                ) implies exists|i2: int| 0 <= i2 < out@.len() && out@[i2].callsign@ == cs by {
                self.lemma_tri_view(cs);
                let e = (cs, self.po_map()[cs].point);
                assert(self.tree_entries().count(e) == 1);
                assert(inbox(e));
                assert(tuples.to_multiset().count(e) > 0);
                assert(tuples.contains(e));
                let k = choose|k: int| 0 <= k < tuples.len() && tuples[k] == e;
                assert(out@[k].callsign@ == cs);
            }
            assert forall|a: int, b: int| 0 <= a < b < out@.len()
                implies out@[a].callsign@ != out@[b].callsign@ by {
                if out@[a].callsign@ == out@[b].callsign@ {
                    let cs = tuples[a].0;
                    self.lemma_tri_view(cs);
                    assert(tuples.to_multiset().count(tuples[a]) > 0);
                    assert(tuples.contains(tuples[b]));
                    assert(tuples.to_multiset().count(tuples[b]) > 0);
                    assert(tuples[a].1 == self.po_map()[cs].point);
                    assert(tuples[b].1 == self.po_map()[cs].point);
                    let e = tuples[a];
                    assert(tuples[b] == e);
                    let shorter = tuples.remove(a);
                    assert(shorter.to_multiset() == tuples.to_multiset().remove(e));
                    assert(shorter[b - 1] == tuples[b]);
                    assert(shorter.contains(e));
                    assert(shorter.to_multiset().count(e) > 0);
                    assert(tuples.to_multiset().count(e) >= 2);
                    assert(self.tree_entries().count(e) <= 1);
                    assert(self.tree_entries().filter(inbox).count(e) <= 1);
                }
            }
        }
        out
    }

    /// Every live pilot, each once, in map-enumeration order.
    pub fn all_pilots(&self) -> (r: Vec<Pilot>)
        requires
            self.inv(),
        ensures
            forall|i: int| 0 <= i < r@.len()
                ==> self@.contains_key((#[trigger] r@[i]).callsign@)
                    && r@[i] == self@[r@[i].callsign@],
            forall|cs: Seq<char>| #[trigger] self@.contains_key(cs)
                ==> exists|i: int| 0 <= i < r@.len() && r@[i].callsign@ == cs,
            forall|i: int, j: int| 0 <= i < j < r@.len()
                ==> r@[i].callsign@ != r@[j].callsign@,
    {
        proof {
            self.pilots.lemma_enumeration();
        }
        let n: usize = self.pilots.len();
        let mut out: Vec<Pilot> = Vec::new();
        let mut i: usize = 0;
        while i < n
            invariant
                self.inv(),
                i <= n,
                n == self.pilots.spec_len(),
                out@.len() == i as int,
                forall|j: int| 0 <= j < i
                    ==> self@.contains_key(#[trigger] self.pilots.spec_keys()[j])
                        && out@[j] == self@[self.pilots.spec_keys()[j]]
                        && out@[j].callsign@ == self.pilots.spec_keys()[j],
            decreases n - i,
        {
            proof {
                self.pilots.lemma_enumeration();
            }
            let (_k, v) = self.pilots.entry_at(i);
            out.push(v.duplicate());
            i += 1;
        }
        proof {
            self.pilots.lemma_enumeration();
            assert forall|i2: int| 0 <= i2 < out@.len()
                implies self@.contains_key((#[trigger] out@[i2]).callsign@)
                    && out@[i2] == self@[out@[i2].callsign@] by {
                assert(out@[i2].callsign@ == self.pilots.spec_keys()[i2]);
                assert(self@.contains_key(self.pilots.spec_keys()[i2]));
            }
            assert forall|a: int, b: int| 0 <= a < b < out@.len()
                implies out@[a].callsign@ != out@[b].callsign@ by {
                assert(out@[a].callsign@ == self.pilots.spec_keys()[a]);
                assert(out@[b].callsign@ == self.pilots.spec_keys()[b]);
            }
            assert forall|cs: Seq<char>| #[trigger] self@.contains_key(cs)
                implies exists|i2: int| 0 <= i2 < out@.len() && out@[i2].callsign@ == cs by {
                assert(self.pilots.spec_keys().contains(cs));
                let k = choose|k: int| 0 <= k < self.pilots.spec_keys().len()
                    && self.pilots.spec_keys()[k] == cs;
                assert(out@[k].callsign@ == cs);
            }
        }
        out
    }
}

/// An insert-only index of identified boxes: region bounding boxes and
/// country shapes.  Entry `i` of the index is the box pushed `i`-th; the
/// caller keeps whatever record belongs to it at the same position.
pub struct RectIndex {
    tree: RectTree,
    envs: Vec<Envelope>,
}

impl RectIndex {
    /// The tree holds exactly one entry per pushed box, under its position.
    pub closed spec fn inv(self) -> bool {
        &&& forall|e: (int, Envelope)| #[trigger] rect_tree_contents(self.tree).count(e)
            == (if 0 <= e.0 < self.envs@.len() && self.envs@[e.0] == e.1 {
                1nat
            } else {
                0nat
            })
        &&& forall|i: int| 0 <= i < self.envs@.len()
            ==> (#[trigger] self.envs@[i]).min_lng <= self.envs@[i].max_lng
                && self.envs@[i].min_lat <= self.envs@[i].max_lat
    }

    /// The pushed boxes, in order.
    pub closed spec fn view(self) -> Seq<Envelope> {
        self.envs@
    }

    /// An empty index.
    pub fn new() -> (r: RectIndex)
        ensures
            r.inv(),
            r@ =~= Seq::<Envelope>::empty(),
    {
        RectIndex { tree: RectTree::new(), envs: Vec::new() }
    }

    /// Number of boxes.
    pub fn len(&self) -> (r: usize)
        ensures
            r == self@.len(),
    {
        self.envs.len()
    }

    /// Add a box at the next position.
    pub fn push(&mut self, env: Envelope)
        requires
            old(self).inv(),
            env.min_lng <= env.max_lng,
            env.min_lat <= env.max_lat,
            -crate::types::LNG_LIMIT <= env.min_lng,
            env.max_lng <= crate::types::LNG_LIMIT,
            -crate::types::LAT_LIMIT <= env.min_lat,
            env.max_lat <= crate::types::LAT_LIMIT,
        ensures
            final(self).inv(),
            final(self)@ =~= old(self)@.push(env),
    {
        let id: u64 = self.envs.len() as u64;
        self.tree.insert(id, &env);
        self.envs.push(env);
        proof {
            let n = old(self).envs@.len() as int;
            assert forall|e: (int, Envelope)| #[trigger] rect_tree_contents(self.tree).count(e)
                == (if 0 <= e.0 < self.envs@.len() && self.envs@[e.0] == e.1 {
                    1nat
                } else {
                    0nat
                }) by {
                if e == (n, env) {
                    assert(rect_tree_contents(old(self).tree).count(e) == 0);
                } else {
                    assert(rect_tree_contents(self.tree).count(e)
                        == rect_tree_contents(old(self).tree).count(e));
                }
            }
        }
    }

    /// The positions of the boxes that intersect an envelope (edges
    /// included): exactly those, each once.
    pub fn query_intersecting(&self, env: &Envelope) -> (r: Vec<u64>)
        requires
            self.inv(),
            env.min_lng <= env.max_lng,
            env.min_lat <= env.max_lat,
        ensures
            forall|k: int| 0 <= k < r@.len() ==> (#[trigger] r@[k]) < self@.len()
                && env_intersects(
                    *env,
                    self@[r@[k] as int].min_lng as int,
                    self@[r@[k] as int].min_lat as int,
                    self@[r@[k] as int].max_lng as int,
                    self@[r@[k] as int].max_lat as int,
                ),
            forall|i: int| 0 <= i < self@.len() && env_intersects(
                *env,
                (#[trigger] self@[i]).min_lng as int,
                self@[i].min_lat as int,
                self@[i].max_lng as int,
                self@[i].max_lat as int,
            ) ==> exists|k: int| 0 <= k < r@.len() && r@[k] == i,
            forall|k: int, l: int| 0 <= k < l < r@.len() ==> r@[k] != r@[l],
    {
        broadcast use vstd::seq_lib::group_to_multiset_ensures;

        let hits: Vec<(u64, Envelope)> = self.tree.locate_intersecting(env);
        let ghost tuples = hits@.map_values(|t: (u64, Envelope)| (t.0 as int, t.1));
        let ghost touches = |e: (int, Envelope)| env_intersects(
            *env,
            e.1.min_lng as int,
            e.1.min_lat as int,
            e.1.max_lng as int,
            e.1.max_lat as int,
        );
        proof {
            assert(tuples.to_multiset() == rect_tree_contents(self.tree).filter(touches));
            assert forall|k: int| 0 <= k < tuples.len() implies
                0 <= (#[trigger] tuples[k]).0 < self@.len()
                    && self@[tuples[k].0] == tuples[k].1 && touches(tuples[k]) by {
                assert(tuples.contains(tuples[k]));
                assert(tuples.to_multiset().count(tuples[k]) > 0);
            }
        }
        let n: usize = hits.len();
        let mut out: Vec<u64> = Vec::new();
        let mut i: usize = 0;
        while i < n
            invariant
                i <= n,
                n == hits@.len(),
                tuples == hits@.map_values(|t: (u64, Envelope)| (t.0 as int, t.1)),
                out@.len() == i as int,
                forall|j: int| 0 <= j < i ==> out@[j] == (#[trigger] tuples[j]).0,
            decreases n - i,
        {
            out.push(hits[i].0);
            i += 1;
        }
        proof {
            assert forall|k: int| 0 <= k < out@.len() implies (#[trigger] out@[k]) < self@.len()
                && touches((out@[k] as int, self@[out@[k] as int])) by {
                assert(tuples.contains(tuples[k]));
                assert(tuples.to_multiset().count(tuples[k]) > 0);
                assert(self@[tuples[k].0] == tuples[k].1);
            }
            assert forall|i2: int| 0 <= i2 < self@.len() && touches((i2, self@[i2]))
                implies exists|k: int| 0 <= k < out@.len() && out@[k] == i2 by {
                let e = (i2, self@[i2]);
                assert(rect_tree_contents(self.tree).count(e) == 1);
                assert(tuples.to_multiset().count(e) > 0);
                assert(tuples.contains(e));
                let k = choose|k: int| 0 <= k < tuples.len() && tuples[k] == e;
                assert(out@[k] == i2);
            }
            assert forall|k: int, l: int| 0 <= k < l < out@.len()
                implies out@[k] != out@[l] by {
                if out@[k] == out@[l] {
                    assert(tuples.contains(tuples[k]));
                    assert(tuples.to_multiset().count(tuples[k]) > 0);
                    assert(tuples.contains(tuples[l]));
                    assert(tuples.to_multiset().count(tuples[l]) > 0);
                    assert(self@[tuples[k].0] == tuples[k].1);
                    assert(self@[tuples[l].0] == tuples[l].1);
                    let e = tuples[k];
                    assert(tuples[l] == e);
                    let shorter = tuples.remove(k);
                    assert(shorter.to_multiset() == tuples.to_multiset().remove(e));
                    assert(shorter[l - 1] == tuples[l]);
                    assert(shorter.contains(e));
                    assert(shorter.to_multiset().count(e) > 0);
                    assert(tuples.to_multiset().count(e) >= 2);
                    assert(rect_tree_contents(self.tree).count(e) <= 1);
                    assert(rect_tree_contents(self.tree).filter(touches).count(e) <= 1);
                }
            }
        }
        out
    }
}


/// A sequence holding one value at two positions counts it at least twice.
pub proof fn lemma_dup_count<T>(t: Seq<T>, a: int, b: int)
    requires
        0 <= a < b < t.len(),
        t[a] == t[b],
    ensures
        t.to_multiset().count(t[a]) >= 2,
{
    broadcast use vstd::seq_lib::group_to_multiset_ensures;

    let shorter = t.remove(a);
    assert(shorter.to_multiset() =~= t.to_multiset().remove(t[a]));
    assert(shorter[b - 1] == t[b]);
    assert(shorter.contains(t[a]));
    assert(shorter.to_multiset().count(t[a]) > 0);
    assert(t.to_multiset().contains(t[a])) by {
        assert(t.contains(t[a]));
    }
    assert(t.to_multiset().count(t[a])
        == shorter.to_multiset().count(t[a]) + 1) by {
        assert(t.to_multiset().remove(t[a]).count(t[a])
            == t.to_multiset().count(t[a]) - 1);
    }
}

} // verus!
