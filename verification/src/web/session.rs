//! The per-client streaming session: viewport query, filter, diff against
//! the previously sent state, and the emitted messages.

use vstd::prelude::*;
use crate::fixed::{Airport, FIR, airport_eq, fir_eq, lemma_airport_eq_sym, lemma_airport_eq_trans, lemma_fir_eq_sym, lemma_fir_eq_trans, spec_compound_id};
use crate::lee::expression::{Expression, expr_wf, spec_eval_expr};
use crate::manager::{Manager, rect_covers};
use crate::moving::{Pilot, pilot_eq};
use crate::strmap::StrMap;
use crate::types::Rect;
use crate::web::message::{UpdateMessage, spec_update_empty};

verus! {

/// Whether a candidate pilot differs from what the session last sent under
/// its callsign: new, or structurally changed.
pub open spec fn pilot_delta(m: Map<Seq<char>, Pilot>, p: Pilot) -> bool {
    !m.contains_key(p.callsign@) || !pilot_eq(m[p.callsign@], p)
}

/// The same for an airport, keyed by its compound identifier.
pub open spec fn airport_delta(m: Map<Seq<char>, Airport>, a: Airport) -> bool {
    !m.contains_key(spec_compound_id(a)) || !airport_eq(m[spec_compound_id(a)], a)
}

/// The same for a region, keyed by its identifier.
pub open spec fn fir_delta(m: Map<Seq<char>, FIR>, f: FIR) -> bool {
    !m.contains_key(f.icao@) || !fir_eq(m[f.icao@], f)
}

/// Diff one kind of candidate list against the state last sent: the set
/// list is exactly the changed candidates, in order; the delete list holds
/// the previously sent objects whose key disappeared; the state becomes
/// the candidates.
pub fn calc_pilots(candidates: &Vec<Pilot>, state: &mut StrMap<Pilot>) -> (r: (
    Vec<Pilot>,
    Vec<Pilot>,
))
    requires
        old(state).inv(),
        forall|i: int, j: int| 0 <= i < j < candidates@.len()
            ==> candidates@[i].callsign@ != candidates@[j].callsign@,
        forall|cs: Seq<char>| #[trigger] old(state)@.contains_key(cs)
            ==> old(state)@[cs].callsign@ == cs,
    ensures
        final(state).inv(),
        forall|cs: Seq<char>| #[trigger] final(state)@.contains_key(cs)
            ==> final(state)@[cs].callsign@ == cs,
        forall|cs: Seq<char>| final(state)@.contains_key(cs)
            <==> exists|i: int| 0 <= i < candidates@.len()
                && (#[trigger] candidates@[i]).callsign@ == cs,
        forall|i: int| 0 <= i < candidates@.len()
            ==> final(state)@[(#[trigger] candidates@[i]).callsign@] == candidates@[i],
        r.0@ == candidates@.filter(|p: Pilot| pilot_delta(old(state)@, p)),
        forall|k: int| 0 <= k < r.1@.len()
            ==> old(state)@.contains_key((#[trigger] r.1@[k]).callsign@)
                && r.1@[k] == old(state)@[r.1@[k].callsign@]
                && !(exists|i: int| 0 <= i < candidates@.len()
                    && (#[trigger] candidates@[i]).callsign@ == r.1@[k].callsign@),
        forall|cs: Seq<char>| #[trigger] old(state)@.contains_key(cs)
            && !(exists|i: int| 0 <= i < candidates@.len()
                && (#[trigger] candidates@[i]).callsign@ == cs)
            ==> exists|k: int| 0 <= k < r.1@.len() && r.1@[k].callsign@ == cs,
        forall|k: int, l: int| 0 <= k < l < r.1@.len()
            ==> r.1@[k].callsign@ != r.1@[l].callsign@,
{
    let ghost pred = |p: Pilot| pilot_delta(old(state)@, p);
    let mut new_state: StrMap<Pilot> = StrMap::new();
    let mut set: Vec<Pilot> = Vec::new();
    let n: usize = candidates.len();
    let mut i: usize = 0;
    while i < n
        invariant
            old(state).inv(),
            state == old(state),
            new_state.inv(),
            i <= n,
            n == candidates@.len(),
            pred == (|p: Pilot| pilot_delta(old(state)@, p)),
            forall|a: int, b: int| 0 <= a < b < candidates@.len()
                ==> candidates@[a].callsign@ != candidates@[b].callsign@,
            forall|cs: Seq<char>| #[trigger] old(state)@.contains_key(cs)
                ==> old(state)@[cs].callsign@ == cs,
            set@ == candidates@.subrange(0, i as int).filter(pred),
            forall|cs: Seq<char>| new_state@.contains_key(cs)
                <==> exists|x: int| 0 <= x < i
                    && (#[trigger] candidates@[x]).callsign@ == cs,
            forall|x: int| 0 <= x < i
                ==> new_state@[(#[trigger] candidates@[x]).callsign@] == candidates@[x],
            forall|cs: Seq<char>| #[trigger] new_state@.contains_key(cs)
                ==> new_state@[cs].callsign@ == cs,
        decreases n - i,
    {
        let p = &candidates[i];
        let changed: bool = match state.get(&p.callsign) {
            Option::Some(q) => !q.same_as(p),
            Option::None => true,
        };
        let ghost set_pre = set@;
        if changed {
            set.push(p.duplicate());
        }
        new_state.insert(p.callsign.clone(), p.duplicate());
        proof {
            let ii = i as int;
            let sub1 = candidates@.subrange(0, ii + 1);
            assert(sub1.drop_last() =~= candidates@.subrange(0, ii));
            assert(sub1.last() == candidates@[ii]);
            reveal(Seq::filter);
            assert(changed == pred(candidates@[ii]));
            assert(set@ == sub1.filter(pred));
            assert forall|cs: Seq<char>| new_state@.contains_key(cs)
                <==> exists|x: int| 0 <= x < ii + 1
                    && (#[trigger] candidates@[x]).callsign@ == cs by {
                if cs == candidates@[ii].callsign@ {
                } else if new_state@.contains_key(cs) {
                }
            }
            assert forall|x: int| 0 <= x < ii + 1
                implies new_state@[(#[trigger] candidates@[x]).callsign@]
                    == candidates@[x] by {
                if x < ii {
                    assert(candidates@[x].callsign@ != candidates@[ii].callsign@);
                }
            }
        }
        i += 1;
    }
    proof {
        assert(candidates@.subrange(0, n as int) =~= candidates@);
        state.lemma_enumeration();
    }
    let mut del: Vec<Pilot> = Vec::new();
    let m: usize = state.len();
    let mut j: usize = 0;
    while j < m
        invariant
            old(state).inv(),
            state == old(state),
            new_state.inv(),
            j <= m,
            m == state.spec_len(),
            n == candidates@.len(),
            forall|cs: Seq<char>| #[trigger] old(state)@.contains_key(cs)
                ==> old(state)@[cs].callsign@ == cs,
            forall|cs: Seq<char>| new_state@.contains_key(cs)
                <==> exists|x: int| 0 <= x < candidates@.len()
                    && (#[trigger] candidates@[x]).callsign@ == cs,
            forall|k: int| 0 <= k < del@.len()
                ==> old(state)@.contains_key((#[trigger] del@[k]).callsign@)
                    && del@[k] == old(state)@[del@[k].callsign@]
                    && !new_state@.contains_key(del@[k].callsign@),
            forall|x: int| 0 <= x < j && !new_state@.contains_key(
                #[trigger] state.spec_keys()[x],
            ) ==> exists|k: int| 0 <= k < del@.len()
                && del@[k].callsign@ == state.spec_keys()[x],
            forall|k: int| 0 <= k < del@.len()
                ==> exists|x: int| 0 <= x < j
                    && (#[trigger] del@[k]).callsign@ == state.spec_keys()[x],
            forall|k: int, l: int| 0 <= k < l < del@.len()
                ==> del@[k].callsign@ != del@[l].callsign@,
        decreases m - j,
    {
        proof {
            state.lemma_enumeration();
        }
        let ghost del_pre = del@;
        let (k, v) = state.entry_at(j);
        if !new_state.contains_key(k) {
            del.push(v.duplicate());
        }
        proof {
            assert forall|x: int| 0 <= x < j as int + 1 && !new_state@.contains_key(
                #[trigger] state.spec_keys()[x],
            ) implies exists|k2: int| 0 <= k2 < del@.len()
                && del@[k2].callsign@ == state.spec_keys()[x] by {
                if x < j as int {
                    let k0 = choose|k0: int| 0 <= k0 < del_pre.len()
                        && del_pre[k0].callsign@ == state.spec_keys()[x];
                    assert(del@[k0] == del_pre[k0]);
                } else {
                    assert(del@[del@.len() - 1].callsign@ == state.spec_keys()[x]);
                }
            }
            assert forall|k2: int| 0 <= k2 < del@.len()
                implies exists|x: int| 0 <= x < j as int + 1
                    && (#[trigger] del@[k2]).callsign@ == state.spec_keys()[x] by {
                if k2 < del_pre.len() {
                    assert(del@[k2] == del_pre[k2]);
                    let x0 = choose|x0: int| 0 <= x0 < j as int
                        && del_pre[k2].callsign@ == state.spec_keys()[x0];
                } else {
                    assert(del@[k2].callsign@ == state.spec_keys()[j as int]);
                }
            }
            assert forall|k2: int, l2: int| 0 <= k2 < l2 < del@.len()
                implies del@[k2].callsign@ != del@[l2].callsign@ by {
                if l2 == del@.len() - 1 && del@.len() > del_pre.len() {
                    let x0 = choose|x0: int| 0 <= x0 < j as int
                        && (#[trigger] del@[k2]).callsign@ == state.spec_keys()[x0];
                    assert(del@[l2].callsign@ == state.spec_keys()[j as int]);
                }
            }
        }
        j += 1;
    }
    proof {
        state.lemma_enumeration();
        assert forall|cs: Seq<char>| #[trigger] old(state)@.contains_key(cs)
            && !(exists|i2: int| 0 <= i2 < candidates@.len()
                && (#[trigger] candidates@[i2]).callsign@ == cs)
            implies exists|k: int| 0 <= k < del@.len() && del@[k].callsign@ == cs by {
            assert(state.spec_keys().contains(cs));
            let x = choose|x: int| 0 <= x < state.spec_keys().len()
                && state.spec_keys()[x] == cs;
            assert(!new_state@.contains_key(cs));
        }
    }
    *state = new_state;
    (set, del)
}

/// When every candidate is already in the sent state unchanged, the set
/// list of the diff is empty: one half of the no-delta law for a repeated
/// snapshot.
pub proof fn lemma_diff_unchanged_pilots(m: Map<Seq<char>, Pilot>, cands: Seq<Pilot>)
    requires
        forall|i: int| 0 <= i < cands.len()
            ==> m.contains_key((#[trigger] cands[i]).callsign@)
                && pilot_eq(m[cands[i].callsign@], cands[i]),
    ensures
        cands.filter(|p: Pilot| pilot_delta(m, p)) =~= Seq::<Pilot>::empty(),
    decreases cands.len(),
{
    reveal(Seq::filter);
    if cands.len() > 0 {
        assert(cands.drop_last() =~= cands.subrange(0, cands.len() - 1));
        lemma_diff_unchanged_pilots(m, cands.drop_last());
        assert(!pilot_delta(m, cands.last()));
    }
}

/// When every candidate airport is already in the sent state unchanged,
/// the set list of the airport diff is empty.
pub proof fn lemma_diff_unchanged_airports(m: Map<Seq<char>, Airport>, cands: Seq<Airport>)
    requires
        forall|i: int| 0 <= i < cands.len()
            ==> m.contains_key(spec_compound_id(#[trigger] cands[i]))
                && airport_eq(m[spec_compound_id(cands[i])], cands[i]),
    ensures
        cands.filter(|a: Airport| airport_delta(m, a)) =~= Seq::<Airport>::empty(),
    decreases cands.len(),
{
    reveal(Seq::filter);
    if cands.len() > 0 {
        assert(cands.drop_last() =~= cands.subrange(0, cands.len() - 1));
        lemma_diff_unchanged_airports(m, cands.drop_last());
        assert(!airport_delta(m, cands.last()));
    }
}

/// When every candidate region is already in the sent state unchanged,
/// the set list of the region diff is empty.
pub proof fn lemma_diff_unchanged_firs(m: Map<Seq<char>, FIR>, cands: Seq<FIR>)
    requires
        forall|i: int| 0 <= i < cands.len()
            ==> m.contains_key((#[trigger] cands[i]).icao@)
                && fir_eq(m[cands[i].icao@], cands[i]),
    ensures
        cands.filter(|f: FIR| fir_delta(m, f)) =~= Seq::<FIR>::empty(),
    decreases cands.len(),
{
    reveal(Seq::filter);
    if cands.len() > 0 {
        assert(cands.drop_last() =~= cands.subrange(0, cands.len() - 1));
        lemma_diff_unchanged_firs(m, cands.drop_last());
        assert(!fir_delta(m, cands.last()));
    }
}

/// Chunked pilot batches: at most one hundred pilots per message, in
/// candidate order, and no empty message.  A set of 250 pilots becomes
/// three messages of 100, 100 and 50.
pub fn chunk_pilot_sets(connection_id: &String, set: Vec<Pilot>) -> (r: Vec<UpdateMessage>)
    ensures
        set@.len() == 0 ==> r@.len() == 0,
        set@.len() > 0 ==> r@.len() > 0
            && (r@.len() - 1) * 100 < set@.len() <= r@.len() * 100,
        forall|k: int| 0 <= k < r@.len() ==> {
            let msg = #[trigger] r@[k];
            &&& msg.connection_id@ == connection_id@
            &&& msg.message_type@ == "update"@
            &&& msg.object_type@ == "pilot"@
            &&& msg.data.delete is None
            &&& msg.data.set matches Some(s) && s.pilots matches Some(v)
                && v@ == set@.subrange(
                    k * 100,
                    if k * 100 + 100 <= set@.len() {
                        k * 100 + 100
                    } else {
                        set@.len() as int
                    },
                ) && s.airports is None && s.firs is None
            &&& !spec_update_empty(msg.data)
        },
{
    let n: usize = set.len();
    let mut out: Vec<UpdateMessage> = Vec::new();
    let mut i: usize = 0;
    while i < n
        invariant
            i <= n,
            n == set@.len(),
            i == out@.len() * 100 || (i == n && n > 0 && out@.len() > 0
                && (out@.len() - 1) * 100 < n && n <= out@.len() * 100),
            i < n ==> i == out@.len() * 100,
            forall|k: int| 0 <= k < out@.len() ==> {
                let msg = #[trigger] out@[k];
                &&& msg.connection_id@ == connection_id@
                &&& msg.message_type@ == "update"@
                &&& msg.object_type@ == "pilot"@
                &&& msg.data.delete is None
                &&& msg.data.set matches Some(s) && s.pilots matches Some(v)
                    && v@ == set@.subrange(
                        k * 100,
                        if k * 100 + 100 <= set@.len() {
                            k * 100 + 100
                        } else {
                            set@.len() as int
                        },
                    ) && s.airports is None && s.firs is None
                &&& !spec_update_empty(msg.data)
            },
        decreases n - i,
    {
        let start: usize = i;
        let stop: usize = if n - i >= 100 {
            i + 100
        } else {
            n
        };
        let mut chunk: Vec<Pilot> = Vec::new();
        while i < stop
            invariant
                start <= i <= stop <= n,
                n == set@.len(),
                chunk@ =~= set@.subrange(start as int, i as int),
            decreases stop - i,
        {
            chunk.push(set[i].duplicate());
            proof {
                assert(chunk@ =~= set@.subrange(start as int, i as int + 1));
            }
            i += 1;
        }
        let ghost out_pre = out@;
        let msg = UpdateMessage::pilots_set(connection_id, chunk);
        out.push(msg);
        proof {
            let k = out@.len() - 1;
            assert(out@[k].data.set matches Some(s) && s.pilots matches Some(v)
                && v@ == set@.subrange(
                    k * 100,
                    if k * 100 + 100 <= set@.len() {
                        k * 100 + 100
                    } else {
                        set@.len() as int
                    },
                ));
            assert forall|k2: int| 0 <= k2 < out@.len() - 1
                implies out@[k2] == out_pre[k2] by {}
        }
    }
    out
}


/// Diff the airport candidates against the state last sent, keyed by
/// compound identifier; the counterpart of the pilot diff.
pub fn calc_airports(candidates: &Vec<Airport>, state: &mut StrMap<Airport>) -> (r: (
    Vec<Airport>,
    Vec<Airport>,
))
    requires
        old(state).inv(),
        forall|i: int| 0 <= i < candidates@.len() ==> (#[trigger] candidates@[i]).inv(),
        forall|i: int, j: int| 0 <= i < j < candidates@.len()
            ==> spec_compound_id(candidates@[i]) != spec_compound_id(candidates@[j]),
        forall|cs: Seq<char>| #[trigger] old(state)@.contains_key(cs)
            ==> spec_compound_id(old(state)@[cs]) == cs && old(state)@[cs].inv(),
    ensures
        final(state).inv(),
        forall|cs: Seq<char>| #[trigger] final(state)@.contains_key(cs)
            ==> spec_compound_id(final(state)@[cs]) == cs && final(state)@[cs].inv(),
        forall|cs: Seq<char>| final(state)@.contains_key(cs)
            <==> exists|i: int| 0 <= i < candidates@.len()
                && spec_compound_id(#[trigger] candidates@[i]) == cs,
        forall|i: int| 0 <= i < candidates@.len()
            ==> airport_eq(final(state)@[spec_compound_id(#[trigger] candidates@[i])],
                candidates@[i]),
        r.0@.len() == candidates@.filter(|a: Airport| airport_delta(old(state)@, a)).len(),
        forall|k: int| 0 <= k < r.0@.len()
            ==> airport_eq(#[trigger] r.0@[k],
                candidates@.filter(|a: Airport| airport_delta(old(state)@, a))[k]),
        forall|k: int| 0 <= k < r.1@.len()
            ==> old(state)@.contains_key(spec_compound_id(#[trigger] r.1@[k]))
                && airport_eq(r.1@[k], old(state)@[spec_compound_id(r.1@[k])])
                && !(exists|i: int| 0 <= i < candidates@.len()
                    && spec_compound_id(#[trigger] candidates@[i])
                        == spec_compound_id(r.1@[k])),
        forall|cs: Seq<char>| #[trigger] old(state)@.contains_key(cs)
            && !(exists|i: int| 0 <= i < candidates@.len()
                && spec_compound_id(#[trigger] candidates@[i]) == cs)
            ==> exists|k: int| 0 <= k < r.1@.len() && spec_compound_id(r.1@[k]) == cs,
{
    let ghost pred = |a: Airport| airport_delta(old(state)@, a);
    let mut new_state: StrMap<Airport> = StrMap::new();
    let mut set: Vec<Airport> = Vec::new();
    let n: usize = candidates.len();
    let mut i: usize = 0;
    while i < n
        invariant
            old(state).inv(),
            state == old(state),
            new_state.inv(),
            i <= n,
            n == candidates@.len(),
            pred == (|a: Airport| airport_delta(old(state)@, a)),
            forall|x: int| 0 <= x < candidates@.len()
                ==> (#[trigger] candidates@[x]).inv(),
            forall|a: int, b: int| 0 <= a < b < candidates@.len()
                ==> spec_compound_id(candidates@[a]) != spec_compound_id(candidates@[b]),
            forall|cs: Seq<char>| #[trigger] old(state)@.contains_key(cs)
                ==> spec_compound_id(old(state)@[cs]) == cs && old(state)@[cs].inv(),
            set@.len() == candidates@.subrange(0, i as int).filter(pred).len(),
            forall|k: int| 0 <= k < set@.len()
                ==> airport_eq(#[trigger] set@[k],
                    candidates@.subrange(0, i as int).filter(pred)[k]),
            forall|cs: Seq<char>| new_state@.contains_key(cs)
                <==> exists|x: int| 0 <= x < i
                    && spec_compound_id(#[trigger] candidates@[x]) == cs,
            forall|x: int| 0 <= x < i
                ==> airport_eq(new_state@[spec_compound_id(#[trigger] candidates@[x])],
                    candidates@[x]),
            forall|cs: Seq<char>| #[trigger] new_state@.contains_key(cs)
                ==> spec_compound_id(new_state@[cs]) == cs && new_state@[cs].inv(),
        decreases n - i,
    {
        let a = &candidates[i];
        let cid = a.compound_id();
        let changed: bool = match state.get(&cid) {
            Option::Some(q) => !q.same_as(a),
            Option::None => true,
        };
        let ghost set_pre = set@;
        if changed {
            set.push(a.duplicate());
        }
        let d = a.duplicate();
        proof {
            assert(spec_compound_id(d) == spec_compound_id(candidates@[i as int]));
        }
        new_state.insert(cid, d);
        proof {
            let ii = i as int;
            let sub1 = candidates@.subrange(0, ii + 1);
            assert(sub1.drop_last() =~= candidates@.subrange(0, ii));
            assert(sub1.last() == candidates@[ii]);
            reveal(Seq::filter);
            assert(cid@ == spec_compound_id(candidates@[ii]));
            assert(changed == pred(candidates@[ii]));
            assert(set@.len() == sub1.filter(pred).len());
            assert forall|k2: int| 0 <= k2 < set@.len()
                implies airport_eq(#[trigger] set@[k2], sub1.filter(pred)[k2]) by {
                if changed && k2 == set@.len() - 1 {
                    assert(sub1.filter(pred)[k2] == candidates@[ii]);
                } else {
                    assert(set@[k2] == set_pre[k2]);
                    assert(sub1.filter(pred)[k2]
                        == candidates@.subrange(0, ii).filter(pred)[k2]);
                }
            }
            assert forall|cs: Seq<char>| new_state@.contains_key(cs)
                <==> exists|x: int| 0 <= x < ii + 1
                    && spec_compound_id(#[trigger] candidates@[x]) == cs by {
                if cs == spec_compound_id(candidates@[ii]) {
                } else if new_state@.contains_key(cs) {
                }
            }
            assert forall|x: int| 0 <= x < ii + 1
                implies airport_eq(
                    new_state@[spec_compound_id(#[trigger] candidates@[x])],
                    candidates@[x],
                ) by {
                if x < ii {
                    assert(spec_compound_id(candidates@[x])
                        != spec_compound_id(candidates@[ii]));
                }
            }
        }
        i += 1;
    }
    proof {
        assert(candidates@.subrange(0, n as int) =~= candidates@);
        state.lemma_enumeration();
    }
    let mut del: Vec<Airport> = Vec::new();
    let m: usize = state.len();
    let mut j: usize = 0;
    while j < m
        invariant
            old(state).inv(),
            state == old(state),
            new_state.inv(),
            j <= m,
            m == state.spec_len(),
            n == candidates@.len(),
            forall|cs: Seq<char>| #[trigger] old(state)@.contains_key(cs)
                ==> spec_compound_id(old(state)@[cs]) == cs && old(state)@[cs].inv(),
            forall|cs: Seq<char>| new_state@.contains_key(cs)
                <==> exists|x: int| 0 <= x < candidates@.len()
                    && spec_compound_id(#[trigger] candidates@[x]) == cs,
            forall|k: int| 0 <= k < del@.len()
                ==> old(state)@.contains_key(spec_compound_id(#[trigger] del@[k]))
                    && airport_eq(del@[k], old(state)@[spec_compound_id(del@[k])])
                    && !new_state@.contains_key(spec_compound_id(del@[k])),
            forall|x: int| 0 <= x < j && !new_state@.contains_key(
                #[trigger] state.spec_keys()[x],
            ) ==> exists|k: int| 0 <= k < del@.len()
                && spec_compound_id(del@[k]) == state.spec_keys()[x],
        decreases m - j,
    {
        proof {
            state.lemma_enumeration();
        }
        let ghost del_pre = del@;
        let (k, v) = state.entry_at(j);
        if !new_state.contains_key(k) {
            let d = v.duplicate();
            proof {
                assert(spec_compound_id(d) == spec_compound_id(*v));
            }
            del.push(d);
        }
        proof {
            assert forall|x: int| 0 <= x < j as int + 1 && !new_state@.contains_key(
                #[trigger] state.spec_keys()[x],
            ) implies exists|k2: int| 0 <= k2 < del@.len()
                && spec_compound_id(del@[k2]) == state.spec_keys()[x] by {
                if x < j as int {
                    let k0 = choose|k0: int| 0 <= k0 < del_pre.len()
                        && spec_compound_id(del_pre[k0]) == state.spec_keys()[x];
                    assert(del@[k0] == del_pre[k0]);
                } else {
                    assert(spec_compound_id(del@[del@.len() - 1]) == state.spec_keys()[x]);
                }
            }
        }
        j += 1;
    }
    proof {
        state.lemma_enumeration();
        assert forall|cs: Seq<char>| #[trigger] old(state)@.contains_key(cs)
            && !(exists|i2: int| 0 <= i2 < candidates@.len()
                && spec_compound_id(#[trigger] candidates@[i2]) == cs)
            implies exists|k: int| 0 <= k < del@.len()
                && spec_compound_id(del@[k]) == cs by {
            assert(state.spec_keys().contains(cs));
            let x = choose|x: int| 0 <= x < state.spec_keys().len()
                && state.spec_keys()[x] == cs;
            assert(!new_state@.contains_key(cs));
        }
    }
    *state = new_state;
    (set, del)
}

/// Diff the region candidates against the state last sent, keyed by the
/// region identifier; the counterpart of the pilot diff.
pub fn calc_firs(candidates: &Vec<FIR>, state: &mut StrMap<FIR>) -> (r: (Vec<FIR>, Vec<FIR>))
    requires
        old(state).inv(),
        forall|i: int| 0 <= i < candidates@.len() ==> (#[trigger] candidates@[i]).inv(),
        forall|i: int, j: int| 0 <= i < j < candidates@.len()
            ==> candidates@[i].icao@ != candidates@[j].icao@,
        forall|cs: Seq<char>| #[trigger] old(state)@.contains_key(cs)
            ==> old(state)@[cs].icao@ == cs && old(state)@[cs].inv(),
    ensures
        final(state).inv(),
        forall|cs: Seq<char>| #[trigger] final(state)@.contains_key(cs)
            ==> final(state)@[cs].icao@ == cs && final(state)@[cs].inv(),
        forall|cs: Seq<char>| final(state)@.contains_key(cs)
            <==> exists|i: int| 0 <= i < candidates@.len()
                && (#[trigger] candidates@[i]).icao@ == cs,
        forall|i: int| 0 <= i < candidates@.len()
            ==> fir_eq(final(state)@[(#[trigger] candidates@[i]).icao@], candidates@[i]),
        r.0@.len() == candidates@.filter(|f: FIR| fir_delta(old(state)@, f)).len(),
        forall|k: int| 0 <= k < r.0@.len()
            ==> fir_eq(#[trigger] r.0@[k],
                candidates@.filter(|f: FIR| fir_delta(old(state)@, f))[k]),
        forall|k: int| 0 <= k < r.1@.len()
            ==> old(state)@.contains_key((#[trigger] r.1@[k]).icao@)
                && fir_eq(r.1@[k], old(state)@[r.1@[k].icao@])
                && !(exists|i: int| 0 <= i < candidates@.len()
                    && (#[trigger] candidates@[i]).icao@ == r.1@[k].icao@),
        forall|cs: Seq<char>| #[trigger] old(state)@.contains_key(cs)
            && !(exists|i: int| 0 <= i < candidates@.len()
                && (#[trigger] candidates@[i]).icao@ == cs)
            ==> exists|k: int| 0 <= k < r.1@.len() && r.1@[k].icao@ == cs,
{
    let ghost pred = |f: FIR| fir_delta(old(state)@, f);
    let mut new_state: StrMap<FIR> = StrMap::new();
    let mut set: Vec<FIR> = Vec::new();
    let n: usize = candidates.len();
    let mut i: usize = 0;
    while i < n
        invariant
            old(state).inv(),
            state == old(state),
            new_state.inv(),
            i <= n,
            n == candidates@.len(),
            pred == (|f: FIR| fir_delta(old(state)@, f)),
            forall|x: int| 0 <= x < candidates@.len()
                ==> (#[trigger] candidates@[x]).inv(),
            forall|a: int, b: int| 0 <= a < b < candidates@.len()
                ==> candidates@[a].icao@ != candidates@[b].icao@,
            forall|cs: Seq<char>| #[trigger] old(state)@.contains_key(cs)
                ==> old(state)@[cs].icao@ == cs && old(state)@[cs].inv(),
            set@.len() == candidates@.subrange(0, i as int).filter(pred).len(),
            forall|k: int| 0 <= k < set@.len()
                ==> fir_eq(#[trigger] set@[k],
                    candidates@.subrange(0, i as int).filter(pred)[k]),
            forall|cs: Seq<char>| new_state@.contains_key(cs)
                <==> exists|x: int| 0 <= x < i
                    && (#[trigger] candidates@[x]).icao@ == cs,
            forall|x: int| 0 <= x < i
                ==> fir_eq(new_state@[(#[trigger] candidates@[x]).icao@], candidates@[x]),
            forall|cs: Seq<char>| #[trigger] new_state@.contains_key(cs)
                ==> new_state@[cs].icao@ == cs && new_state@[cs].inv(),
        decreases n - i,
    {
        let f = &candidates[i];
        let changed: bool = match state.get(&f.icao) {
            Option::Some(q) => !q.same_as(f),
            Option::None => true,
        };
        let ghost set_pre = set@;
        if changed {
            set.push(f.duplicate());
        }
        new_state.insert(f.icao.clone(), f.duplicate());
        proof {
            let ii = i as int;
            let sub1 = candidates@.subrange(0, ii + 1);
            assert(sub1.drop_last() =~= candidates@.subrange(0, ii));
            assert(sub1.last() == candidates@[ii]);
            reveal(Seq::filter);
            assert(changed == pred(candidates@[ii]));
            assert(set@.len() == sub1.filter(pred).len());
            assert forall|k2: int| 0 <= k2 < set@.len()
                implies fir_eq(#[trigger] set@[k2], sub1.filter(pred)[k2]) by {
                if changed && k2 == set@.len() - 1 {
                    assert(sub1.filter(pred)[k2] == candidates@[ii]);
                } else {
                    assert(set@[k2] == set_pre[k2]);
                    assert(sub1.filter(pred)[k2]
                        == candidates@.subrange(0, ii).filter(pred)[k2]);
                }
            }
            assert forall|cs: Seq<char>| new_state@.contains_key(cs)
                <==> exists|x: int| 0 <= x < ii + 1
                    && (#[trigger] candidates@[x]).icao@ == cs by {
                if cs == candidates@[ii].icao@ {
                } else if new_state@.contains_key(cs) {
                }
            }
            assert forall|x: int| 0 <= x < ii + 1
                implies fir_eq(new_state@[(#[trigger] candidates@[x]).icao@],
                    candidates@[x]) by {
                if x < ii {
                    assert(candidates@[x].icao@ != candidates@[ii].icao@);
                }
            }
        }
        i += 1;
    }
    proof {
        assert(candidates@.subrange(0, n as int) =~= candidates@);
        state.lemma_enumeration();
    }
    let mut del: Vec<FIR> = Vec::new();
    let m: usize = state.len();
    let mut j: usize = 0;
    while j < m
        invariant
            old(state).inv(),
            state == old(state),
            new_state.inv(),
            j <= m,
            m == state.spec_len(),
            n == candidates@.len(),
            forall|cs: Seq<char>| #[trigger] old(state)@.contains_key(cs)
                ==> old(state)@[cs].icao@ == cs && old(state)@[cs].inv(),
            forall|cs: Seq<char>| new_state@.contains_key(cs)
                <==> exists|x: int| 0 <= x < candidates@.len()
                    && (#[trigger] candidates@[x]).icao@ == cs,
            forall|k: int| 0 <= k < del@.len()
                ==> old(state)@.contains_key((#[trigger] del@[k]).icao@)
                    && fir_eq(del@[k], old(state)@[del@[k].icao@])
                    && !new_state@.contains_key(del@[k].icao@),
            forall|x: int| 0 <= x < j && !new_state@.contains_key(
                #[trigger] state.spec_keys()[x],
            ) ==> exists|k: int| 0 <= k < del@.len()
                && del@[k].icao@ == state.spec_keys()[x],
        decreases m - j,
    {
        proof {
            state.lemma_enumeration();
        }
        let ghost del_pre = del@;
        let (k, v) = state.entry_at(j);
        if !new_state.contains_key(k) {
            del.push(v.duplicate());
        }
        proof {
            assert forall|x: int| 0 <= x < j as int + 1 && !new_state@.contains_key(
                #[trigger] state.spec_keys()[x],
            ) implies exists|k2: int| 0 <= k2 < del@.len()
                && del@[k2].icao@ == state.spec_keys()[x] by {
                if x < j as int {
                    let k0 = choose|k0: int| 0 <= k0 < del_pre.len()
                        && del_pre[k0].icao@ == state.spec_keys()[x];
                    assert(del@[k0] == del_pre[k0]);
                } else {
                    assert(del@[del@.len() - 1].icao@ == state.spec_keys()[x]);
                }
            }
        }
        j += 1;
    }
    proof {
        state.lemma_enumeration();
        assert forall|cs: Seq<char>| #[trigger] old(state)@.contains_key(cs)
            && !(exists|i2: int| 0 <= i2 < candidates@.len()
                && (#[trigger] candidates@[i2]).icao@ == cs)
            implies exists|k: int| 0 <= k < del@.len() && del@[k].icao@ == cs by {
            assert(state.spec_keys().contains(cs));
            let x = choose|x: int| 0 <= x < state.spec_keys().len()
                && state.spec_keys()[x] == cs;
            assert(!new_state@.contains_key(cs));
        }
    }
    *state = new_state;
    (set, del)
}


/// Whether a pilot passes the session's compiled filter; no filter passes
/// everyone.
pub open spec fn spec_pilot_passes(filter: Option<&Expression>, p: Pilot) -> bool {
    match filter {
        Option::Some(f) => spec_eval_expr(*f, p),
        Option::None => true,
    }
}

/// Whether a pilot is inside the session's viewport; the no-bounds mode
/// covers everyone.
pub open spec fn spec_pilot_covered(rect: Rect, no_bounds: bool, p: Pilot) -> bool {
    no_bounds || rect_covers(rect, p.position.lng as int, p.position.lat as int)
}

/// Whether a callsign names a pilot this tick would consider: live,
/// inside the viewport, and passing the filter.
pub open spec fn spec_pilot_candidate(
    m: &Manager,
    rect: Rect,
    no_bounds: bool,
    filter: Option<&Expression>,
    cs: Seq<char>,
) -> bool {
    &&& m.pilots_view().contains_key(cs)
    &&& spec_pilot_covered(rect, no_bounds, m.pilots_view()[cs])
    &&& spec_pilot_passes(filter, m.pilots_view()[cs])
}

/// Whether an identifier names a staffed region this tick would show:
/// some region with that identifier has a controller online and touches
/// the viewport.
pub open spec fn spec_fir_live(
    m: &Manager,
    rect: Rect,
    no_bounds: bool,
    cs: Seq<char>,
) -> bool {
    exists|j: int| 0 <= j < m.spec_fixed().spec_firs().len()
        && (#[trigger] m.spec_fixed().spec_firs()[j]).icao@ == cs
        && m.spec_fixed().spec_firs()[j].controllers.spec_len() > 0
        && (no_bounds || crate::manager::rect_meets(
            rect,
            crate::manager::fir_env(m.spec_fixed().spec_firs()[j]),
        ))
}

/// The emission rank of a message kind: pilots before airports before
/// regions.
pub open spec fn kind_rank(t: Seq<char>) -> int {
    if t == "pilot"@ {
        0
    } else if t == "airport"@ {
        1
    } else {
        2
    }
}

/// The pilot batch a message sets, when it is a pilots-set message.
pub open spec fn pilot_set_payload(msg: UpdateMessage) -> Option<Seq<Pilot>> {
    if msg.object_type@ == "pilot"@ {
        match msg.data.set {
            Option::Some(s) => match s.pilots {
                Option::Some(v) => Some(v@),
                Option::None => None,
            },
            Option::None => None,
        }
    } else {
        None
    }
}

/// The pilot batch a message deletes, when it is a pilots-delete message.
pub open spec fn pilot_delete_payload(msg: UpdateMessage) -> Option<Seq<Pilot>> {
    if msg.object_type@ == "pilot"@ {
        match msg.data.delete {
            Option::Some(s) => match s.pilots {
                Option::Some(v) => Some(v@),
                Option::None => None,
            },
            Option::None => None,
        }
    } else {
        None
    }
}

/// The airport batch a message sets.
pub open spec fn airport_set_payload(msg: UpdateMessage) -> Option<Seq<Airport>> {
    match msg.data.set {
        Option::Some(s) => match s.airports {
            Option::Some(v) => Some(v@),
            Option::None => None,
        },
        Option::None => None,
    }
}

/// The airport batch a message deletes.
pub open spec fn airport_delete_payload(msg: UpdateMessage) -> Option<Seq<Airport>> {
    match msg.data.delete {
        Option::Some(s) => match s.airports {
            Option::Some(v) => Some(v@),
            Option::None => None,
        },
        Option::None => None,
    }
}

/// The region batch a message sets.
pub open spec fn fir_set_payload(msg: UpdateMessage) -> Option<Seq<FIR>> {
    match msg.data.set {
        Option::Some(s) => match s.firs {
            Option::Some(v) => Some(v@),
            Option::None => None,
        },
        Option::None => None,
    }
}

/// The region batch a message deletes.
pub open spec fn fir_delete_payload(msg: UpdateMessage) -> Option<Seq<FIR>> {
    match msg.data.delete {
        Option::Some(s) => match s.firs {
            Option::Some(v) => Some(v@),
            Option::None => None,
        },
        Option::None => None,
    }
}

/// Whether some pilots-set message of a tick carries a callsign.
pub open spec fn pilot_set_has(msg: UpdateMessage, cs: Seq<char>) -> bool {
    match pilot_set_payload(msg) {
        Option::Some(pl) => exists|x: int| 0 <= x < pl.len() && pl[x].callsign@ == cs,
        Option::None => false,
    }
}

/// Whether two messages both set some one callsign.
pub open spec fn pilot_sets_share(a: UpdateMessage, b: UpdateMessage) -> bool {
    exists|cs: Seq<char>| #[trigger] pilot_set_has(a, cs) && pilot_set_has(b, cs)
}

/// Whether the pilots-delete message of a tick carries a callsign.
pub open spec fn pilot_delete_has(msg: UpdateMessage, cs: Seq<char>) -> bool {
    match pilot_delete_payload(msg) {
        Option::Some(pl) => exists|x: int| 0 <= x < pl.len() && pl[x].callsign@ == cs,
        Option::None => false,
    }
}

/// Whether some airports-set message of a tick carries a compound key.
pub open spec fn airport_set_has(msg: UpdateMessage, cid: Seq<char>) -> bool {
    match airport_set_payload(msg) {
        Option::Some(pl) => exists|x: int| 0 <= x < pl.len()
            && spec_compound_id(pl[x]) == cid,
        Option::None => false,
    }
}

/// Whether the airports-delete message of a tick carries a compound key.
pub open spec fn airport_delete_has(msg: UpdateMessage, cid: Seq<char>) -> bool {
    match airport_delete_payload(msg) {
        Option::Some(pl) => exists|x: int| 0 <= x < pl.len()
            && spec_compound_id(pl[x]) == cid,
        Option::None => false,
    }
}

/// Whether some regions-set message of a tick carries an identifier.
pub open spec fn fir_set_has(msg: UpdateMessage, cs: Seq<char>) -> bool {
    match fir_set_payload(msg) {
        Option::Some(pl) => exists|x: int| 0 <= x < pl.len() && pl[x].icao@ == cs,
        Option::None => false,
    }
}

/// Whether the regions-delete message of a tick carries an identifier.
pub open spec fn fir_delete_has(msg: UpdateMessage, cs: Seq<char>) -> bool {
    match fir_delete_payload(msg) {
        Option::Some(pl) => exists|x: int| 0 <= x < pl.len() && pl[x].icao@ == cs,
        Option::None => false,
    }
}

/// Every regions-set batch of a message list holds only changed live
/// identifiers, each carried with the value the session now remembers,
/// one per identifier.
pub open spec fn fir_set_batches_ok(
    msgs: Seq<UpdateMessage>,
    m: &Manager,
    rect: Rect,
    no_bounds: bool,
    sent: Map<Seq<char>, FIR>,
    now_sent: Map<Seq<char>, FIR>,
) -> bool {
    forall|k: int| 0 <= k < msgs.len() ==> match fir_set_payload(#[trigger] msgs[k]) {
        Option::Some(pl) => {
            &&& pl.len() >= 1
            &&& forall|x: int| 0 <= x < pl.len() ==> {
                let cs = (#[trigger] pl[x]).icao@;
                &&& spec_fir_live(m, rect, no_bounds, cs)
                &&& fir_delta(sent, pl[x])
                &&& now_sent.contains_key(cs)
                &&& fir_eq(pl[x], now_sent[cs])
            }
            &&& forall|x: int, y: int| 0 <= x < y < pl.len()
                ==> pl[x].icao@ != pl[y].icao@
        },
        Option::None => true,
    }
}

/// Every regions-delete batch of a message list holds only vanished
/// identifiers, as last sent.
pub open spec fn fir_delete_batches_ok(
    msgs: Seq<UpdateMessage>,
    m: &Manager,
    rect: Rect,
    no_bounds: bool,
    sent: Map<Seq<char>, FIR>,
) -> bool {
    forall|k: int| 0 <= k < msgs.len() ==> match fir_delete_payload(#[trigger] msgs[k]) {
        Option::Some(pl) => {
            &&& pl.len() >= 1
            &&& forall|x: int| 0 <= x < pl.len() ==> {
                let cs = (#[trigger] pl[x]).icao@;
                &&& sent.contains_key(cs)
                &&& fir_eq(pl[x], sent[cs])
                &&& !spec_fir_live(m, rect, no_bounds, cs)
            }
        },
        Option::None => true,
    }
}

/// Filtering keeps only elements of the sequence.
proof fn lemma_filter_subset_pilots(s: Seq<Pilot>, pred: spec_fn(Pilot) -> bool, x: Pilot)
    requires
        s.filter(pred).contains(x),
    ensures
        s.contains(x),
    decreases s.len(),
{
    reveal(Seq::filter);
    if s.len() > 0 {
        let sub = s.drop_last();
        if s.filter(pred) == sub.filter(pred) {
            lemma_filter_subset_pilots(sub, pred, x);
            let i = choose|i: int| 0 <= i < sub.len() && sub[i] == x;
            assert(s[i] == x);
        } else {
            let fs = s.filter(pred);
            let i = choose|i: int| 0 <= i < fs.len() && fs[i] == x;
            if i < fs.len() - 1 {
                assert(sub.filter(pred)[i] == x);
                assert(sub.filter(pred).contains(x));
                lemma_filter_subset_pilots(sub, pred, x);
                let j = choose|j: int| 0 <= j < sub.len() && sub[j] == x;
                assert(s[j] == x);
            } else {
                assert(x == s.last());
                assert(s[s.len() - 1] == x);
            }
        }
    }
}

/// Filtering a list of pairwise-distinct callsigns keeps them distinct.
proof fn lemma_filter_distinct_pilots(s: Seq<Pilot>, pred: spec_fn(Pilot) -> bool)
    requires
        forall|a: int, b: int| 0 <= a < b < s.len()
            ==> s[a].callsign@ != s[b].callsign@,
    ensures
        forall|a: int, b: int| 0 <= a < b < s.filter(pred).len()
            ==> s.filter(pred)[a].callsign@ != s.filter(pred)[b].callsign@,
    decreases s.len(),
{
    reveal(Seq::filter);
    if s.len() > 0 {
        let sub = s.drop_last();
        assert(forall|a: int, b: int| 0 <= a < b < sub.len()
            ==> sub[a].callsign@ != sub[b].callsign@);
        lemma_filter_distinct_pilots(sub, pred);
        if pred(s.last()) {
            let fs = s.filter(pred);
            assert(fs == sub.filter(pred).push(s.last()));
            assert forall|a: int, b: int| 0 <= a < b < fs.len()
                implies fs[a].callsign@ != fs[b].callsign@ by {
                if b == fs.len() - 1 {
                    assert(fs[a] == sub.filter(pred)[a]);
                    assert(sub.filter(pred).contains(fs[a]));
                    lemma_filter_subset_pilots(sub, pred, fs[a]);
                    let j = choose|j: int| 0 <= j < sub.len() && sub[j] == fs[a];
                    assert(s[j].callsign@ != s[s.len() - 1].callsign@);
                } else {
                    assert(fs[a] == sub.filter(pred)[a] && fs[b] == sub.filter(pred)[b]);
                }
            }
        }
    }
}

/// Filtering keeps only elements of the sequence.
proof fn lemma_filter_subset_airports(s: Seq<Airport>, pred: spec_fn(Airport) -> bool, x: Airport)
    requires
        s.filter(pred).contains(x),
    ensures
        s.contains(x),
    decreases s.len(),
{
    reveal(Seq::filter);
    if s.len() > 0 {
        let sub = s.drop_last();
        if s.filter(pred) == sub.filter(pred) {
            lemma_filter_subset_airports(sub, pred, x);
            let i = choose|i: int| 0 <= i < sub.len() && sub[i] == x;
            assert(s[i] == x);
        } else {
            let fs = s.filter(pred);
            let i = choose|i: int| 0 <= i < fs.len() && fs[i] == x;
            if i < fs.len() - 1 {
                assert(sub.filter(pred)[i] == x);
                assert(sub.filter(pred).contains(x));
                lemma_filter_subset_airports(sub, pred, x);
                let j = choose|j: int| 0 <= j < sub.len() && sub[j] == x;
                assert(s[j] == x);
            } else {
                assert(x == s.last());
                assert(s[s.len() - 1] == x);
            }
        }
    }
}

/// Filtering keeps only elements of the sequence.
proof fn lemma_filter_subset_firs(s: Seq<FIR>, pred: spec_fn(FIR) -> bool, x: FIR)
    requires
        s.filter(pred).contains(x),
    ensures
        s.contains(x),
    decreases s.len(),
{
    reveal(Seq::filter);
    if s.len() > 0 {
        let sub = s.drop_last();
        if s.filter(pred) == sub.filter(pred) {
            lemma_filter_subset_firs(sub, pred, x);
            let i = choose|i: int| 0 <= i < sub.len() && sub[i] == x;
            assert(s[i] == x);
        } else {
            let fs = s.filter(pred);
            let i = choose|i: int| 0 <= i < fs.len() && fs[i] == x;
            if i < fs.len() - 1 {
                assert(sub.filter(pred)[i] == x);
                assert(sub.filter(pred).contains(x));
                lemma_filter_subset_firs(sub, pred, x);
                let j = choose|j: int| 0 <= j < sub.len() && sub[j] == x;
                assert(s[j] == x);
            } else {
                assert(x == s.last());
                assert(s[s.len() - 1] == x);
            }
        }
    }
}

/// Filtering a list of pairwise-distinct compound keys keeps them
/// distinct.
proof fn lemma_filter_distinct_airports(s: Seq<Airport>, pred: spec_fn(Airport) -> bool)
    requires
        forall|a: int, b: int| 0 <= a < b < s.len()
            ==> spec_compound_id(s[a]) != spec_compound_id(s[b]),
    ensures
        forall|a: int, b: int| 0 <= a < b < s.filter(pred).len()
            ==> spec_compound_id(s.filter(pred)[a]) != spec_compound_id(s.filter(pred)[b]),
    decreases s.len(),
{
    reveal(Seq::filter);
    if s.len() > 0 {
        let sub = s.drop_last();
        assert(forall|a: int, b: int| 0 <= a < b < sub.len()
            ==> spec_compound_id(sub[a]) != spec_compound_id(sub[b]));
        lemma_filter_distinct_airports(sub, pred);
        if pred(s.last()) {
            let fs = s.filter(pred);
            assert(fs == sub.filter(pred).push(s.last()));
            assert forall|a: int, b: int| 0 <= a < b < fs.len()
                implies spec_compound_id(fs[a]) != spec_compound_id(fs[b]) by {
                if b == fs.len() - 1 {
                    assert(fs[a] == sub.filter(pred)[a]);
                    assert(sub.filter(pred).contains(fs[a]));
                    lemma_filter_subset_airports(sub, pred, fs[a]);
                    let j = choose|j: int| 0 <= j < sub.len() && sub[j] == fs[a];
                    assert(spec_compound_id(s[j]) != spec_compound_id(s[s.len() - 1]));
                } else {
                    assert(fs[a] == sub.filter(pred)[a] && fs[b] == sub.filter(pred)[b]);
                }
            }
        }
    }
}

/// Filtering a list of pairwise-distinct identifiers keeps them distinct.
proof fn lemma_filter_distinct_firs(s: Seq<FIR>, pred: spec_fn(FIR) -> bool)
    requires
        forall|a: int, b: int| 0 <= a < b < s.len() ==> s[a].icao@ != s[b].icao@,
    ensures
        forall|a: int, b: int| 0 <= a < b < s.filter(pred).len()
            ==> s.filter(pred)[a].icao@ != s.filter(pred)[b].icao@,
    decreases s.len(),
{
    reveal(Seq::filter);
    if s.len() > 0 {
        let sub = s.drop_last();
        assert(forall|a: int, b: int| 0 <= a < b < sub.len()
            ==> sub[a].icao@ != sub[b].icao@);
        lemma_filter_distinct_firs(sub, pred);
        if pred(s.last()) {
            let fs = s.filter(pred);
            assert(fs == sub.filter(pred).push(s.last()));
            assert forall|a: int, b: int| 0 <= a < b < fs.len()
                implies fs[a].icao@ != fs[b].icao@ by {
                if b == fs.len() - 1 {
                    assert(fs[a] == sub.filter(pred)[a]);
                    assert(sub.filter(pred).contains(fs[a]));
                    lemma_filter_subset_firs(sub, pred, fs[a]);
                    let j = choose|j: int| 0 <= j < sub.len() && sub[j] == fs[a];
                    assert(s[j].icao@ != s[s.len() - 1].icao@);
                } else {
                    assert(fs[a] == sub.filter(pred)[a] && fs[b] == sub.filter(pred)[b]);
                }
            }
        }
    }
}


/// The region messages of one tick, characterized from the diff facts:
/// the set and delete batches carry exactly the changed live identifiers
/// and the vanished ones.
proof fn lemma_fir_messages(
    msgs: Seq<UpdateMessage>,
    manager: &Manager,
    rect: Rect,
    no_bounds: bool,
    fsent0: Map<Seq<char>, FIR>,
    now_sent: Map<Seq<char>, FIR>,
    fcands: Seq<FIR>,
    fset: Seq<FIR>,
    fdel: Seq<FIR>,
    ae: int,
    fm: int,
)
    requires
        0 <= ae <= fm <= msgs.len(),
        // message classification by position
        forall|k: int| ae <= k < fm ==> fir_set_payload(#[trigger] msgs[k]) == Some(fset)
            && fir_delete_payload(msgs[k]) is None,
        forall|k: int| fm <= k < msgs.len()
            ==> fir_set_payload(#[trigger] msgs[k]) is None
                && fir_delete_payload(msgs[k]) == Some(fdel),
        forall|k: int| 0 <= k < ae ==> fir_set_payload(#[trigger] msgs[k]) is None
            && fir_delete_payload(msgs[k]) is None,
        fset.len() > 0 ==> ae < fm,
        fdel.len() > 0 ==> fm < msgs.len(),
        fset.len() == 0 ==> ae == fm,
        fdel.len() == 0 ==> fm == msgs.len(),
        fm <= ae + 1,
        msgs.len() <= fm + 1,
        // the set list is the delta filter of the candidates, value-wise
        fset.len() == fcands.filter(|f: FIR| fir_delta(fsent0, f)).len(),
        forall|x: int| 0 <= x < fset.len()
            ==> fir_eq(#[trigger] fset[x],
                fcands.filter(|f: FIR| fir_delta(fsent0, f))[x]),
        // candidate facts from the viewport query
        forall|h: int| 0 <= h < fcands.len() ==> (#[trigger] fcands[h]).inv()
            && exists|j: int| 0 <= j < manager.spec_fixed().spec_firs().len()
                && fir_eq(fcands[h], #[trigger] manager.spec_fixed().spec_firs()[j])
                && (no_bounds || crate::manager::rect_meets(
                    rect,
                    crate::manager::fir_env(manager.spec_fixed().spec_firs()[j]),
                ))
                && manager.spec_fixed().spec_firs()[j].controllers.spec_len() > 0,
        forall|j: int| 0 <= j < manager.spec_fixed().spec_firs().len()
            && (#[trigger] manager.spec_fixed().spec_firs()[j]).controllers.spec_len() > 0
            && (no_bounds || crate::manager::rect_meets(
                rect,
                crate::manager::fir_env(manager.spec_fixed().spec_firs()[j]),
            ))
            ==> exists|h: int| 0 <= h < fcands.len()
                && fcands[h].icao@ == manager.spec_fixed().spec_firs()[j].icao@,
        forall|h: int, h2: int| 0 <= h < h2 < fcands.len()
            ==> fcands[h].icao@ != fcands[h2].icao@,
        // the delete list from the diff
        forall|k: int| 0 <= k < fdel.len()
            ==> fsent0.contains_key((#[trigger] fdel[k]).icao@)
                && fir_eq(fdel[k], fsent0[fdel[k].icao@])
                && !(exists|i: int| 0 <= i < fcands.len()
                    && (#[trigger] fcands[i]).icao@ == fdel[k].icao@),
        forall|cs: Seq<char>| #[trigger] fsent0.contains_key(cs)
            && !(exists|i: int| 0 <= i < fcands.len()
                && (#[trigger] fcands[i]).icao@ == cs)
            ==> exists|k: int| 0 <= k < fdel.len() && fdel[k].icao@ == cs,
        // the new state remembers every candidate
        forall|i: int| 0 <= i < fcands.len()
            ==> now_sent.contains_key((#[trigger] fcands[i]).icao@)
                && fir_eq(now_sent[fcands[i].icao@], fcands[i]),
    ensures
        fir_set_batches_ok(msgs, manager, rect, no_bounds, fsent0, now_sent),
        fir_delete_batches_ok(msgs, manager, rect, no_bounds, fsent0),
        forall|cs: Seq<char>| spec_fir_live(manager, rect, no_bounds, cs)
            && (forall|j: int| 0 <= j < manager.spec_fixed().spec_firs().len()
                && (#[trigger] manager.spec_fixed().spec_firs()[j]).icao@ == cs
                && manager.spec_fixed().spec_firs()[j].controllers.spec_len() > 0
                && (no_bounds || crate::manager::rect_meets(
                    rect,
                    crate::manager::fir_env(manager.spec_fixed().spec_firs()[j]),
                ))
                ==> #[trigger] fir_delta(fsent0, manager.spec_fixed().spec_firs()[j]))
            ==> exists|k: int| 0 <= k < msgs.len() && fir_set_has(#[trigger] msgs[k], cs),
        forall|cs: Seq<char>| #[trigger] fsent0.contains_key(cs)
            && !spec_fir_live(manager, rect, no_bounds, cs)
            ==> exists|k: int| 0 <= k < msgs.len() && fir_delete_has(msgs[k], cs),
        forall|k: int, l: int| 0 <= k < l < msgs.len()
            ==> !(fir_set_payload(#[trigger] msgs[k]) is Some
                && fir_set_payload(#[trigger] msgs[l]) is Some),
        forall|k: int, l: int| 0 <= k < l < msgs.len()
            ==> !(fir_delete_payload(#[trigger] msgs[k]) is Some
                && fir_delete_payload(#[trigger] msgs[l]) is Some),
{
    let fpred = |f: FIR| fir_delta(fsent0, f);
    let ffilter = fcands.filter(fpred);
    // each set element is a changed live identifier carried with the value
    // the state now holds
    assert forall|x: int| 0 <= x < fset.len() implies {
        let cs = (#[trigger] fset[x]).icao@;
        &&& spec_fir_live(manager, rect, no_bounds, cs)
        &&& fir_delta(fsent0, fset[x])
        &&& now_sent.contains_key(cs)
        &&& fir_eq(fset[x], now_sent[cs])
    } by {
        let fx = ffilter[x];
        assert(fpred(fx));
        assert(ffilter.contains(fx));
        lemma_filter_subset_firs(fcands, fpred, fx);
        let h = choose|h: int| 0 <= h < fcands.len() && fcands[h] == fx;
        assert(fir_eq(fset[x], fx));
        let cs = fx.icao@;
        let j2 = choose|j2: int| 0 <= j2 < manager.spec_fixed().spec_firs().len()
            && fir_eq(fx, #[trigger] manager.spec_fixed().spec_firs()[j2])
            && (no_bounds || crate::manager::rect_meets(
                rect,
                crate::manager::fir_env(manager.spec_fixed().spec_firs()[j2]),
            ))
            && manager.spec_fixed().spec_firs()[j2].controllers.spec_len() > 0;
        assert(manager.spec_fixed().spec_firs()[j2].icao@ == cs);
        assert(spec_fir_live(manager, rect, no_bounds, cs));
        assert(fir_delta(fsent0, fset[x])) by {
            if !fir_delta(fsent0, fset[x]) {
                assert(fsent0.contains_key(cs));
                assert(fir_eq(fsent0[cs], fset[x]));
                lemma_fir_eq_trans(fsent0[cs], fset[x], fx);
            }
        }
        assert(fir_eq(now_sent[cs], fcands[h]));
        lemma_fir_eq_sym(now_sent[cs], fcands[h]);
        lemma_fir_eq_trans(fset[x], fx, now_sent[cs]);
    }
    assert forall|x: int, y: int| 0 <= x < y < fset.len()
        implies fset[x].icao@ != fset[y].icao@ by {
        lemma_filter_distinct_firs(fcands, fpred);
        assert(fset[x].icao@ == ffilter[x].icao@);
        assert(fset[y].icao@ == ffilter[y].icao@);
    }
    // each delete element is a vanished identifier
    assert forall|x: int| 0 <= x < fdel.len() implies {
        let cs = (#[trigger] fdel[x]).icao@;
        &&& fsent0.contains_key(cs)
        &&& fir_eq(fdel[x], fsent0[cs])
        &&& !spec_fir_live(manager, rect, no_bounds, cs)
    } by {
        let cs = fdel[x].icao@;
        if spec_fir_live(manager, rect, no_bounds, cs) {
            let j = choose|j: int| 0 <= j < manager.spec_fixed().spec_firs().len()
                && (#[trigger] manager.spec_fixed().spec_firs()[j]).icao@ == cs
                && manager.spec_fixed().spec_firs()[j].controllers.spec_len() > 0
                && (no_bounds || crate::manager::rect_meets(
                    rect,
                    crate::manager::fir_env(manager.spec_fixed().spec_firs()[j]),
                ));
            let h = choose|h: int| 0 <= h < fcands.len()
                && (#[trigger] fcands[h]).icao@ == cs;
        }
    }
    // batch facts
    assert forall|k: int| 0 <= k < msgs.len() implies match fir_set_payload(
        #[trigger] msgs[k],
    ) {
        Option::Some(pl) => {
            &&& pl.len() >= 1
            &&& forall|x: int| 0 <= x < pl.len() ==> {
                let cs = (#[trigger] pl[x]).icao@;
                &&& spec_fir_live(manager, rect, no_bounds, cs)
                &&& fir_delta(fsent0, pl[x])
                &&& now_sent.contains_key(cs)
                &&& fir_eq(pl[x], now_sent[cs])
            }
            &&& forall|x: int, y: int| 0 <= x < y < pl.len()
                ==> pl[x].icao@ != pl[y].icao@
        },
        Option::None => true,
    } by {
        if ae <= k < fm {
            let pl = fir_set_payload(msgs[k])->Some_0;
            assert(pl == fset);
        }
    }
    assert forall|k: int| 0 <= k < msgs.len() implies match fir_delete_payload(
        #[trigger] msgs[k],
    ) {
        Option::Some(pl) => {
            &&& pl.len() >= 1
            &&& forall|x: int| 0 <= x < pl.len() ==> {
                let cs = (#[trigger] pl[x]).icao@;
                &&& fsent0.contains_key(cs)
                &&& fir_eq(pl[x], fsent0[cs])
                &&& !spec_fir_live(manager, rect, no_bounds, cs)
            }
        },
        Option::None => true,
    } by {
        if fm <= k {
            let pl = fir_delete_payload(msgs[k])->Some_0;
            assert(pl == fdel);
        }
    }
    // completeness of the set batch
    assert forall|cs: Seq<char>| spec_fir_live(manager, rect, no_bounds, cs)
        && (forall|j: int| 0 <= j < manager.spec_fixed().spec_firs().len()
            && (#[trigger] manager.spec_fixed().spec_firs()[j]).icao@ == cs
            && manager.spec_fixed().spec_firs()[j].controllers.spec_len() > 0
            && (no_bounds || crate::manager::rect_meets(
                rect,
                crate::manager::fir_env(manager.spec_fixed().spec_firs()[j]),
            ))
            ==> #[trigger] fir_delta(fsent0, manager.spec_fixed().spec_firs()[j]))
        implies exists|k: int| 0 <= k < msgs.len()
            && fir_set_has(#[trigger] msgs[k], cs) by {
        let j0 = choose|j0: int| 0 <= j0 < manager.spec_fixed().spec_firs().len()
            && (#[trigger] manager.spec_fixed().spec_firs()[j0]).icao@ == cs
            && manager.spec_fixed().spec_firs()[j0].controllers.spec_len() > 0
            && (no_bounds || crate::manager::rect_meets(
                rect,
                crate::manager::fir_env(manager.spec_fixed().spec_firs()[j0]),
            ));
        let h = choose|h: int| 0 <= h < fcands.len()
            && (#[trigger] fcands[h]).icao@ == cs;
        let j1 = choose|j1: int| 0 <= j1 < manager.spec_fixed().spec_firs().len()
            && fir_eq(fcands[h], #[trigger] manager.spec_fixed().spec_firs()[j1])
            && (no_bounds || crate::manager::rect_meets(
                rect,
                crate::manager::fir_env(manager.spec_fixed().spec_firs()[j1]),
            ))
            && manager.spec_fixed().spec_firs()[j1].controllers.spec_len() > 0;
        assert(manager.spec_fixed().spec_firs()[j1].icao@ == cs);
        assert(fir_delta(fsent0, manager.spec_fixed().spec_firs()[j1]));
        assert(fpred(fcands[h])) by {
            if !fir_delta(fsent0, fcands[h]) {
                assert(fsent0.contains_key(cs));
                assert(fir_eq(fsent0[cs], fcands[h]));
                lemma_fir_eq_trans(fsent0[cs], fcands[h],
                    manager.spec_fixed().spec_firs()[j1]);
            }
        }
        fcands.lemma_filter_contains(fpred, h);
        assert(ffilter.contains(fcands[h]));
        let i = choose|i: int| 0 <= i < ffilter.len() && ffilter[i] == fcands[h];
        assert(fir_eq(fset[i], ffilter[i]));
        assert(fset[i].icao@ == cs);
        assert(fset.len() > 0);
        assert(fir_set_payload(msgs[ae]) == Some(fset));
        let plm = fir_set_payload(msgs[ae])->Some_0;
        assert(plm == fset);
        assert(0 <= i < plm.len() && plm[i].icao@ == cs);
        assert(fir_set_has(msgs[ae], cs));
    }
    // completeness of the delete batch
    assert forall|cs: Seq<char>| #[trigger] fsent0.contains_key(cs)
        && !spec_fir_live(manager, rect, no_bounds, cs)
        implies exists|k: int| 0 <= k < msgs.len()
            && fir_delete_has(msgs[k], cs) by {
        assert(!(exists|h: int| 0 <= h < fcands.len()
            && (#[trigger] fcands[h]).icao@ == cs)) by {
            if exists|h: int| 0 <= h < fcands.len()
                && (#[trigger] fcands[h]).icao@ == cs {
                let h = choose|h: int| 0 <= h < fcands.len()
                    && (#[trigger] fcands[h]).icao@ == cs;
                let j1 = choose|j1: int| 0 <= j1 < manager.spec_fixed().spec_firs().len()
                    && fir_eq(fcands[h], #[trigger] manager.spec_fixed().spec_firs()[j1])
                    && (no_bounds || crate::manager::rect_meets(
                        rect,
                        crate::manager::fir_env(manager.spec_fixed().spec_firs()[j1]),
                    ))
                    && manager.spec_fixed().spec_firs()[j1].controllers.spec_len() > 0;
                assert(manager.spec_fixed().spec_firs()[j1].icao@ == cs);
            }
        }
        let k0 = choose|k0: int| 0 <= k0 < fdel.len()
            && (#[trigger] fdel[k0]).icao@ == cs;
        assert(fdel.len() > 0);
        assert(fir_delete_payload(msgs[fm]) == Some(fdel));
        let plm = fir_delete_payload(msgs[fm])->Some_0;
        assert(plm == fdel);
        assert(0 <= k0 < plm.len() && plm[k0].icao@ == cs);
        assert(fir_delete_has(msgs[fm], cs));
    }
}

/// The previous-view maps of one connected client: the exact objects last
/// sent, keyed as the diff keys them.
pub struct SessionState {
    pilots_state: StrMap<Pilot>,
    airports_state: StrMap<Airport>,
    firs_state: StrMap<FIR>,
}

impl SessionState {
    /// Well-formedness: sound maps whose values carry their own keys.
    pub closed spec fn inv(self) -> bool {
        &&& self.pilots_state.inv()
        &&& self.airports_state.inv()
        &&& self.firs_state.inv()
        &&& forall|cs: Seq<char>| #[trigger] self.pilots_state@.contains_key(cs)
            ==> self.pilots_state@[cs].callsign@ == cs
        &&& forall|cs: Seq<char>| #[trigger] self.airports_state@.contains_key(cs)
            ==> spec_compound_id(self.airports_state@[cs]) == cs
                && self.airports_state@[cs].inv()
        &&& forall|cs: Seq<char>| #[trigger] self.firs_state@.contains_key(cs)
            ==> self.firs_state@[cs].icao@ == cs && self.firs_state@[cs].inv()
    }

    /// The pilots last sent.
    pub closed spec fn pilots_sent(self) -> Map<Seq<char>, Pilot> {
        self.pilots_state@
    }

    /// The airports last sent.
    pub closed spec fn airports_sent(self) -> Map<Seq<char>, Airport> {
        self.airports_state@
    }

    /// The regions last sent.
    pub closed spec fn firs_sent(self) -> Map<Seq<char>, FIR> {
        self.firs_state@
    }

    /// A fresh session that has sent nothing.
    pub fn new() -> (r: SessionState)
        ensures
            r.inv(),
            r.pilots_sent() =~= Map::<Seq<char>, Pilot>::empty(),
            r.airports_sent() =~= Map::<Seq<char>, Airport>::empty(),
            r.firs_sent() =~= Map::<Seq<char>, FIR>::empty(),
    {
        SessionState {
            pilots_state: StrMap::new(),
            airports_state: StrMap::new(),
            firs_state: StrMap::new(),
        }
    }
}


/// The candidates that pass the session's filter, in order, keeping the
/// callsigns distinct.
#[verifier::rlimit(80)]
fn filter_candidates(candidates: &Vec<Pilot>, filter: Option<&Expression>) -> (r: Vec<Pilot>)
    requires
        match filter {
            Option::Some(f) => expr_wf(*f),
            Option::None => true,
        },
        forall|a: int, b: int| 0 <= a < b < candidates@.len()
            ==> candidates@[a].callsign@ != candidates@[b].callsign@,
    ensures
        forall|x: int| 0 <= x < r@.len() ==> candidates@.contains(#[trigger] r@[x])
            && spec_pilot_passes(filter, r@[x]),
        forall|i0: int| 0 <= i0 < candidates@.len()
            && spec_pilot_passes(filter, #[trigger] candidates@[i0])
            ==> exists|x: int| 0 <= x < r@.len()
                && r@[x].callsign@ == candidates@[i0].callsign@,
        forall|x: int, y: int| 0 <= x < y < r@.len()
            ==> r@[x].callsign@ != r@[y].callsign@,
{
    let mut cand2: Vec<Pilot> = Vec::new();
    let n: usize = candidates.len();
    let mut i: usize = 0;
    while i < n
        invariant
            i <= n,
            n == candidates@.len(),
            match filter {
                Option::Some(f) => expr_wf(*f),
                Option::None => true,
            },
            forall|a: int, b: int| 0 <= a < b < candidates@.len()
                ==> candidates@[a].callsign@ != candidates@[b].callsign@,
            forall|x: int| 0 <= x < cand2@.len()
                ==> candidates@.subrange(0, i as int).contains(#[trigger] cand2@[x])
                    && spec_pilot_passes(filter, cand2@[x]),
            forall|i0: int| 0 <= i0 < i
                && spec_pilot_passes(filter, #[trigger] candidates@[i0])
                ==> exists|x: int| 0 <= x < cand2@.len()
                    && cand2@[x].callsign@ == candidates@[i0].callsign@,
            forall|x: int, y: int| 0 <= x < y < cand2@.len()
                ==> cand2@[x].callsign@ != cand2@[y].callsign@,
        decreases n - i,
    {
        let p = &candidates[i];
        let keep: bool = match filter {
            Option::Some(f) => f.evaluate(p),
            Option::None => true,
        };
        let ghost cand_pre = cand2@;
        if keep {
            cand2.push(p.duplicate());
        }
        proof {
            assert forall|x: int| 0 <= x < cand2@.len()
                implies candidates@.subrange(0, i as int + 1).contains(#[trigger] cand2@[x])
                    && spec_pilot_passes(filter, cand2@[x]) by {
                let sub1 = candidates@.subrange(0, i as int + 1);
                if x < cand_pre.len() {
                    assert(cand2@[x] == cand_pre[x]);
                    let i1 = choose|i1: int| 0 <= i1
                        < candidates@.subrange(0, i as int).len()
                        && candidates@.subrange(0, i as int)[i1] == cand_pre[x];
                    assert(sub1[i1] == cand2@[x]);
                } else {
                    assert(cand2@[x] == candidates@[i as int]);
                    assert(sub1[i as int] == cand2@[x]);
                }
            }
            assert forall|i0: int| 0 <= i0 < i as int + 1
                && spec_pilot_passes(filter, #[trigger] candidates@[i0])
                implies exists|x: int| 0 <= x < cand2@.len()
                    && cand2@[x].callsign@ == candidates@[i0].callsign@ by {
                if i0 < i as int {
                    let x0 = choose|x0: int| 0 <= x0 < cand_pre.len()
                        && cand_pre[x0].callsign@ == candidates@[i0].callsign@;
                    assert(cand2@[x0] == cand_pre[x0]);
                } else {
                    assert(cand2@[cand2@.len() - 1].callsign@ == candidates@[i0].callsign@);
                }
            }
            assert forall|x: int, y: int| 0 <= x < y < cand2@.len()
                implies cand2@[x].callsign@ != cand2@[y].callsign@ by {
                if y == cand2@.len() - 1 && cand2@.len() > cand_pre.len() {
                    assert(cand2@[x] == cand_pre[x]);
                    let sub = candidates@.subrange(0, i as int);
                    let i1 = choose|i1: int| 0 <= i1 < sub.len() && sub[i1] == cand_pre[x];
                    assert(cand2@[x] == candidates@[i1]);
                    assert(cand2@[y] == candidates@[i as int]);
                    assert(i1 < i as int);
                }
            }
        }
        i += 1;
    }
    proof {
        assert(candidates@.subrange(0, n as int) =~= candidates@);
    }
    cand2
}

/// One cadence tick of a client session: query the viewport, apply the
/// compiled filter, diff against what was last sent, and build the
/// messages to emit — pilot batches of at most one hundred first, then the
/// pilot deletions, then airports, then regions, every empty message
/// suppressed.
///
/// A tick that finds the pilot state already equal to the filtered
/// viewport emits no pilot message at all: the second pass over one
/// snapshot is silent.
#[verifier::rlimit(100)]
#[verifier::spinoff_prover]
pub fn session_tick(
    connection_id: &String,
    manager: &Manager,
    rect: &Rect,
    no_bounds: bool,
    filter: Option<&Expression>,
    state: &mut SessionState,
) -> (r: Vec<UpdateMessage>)
    requires
        manager.inv(),
        old(state).inv(),
        match filter {
            Option::Some(f) => expr_wf(*f),
            Option::None => true,
        },
    ensures
        final(state).inv(),
        // every message belongs to this connection and carries data
        forall|k: int| 0 <= k < r@.len() ==> {
            let msg = #[trigger] r@[k];
            &&& msg.connection_id@ == connection_id@
            &&& msg.message_type@ == "update"@
            &&& !spec_update_empty(msg.data)
            &&& (msg.object_type@ == "pilot"@ || msg.object_type@ == "airport"@
                || msg.object_type@ == "fir"@)
        },
        // kinds are emitted in order: pilots, then airports, then regions
        forall|k: int, l: int| 0 <= k < l < r@.len()
            ==> kind_rank(r@[k].object_type@) <= kind_rank(r@[l].object_type@),
        // the new pilot state is exactly the filtered viewport
        forall|cs: Seq<char>| final(state).pilots_sent().contains_key(cs)
            <==> manager.pilots_view().contains_key(cs)
                && spec_pilot_covered(*rect, no_bounds, manager.pilots_view()[cs])
                && spec_pilot_passes(filter, manager.pilots_view()[cs]),
        forall|cs: Seq<char>| #[trigger] final(state).pilots_sent().contains_key(cs)
            ==> final(state).pilots_sent()[cs] == manager.pilots_view()[cs],
        // the airports-set batch: at most one, holding exactly the changed
        // staffed covered airports, deep-equal to the static data's records
        forall|k: int| 0 <= k < r@.len() ==> match airport_set_payload(#[trigger] r@[k]) {
            Option::Some(pl) => {
                &&& pl.len() >= 1
                &&& forall|x: int| 0 <= x < pl.len() ==> {
                    let cid = spec_compound_id(#[trigger] pl[x]);
                    &&& manager.spec_fixed().spec_compound().contains_key(cid)
                    &&& !crate::moving::spec_controller_set_empty(
                        manager.spec_fixed().spec_airports()[
                            manager.spec_fixed().spec_compound()[cid]@].controllers,
                    )
                    &&& (no_bounds || rect_covers(
                        *rect,
                        manager.spec_fixed().spec_airports()[
                            manager.spec_fixed().spec_compound()[cid]@].position.lng as int,
                        manager.spec_fixed().spec_airports()[
                            manager.spec_fixed().spec_compound()[cid]@].position.lat as int,
                    ))
                    &&& airport_delta(old(state).airports_sent(), pl[x])
                    &&& airport_eq(pl[x], manager.spec_fixed().spec_airports()[
                        manager.spec_fixed().spec_compound()[cid]@])
                }
                &&& forall|x: int, y: int| 0 <= x < y < pl.len()
                    ==> spec_compound_id(pl[x]) != spec_compound_id(pl[y])
            },
            Option::None => true,
        },
        forall|k: int, l: int| 0 <= k < l < r@.len()
            ==> !(airport_set_payload(#[trigger] r@[k]) is Some
                && airport_set_payload(#[trigger] r@[l]) is Some),
        // every changed staffed covered airport reaches the set batch
        forall|cid: Seq<char>|
            #[trigger] manager.spec_fixed().spec_compound().contains_key(cid)
            && !crate::moving::spec_controller_set_empty(
                manager.spec_fixed().spec_airports()[
                    manager.spec_fixed().spec_compound()[cid]@].controllers,
            )
            && (no_bounds || rect_covers(
                *rect,
                manager.spec_fixed().spec_airports()[
                    manager.spec_fixed().spec_compound()[cid]@].position.lng as int,
                manager.spec_fixed().spec_airports()[
                    manager.spec_fixed().spec_compound()[cid]@].position.lat as int,
            ))
            && airport_delta(old(state).airports_sent(),
                manager.spec_fixed().spec_airports()[
                    manager.spec_fixed().spec_compound()[cid]@])
            ==> exists|k: int| 0 <= k < r@.len() && airport_set_has(r@[k], cid),
        // the airports-delete batch holds exactly the vanished airports,
        // as last sent, at most once
        forall|k: int| 0 <= k < r@.len() ==> match airport_delete_payload(#[trigger] r@[k]) {
            Option::Some(pl) => {
                &&& pl.len() >= 1
                &&& forall|x: int| 0 <= x < pl.len() ==> {
                    let cid = spec_compound_id(#[trigger] pl[x]);
                    &&& old(state).airports_sent().contains_key(cid)
                    &&& airport_eq(pl[x], old(state).airports_sent()[cid])
                    &&& !(manager.spec_fixed().spec_compound().contains_key(cid)
                        && !crate::moving::spec_controller_set_empty(
                            manager.spec_fixed().spec_airports()[
                                manager.spec_fixed().spec_compound()[cid]@].controllers,
                        )
                        && (no_bounds || rect_covers(
                            *rect,
                            manager.spec_fixed().spec_airports()[
                                manager.spec_fixed().spec_compound()[cid]@]
                                .position.lng as int,
                            manager.spec_fixed().spec_airports()[
                                manager.spec_fixed().spec_compound()[cid]@]
                                .position.lat as int,
                        )))
                }
            },
            Option::None => true,
        },
        forall|k: int, l: int| 0 <= k < l < r@.len()
            ==> !(airport_delete_payload(#[trigger] r@[k]) is Some
                && airport_delete_payload(#[trigger] r@[l]) is Some),
        // every vanished airport reaches the delete batch
        forall|cid: Seq<char>| #[trigger] old(state).airports_sent().contains_key(cid)
            && !(manager.spec_fixed().spec_compound().contains_key(cid)
                && !crate::moving::spec_controller_set_empty(
                    manager.spec_fixed().spec_airports()[
                        manager.spec_fixed().spec_compound()[cid]@].controllers,
                )
                && (no_bounds || rect_covers(
                    *rect,
                    manager.spec_fixed().spec_airports()[
                        manager.spec_fixed().spec_compound()[cid]@].position.lng as int,
                    manager.spec_fixed().spec_airports()[
                        manager.spec_fixed().spec_compound()[cid]@].position.lat as int,
                )))
            ==> exists|k: int| 0 <= k < r@.len() && airport_delete_has(r@[k], cid),
        // the new airport state is exactly the staffed covered airports
        forall|cid: Seq<char>| final(state).airports_sent().contains_key(cid)
            <==> manager.spec_fixed().spec_compound().contains_key(cid)
                && !crate::moving::spec_controller_set_empty(
                    manager.spec_fixed().spec_airports()[
                        manager.spec_fixed().spec_compound()[cid]@].controllers,
                )
                && (no_bounds || rect_covers(
                    *rect,
                    manager.spec_fixed().spec_airports()[
                        manager.spec_fixed().spec_compound()[cid]@].position.lng as int,
                    manager.spec_fixed().spec_airports()[
                        manager.spec_fixed().spec_compound()[cid]@].position.lat as int,
                )),
        forall|cid: Seq<char>| #[trigger] final(state).airports_sent().contains_key(cid)
            ==> airport_eq(
                final(state).airports_sent()[cid],
                manager.spec_fixed().spec_airports()[
                    manager.spec_fixed().spec_compound()[cid]@],
            ),
        // the regions-set batch: at most one, holding exactly the changed
        // staffed regions touching the viewport, deep-equal to loaded
        // records, one per identifier
        fir_set_batches_ok(r@, manager, *rect, no_bounds, old(state).firs_sent(),
            final(state).firs_sent()),
        forall|k: int, l: int| 0 <= k < l < r@.len()
            ==> !(fir_set_payload(#[trigger] r@[k]) is Some
                && fir_set_payload(#[trigger] r@[l]) is Some),
        // a live identifier all of whose records changed reaches the batch
        forall|cs: Seq<char>| spec_fir_live(manager, *rect, no_bounds, cs)
            && (forall|j: int| 0 <= j < manager.spec_fixed().spec_firs().len()
                && (#[trigger] manager.spec_fixed().spec_firs()[j]).icao@ == cs
                && manager.spec_fixed().spec_firs()[j].controllers.spec_len() > 0
                && (no_bounds || crate::manager::rect_meets(
                    *rect,
                    crate::manager::fir_env(manager.spec_fixed().spec_firs()[j]),
                ))
                ==> fir_delta(#[trigger] old(state).firs_sent(),
                    manager.spec_fixed().spec_firs()[j]))
            ==> exists|k: int| 0 <= k < r@.len() && fir_set_has(#[trigger] r@[k], cs),
        // the regions-delete batch holds exactly the vanished identifiers,
        // as last sent, at most once
        fir_delete_batches_ok(r@, manager, *rect, no_bounds, old(state).firs_sent()),
        forall|k: int, l: int| 0 <= k < l < r@.len()
            ==> !(fir_delete_payload(#[trigger] r@[k]) is Some
                && fir_delete_payload(#[trigger] r@[l]) is Some),
        // every vanished identifier reaches the delete batch
        forall|cs: Seq<char>| #[trigger] old(state).firs_sent().contains_key(cs)
            && !spec_fir_live(manager, *rect, no_bounds, cs)
            ==> exists|k: int| 0 <= k < r@.len() && fir_delete_has(r@[k], cs),
        // the new region state holds one entry per staffed region
        // identifier touching the viewport, deep-equal to such a region
        forall|cs: Seq<char>| final(state).firs_sent().contains_key(cs)
            <==> exists|j: int| 0 <= j < manager.spec_fixed().spec_firs().len()
                && (#[trigger] manager.spec_fixed().spec_firs()[j]).icao@ == cs
                && manager.spec_fixed().spec_firs()[j].controllers.spec_len() > 0
                && (no_bounds || crate::manager::rect_meets(
                    *rect,
                    crate::manager::fir_env(manager.spec_fixed().spec_firs()[j]),
                )),
        forall|cs: Seq<char>| #[trigger] final(state).firs_sent().contains_key(cs)
            ==> exists|j: int| 0 <= j < manager.spec_fixed().spec_firs().len()
                && (#[trigger] manager.spec_fixed().spec_firs()[j]).icao@ == cs
                && manager.spec_fixed().spec_firs()[j].controllers.spec_len() > 0
                && fir_eq(final(state).firs_sent()[cs], manager.spec_fixed().spec_firs()[j]),
        // every pilots-set batch holds only changed candidates, at most one
        // hundred of them, each carried with its live value
        forall|k: int| 0 <= k < r@.len() ==> match pilot_set_payload(#[trigger] r@[k]) {
            Option::Some(pl) => {
                &&& 1 <= pl.len() <= 100
                &&& forall|x: int| 0 <= x < pl.len() ==> {
                    let cs = (#[trigger] pl[x]).callsign@;
                    &&& spec_pilot_candidate(manager, *rect, no_bounds, filter, cs)
                    &&& pilot_delta(old(state).pilots_sent(), manager.pilots_view()[cs])
                    &&& pl[x] == manager.pilots_view()[cs]
                }
                &&& forall|x: int, y: int| 0 <= x < y < pl.len()
                    ==> pl[x].callsign@ != pl[y].callsign@
            },
            Option::None => true,
        },
        // every changed candidate reaches some pilots-set batch
        forall|cs: Seq<char>|
            spec_pilot_candidate(manager, *rect, no_bounds, filter, cs)
            && pilot_delta(old(state).pilots_sent(),
                #[trigger] manager.pilots_view()[cs])
            ==> exists|k: int| 0 <= k < r@.len() && pilot_set_has(r@[k], cs),
        // batches before the last pilots-set batch are full
        forall|k: int, l: int| 0 <= k < l < r@.len()
            && pilot_set_payload(#[trigger] r@[k]) is Some
            && pilot_set_payload(#[trigger] r@[l]) is Some
            ==> pilot_set_payload(r@[k])->Some_0.len() == 100,
        // no callsign is set by two different batches (within one batch the
        // batch clause above keeps them distinct)
        forall|k: int, l: int| 0 <= k < l < r@.len()
            ==> !pilot_sets_share(#[trigger] r@[k], #[trigger] r@[l]),
        // the pilots-delete batch holds exactly the vanished pilots, as
        // last sent, and is emitted at most once
        forall|k: int| 0 <= k < r@.len() ==> match pilot_delete_payload(#[trigger] r@[k]) {
            Option::Some(pl) => {
                &&& pl.len() >= 1
                &&& forall|x: int| 0 <= x < pl.len() ==> {
                    let cs = (#[trigger] pl[x]).callsign@;
                    &&& old(state).pilots_sent().contains_key(cs)
                    &&& !spec_pilot_candidate(manager, *rect, no_bounds, filter, cs)
                    &&& pl[x] == old(state).pilots_sent()[cs]
                }
                &&& forall|x: int, y: int| 0 <= x < y < pl.len()
                    ==> pl[x].callsign@ != pl[y].callsign@
            },
            Option::None => true,
        },
        forall|k: int, l: int| 0 <= k < l < r@.len()
            ==> !(pilot_delete_payload(#[trigger] r@[k]) is Some
                && pilot_delete_payload(#[trigger] r@[l]) is Some),
        // every vanished pilot reaches the delete batch
        forall|cs: Seq<char>| #[trigger] old(state).pilots_sent().contains_key(cs)
            && !spec_pilot_candidate(manager, *rect, no_bounds, filter, cs)
            ==> exists|k: int| 0 <= k < r@.len() && pilot_delete_has(r@[k], cs),
        // a tick that finds nothing changed among the pilots sends no
        // pilot message
        (forall|cs: Seq<char>| (#[trigger] old(state).pilots_sent().contains_key(cs)
                <==> manager.pilots_view().contains_key(cs)
                    && spec_pilot_covered(*rect, no_bounds, manager.pilots_view()[cs])
                    && spec_pilot_passes(filter, manager.pilots_view()[cs]))
            && (old(state).pilots_sent().contains_key(cs)
                ==> pilot_eq(old(state).pilots_sent()[cs], manager.pilots_view()[cs])))
            ==> forall|k: int| 0 <= k < r@.len()
                ==> (#[trigger] r@[k]).object_type@ != "pilot"@,
{
    proof {
        reveal_strlit("pilot");
        reveal_strlit("airport");
        reveal_strlit("fir");
    }
    let candidates: Vec<Pilot> = if no_bounds {
        manager.get_all_pilots()
    } else {
        manager.get_pilots(rect)
    };
    proof {
        assert forall|i: int| 0 <= i < candidates@.len()
            implies manager.pilots_view().contains_key((#[trigger] candidates@[i]).callsign@)
                && candidates@[i] == manager.pilots_view()[candidates@[i].callsign@]
                && spec_pilot_covered(*rect, no_bounds, candidates@[i]) by {}
        assert forall|cs: Seq<char>| #[trigger] manager.pilots_view().contains_key(cs)
            && spec_pilot_covered(*rect, no_bounds, manager.pilots_view()[cs])
            implies exists|i: int| 0 <= i < candidates@.len()
                && candidates@[i].callsign@ == cs by {}
    }
    let cand2: Vec<Pilot> = filter_candidates(&candidates, filter);
    let ghost sent0 = state.pilots_state@;
    let (pset, pdel) = calc_pilots(&cand2, &mut state.pilots_state);
    let ghost pdel_seq = pdel@;
    let ghost pset_seq = pset@;
    let mut msgs: Vec<UpdateMessage> = chunk_pilot_sets(connection_id, pset);
    let ghost npc = msgs@.len();
    if pdel.len() > 0 {
        msgs.push(UpdateMessage::pilots_delete(connection_id, pdel));
    }
    let ghost pilots_end = msgs@.len();
    proof {
        assert forall|k: int| 0 <= k < msgs@.len() implies {
            let msg = #[trigger] msgs@[k];
            msg.connection_id@ == connection_id@ && msg.message_type@ == "update"@
                && !spec_update_empty(msg.data) && msg.object_type@ == "pilot"@
        } by {}
    }
    // the airports of the viewport, diffed the same way
    let acands: Vec<Airport> = if no_bounds {
        manager.get_all_airports()
    } else {
        manager.get_airports(rect)
    };
    let ghost acands_seq = acands@;
    let ghost asent0 = state.airports_state@;
    let (aset, adel) = calc_airports(&acands, &mut state.airports_state);
    let ghost aset_seq = aset@;
    let ghost adel_seq = adel@;
    if aset.len() > 0 {
        msgs.push(UpdateMessage::airports_set(connection_id, aset));
    }
    let ghost a_mid = msgs@.len();
    if adel.len() > 0 {
        msgs.push(UpdateMessage::airports_delete(connection_id, adel));
    }
    let ghost airports_end = msgs@.len();
    // the regions of the viewport, diffed the same way
    let fcands: Vec<FIR> = if no_bounds {
        manager.get_all_firs()
    } else {
        manager.get_firs(rect)
    };
    let ghost fcands_seq = fcands@;
    let ghost fsent0 = state.firs_state@;
    let (fset, fdel) = calc_firs(&fcands, &mut state.firs_state);
    let ghost fset_seq = fset@;
    let ghost fdel_seq = fdel@;
    if fset.len() > 0 {
        msgs.push(UpdateMessage::firs_set(connection_id, fset));
    }
    let ghost f_mid = msgs@.len();
    if fdel.len() > 0 {
        msgs.push(UpdateMessage::firs_delete(connection_id, fdel));
    }
    proof {
        reveal_strlit("pilot");
        reveal_strlit("airport");
        reveal_strlit("fir");
        assert("pilot"@.len() == 5);
        assert("airport"@.len() == 7);
        assert("fir"@.len() == 3);
        assert("pilot"@ != "airport"@ && "pilot"@ != "fir"@ && "airport"@ != "fir"@);
        assert forall|k: int| 0 <= k < msgs@.len() implies {
            let msg = #[trigger] msgs@[k];
            &&& msg.connection_id@ == connection_id@
            &&& msg.message_type@ == "update"@
            &&& !spec_update_empty(msg.data)
            &&& msg.object_type@ == (if k < pilots_end {
                "pilot"@
            } else if k < airports_end {
                "airport"@
            } else {
                "fir"@
            })
        } by {}
        assert forall|k: int, l: int| 0 <= k < l < msgs@.len()
            implies kind_rank(msgs@[k].object_type@)
                <= kind_rank(msgs@[l].object_type@) by {
            assert(kind_rank("pilot"@) == 0 && kind_rank("airport"@) == 1
                && kind_rank("fir"@) == 2);
        }
        // classify each message's pilot payloads by its position
        broadcast use vstd::seq_lib::group_filter_ensures;

        let pred = |p: Pilot| pilot_delta(sent0, p);
        assert forall|k: int| 0 <= k < msgs@.len() implies {
            &&& (k < npc ==> pilot_set_payload(#[trigger] msgs@[k]) == Some(
                pset_seq.subrange(
                    k * 100,
                    if k * 100 + 100 <= pset_seq.len() {
                        k * 100 + 100
                    } else {
                        pset_seq.len() as int
                    },
                ),
            ) && pilot_delete_payload(msgs@[k]) is None)
            &&& (npc <= k < pilots_end ==> pilot_set_payload(msgs@[k]) is None
                && pilot_delete_payload(msgs@[k]) == Some(pdel_seq))
            &&& (pilots_end <= k ==> pilot_set_payload(msgs@[k]) is None
                && pilot_delete_payload(msgs@[k]) is None)
        } by {}
        // the set list is the delta filter of the filtered candidates, and
        // each of its elements is a changed candidate's live value
        assert(pset_seq == cand2@.filter(pred));
        assert forall|i: int| 0 <= i < pset_seq.len() implies {
            let cs = (#[trigger] pset_seq[i]).callsign@;
            &&& spec_pilot_candidate(manager, *rect, no_bounds, filter, cs)
            &&& pilot_delta(old(state).pilots_sent(), manager.pilots_view()[cs])
            &&& pset_seq[i] == manager.pilots_view()[cs]
        } by {
            let e = pset_seq[i];
            assert(pred(e));
            assert(pset_seq.contains(e));
            lemma_filter_subset_pilots(cand2@, pred, e);
            let x = choose|x: int| 0 <= x < cand2@.len() && cand2@[x] == e;
            assert(candidates@.contains(e) && spec_pilot_passes(filter, e));
            let i1 = choose|i1: int| 0 <= i1 < candidates@.len() && candidates@[i1] == e;
            let cs = e.callsign@;
            assert(manager.pilots_view().contains_key(cs));
            assert(e == manager.pilots_view()[cs]);
        }
        assert forall|a: int, b: int| 0 <= a < b < pset_seq.len()
            implies pset_seq[a].callsign@ != pset_seq[b].callsign@ by {
            lemma_filter_distinct_pilots(cand2@, pred);
        }
        // each delete element is a vanished pilot as last sent
        assert forall|x: int| 0 <= x < pdel_seq.len() implies {
            let cs = (#[trigger] pdel_seq[x]).callsign@;
            &&& old(state).pilots_sent().contains_key(cs)
            &&& !spec_pilot_candidate(manager, *rect, no_bounds, filter, cs)
            &&& pdel_seq[x] == old(state).pilots_sent()[cs]
        } by {
            let cs = pdel_seq[x].callsign@;
            if spec_pilot_candidate(manager, *rect, no_bounds, filter, cs) {
                let i1 = choose|i1: int| 0 <= i1 < candidates@.len()
                    && (#[trigger] candidates@[i1]).callsign@ == cs;
                assert(candidates@[i1] == manager.pilots_view()[cs]);
                assert(spec_pilot_passes(filter, candidates@[i1]));
                let x2 = choose|x2: int| 0 <= x2 < cand2@.len()
                    && (#[trigger] cand2@[x2]).callsign@ == cs;
            }
        }
        // completeness of the set batches: a changed candidate lands in
        // the chunk its filter position falls into
        assert forall|cs: Seq<char>|
            spec_pilot_candidate(manager, *rect, no_bounds, filter, cs)
            && pilot_delta(old(state).pilots_sent(),
                #[trigger] manager.pilots_view()[cs])
            implies exists|k: int| 0 <= k < msgs@.len()
                && pilot_set_has(msgs@[k], cs) by {
            let i1 = choose|i1: int| 0 <= i1 < candidates@.len()
                && (#[trigger] candidates@[i1]).callsign@ == cs;
            assert(candidates@[i1] == manager.pilots_view()[cs]);
            assert(spec_pilot_passes(filter, candidates@[i1]));
            let x2 = choose|x2: int| 0 <= x2 < cand2@.len()
                && (#[trigger] cand2@[x2]).callsign@ == cs;
            assert(cand2@[x2] == candidates@[i1]) by {
                assert(candidates@.contains(cand2@[x2]));
                let i2 = choose|i2: int| 0 <= i2 < candidates@.len()
                    && candidates@[i2] == cand2@[x2];
                if i2 != i1 {
                    assert(candidates@[i2].callsign@ == candidates@[i1].callsign@);
                }
            }
            assert(pred(cand2@[x2]));
            cand2@.lemma_filter_contains(pred, x2);
            assert(pset_seq.contains(cand2@[x2]));
            let i = choose|i: int| 0 <= i < pset_seq.len() && pset_seq[i] == cand2@[x2];
            let k = i / 100;
            assert(0 <= k && k * 100 <= i && i < k * 100 + 100);
            assert(k < npc) by {
                if k >= npc {
                    assert(i >= npc * 100) by (nonlinear_arith)
                        requires
                            k >= npc,
                            i >= k * 100,
                    ;
                    assert(pset_seq.len() <= npc * 100);
                }
            }
            let pl = pilot_set_payload(msgs@[k])->Some_0;
            assert(pl[i - k * 100] == pset_seq[i]);
            assert(pilot_set_has(msgs@[k], cs));
        }
        // completeness of the delete batch
        assert forall|cs: Seq<char>| #[trigger] old(state).pilots_sent().contains_key(cs)
            && !spec_pilot_candidate(manager, *rect, no_bounds, filter, cs)
            implies exists|k: int| 0 <= k < msgs@.len()
                && pilot_delete_has(msgs@[k], cs) by {
            assert(sent0.contains_key(cs));
            assert(!(exists|x: int| 0 <= x < cand2@.len()
                && (#[trigger] cand2@[x]).callsign@ == cs)) by {
                if exists|x: int| 0 <= x < cand2@.len()
                    && (#[trigger] cand2@[x]).callsign@ == cs {
                    let x = choose|x: int| 0 <= x < cand2@.len()
                        && (#[trigger] cand2@[x]).callsign@ == cs;
                    assert(candidates@.contains(cand2@[x]));
                    let i2 = choose|i2: int| 0 <= i2 < candidates@.len()
                        && candidates@[i2] == cand2@[x];
                    assert(manager.pilots_view().contains_key(cs));
                    assert(cand2@[x] == manager.pilots_view()[cs]);
                    assert(spec_pilot_passes(filter, cand2@[x]));
                }
            }
            let k0 = choose|k0: int| 0 <= k0 < pdel_seq.len()
                && (#[trigger] pdel_seq[k0]).callsign@ == cs;
            assert(pdel_seq.len() > 0);
            assert(pilot_delete_payload(msgs@[npc as int]) == Some(pdel_seq));
            assert(pilot_delete_has(msgs@[npc as int], cs));
        }
        // no callsign is set by two different batches: their payloads are
        // disjoint slices of the one filtered list
        assert forall|k: int, l: int| 0 <= k < l < msgs@.len()
            implies !pilot_sets_share(#[trigger] msgs@[k], #[trigger] msgs@[l]) by {
            if pilot_sets_share(msgs@[k], msgs@[l]) {
                let cs = choose|cs: Seq<char>| #[trigger] pilot_set_has(msgs@[k], cs)
                    && pilot_set_has(msgs@[l], cs);
                assert(k < npc && l < npc);
                let plk = pilot_set_payload(msgs@[k])->Some_0;
                let pll = pilot_set_payload(msgs@[l])->Some_0;
                let x = choose|x: int| 0 <= x < plk.len() && plk[x].callsign@ == cs;
                let y = choose|y: int| 0 <= y < pll.len() && pll[y].callsign@ == cs;
                let i = k * 100 + x;
                let j = l * 100 + y;
                assert(plk[x] == pset_seq[i] && pll[y] == pset_seq[j]);
                assert(i < j) by {
                    assert(i < k * 100 + 100);
                    assert(k * 100 + 100 <= l * 100) by (nonlinear_arith)
                        requires
                            k < l,
                    ;
                }
                assert(pset_seq[i].callsign@ != pset_seq[j].callsign@);
            }
        }
        // airports: classify the payloads and characterize the batches
        assert(asent0 == old(state).airports_sent());
        let apred = |a: Airport| airport_delta(asent0, a);
        let afilter = acands_seq.filter(apred);
        assert forall|k: int| 0 <= k < msgs@.len() implies {
            &&& (pilots_end <= k < a_mid
                ==> airport_set_payload(#[trigger] msgs@[k]) == Some(aset_seq)
                    && airport_delete_payload(msgs@[k]) is None)
            &&& (a_mid <= k < airports_end ==> airport_set_payload(msgs@[k]) is None
                && airport_delete_payload(msgs@[k]) == Some(adel_seq))
            &&& (!(pilots_end <= k < a_mid) ==> airport_set_payload(msgs@[k]) is None)
            &&& (!(a_mid <= k < airports_end)
                ==> airport_delete_payload(msgs@[k]) is None)
        } by {}
        // every candidate airport in range carries the record's data
        assert forall|h: int| 0 <= h < acands_seq.len() implies {
            let cid = spec_compound_id(#[trigger] acands_seq[h]);
            let rec = manager.spec_fixed().spec_airports()[
                manager.spec_fixed().spec_compound()[cid]@];
            &&& manager.spec_fixed().spec_compound().contains_key(cid)
            &&& airport_eq(acands_seq[h], rec)
            &&& !crate::moving::spec_controller_set_empty(rec.controllers)
            &&& (no_bounds || rect_covers(*rect, rec.position.lng as int,
                rec.position.lat as int))
        } by {
            let cid = spec_compound_id(acands_seq[h]);
            let rec = manager.spec_fixed().spec_airports()[
                manager.spec_fixed().spec_compound()[cid]@];
            assert(airport_eq(acands_seq[h], rec));
            assert(!crate::moving::spec_controller_set_empty(acands_seq[h].controllers));
            assert(acands_seq[h].position == rec.position);
        }
        // set batch membership and distinctness
        assert forall|x: int| 0 <= x < aset_seq.len() implies {
            let cid = spec_compound_id(#[trigger] aset_seq[x]);
            let rec = manager.spec_fixed().spec_airports()[
                manager.spec_fixed().spec_compound()[cid]@];
            &&& manager.spec_fixed().spec_compound().contains_key(cid)
            &&& !crate::moving::spec_controller_set_empty(rec.controllers)
            &&& (no_bounds || rect_covers(*rect, rec.position.lng as int,
                rec.position.lat as int))
            &&& airport_delta(old(state).airports_sent(), aset_seq[x])
            &&& airport_eq(aset_seq[x], rec)
        } by {
            let fx = afilter[x];
            assert(apred(fx));
            assert(afilter.contains(fx));
            lemma_filter_subset_airports(acands_seq, apred, fx);
            let h = choose|h: int| 0 <= h < acands_seq.len() && acands_seq[h] == fx;
            assert(airport_eq(aset_seq[x], fx));
            let cid = spec_compound_id(fx);
            assert(spec_compound_id(aset_seq[x]) == cid);
            let rec = manager.spec_fixed().spec_airports()[
                manager.spec_fixed().spec_compound()[cid]@];
            assert(airport_eq(fx, rec));
            lemma_airport_eq_trans(aset_seq[x], fx, rec);
            // the delta carries over to the deep-equal copy
            assert(airport_delta(asent0, aset_seq[x])) by {
                if !airport_delta(asent0, aset_seq[x]) {
                    assert(asent0.contains_key(cid));
                    assert(airport_eq(asent0[cid], aset_seq[x]));
                    lemma_airport_eq_trans(asent0[cid], aset_seq[x], fx);
                }
            }
        }
        assert forall|x: int, y: int| 0 <= x < y < aset_seq.len()
            implies spec_compound_id(aset_seq[x]) != spec_compound_id(aset_seq[y]) by {
            lemma_filter_distinct_airports(acands_seq, apred);
            assert(spec_compound_id(aset_seq[x]) == spec_compound_id(afilter[x]));
            assert(spec_compound_id(aset_seq[y]) == spec_compound_id(afilter[y]));
        }
        // set completeness
        assert forall|cid: Seq<char>|
            #[trigger] manager.spec_fixed().spec_compound().contains_key(cid)
            && !crate::moving::spec_controller_set_empty(
                manager.spec_fixed().spec_airports()[
                    manager.spec_fixed().spec_compound()[cid]@].controllers,
            )
            && (no_bounds || rect_covers(
                *rect,
                manager.spec_fixed().spec_airports()[
                    manager.spec_fixed().spec_compound()[cid]@].position.lng as int,
                manager.spec_fixed().spec_airports()[
                    manager.spec_fixed().spec_compound()[cid]@].position.lat as int,
            ))
            && airport_delta(old(state).airports_sent(),
                manager.spec_fixed().spec_airports()[
                    manager.spec_fixed().spec_compound()[cid]@])
            implies exists|k: int| 0 <= k < msgs@.len()
                && airport_set_has(msgs@[k], cid) by {
            let rec = manager.spec_fixed().spec_airports()[
                manager.spec_fixed().spec_compound()[cid]@];
            let h = choose|h: int| 0 <= h < acands_seq.len()
                && spec_compound_id(#[trigger] acands_seq[h]) == cid;
            assert(airport_eq(acands_seq[h], rec));
            assert(apred(acands_seq[h])) by {
                if !airport_delta(asent0, acands_seq[h]) {
                    assert(asent0.contains_key(cid));
                    assert(airport_eq(asent0[cid], acands_seq[h]));
                    lemma_airport_eq_trans(asent0[cid], acands_seq[h], rec);
                }
            }
            acands_seq.lemma_filter_contains(apred, h);
            assert(afilter.contains(acands_seq[h]));
            let i = choose|i: int| 0 <= i < afilter.len() && afilter[i] == acands_seq[h];
            assert(aset_seq.len() == afilter.len());
            assert(airport_eq(aset_seq[i], afilter[i]));
            assert(spec_compound_id(aset_seq[i]) == cid);
            assert(aset_seq.len() > 0);
            assert(airport_set_payload(msgs@[pilots_end as int]) == Some(aset_seq));
            let plm = airport_set_payload(msgs@[pilots_end as int])->Some_0;
            assert(plm == aset_seq);
            assert(0 <= i < plm.len() && spec_compound_id(plm[i]) == cid);
            assert(airport_set_has(msgs@[pilots_end as int], cid));
        }
        // delete batch membership
        assert forall|x: int| 0 <= x < adel_seq.len() implies {
            let cid = spec_compound_id(#[trigger] adel_seq[x]);
            &&& old(state).airports_sent().contains_key(cid)
            &&& airport_eq(adel_seq[x], old(state).airports_sent()[cid])
            &&& !(manager.spec_fixed().spec_compound().contains_key(cid)
                && !crate::moving::spec_controller_set_empty(
                    manager.spec_fixed().spec_airports()[
                        manager.spec_fixed().spec_compound()[cid]@].controllers,
                )
                && (no_bounds || rect_covers(
                    *rect,
                    manager.spec_fixed().spec_airports()[
                        manager.spec_fixed().spec_compound()[cid]@].position.lng as int,
                    manager.spec_fixed().spec_airports()[
                        manager.spec_fixed().spec_compound()[cid]@].position.lat as int,
                )))
        } by {
            let cid = spec_compound_id(adel_seq[x]);
            if manager.spec_fixed().spec_compound().contains_key(cid)
                && !crate::moving::spec_controller_set_empty(
                    manager.spec_fixed().spec_airports()[
                        manager.spec_fixed().spec_compound()[cid]@].controllers,
                )
                && (no_bounds || rect_covers(
                    *rect,
                    manager.spec_fixed().spec_airports()[
                        manager.spec_fixed().spec_compound()[cid]@].position.lng as int,
                    manager.spec_fixed().spec_airports()[
                        manager.spec_fixed().spec_compound()[cid]@].position.lat as int,
                )) {
                let h = choose|h: int| 0 <= h < acands_seq.len()
                    && spec_compound_id(#[trigger] acands_seq[h]) == cid;
            }
        }
        // delete completeness
        assert forall|cid: Seq<char>|
            #[trigger] old(state).airports_sent().contains_key(cid)
            && !(manager.spec_fixed().spec_compound().contains_key(cid)
                && !crate::moving::spec_controller_set_empty(
                    manager.spec_fixed().spec_airports()[
                        manager.spec_fixed().spec_compound()[cid]@].controllers,
                )
                && (no_bounds || rect_covers(
                    *rect,
                    manager.spec_fixed().spec_airports()[
                        manager.spec_fixed().spec_compound()[cid]@].position.lng as int,
                    manager.spec_fixed().spec_airports()[
                        manager.spec_fixed().spec_compound()[cid]@].position.lat as int,
                )))
            implies exists|k: int| 0 <= k < msgs@.len()
                && airport_delete_has(msgs@[k], cid) by {
            assert(!(exists|h: int| 0 <= h < acands_seq.len()
                && spec_compound_id(#[trigger] acands_seq[h]) == cid)) by {
                if exists|h: int| 0 <= h < acands_seq.len()
                    && spec_compound_id(#[trigger] acands_seq[h]) == cid {
                    let h = choose|h: int| 0 <= h < acands_seq.len()
                        && spec_compound_id(#[trigger] acands_seq[h]) == cid;
                }
            }
            let k0 = choose|k0: int| 0 <= k0 < adel_seq.len()
                && spec_compound_id(#[trigger] adel_seq[k0]) == cid;
            assert(adel_seq.len() > 0);
            assert(airport_delete_payload(msgs@[a_mid as int]) == Some(adel_seq));
            let plm = airport_delete_payload(msgs@[a_mid as int])->Some_0;
            assert(plm == adel_seq);
            assert(0 <= k0 < plm.len() && spec_compound_id(plm[k0]) == cid);
            assert(airport_delete_has(msgs@[a_mid as int], cid));
        }
        // the airport state mirrors the candidates, which mirror the data
        assert forall|cid: Seq<char>| #[trigger] state.airports_sent().contains_key(cid)
            implies airport_eq(
                state.airports_sent()[cid],
                manager.spec_fixed().spec_airports()[
                    manager.spec_fixed().spec_compound()[cid]@],
            ) by {
            let x = choose|x: int| 0 <= x < acands_seq.len()
                && spec_compound_id(#[trigger] acands_seq[x]) == cid;
            lemma_airport_eq_trans(
                state.airports_sent()[cid],
                acands_seq[x],
                manager.spec_fixed().spec_airports()[
                    manager.spec_fixed().spec_compound()[cid]@],
            );
        }
        // regions: one lemma characterizes all the region batches
        assert(fsent0 == old(state).firs_sent());
        lemma_fir_messages(
            msgs@,
            manager,
            *rect,
            no_bounds,
            fsent0,
            state.firs_sent(),
            fcands_seq,
            fset_seq,
            fdel_seq,
            airports_end as int,
            f_mid as int,
        );
        assert forall|cs: Seq<char>| #[trigger] state.firs_sent().contains_key(cs)
            implies exists|j: int| 0 <= j < manager.spec_fixed().spec_firs().len()
                && (#[trigger] manager.spec_fixed().spec_firs()[j]).icao@ == cs
                && manager.spec_fixed().spec_firs()[j].controllers.spec_len() > 0
                && fir_eq(state.firs_sent()[cs], manager.spec_fixed().spec_firs()[j]) by {
            let x = choose|x: int| 0 <= x < fcands_seq.len()
                && (#[trigger] fcands_seq[x]).icao@ == cs;
            assert(fir_eq(state.firs_sent()[cs], fcands_seq[x]));
            let j = choose|j: int| 0 <= j < manager.spec_fixed().spec_firs().len()
                && fir_eq(fcands_seq[x], #[trigger] manager.spec_fixed().spec_firs()[j])
                && (no_bounds || crate::manager::rect_meets(
                    *rect,
                    crate::manager::fir_env(manager.spec_fixed().spec_firs()[j]),
                ))
                && manager.spec_fixed().spec_firs()[j].controllers.spec_len() > 0;
            lemma_fir_eq_trans(
                state.firs_sent()[cs],
                fcands_seq[x],
                manager.spec_fixed().spec_firs()[j],
            );
        }
        // the no-delta case: nothing among the pilots changed, so neither
        // list produced a message
        assert(sent0 == old(state).pilots_sent());
        if forall|cs: Seq<char>| (#[trigger] old(state).pilots_sent().contains_key(cs)
                <==> manager.pilots_view().contains_key(cs)
                    && spec_pilot_covered(*rect, no_bounds, manager.pilots_view()[cs])
                    && spec_pilot_passes(filter, manager.pilots_view()[cs]))
            && (old(state).pilots_sent().contains_key(cs)
                ==> pilot_eq(old(state).pilots_sent()[cs], manager.pilots_view()[cs])) {
            assert forall|x: int| 0 <= x < cand2@.len()
                implies sent0.contains_key((#[trigger] cand2@[x]).callsign@)
                    && pilot_eq(sent0[cand2@[x].callsign@], cand2@[x]) by {
                assert(candidates@.contains(cand2@[x]));
                let i1 = choose|i1: int| 0 <= i1 < candidates@.len()
                    && candidates@[i1] == cand2@[x];
                let cs = cand2@[x].callsign@;
                assert(manager.pilots_view().contains_key(cs));
                assert(cand2@[x] == manager.pilots_view()[cs]);
                assert(sent0.contains_key(cs));
            }
            lemma_diff_unchanged_pilots(sent0, cand2@);
            assert(pset_seq.len() == 0);
            assert(pdel_seq.len() == 0) by {
                if pdel_seq.len() > 0 {
                    let cs = pdel_seq[0].callsign@;
                    assert(sent0.contains_key(cs));
                    assert(manager.pilots_view().contains_key(cs)
                        && spec_pilot_covered(*rect, no_bounds, manager.pilots_view()[cs])
                        && spec_pilot_passes(filter, manager.pilots_view()[cs]));
                    let i1 = choose|i1: int| 0 <= i1 < candidates@.len()
                        && (#[trigger] candidates@[i1]).callsign@ == cs;
                    assert(spec_pilot_passes(filter, candidates@[i1]));
                    let x = choose|x: int| 0 <= x < cand2@.len()
                        && (#[trigger] cand2@[x]).callsign@ == cs;
                }
            }
            assert(pilots_end == 0);
            assert forall|k: int| 0 <= k < msgs@.len()
                implies (#[trigger] msgs@[k]).object_type@ != "pilot"@ by {
                assert(msgs@[k].object_type@ == "airport"@
                    || msgs@[k].object_type@ == "fir"@);
            }
        }
    }
    msgs
}

} // verus!
