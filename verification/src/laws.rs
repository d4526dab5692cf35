//! The library's global laws, stated and proved over the specification
//! functions of the pipeline.

use vstd::prelude::*;

use crate::error::ErrorV;
use crate::note::{note_ids_of, NoteV};
use crate::resolver::{
    eligible, first_eligible, first_unknown, first_unknown_in, spec_order_rec, spec_topo,
    transcludes_of,
};

verus! {

/// A placed order is closed: every transclusion target of an already placed
/// note is placed strictly earlier.
pub open spec fn order_closed(ns: Seq<NoteV>, acc: Seq<Seq<char>>) -> bool {
    forall|k: int, t: int|
        0 <= k < acc.len() && 0 <= t < transcludes_of(ns, acc[k]).len() ==> acc.subrange(
            0,
            k,
        ).contains(#[trigger] transcludes_of(ns, acc[k])[t])
}

/// The running well-formedness of a partial order.
pub open spec fn order_inv(ns: Seq<NoteV>, acc: Seq<Seq<char>>) -> bool {
    &&& acc.no_duplicates()
    &&& forall|k: int| 0 <= k < acc.len() ==> note_ids_of(ns).contains(#[trigger] acc[k])
    &&& order_closed(ns, acc)
}

proof fn lemma_first_eligible_mem(cands: Seq<Seq<char>>, ns: Seq<NoteV>, done: Seq<Seq<char>>)
    ensures
        first_eligible(cands, ns, done) matches Option::Some(id) ==> cands.contains(id)
            && eligible(ns, done, id),
    decreases cands.len(),
{
    if cands.len() > 0 {
        if eligible(ns, done, cands[0]) {
            assert(cands.contains(cands[0]));
        } else {
            lemma_first_eligible_mem(cands.drop_first(), ns, done);
            match first_eligible(cands.drop_first(), ns, done) {
                Option::Some(id) => {
                    let j = choose|j: int|
                        0 <= j < cands.drop_first().len() && cands.drop_first()[j] == id;
                    assert(cands[j + 1] == id);
                },
                Option::None => {},
            }
        }
    }
}

proof fn lemma_order_rec_inv(ns: Seq<NoteV>, acc: Seq<Seq<char>>, fuel: nat)
    requires
        order_inv(ns, acc),
    ensures
        spec_order_rec(ns, acc, fuel) matches Result::Ok(order) ==> order_inv(ns, order)
            && order.len() >= ns.len(),
    decreases fuel,
{
    if acc.len() >= ns.len() {
    } else if fuel == 0 {
    } else {
        match first_eligible(crate::ids::spec_sort(note_ids_of(ns)), ns, acc) {
            Option::Some(id) => {
                lemma_first_eligible_mem(crate::ids::spec_sort(note_ids_of(ns)), ns, acc);
                crate::ids::lemma_sort_sorted(note_ids_of(ns));
                assert(note_ids_of(ns).contains(id));
                let acc2 = acc.push(id);
                assert(order_inv(ns, acc2)) by {
                    assert(acc2.no_duplicates()) by {
                        assert(!acc.contains(id));
                        assert forall|p: int, q: int| 0 <= p < q < acc2.len() implies acc2[p]
                            != acc2[q] by {
                            if q < acc.len() {
                                assert(acc2[p] == acc[p] && acc2[q] == acc[q]);
                            } else {
                                assert(acc2[q] == id);
                                assert(acc2[p] == acc[p]);
                                if acc[p] == id {
                                    assert(acc.contains(id));
                                }
                            }
                        }
                    }
                    assert forall|k: int| 0 <= k < acc2.len() implies note_ids_of(ns).contains(
                        #[trigger] acc2[k],
                    ) by {
                        if k < acc.len() {
                            assert(acc2[k] == acc[k]);
                        }
                    }
                    assert forall|k: int, t: int|
                        0 <= k < acc2.len() && 0 <= t < transcludes_of(ns, acc2[k]).len() implies
                        acc2.subrange(0, k).contains(
                            #[trigger] transcludes_of(ns, acc2[k])[t],
                        ) by {
                        if k < acc.len() {
                            assert(acc2[k] == acc[k]);
                            assert(acc.subrange(0, k).contains(transcludes_of(ns, acc[k])[t]));
                            assert(acc2.subrange(0, k) =~= acc.subrange(0, k));
                        } else {
                            assert(acc2[k] == id);
                            assert(eligible(ns, acc, id));
                            assert(acc.contains(transcludes_of(ns, id)[t]));
                            assert(acc2.subrange(0, k) =~= acc);
                        }
                    }
                }
                lemma_order_rec_inv(ns, acc2, (fuel - 1) as nat);
            },
            Option::None => {},
        }
    }
}

/// The resolver's order respects every transclusion edge: when the resolver
/// succeeds, each note's transclusion targets stand strictly earlier in the
/// order, the order has no duplicate, is as long as the note table, and
/// holds note ids only.
pub proof fn lemma_topo_order_respects_edges(ns: Seq<NoteV>)
    ensures
        spec_topo(ns) matches Result::Ok(order) ==> {
            &&& order.len() == ns.len()
            &&& order.no_duplicates()
            &&& forall|k: int| 0 <= k < order.len() ==> note_ids_of(ns).contains(
                #[trigger] order[k],
            )
            &&& forall|k: int, t: int|
                0 <= k < order.len() && 0 <= t < transcludes_of(ns, order[k]).len()
                    ==> order.subrange(0, k).contains(#[trigger] transcludes_of(ns, order[k])[t])
        },
{
    match spec_topo(ns) {
        Result::Ok(order) => {
            let e: Seq<Seq<char>> = Seq::empty();
            assert(order_inv(ns, e)) by {
                assert(e.no_duplicates());
            }
            lemma_order_rec_inv(ns, e, ns.len() as nat);
            lemma_order_rec_len(ns, e, ns.len() as nat);
        },
        Result::Err(_) => {},
    }
}

proof fn lemma_order_rec_len(ns: Seq<NoteV>, acc: Seq<Seq<char>>, fuel: nat)
    ensures
        spec_order_rec(ns, acc, fuel) matches Result::Ok(order) ==> order.len() <= acc.len()
            + fuel && order.len() >= ns.len(),
    decreases fuel,
{
    if acc.len() >= ns.len() {
    } else if fuel == 0 {
    } else {
        match first_eligible(crate::ids::spec_sort(note_ids_of(ns)), ns, acc) {
            Option::Some(id) => {
                lemma_order_rec_len(ns, acc.push(id), (fuel - 1) as nat);
            },
            Option::None => {},
        }
    }
}

proof fn lemma_first_unknown_none(ns: Seq<NoteV>, all: Seq<Seq<char>>)
    ensures
        first_unknown(ns, all) is None ==> forall|k: int, t: int|
            0 <= k < ns.len() && 0 <= t < ns[k].transcludes.len() ==> all.contains(
                #[trigger] ns[k].transcludes[t],
            ),
    decreases ns.len(),
{
    if ns.len() > 0 {
        lemma_first_unknown_none(ns.drop_first(), all);
        if first_unknown(ns, all) is None {
            lemma_first_unknown_in_none(ns[0].id, ns[0].transcludes, all);
            assert forall|k: int, t: int|
                0 <= k < ns.len() && 0 <= t < ns[k].transcludes.len() implies all.contains(
                #[trigger] ns[k].transcludes[t]) by {
                if k > 0 {
                    assert(ns.drop_first()[k - 1] == ns[k]);
                    assert(all.contains(ns.drop_first()[k - 1].transcludes[t]));
                }
            }
        }
    }
}

proof fn lemma_first_unknown_in_none(src: Seq<char>, ts: Seq<Seq<char>>, all: Seq<Seq<char>>)
    ensures
        first_unknown_in(src, ts, all) is None ==> forall|t: int|
            0 <= t < ts.len() ==> all.contains(#[trigger] ts[t]),
    decreases ts.len(),
{
    if ts.len() > 0 && first_unknown_in(src, ts, all) is None {
        lemma_first_unknown_in_none(src, ts.drop_first(), all);
        assert forall|t: int| 0 <= t < ts.len() implies all.contains(#[trigger] ts[t]) by {
            if t > 0 {
                assert(ts.drop_first()[t - 1] == ts[t]);
                assert(all.contains(ts.drop_first()[t - 1]));
            }
        }
    }
}

/// A transclusion edge to a nonexistent note id makes the whole build fail:
/// no output page is produced at all.
pub proof fn lemma_unknown_target_fails(
    docs: Seq<(Seq<char>, Seq<char>)>,
    template: Seq<char>,
    root_dir: Seq<char>,
    trailing_slash: bool,
    ns: Seq<NoteV>,
    k: int,
    t: int,
)
    requires
        crate::note::spec_load_notes(docs) == Result::<Seq<NoteV>, ErrorV>::Ok(ns),
        0 <= k < ns.len(),
        0 <= t < ns[k].transcludes.len(),
        !note_ids_of(ns).contains(ns[k].transcludes[t]),
    ensures
        crate::assemble::spec_build_site(docs, template, root_dir, trailing_slash) matches
            Result::Err(_),
{
    lemma_first_unknown_none(ns, note_ids_of(ns));
    if first_unknown(ns, note_ids_of(ns)) is None {
        assert(note_ids_of(ns).contains(ns[k].transcludes[t]));
    }
    match first_unknown(ns, note_ids_of(ns)) {
        Option::Some(p) => {
            assert(spec_topo(ns) matches Result::Err(_));
        },
        Option::None => {
            assert(false);
        },
    }
}

/// Building is deterministic: two results of the whole pipeline on the same
/// inputs are the same, page for page and byte for byte.
pub proof fn lemma_build_site_deterministic(
    docs: Seq<(Seq<char>, Seq<char>)>,
    template: Seq<char>,
    root_dir: Seq<char>,
    trailing_slash: bool,
    r1: Result<Seq<(Seq<char>, Seq<char>)>, ErrorV>,
    r2: Result<Seq<(Seq<char>, Seq<char>)>, ErrorV>,
)
    requires
        r1 == crate::assemble::spec_build_site(docs, template, root_dir, trailing_slash),
        r2 == crate::assemble::spec_build_site(docs, template, root_dir, trailing_slash),
    ensures
        r1 == r2,
{
}


/// A transclusion edge between two ids.
pub open spec fn edge(ns: Seq<NoteV>, a: Seq<char>, b: Seq<char>) -> bool {
    transcludes_of(ns, a).contains(b)
}

/// A transclusion cycle: a chain of at least one edge that returns to its
/// first id.
pub open spec fn is_cycle(ns: Seq<NoteV>, p: Seq<Seq<char>>) -> bool {
    &&& p.len() >= 2
    &&& p[0] == p.last()
    &&& forall|i: int| 0 <= i < p.len() - 1 ==> edge(ns, #[trigger] p[i], p[i + 1])
}

/// The ids of the note table, index by index.
proof fn lemma_note_ids(ns: Seq<NoteV>)
    ensures
        note_ids_of(ns).len() == ns.len(),
        forall|k: int| 0 <= k < ns.len() ==> note_ids_of(ns)[k] == #[trigger] ns[k].id,
    decreases ns.len(),
{
    if ns.len() > 0 {
        lemma_note_ids(ns.drop_last());
        assert forall|k: int| 0 <= k < ns.len() implies note_ids_of(ns)[k] == #[trigger] ns[k].id
            by {
            if k < ns.len() - 1 {
                assert(ns.drop_last()[k] == ns[k]);
                assert(note_ids_of(ns.drop_last())[k] == ns.drop_last()[k].id);
                assert(note_ids_of(ns)[k] == note_ids_of(ns.drop_last())[k]);
            }
        }
    }
}

/// A duplicate-free sequence whose elements all occur in another sequence is
/// no longer than it.
proof fn lemma_nodup_contained_len(s: Seq<Seq<char>>, t: Seq<Seq<char>>)
    requires
        s.no_duplicates(),
        forall|i: int| 0 <= i < s.len() ==> t.contains(#[trigger] s[i]),
    ensures
        s.len() <= t.len(),
{
    broadcast use vstd::seq_lib::seq_to_set_is_finite;
    broadcast use vstd::set::group_set_axioms;

    s.unique_seq_to_set();
    t.lemma_cardinality_of_set();
    assert(s.to_set().subset_of(t.to_set())) by {
        assert forall|x: Seq<char>| s.to_set().contains(x) implies t.to_set().contains(x) by {
            assert(s.contains(x));
            let i = choose|i: int| 0 <= i < s.len() && s[i] == x;
            assert(t.contains(x));
        }
    }
    vstd::set_lib::lemma_len_subset(s.to_set(), t.to_set());
}

/// The transclusion list of a known id is some note's transclusion list.
proof fn lemma_transcludes_is_a_note(ns: Seq<NoteV>, id: Seq<char>)
    ensures
        transcludes_of(ns, id) =~= Seq::<Seq<char>>::empty() || exists|k: int|
            0 <= k < ns.len() && transcludes_of(ns, id) == #[trigger] ns[k].transcludes,
    decreases ns.len(),
{
    if ns.len() > 0 {
        if ns[0].id == id {
            assert(transcludes_of(ns, id) == ns[0].transcludes);
        } else {
            lemma_transcludes_is_a_note(ns.drop_first(), id);
            if !(transcludes_of(ns, id) =~= Seq::<Seq<char>>::empty()) {
                let k = choose|k: int|
                    0 <= k < ns.drop_first().len() && transcludes_of(ns.drop_first(), id)
                        == #[trigger] ns.drop_first()[k].transcludes;
                assert(ns.drop_first()[k] == ns[k + 1]);
                assert(transcludes_of(ns, id) == ns[k + 1].transcludes);
            }
        }
    }
}

proof fn lemma_first_eligible_none(cands: Seq<Seq<char>>, ns: Seq<NoteV>, done: Seq<Seq<char>>)
    ensures
        first_eligible(cands, ns, done) is None ==> forall|i: int|
            0 <= i < cands.len() ==> !eligible(ns, done, #[trigger] cands[i]),
    decreases cands.len(),
{
    if cands.len() > 0 && first_eligible(cands, ns, done) is None {
        lemma_first_eligible_none(cands.drop_first(), ns, done);
        assert forall|i: int| 0 <= i < cands.len() implies !eligible(ns, done,
        #[trigger] cands[i]) by {
            if i > 0 {
                assert(cands.drop_first()[i - 1] == cands[i]);
                assert(!eligible(ns, done, cands.drop_first()[i - 1]));
            }
        }
    }
}

/// When every remaining note waits for an unplaced transclusion target, a
/// walk along unmet edges must close a cycle.
proof fn lemma_stall_has_cycle(
    ns: Seq<NoteV>,
    done: Seq<Seq<char>>,
    cur: Seq<char>,
    chain: Seq<Seq<char>>,
)
    requires
        note_ids_of(ns).contains(cur),
        !done.contains(cur),
        forall|k: int, t: int|
            0 <= k < ns.len() && 0 <= t < ns[k].transcludes.len() ==> note_ids_of(ns).contains(
                #[trigger] ns[k].transcludes[t],
            ),
        forall|id: Seq<char>| note_ids_of(ns).contains(id) ==> !eligible(ns, done, id),
        chain.no_duplicates(),
        forall|i: int|
            0 <= i < chain.len() ==> note_ids_of(ns).contains(#[trigger] chain[i])
                && !done.contains(chain[i]),
        forall|i: int| 0 <= i < chain.len() - 1 ==> edge(ns, #[trigger] chain[i], chain[i + 1]),
        chain.len() > 0 ==> edge(ns, chain.last(), cur),
    ensures
        exists|p: Seq<Seq<char>>| is_cycle(ns, p),
    decreases ns.len() + 1 - chain.len(),
{
    lemma_note_ids(ns);
    lemma_nodup_contained_len(chain, note_ids_of(ns));
    if chain.contains(cur) {
        let k = choose|k: int| 0 <= k < chain.len() && chain[k] == cur;
        let p = chain.subrange(k, chain.len() as int).push(cur);
        assert(is_cycle(ns, p)) by {
            assert(p.len() >= 2);
            assert(p[0] == chain[k]);
            assert(p.last() == cur);
            assert forall|i: int| 0 <= i < p.len() - 1 implies edge(ns, #[trigger] p[i], p[i
                + 1]) by {
                if i < p.len() - 2 {
                    assert(p[i] == chain[k + i]);
                    assert(p[i + 1] == chain[k + i + 1]);
                    assert(edge(ns, chain[k + i], chain[k + i + 1]));
                } else {
                    assert(p[i] == chain[chain.len() - 1]);
                    assert(p[i + 1] == cur);
                }
            }
        }
    } else {
        assert(!eligible(ns, done, cur));
        assert(exists|t: int|
            0 <= t < transcludes_of(ns, cur).len() && !done.contains(
                #[trigger] transcludes_of(ns, cur)[t],
            ));
        let t = choose|t: int|
            0 <= t < transcludes_of(ns, cur).len() && !done.contains(
                #[trigger] transcludes_of(ns, cur)[t],
            );
        let nxt = transcludes_of(ns, cur)[t];
        assert(edge(ns, cur, nxt));
        assert(note_ids_of(ns).contains(nxt)) by {
            lemma_transcludes_is_a_note(ns, cur);
            if transcludes_of(ns, cur) =~= Seq::<Seq<char>>::empty() {
            } else {
                let k = choose|k: int|
                    0 <= k < ns.len() && transcludes_of(ns, cur) == #[trigger] ns[k].transcludes;
                assert(note_ids_of(ns).contains(ns[k].transcludes[t]));
            }
        }
        let chain2 = chain.push(cur);
        assert(chain2.no_duplicates()) by {
            assert forall|p: int, q: int| 0 <= p < q < chain2.len() implies chain2[p] != chain2[q]
                by {
                if q < chain.len() {
                    assert(chain2[p] == chain[p] && chain2[q] == chain[q]);
                } else {
                    assert(chain2[q] == cur && chain2[p] == chain[p]);
                    if chain[p] == cur {
                        assert(chain.contains(cur));
                    }
                }
            }
        }
        assert forall|i: int|
            0 <= i < chain2.len() implies note_ids_of(ns).contains(#[trigger] chain2[i])
                && !done.contains(chain2[i]) by {
            if i < chain.len() {
                assert(chain2[i] == chain[i]);
            } else {
                assert(chain2[i] == cur);
            }
        }
        assert forall|i: int| 0 <= i < chain2.len() - 1 implies edge(ns, #[trigger] chain2[i],
        chain2[i + 1]) by {
            if i < chain.len() - 1 {
                assert(chain2[i] == chain[i] && chain2[i + 1] == chain[i + 1]);
            } else {
                assert(chain2[i] == chain.last() && chain2[i + 1] == cur);
            }
        }
        assert(chain2.last() == cur);
        lemma_stall_has_cycle(ns, done, nxt, chain2);
    }
}

proof fn lemma_order_rec_cycle_sound(ns: Seq<NoteV>, acc: Seq<Seq<char>>, fuel: nat)
    requires
        note_ids_of(ns).no_duplicates(),
        order_inv(ns, acc),
        acc.len() + fuel == ns.len(),
        forall|k: int, t: int|
            0 <= k < ns.len() && 0 <= t < ns[k].transcludes.len() ==> note_ids_of(ns).contains(
                #[trigger] ns[k].transcludes[t],
            ),
    ensures
        spec_order_rec(ns, acc, fuel) matches Result::Err(_) ==> exists|p: Seq<Seq<char>>|
            is_cycle(ns, p),
    decreases fuel,
{
    lemma_note_ids(ns);
    if acc.len() >= ns.len() {
    } else {
        assert(fuel > 0);
        let sorted = crate::ids::spec_sort(note_ids_of(ns));
        crate::ids::lemma_sort_sorted(note_ids_of(ns));
        match first_eligible(sorted, ns, acc) {
            Option::Some(id) => {
                lemma_first_eligible_mem(sorted, ns, acc);
                assert(note_ids_of(ns).contains(id));
                let acc2 = acc.push(id);
                lemma_push_inv(ns, acc, id);
                lemma_order_rec_cycle_sound(ns, acc2, (fuel - 1) as nat);
            },
            Option::None => {
                lemma_first_eligible_none(sorted, ns, acc);
                assert forall|x: Seq<char>| note_ids_of(ns).contains(x) implies !eligible(
                    ns,
                    acc,
                    x,
                ) by {
                    assert(sorted.contains(x));
                    let i = choose|i: int| 0 <= i < sorted.len() && sorted[i] == x;
                    assert(!eligible(ns, acc, sorted[i]));
                }
                // some id is still unplaced
                assert(exists|j: int|
                    0 <= j < note_ids_of(ns).len() && !acc.contains(
                        #[trigger] note_ids_of(ns)[j],
                    )) by {
                    if forall|j: int|
                        0 <= j < note_ids_of(ns).len() ==> acc.contains(
                            #[trigger] note_ids_of(ns)[j],
                        ) {
                        lemma_nodup_contained_len(note_ids_of(ns), acc);
                        assert(false);
                    }
                }
                let j = choose|j: int|
                    0 <= j < note_ids_of(ns).len() && !acc.contains(#[trigger] note_ids_of(ns)[j]);
                let start = note_ids_of(ns)[j];
                assert(note_ids_of(ns).contains(start));
                let e: Seq<Seq<char>> = Seq::empty();
                assert(e.no_duplicates());
                lemma_stall_has_cycle(ns, acc, start, e);
            },
        }
    }
}

/// Pushing an eligible note id keeps the order well formed.
proof fn lemma_push_inv(ns: Seq<NoteV>, acc: Seq<Seq<char>>, id: Seq<char>)
    requires
        order_inv(ns, acc),
        eligible(ns, acc, id),
        note_ids_of(ns).contains(id),
    ensures
        order_inv(ns, acc.push(id)),
{
    let acc2 = acc.push(id);
    assert(acc2.no_duplicates()) by {
        assert forall|p: int, q: int| 0 <= p < q < acc2.len() implies acc2[p] != acc2[q] by {
            if q < acc.len() {
                assert(acc2[p] == acc[p] && acc2[q] == acc[q]);
            } else {
                assert(acc2[q] == id && acc2[p] == acc[p]);
                if acc[p] == id {
                    assert(acc.contains(id));
                }
            }
        }
    }
    assert forall|k: int| 0 <= k < acc2.len() implies note_ids_of(ns).contains(
        #[trigger] acc2[k]) by {
        if k < acc.len() {
            assert(acc2[k] == acc[k]);
        }
    }
    assert forall|k: int, t: int|
        0 <= k < acc2.len() && 0 <= t < transcludes_of(ns, acc2[k]).len() implies acc2.subrange(
        0, k).contains(#[trigger] transcludes_of(ns, acc2[k])[t]) by {
        if k < acc.len() {
            assert(acc2[k] == acc[k]);
            assert(acc.subrange(0, k).contains(transcludes_of(ns, acc[k])[t]));
            assert(acc2.subrange(0, k) =~= acc.subrange(0, k));
        } else {
            assert(acc2[k] == id);
            assert(acc.contains(transcludes_of(ns, id)[t]));
            assert(acc2.subrange(0, k) =~= acc);
        }
    }
}

/// A cycle error is honest: when the resolver reports a transclusion cycle
/// on a table with unique ids, the transclusion graph really has one.
pub proof fn lemma_topo_cycle_error_sound(ns: Seq<NoteV>)
    requires
        note_ids_of(ns).no_duplicates(),
    ensures
        (spec_topo(ns) matches Result::Err(e) && e matches ErrorV::TransclusionCycle { .. })
            ==> exists|p: Seq<Seq<char>>| is_cycle(ns, p),
{
    match first_unknown(ns, note_ids_of(ns)) {
        Option::Some(_) => {},
        Option::None => {
            lemma_first_unknown_none(ns, note_ids_of(ns));
            let e: Seq<Seq<char>> = Seq::empty();
            assert(order_inv(ns, e)) by {
                assert(e.no_duplicates());
            }
            lemma_order_rec_cycle_sound(ns, e, ns.len() as nat);
        },
    }
}

/// Success means acyclicity: when the resolver returns an order over a table
/// with unique ids, the transclusion graph has no cycle.
pub proof fn lemma_topo_ok_means_acyclic(ns: Seq<NoteV>)
    requires
        note_ids_of(ns).no_duplicates(),
    ensures
        spec_topo(ns) matches Result::Ok(_) ==> !(exists|p: Seq<Seq<char>>| is_cycle(ns, p)),
{
    match spec_topo(ns) {
        Result::Ok(order) => {
            lemma_topo_order_respects_edges(ns);
            lemma_note_ids(ns);
            if exists|p: Seq<Seq<char>>| is_cycle(ns, p) {
                let p = choose|p: Seq<Seq<char>>| is_cycle(ns, p);
                lemma_cycle_member_in_order(ns, order, p, 0);
                assert(order.contains(p[0]));
                let i0 = choose|i0: int| 0 <= i0 < order.len() && order[i0] == p[0];
                lemma_path_idx_bound(ns, order, p, p.len() - 1, i0);
                let ii = choose|ii: int|
                    0 <= ii < order.len() && #[trigger] order[ii] == p[p.len() - 1] && ii <= i0 - (
                    p.len() - 1);
                assert(order[ii] == p[0]);
                assert(ii < i0);
                assert(order[ii] == order[i0]);
                assert(false);
            }
        },
        Result::Err(_) => {},
    }
}

/// A cycle member is a note id that occurs in the order.
proof fn lemma_cycle_member_in_order(
    ns: Seq<NoteV>,
    order: Seq<Seq<char>>,
    p: Seq<Seq<char>>,
    i: int,
)
    requires
        is_cycle(ns, p),
        0 <= i < p.len() - 1,
        order.len() == ns.len(),
        order.no_duplicates(),
        forall|k: int| 0 <= k < order.len() ==> note_ids_of(ns).contains(#[trigger] order[k]),
        forall|k: int, t: int|
            0 <= k < order.len() && 0 <= t < transcludes_of(ns, order[k]).len() ==> order.subrange(
                0, k).contains(#[trigger] transcludes_of(ns, order[k])[t]),
        note_ids_of(ns).no_duplicates(),
    ensures
        order.contains(p[i]),
{
    // the successor of p[i] is a transclusion target of p[i]; an id with an
    // outgoing edge has a nonempty transclusion list, so it is some note's
    // id, and every note id occurs in the order because the order is a
    // duplicate-free cover of the same length
    lemma_note_ids(ns);
    assert(edge(ns, p[i], p[i + 1]));
    lemma_transcludes_nonempty_is_note(ns, p[i]);
    let k = choose|k: int| 0 <= k < ns.len() && ns[k].id == p[i];
    lemma_order_covers_ids(ns, order);
    assert(order.contains(ns[k].id));
}

/// The transclusion list of an id with an outgoing edge belongs to a note
/// with that id.
proof fn lemma_transcludes_nonempty_is_note(ns: Seq<NoteV>, id: Seq<char>)
    requires
        transcludes_of(ns, id).len() > 0,
    ensures
        exists|k: int| 0 <= k < ns.len() && #[trigger] ns[k].id == id,
    decreases ns.len(),
{
    if ns.len() > 0 {
        if ns[0].id == id {
            assert(ns[0].id == id);
        } else {
            lemma_transcludes_nonempty_is_note(ns.drop_first(), id);
            let k = choose|k: int|
                0 <= k < ns.drop_first().len() && #[trigger] ns.drop_first()[k].id == id;
            assert(ns[k + 1].id == id);
        }
    }
}

/// A duplicate-free order of the table's length over note ids covers every
/// note id.
proof fn lemma_order_covers_ids(ns: Seq<NoteV>, order: Seq<Seq<char>>)
    requires
        order.len() == ns.len(),
        order.no_duplicates(),
        note_ids_of(ns).no_duplicates(),
        forall|k: int| 0 <= k < order.len() ==> note_ids_of(ns).contains(#[trigger] order[k]),
    ensures
        forall|x: Seq<char>| note_ids_of(ns).contains(x) ==> order.contains(x),
{
    broadcast use vstd::seq_lib::seq_to_set_is_finite;
    broadcast use vstd::set::group_set_axioms;

    lemma_note_ids(ns);
    order.unique_seq_to_set();
    note_ids_of(ns).unique_seq_to_set();
    assert(order.to_set().subset_of(note_ids_of(ns).to_set())) by {
        assert forall|x: Seq<char>| order.to_set().contains(x) implies note_ids_of(
            ns,
        ).to_set().contains(x) by {
            assert(order.contains(x));
        }
    }
    vstd::set_lib::lemma_subset_equality(order.to_set(), note_ids_of(ns).to_set());
    assert(order.to_set() =~= note_ids_of(ns).to_set());
    assert forall|x: Seq<char>| note_ids_of(ns).contains(x) implies order.contains(x) by {
        assert(note_ids_of(ns).to_set().contains(x));
        assert(order.to_set().contains(x));
    }
}

/// A transclusion edge goes to a strictly earlier position of the order.
proof fn lemma_edge_idx(
    ns: Seq<NoteV>,
    order: Seq<Seq<char>>,
    a: Seq<char>,
    b: Seq<char>,
    ia: int,
)
    requires
        forall|k: int, t: int|
            0 <= k < order.len() && 0 <= t < transcludes_of(ns, order[k]).len() ==> order.subrange(
                0, k).contains(#[trigger] transcludes_of(ns, order[k])[t]),
        0 <= ia < order.len(),
        order[ia] == a,
        edge(ns, a, b),
    ensures
        exists|ib: int| 0 <= ib < ia && #[trigger] order[ib] == b,
{
    let t = choose|t: int| 0 <= t < transcludes_of(ns, a).len() && transcludes_of(ns, a)[t] == b;
    assert(order.subrange(0, ia).contains(transcludes_of(ns, order[ia])[t]));
    let j = choose|j: int| 0 <= j < ia && order.subrange(0, ia)[j] == b;
    assert(order.subrange(0, ia)[j] == order[j]);
    assert(order[j] == b);
}

/// Walking a cycle moves strictly down the order, one position at least per
/// edge.
proof fn lemma_path_idx_bound(
    ns: Seq<NoteV>,
    order: Seq<Seq<char>>,
    p: Seq<Seq<char>>,
    i: int,
    i0: int,
)
    requires
        is_cycle(ns, p),
        forall|k: int, t: int|
            0 <= k < order.len() && 0 <= t < transcludes_of(ns, order[k]).len() ==> order.subrange(
                0, k).contains(#[trigger] transcludes_of(ns, order[k])[t]),
        0 <= i0 < order.len(),
        order[i0] == p[0],
        0 <= i < p.len(),
    ensures
        exists|ii: int| 0 <= ii < order.len() && #[trigger] order[ii] == p[i] && ii <= i0 - i,
    decreases i,
{
    if i == 0 {
        assert(order[i0] == p[0] && i0 <= i0 - 0);
    } else {
        lemma_path_idx_bound(ns, order, p, i - 1, i0);
        let prev = choose|ii: int|
            0 <= ii < order.len() && #[trigger] order[ii] == p[i - 1] && ii <= i0 - (i - 1);
        assert(edge(ns, p[i - 1], p[i]));
        lemma_edge_idx(ns, order, p[i - 1], p[i], prev);
        let ib = choose|ib: int| 0 <= ib < prev && #[trigger] order[ib] == p[i];
        assert(order[ib] == p[i] && ib <= i0 - i);
    }
}


proof fn lemma_first_unknown_sound(ns: Seq<NoteV>, all: Seq<Seq<char>>)
    ensures
        first_unknown(ns, all) matches Option::Some(p) ==> exists|k: int, t: int|
            0 <= k < ns.len() && 0 <= t < ns[k].transcludes.len() && #[trigger] ns[k].transcludes[t]
                == p.1 && !all.contains(p.1),
    decreases ns.len(),
{
    if ns.len() > 0 {
        lemma_first_unknown_in_sound(ns[0].id, ns[0].transcludes, all);
        match first_unknown_in(ns[0].id, ns[0].transcludes, all) {
            Option::Some(p) => {
                let t = choose|t: int|
                    0 <= t < ns[0].transcludes.len() && #[trigger] ns[0].transcludes[t] == p.1
                        && !all.contains(p.1);
                assert(ns[0].transcludes[t] == p.1);
            },
            Option::None => {
                lemma_first_unknown_sound(ns.drop_first(), all);
                match first_unknown(ns.drop_first(), all) {
                    Option::Some(p) => {
                        let (k, t) = choose|k: int, t: int|
                            0 <= k < ns.drop_first().len() && 0 <= t
                                < ns.drop_first()[k].transcludes.len()
                                && #[trigger] ns.drop_first()[k].transcludes[t] == p.1
                                && !all.contains(p.1);
                        assert(ns.drop_first()[k] == ns[k + 1]);
                        assert(ns[k + 1].transcludes[t] == p.1);
                    },
                    Option::None => {},
                }
            },
        }
    }
}

proof fn lemma_first_unknown_in_sound(src: Seq<char>, ts: Seq<Seq<char>>, all: Seq<Seq<char>>)
    ensures
        first_unknown_in(src, ts, all) matches Option::Some(p) ==> exists|t: int|
            0 <= t < ts.len() && #[trigger] ts[t] == p.1 && !all.contains(p.1),
    decreases ts.len(),
{
    if ts.len() > 0 {
        if !all.contains(ts[0]) {
            assert(ts[0] == ts[0]);
        } else {
            lemma_first_unknown_in_sound(src, ts.drop_first(), all);
            match first_unknown_in(src, ts.drop_first(), all) {
                Option::Some(p) => {
                    let t = choose|t: int|
                        0 <= t < ts.drop_first().len() && #[trigger] ts.drop_first()[t] == p.1
                            && !all.contains(p.1);
                    assert(ts.drop_first()[t] == ts[t + 1]);
                    assert(ts[t + 1] == p.1);
                },
                Option::None => {},
            }
        }
    }
}

/// The resolver succeeds on every well-formed input: when ids are unique,
/// every transclusion target names a note and the graph has no cycle, an
/// order is produced.  Together with the two soundness laws this
/// characterizes success exactly.
pub proof fn lemma_topo_complete(ns: Seq<NoteV>)
    requires
        note_ids_of(ns).no_duplicates(),
        forall|k: int, t: int|
            0 <= k < ns.len() && 0 <= t < ns[k].transcludes.len() ==> note_ids_of(ns).contains(
                #[trigger] ns[k].transcludes[t],
            ),
        !(exists|p: Seq<Seq<char>>| is_cycle(ns, p)),
    ensures
        spec_topo(ns) matches Result::Ok(_),
{
    match spec_topo(ns) {
        Result::Ok(_) => {},
        Result::Err(e) => {
            match first_unknown(ns, note_ids_of(ns)) {
                Option::Some(p) => {
                    lemma_first_unknown_sound(ns, note_ids_of(ns));
                    assert(false);
                },
                Option::None => {
                    let emp: Seq<Seq<char>> = Seq::empty();
                    assert(order_inv(ns, emp)) by {
                        assert(emp.no_duplicates());
                    }
                    lemma_first_unknown_none(ns, note_ids_of(ns));
                    lemma_order_rec_cycle_sound(ns, emp, ns.len() as nat);
                    assert(false);
                },
            }
        },
    }
}

} // verus!
