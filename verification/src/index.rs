//! Reverse indices (backlinks and contexts) and the transitive transclusion
//! closure.

use vstd::prelude::*;

use crate::ids::{sorted_id_set, spec_sorted_set};
use crate::note::{Note, NoteV};
use crate::text::str_eq;

verus! {

/// The id list filed under `k` in an id-list table; empty if absent.
pub open spec fn table_lookup(m: Seq<(Seq<char>, Seq<Seq<char>>)>, k: Seq<char>) -> Seq<Seq<char>>
    decreases m.len(),
{
    if m.len() == 0 {
        Seq::empty()
    } else if m[0].0 == k {
        m[0].1
    } else {
        table_lookup(m.drop_first(), k)
    }
}

/// The view of an id-list table.
pub open spec fn table_view(m: Seq<(String, Vec<String>)>) -> Seq<(Seq<char>, Seq<Seq<char>>)> {
    Seq::new(m.len(), |i: int| (m[i].0@, m[i].1.deep_view()))
}

/// Look a table entry up by note id.
pub fn table_get<'a>(m: &'a Vec<(String, Vec<String>)>, k: &str) -> (r: Option<&'a Vec<String>>)
    ensures
        match r {
            Option::Some(v) => table_lookup(table_view(m@), k@) == v.deep_view(),
            Option::None => table_lookup(table_view(m@), k@) == Seq::<Seq<char>>::empty(),
        },
{
    let ghost mv = table_view(m@);
    proof {
        assert(mv.skip(0) =~= mv);
    }
    let mut i: usize = 0;
    while i < m.len()
        invariant
            0 <= i <= m@.len(),
            mv == table_view(m@),
            mv.len() == m@.len(),
            table_lookup(mv, k@) == table_lookup(mv.skip(i as int), k@),
        decreases m@.len() - i,
    {
        proof {
            assert(mv.skip(i as int)[0] == mv[i as int]);
            assert(mv[i as int] == (m@[i as int].0@, m@[i as int].1.deep_view()));
        }
        if str_eq(m[i].0.as_str(), k) {
            return Some(&m[i].1);
        }
        proof {
            assert(mv.skip(i as int).drop_first() =~= mv.skip(i + 1));
        }
        i = i + 1;
    }
    proof {
        assert(mv.skip(m@.len() as int).len() == 0);
    }
    None
}

/// The ids of the notes whose `links_out` contains `x`, in load order.
pub open spec fn linkers_to(ns: Seq<NoteV>, x: Seq<char>) -> Seq<Seq<char>>
    decreases ns.len(),
{
    if ns.len() == 0 {
        Seq::empty()
    } else {
        let p = linkers_to(ns.drop_last(), x);
        if ns.last().links_out.contains(x) {
            p.push(ns.last().id)
        } else {
            p
        }
    }
}

/// The ids of the notes whose `transcludes` contains `x`, in load order.
pub open spec fn transcluders_of(ns: Seq<NoteV>, x: Seq<char>) -> Seq<Seq<char>>
    decreases ns.len(),
{
    if ns.len() == 0 {
        Seq::empty()
    } else {
        let p = transcluders_of(ns.drop_last(), x);
        if ns.last().transcludes.contains(x) {
            p.push(ns.last().id)
        } else {
            p
        }
    }
}

/// The backlinks of note `x`: who links to me, sorted, without duplicates.
pub open spec fn backlinks_of(ns: Seq<NoteV>, x: Seq<char>) -> Seq<Seq<char>> {
    spec_sorted_set(linkers_to(ns, x))
}

/// The contexts of note `x`: who transcludes me, sorted, without duplicates.
pub open spec fn contexts_of(ns: Seq<NoteV>, x: Seq<char>) -> Seq<Seq<char>> {
    spec_sorted_set(transcluders_of(ns, x))
}

/// Collect the ids of notes related to `x` through the selected edge list.
pub fn collect_edge_sources(notes: &Vec<Note>, x: &str, use_transcludes: bool) -> (r: Vec<String>)
    ensures
        use_transcludes ==> r.deep_view() == transcluders_of(notes.deep_view(), x@),
        !use_transcludes ==> r.deep_view() == linkers_to(notes.deep_view(), x@),
{
    let ghost nv = notes.deep_view();
    let mut out: Vec<String> = Vec::new();
    proof {
        assert(nv.subrange(0, 0) =~= Seq::empty());
        assert(out.deep_view() =~= Seq::<Seq<char>>::empty());
    }
    let mut i: usize = 0;
    while i < notes.len()
        invariant
            0 <= i <= notes@.len(),
            nv == notes.deep_view(),
            nv.len() == notes@.len(),
            use_transcludes ==> out.deep_view() == transcluders_of(nv.subrange(0, i as int), x@),
            !use_transcludes ==> out.deep_view() == linkers_to(nv.subrange(0, i as int), x@),
        decreases notes@.len() - i,
    {
        proof {
            assert(nv.subrange(0, i + 1).drop_last() =~= nv.subrange(0, i as int));
            assert(nv.subrange(0, i + 1).last() == nv[i as int]);
            assert(nv[i as int] == notes@[i as int]@);
        }
        let hit = if use_transcludes {
            crate::ids::contains_id(&notes[i].transcludes, x)
        } else {
            crate::ids::contains_id(&notes[i].links_out, x)
        };
        if hit {
            let ghost before = out.deep_view();
            let idc = notes[i].id.clone();
            out.push(idc);
            proof {
                assert(out.deep_view() =~= before.push(nv[i as int].id));
            }
        }
        i = i + 1;
    }
    proof {
        assert(nv.subrange(0, notes@.len() as int) =~= nv);
    }
    out
}

/// The backlink index: one entry per note, in load order.
pub open spec fn backlinks_table(ns: Seq<NoteV>) -> Seq<(Seq<char>, Seq<Seq<char>>)> {
    Seq::new(ns.len(), |i: int| (ns[i].id, backlinks_of(ns, ns[i].id)))
}

/// The context index: one entry per note, in load order.
pub open spec fn contexts_table(ns: Seq<NoteV>) -> Seq<(Seq<char>, Seq<Seq<char>>)> {
    Seq::new(ns.len(), |i: int| (ns[i].id, contexts_of(ns, ns[i].id)))
}

/// Invert `links_out`: for every note, the sorted set of notes that link to
/// it.
pub fn compute_backlinks(notes: &Vec<Note>) -> (r: Vec<(String, Vec<String>)>)
    ensures
        table_view(r@) == backlinks_table(notes.deep_view()),
{
    let ghost nv = notes.deep_view();
    let mut out: Vec<(String, Vec<String>)> = Vec::new();
    let mut i: usize = 0;
    while i < notes.len()
        invariant
            0 <= i <= notes@.len(),
            nv == notes.deep_view(),
            nv.len() == notes@.len(),
            out@.len() == i,
            forall|k: int|
                0 <= k < i ==> #[trigger] table_view(out@)[k] == (nv[k].id, backlinks_of(
                    nv,
                    nv[k].id,
                )),
        decreases notes@.len() - i,
    {
        proof {
            assert(nv[i as int] == notes@[i as int]@);
        }
        let srcs = collect_edge_sources(notes, notes[i].id.as_str(), false);
        let sorted = sorted_id_set(&srcs);
        let idc = notes[i].id.clone();
        let ghost idv = idc@;
        let ghost sv = sorted.deep_view();
        let ghost out_pre = out@;
        out.push((idc, sorted));
        proof {
            assert forall|k: int| 0 <= k < i + 1 implies #[trigger] table_view(out@)[k] == (
            nv[k].id, backlinks_of(nv, nv[k].id)) by {
                if k < i {
                    assert(table_view(out_pre)[k] == (nv[k].id, backlinks_of(nv, nv[k].id)));
                    assert(table_view(out_pre)[k] == (out_pre[k].0@, out_pre[k].1.deep_view()));
                    assert(out@[k] == out_pre[k]);
                    assert(table_view(out@)[k] == (out@[k].0@, out@[k].1.deep_view()));
                } else {
                    assert(table_view(out@)[k] == (out@[k].0@, out@[k].1.deep_view()));
                    assert(out@[k].0@ == idv);
                    assert(out@[k].1.deep_view() == sv);
                    assert(idv == nv[k].id);
                    assert(sv == backlinks_of(nv, nv[k].id));
                }
            }
        }
        i = i + 1;
    }
    proof {
        assert(table_view(out@) =~= backlinks_table(nv));
    }
    out
}

/// Invert `transcludes`: for every note, the sorted set of notes that
/// transclude it.
pub fn compute_contexts(notes: &Vec<Note>) -> (r: Vec<(String, Vec<String>)>)
    ensures
        table_view(r@) == contexts_table(notes.deep_view()),
{
    let ghost nv = notes.deep_view();
    let mut out: Vec<(String, Vec<String>)> = Vec::new();
    let mut i: usize = 0;
    while i < notes.len()
        invariant
            0 <= i <= notes@.len(),
            nv == notes.deep_view(),
            nv.len() == notes@.len(),
            out@.len() == i,
            forall|k: int|
                0 <= k < i ==> #[trigger] table_view(out@)[k] == (nv[k].id, contexts_of(
                    nv,
                    nv[k].id,
                )),
        decreases notes@.len() - i,
    {
        proof {
            assert(nv[i as int] == notes@[i as int]@);
        }
        let srcs = collect_edge_sources(notes, notes[i].id.as_str(), true);
        let sorted = sorted_id_set(&srcs);
        let idc = notes[i].id.clone();
        let ghost idv = idc@;
        let ghost sv = sorted.deep_view();
        let ghost out_pre = out@;
        out.push((idc, sorted));
        proof {
            assert forall|k: int| 0 <= k < i + 1 implies #[trigger] table_view(out@)[k] == (
            nv[k].id, contexts_of(nv, nv[k].id)) by {
                if k < i {
                    assert(table_view(out_pre)[k] == (nv[k].id, contexts_of(nv, nv[k].id)));
                    assert(table_view(out_pre)[k] == (out_pre[k].0@, out_pre[k].1.deep_view()));
                    assert(out@[k] == out_pre[k]);
                    assert(table_view(out@)[k] == (out@[k].0@, out@[k].1.deep_view()));
                } else {
                    assert(table_view(out@)[k] == (out@[k].0@, out@[k].1.deep_view()));
                    assert(out@[k].0@ == idv);
                    assert(out@[k].1.deep_view() == sv);
                    assert(idv == nv[k].id);
                    assert(sv == contexts_of(nv, nv[k].id));
                }
            }
        }
        i = i + 1;
    }
    proof {
        assert(table_view(out@) =~= contexts_table(nv));
    }
    out
}

/// The ids reachable in one or more transclusion hops from `id`, given the
/// closures of everything placed earlier in the order: every direct target
/// plus that target's own closure.
pub open spec fn closure_items(
    ts: Seq<Seq<char>>,
    earlier: Seq<(Seq<char>, Seq<Seq<char>>)>,
) -> Seq<Seq<char>>
    decreases ts.len(),
{
    if ts.len() == 0 {
        Seq::empty()
    } else {
        closure_items(ts.drop_last(), earlier) + seq![ts.last()] + table_lookup(
            earlier,
            ts.last(),
        )
    }
}

/// The closure table over a processing order: one entry per order position.
pub open spec fn spec_closures(ns: Seq<NoteV>, order: Seq<Seq<char>>) -> Seq<
    (Seq<char>, Seq<Seq<char>>),
>
    decreases order.len(),
{
    if order.len() == 0 {
        Seq::empty()
    } else {
        let p = spec_closures(ns, order.drop_last());
        let id = order.last();
        let items = closure_items(crate::resolver::transcludes_of(ns, id), p);
        p.push((id, spec_sorted_set(items)))
    }
}

/// Compute, per note and in resolver order, the set of ids reachable through
/// one or more transclusion hops.
pub fn compute_closures(notes: &Vec<Note>, order: &Vec<String>) -> (r: Vec<(String, Vec<String>)>)
    ensures
        table_view(r@) == spec_closures(notes.deep_view(), order.deep_view()),
{
    let ghost nv = notes.deep_view();
    let ghost ov = order.deep_view();
    let mut out: Vec<(String, Vec<String>)> = Vec::new();
    proof {
        assert(ov.subrange(0, 0) =~= Seq::empty());
        assert(table_view(out@) =~= Seq::<(Seq<char>, Seq<Seq<char>>)>::empty());
    }
    let mut i: usize = 0;
    while i < order.len()
        invariant
            0 <= i <= order@.len(),
            nv == notes.deep_view(),
            ov == order.deep_view(),
            ov.len() == order@.len(),
            table_view(out@) == spec_closures(nv, ov.subrange(0, i as int)),
        decreases order@.len() - i,
    {
        proof {
            assert(ov.subrange(0, i + 1).drop_last() =~= ov.subrange(0, i as int));
            assert(ov.subrange(0, i + 1).last() == ov[i as int]);
            assert(ov[i as int] == order@[i as int]@);
        }
        let id = &order[i];
        let ghost earlier = table_view(out@);
        let mut items: Vec<String> = Vec::new();
        proof {
            assert(items.deep_view() =~= Seq::<Seq<char>>::empty());
        }
        match crate::resolver::transcludes_for(notes, id.as_str()) {
            Some(ts) => {
                let ghost tv = crate::resolver::transcludes_of(nv, id@);
                proof {
                    assert(tv.subrange(0, 0) =~= Seq::empty());
                }
                let mut k: usize = 0;
                while k < ts.len()
                    invariant
                        0 <= k <= ts@.len(),
                        tv == ts.deep_view(),
                        tv.len() == ts@.len(),
                        earlier == table_view(out@),
                        items.deep_view() == closure_items(tv.subrange(0, k as int), earlier),
                    decreases ts@.len() - k,
                {
                    proof {
                        assert(tv.subrange(0, k + 1).drop_last() =~= tv.subrange(0, k as int));
                        assert(tv.subrange(0, k + 1).last() == tv[k as int]);
                        assert(tv[k as int] == ts@[k as int]@);
                    }
                    let ghost before = items.deep_view();
                    let tc = ts[k].clone();
                    items.push(tc);
                    proof {
                        assert(items.deep_view() =~= before.push(tv[k as int]));
                        assert(before.push(tv[k as int]) =~= before + seq![tv[k as int]]);
                    }
                    let ghost mid = items.deep_view();
                    match table_get(&out, ts[k].as_str()) {
                        Some(cl) => {
                            let ghost clv = cl.deep_view();
                            proof {
                                assert(clv.subrange(0, 0) =~= Seq::empty());
                                assert(mid + clv.subrange(0, 0) =~= mid);
                            }
                            let mut m: usize = 0;
                            while m < cl.len()
                                invariant
                                    0 <= m <= cl@.len(),
                                    clv == cl.deep_view(),
                                    clv.len() == cl@.len(),
                                    items.deep_view() == mid + clv.subrange(0, m as int),
                                decreases cl@.len() - m,
                            {
                                proof {
                                    assert(clv.subrange(0, m + 1).drop_last() =~= clv.subrange(
                                        0,
                                        m as int,
                                    ));
                                    assert(clv.subrange(0, m + 1).last() == clv[m as int]);
                                    assert(clv[m as int] == cl@[m as int]@);
                                }
                                let ghost before2 = items.deep_view();
                                let cc = cl[m].clone();
                                items.push(cc);
                                proof {
                                    assert(items.deep_view() =~= before2.push(clv[m as int]));
                                    assert(before2.push(clv[m as int]) =~= mid + clv.subrange(
                                        0,
                                        m + 1,
                                    ));
                                }
                                m = m + 1;
                            }
                            proof {
                                assert(clv.subrange(0, cl@.len() as int) =~= clv);
                                assert(items.deep_view() =~= (before + seq![tv[k as int]])
                                    + table_lookup(earlier, tv[k as int]));
                            }
                        },
                        None => {
                            proof {
                                assert(items.deep_view() =~= (before + seq![tv[k as int]])
                                    + table_lookup(earlier, tv[k as int]));
                            }
                        },
                    }
                    k = k + 1;
                }
                proof {
                    assert(tv.subrange(0, ts@.len() as int) =~= tv);
                }
            },
            None => {
                proof {
                    assert(closure_items(Seq::<Seq<char>>::empty(), earlier) =~= Seq::<
                        Seq<char>,
                    >::empty());
                }
            },
        }
        let sorted = sorted_id_set(&items);
        let idc = id.clone();
        let ghost outpre = table_view(out@);
        out.push((idc, sorted));
        proof {
            assert(table_view(out@) =~= outpre.push((ov[i as int], spec_sorted_set(closure_items(
                crate::resolver::transcludes_of(nv, ov[i as int]),
                outpre,
            )))));
        }
        i = i + 1;
    }
    proof {
        assert(ov.subrange(0, order@.len() as int) =~= ov);
    }
    out
}

} // verus!
