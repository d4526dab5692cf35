//! The dependency resolver: a deterministic processing order over the
//! transclusion graph, with cycle detection.
//!
//! The order is canonical: at every step the lexicographically smallest note
//! id whose transclusion targets have all been placed is placed next.  Every
//! target therefore precedes every note that transcludes it, and the order
//! is a pure function of the note table.  An edge to a nonexistent id is
//! reported first; if no progress can be made the remaining notes contain a
//! cycle, and one is walked out and reported as a chain of ids.

use vstd::prelude::*;

use crate::error::{BuildError, ErrorV};
use crate::ids::{contains_id, sort_ids, spec_sort};
use crate::note::{note_ids, note_ids_of, Note, NoteV};
use crate::text::str_eq;

verus! {

/// The transclusion targets of the first note with the given id.
pub open spec fn transcludes_of(ns: Seq<NoteV>, id: Seq<char>) -> Seq<Seq<char>>
    decreases ns.len(),
{
    if ns.len() == 0 {
        Seq::empty()
    } else if ns[0].id == id {
        ns[0].transcludes
    } else {
        transcludes_of(ns.drop_first(), id)
    }
}

/// Look the transclusion list of a note id up.
pub fn transcludes_for<'a>(notes: &'a Vec<Note>, id: &str) -> (r: Option<&'a Vec<String>>)
    ensures
        match r {
            Option::Some(v) => transcludes_of(notes.deep_view(), id@) == v.deep_view(),
            Option::None => transcludes_of(notes.deep_view(), id@) == Seq::<Seq<char>>::empty(),
        },
{
    let ghost nv = notes.deep_view();
    proof {
        assert(nv.skip(0) =~= nv);
    }
    let mut i: usize = 0;
    while i < notes.len()
        invariant
            0 <= i <= notes@.len(),
            nv == notes.deep_view(),
            nv.len() == notes@.len(),
            transcludes_of(nv, id@) == transcludes_of(nv.skip(i as int), id@),
        decreases notes@.len() - i,
    {
        proof {
            assert(nv.skip(i as int)[0] == nv[i as int]);
            assert(nv[i as int] == notes@[i as int]@);
        }
        if str_eq(notes[i].id.as_str(), id) {
            return Some(&notes[i].transcludes);
        }
        proof {
            assert(nv.skip(i as int).drop_first() =~= nv.skip(i + 1));
        }
        i = i + 1;
    }
    proof {
        assert(nv.skip(notes@.len() as int).len() == 0);
    }
    None
}

/// The first transclusion edge whose target is not a known note id, in
/// declaration order: the referencing id and the bad target.
pub open spec fn first_unknown(ns: Seq<NoteV>, all: Seq<Seq<char>>) -> Option<
    (Seq<char>, Seq<char>),
>
    decreases ns.len(),
{
    if ns.len() == 0 {
        Option::None
    } else {
        match first_unknown_in(ns[0].id, ns[0].transcludes, all) {
            Option::Some(p) => Option::Some(p),
            Option::None => first_unknown(ns.drop_first(), all),
        }
    }
}

/// The first target in `ts` that is not in `all`, tagged with `src`.
pub open spec fn first_unknown_in(src: Seq<char>, ts: Seq<Seq<char>>, all: Seq<Seq<char>>)
    -> Option<(Seq<char>, Seq<char>)>
    decreases ts.len(),
{
    if ts.len() == 0 {
        Option::None
    } else if !all.contains(ts[0]) {
        Option::Some((src, ts[0]))
    } else {
        first_unknown_in(src, ts.drop_first(), all)
    }
}

/// Whether `id` can be placed next: it is not placed yet and all of its
/// transclusion targets already are.
pub open spec fn eligible(ns: Seq<NoteV>, done: Seq<Seq<char>>, id: Seq<char>) -> bool {
    &&& !done.contains(id)
    &&& forall|k: int|
        0 <= k < transcludes_of(ns, id).len() ==> done.contains(
            #[trigger] transcludes_of(ns, id)[k],
        )
}

/// The first eligible id in `cands`.
pub open spec fn first_eligible(cands: Seq<Seq<char>>, ns: Seq<NoteV>, done: Seq<Seq<char>>)
    -> Option<Seq<char>>
    decreases cands.len(),
{
    if cands.len() == 0 {
        Option::None
    } else if eligible(ns, done, cands[0]) {
        Option::Some(cands[0])
    } else {
        first_eligible(cands.drop_first(), ns, done)
    }
}

/// The first transclusion target of `id` that is not yet placed.
pub open spec fn first_unmet(ts: Seq<Seq<char>>, done: Seq<Seq<char>>) -> Option<Seq<char>>
    decreases ts.len(),
{
    if ts.len() == 0 {
        Option::None
    } else if !done.contains(ts[0]) {
        Option::Some(ts[0])
    } else {
        first_unmet(ts.drop_first(), done)
    }
}

/// Walk unmet transclusion edges from `cur` until an id repeats; the
/// resulting chain, ending with the repeated id, names a cycle.
pub open spec fn spec_cycle_walk(
    ns: Seq<NoteV>,
    done: Seq<Seq<char>>,
    cur: Seq<char>,
    chain: Seq<Seq<char>>,
    fuel: nat,
) -> Seq<Seq<char>>
    decreases fuel,
{
    if chain.contains(cur) {
        chain.push(cur)
    } else if fuel == 0 {
        chain.push(cur)
    } else {
        match first_unmet(transcludes_of(ns, cur), done) {
            Option::None => chain.push(cur),
            Option::Some(nxt) => spec_cycle_walk(ns, done, nxt, chain.push(cur), (fuel - 1) as nat),
        }
    }
}

/// The cycle chain reported at a stall: a walk along unmet edges from the
/// lexicographically smallest unplaced id.
pub open spec fn spec_cycle_chain(ns: Seq<NoteV>, done: Seq<Seq<char>>) -> Seq<Seq<char>> {
    match first_unmet(spec_sort(note_ids_of(ns)), done) {
        Option::Some(start) => spec_cycle_walk(ns, done, start, Seq::empty(), ns.len()),
        Option::None => Seq::empty(),
    }
}

/// The canonical order: repeatedly place the smallest eligible id.
pub open spec fn spec_order_rec(ns: Seq<NoteV>, acc: Seq<Seq<char>>, fuel: nat) -> Result<
    Seq<Seq<char>>,
    ErrorV,
>
    decreases fuel,
{
    if acc.len() >= ns.len() {
        Result::Ok(acc)
    } else if fuel == 0 {
        Result::Err(ErrorV::TransclusionCycle { chain: spec_cycle_chain(ns, acc) })
    } else {
        match first_eligible(spec_sort(note_ids_of(ns)), ns, acc) {
            Option::Some(id) => spec_order_rec(ns, acc.push(id), (fuel - 1) as nat),
            Option::None => Result::Err(
                ErrorV::TransclusionCycle { chain: spec_cycle_chain(ns, acc) },
            ),
        }
    }
}

/// The processing order of a note table, or the error that forbids one.
pub open spec fn spec_topo(ns: Seq<NoteV>) -> Result<Seq<Seq<char>>, ErrorV> {
    match first_unknown(ns, note_ids_of(ns)) {
        Option::Some(p) => Result::Err(
            ErrorV::UnknownReferenceTarget { source: p.0, target: p.1 },
        ),
        Option::None => spec_order_rec(ns, Seq::empty(), ns.len() as nat),
    }
}

/// Find the first eligible id among the sorted candidates.
fn find_eligible(cands: &Vec<String>, notes: &Vec<Note>, done: &Vec<String>) -> (r: Option<String>)
    ensures
        match r {
            Option::Some(id) => first_eligible(cands.deep_view(), notes.deep_view(),
            done.deep_view()) == Option::Some(id@),
            Option::None => first_eligible(cands.deep_view(), notes.deep_view(), done.deep_view())
                == Option::None::<Seq<char>>,
        },
{
    let ghost cv = cands.deep_view();
    let ghost nv = notes.deep_view();
    let ghost dv = done.deep_view();
    proof {
        assert(cv.skip(0) =~= cv);
    }
    let mut i: usize = 0;
    while i < cands.len()
        invariant
            0 <= i <= cands@.len(),
            cv == cands.deep_view(),
            nv == notes.deep_view(),
            dv == done.deep_view(),
            cv.len() == cands@.len(),
            first_eligible(cv, nv, dv) == first_eligible(cv.skip(i as int), nv, dv),
        decreases cands@.len() - i,
    {
        proof {
            assert(cv.skip(i as int)[0] == cv[i as int]);
            assert(cv[i as int] == cands@[i as int]@);
        }
        let id = &cands[i];
        let not_done = !contains_id(done, id.as_str());
        let mut all_met = true;
        if not_done {
            match transcludes_for(notes, id.as_str()) {
                Some(ts) => {
                    let ghost tv = transcludes_of(nv, id@);
                    let mut k: usize = 0;
                    while k < ts.len() && all_met
                        invariant
                            0 <= k <= ts@.len(),
                            tv == ts.deep_view(),
                            dv == done.deep_view(),
                            tv.len() == ts@.len(),
                            all_met ==> forall|m: int| 0 <= m < k ==> dv.contains(
                                #[trigger] tv[m],
                            ),
                            !all_met ==> exists|m: int|
                                0 <= m < tv.len() && !dv.contains(#[trigger] tv[m]),
                        decreases ts@.len() - k,
                    {
                        proof {
                            assert(tv[k as int] == ts@[k as int]@);
                        }
                        if !contains_id(done, ts[k].as_str()) {
                            all_met = false;
                            proof {
                                assert(!dv.contains(tv[k as int]));
                            }
                        }
                        k = k + 1;
                    }
                },
                None => {},
            }
        }
        if not_done && all_met {
            proof {
                assert(eligible(nv, dv, cv[i as int]));
            }
            return Some(id.clone());
        }
        proof {
            assert(!eligible(nv, dv, cv[i as int]));
            assert(cv.skip(i as int).drop_first() =~= cv.skip(i + 1));
        }
        i = i + 1;
    }
    proof {
        assert(cv.skip(cands@.len() as int).len() == 0);
    }
    None
}


/// Find the first transclusion edge to a nonexistent id.
fn find_unknown(notes: &Vec<Note>, all: &Vec<String>) -> (r: Option<(String, String)>)
    ensures
        match r {
            Option::Some(p) => first_unknown(notes.deep_view(), all.deep_view()) == Option::Some(
                (p.0@, p.1@),
            ),
            Option::None => first_unknown(notes.deep_view(), all.deep_view()) == Option::None::<
                (Seq<char>, Seq<char>),
            >,
        },
{
    let ghost nv = notes.deep_view();
    let ghost av = all.deep_view();
    proof {
        assert(nv.skip(0) =~= nv);
    }
    let mut i: usize = 0;
    while i < notes.len()
        invariant
            0 <= i <= notes@.len(),
            nv == notes.deep_view(),
            av == all.deep_view(),
            nv.len() == notes@.len(),
            first_unknown(nv, av) == first_unknown(nv.skip(i as int), av),
        decreases notes@.len() - i,
    {
        proof {
            assert(nv.skip(i as int)[0] == nv[i as int]);
            assert(nv[i as int] == notes@[i as int]@);
        }
        let ts = &notes[i].transcludes;
        let ghost tv = nv[i as int].transcludes;
        proof {
            assert(tv.skip(0) =~= tv);
        }
        let mut k: usize = 0;
        while k < ts.len()
            invariant
                0 <= k <= ts@.len(),
                tv == ts.deep_view(),
                av == all.deep_view(),
                tv.len() == ts@.len(),
                nv == notes.deep_view(),
                nv.len() == notes@.len(),
                i < notes@.len(),
                nv[i as int] == notes@[i as int]@,
                tv == nv[i as int].transcludes,
                first_unknown(nv, av) == first_unknown(nv.skip(i as int), av),
                first_unknown_in(nv[i as int].id, tv, av) == first_unknown_in(nv[i as int].id,
                tv.skip(k as int), av),
            decreases ts@.len() - k,
        {
            proof {
                assert(tv.skip(k as int)[0] == tv[k as int]);
                assert(tv[k as int] == ts@[k as int]@);
            }
            if !contains_id(all, ts[k].as_str()) {
                proof {
                    assert(nv.skip(i as int)[0] == nv[i as int]);
                    assert(first_unknown_in(nv[i as int].id, tv.skip(k as int), av)
                        == Option::Some((nv[i as int].id, tv[k as int])));
                }
                return Some((notes[i].id.clone(), ts[k].clone()));
            }
            proof {
                assert(tv.skip(k as int).drop_first() =~= tv.skip(k + 1));
            }
            k = k + 1;
        }
        proof {
            assert(tv.skip(ts@.len() as int).len() == 0);
            assert(nv.skip(i as int).drop_first() =~= nv.skip(i + 1));
        }
        i = i + 1;
    }
    proof {
        assert(nv.skip(notes@.len() as int).len() == 0);
    }
    None
}

/// Find the first unplaced element of `cands`.
fn find_unmet(cands: &Vec<String>, done: &Vec<String>) -> (r: Option<String>)
    ensures
        match r {
            Option::Some(t) => first_unmet(cands.deep_view(), done.deep_view()) == Option::Some(
                t@,
            ),
            Option::None => first_unmet(cands.deep_view(), done.deep_view()) == Option::None::<
                Seq<char>,
            >,
        },
{
    let ghost cv = cands.deep_view();
    let ghost dv = done.deep_view();
    proof {
        assert(cv.skip(0) =~= cv);
    }
    let mut i: usize = 0;
    while i < cands.len()
        invariant
            0 <= i <= cands@.len(),
            cv == cands.deep_view(),
            dv == done.deep_view(),
            cv.len() == cands@.len(),
            first_unmet(cv, dv) == first_unmet(cv.skip(i as int), dv),
        decreases cands@.len() - i,
    {
        proof {
            assert(cv.skip(i as int)[0] == cv[i as int]);
            assert(cv[i as int] == cands@[i as int]@);
        }
        if !contains_id(done, cands[i].as_str()) {
            return Some(cands[i].clone());
        }
        proof {
            assert(cv.skip(i as int).drop_first() =~= cv.skip(i + 1));
        }
        i = i + 1;
    }
    proof {
        assert(cv.skip(cands@.len() as int).len() == 0);
    }
    None
}

/// Walk out and report one cycle among the unplaced notes.
fn cycle_chain(notes: &Vec<Note>, sorted_all: &Vec<String>, done: &Vec<String>) -> (r: Vec<String>)
    requires
        spec_sort(note_ids_of(notes.deep_view())) == sorted_all.deep_view(),
    ensures
        r.deep_view() == spec_cycle_chain(notes.deep_view(), done.deep_view()),
{
    let ghost nv = notes.deep_view();
    let ghost dv = done.deep_view();
    let mut chain: Vec<String> = Vec::new();
    let start = match find_unmet(sorted_all, done) {
        Some(s) => s,
        None => {
            proof {
                assert(chain.deep_view() =~= Seq::<Seq<char>>::empty());
            }
            return chain;
        },
    };
    let fuel: usize = notes.len();
    let mut cur = start;
    proof {
        assert(chain.deep_view() =~= Seq::<Seq<char>>::empty());
    }
    let mut step: usize = 0;
    while step < fuel
        invariant
            0 <= step <= fuel,
            fuel == nv.len(),
            nv == notes.deep_view(),
            dv == done.deep_view(),
            spec_cycle_chain(nv, dv) == spec_cycle_walk(nv, dv, cur@, chain.deep_view(), (fuel
                - step) as nat),
        decreases fuel - step,
    {
        let ghost before = chain.deep_view();
        let ghost cv_old = cur@;
        if contains_id(&chain, cur.as_str()) {
            chain.push(cur);
            proof {
                assert(chain.deep_view() =~= before.push(cv_old));
            }
            return chain;
        }
        let nxt = match transcludes_for(notes, cur.as_str()) {
            Some(ts) => find_unmet(ts, done),
            None => {
                proof {
                    assert(first_unmet(Seq::<Seq<char>>::empty(), dv) == Option::None::<
                        Seq<char>,
                    >);
                }
                None
            },
        };
        match nxt {
            None => {
                chain.push(cur);
                proof {
                    assert(chain.deep_view() =~= before.push(cv_old));
                }
                return chain;
            },
            Some(n) => {
                chain.push(cur);
                cur = n;
                proof {
                    assert(chain.deep_view() =~= before.push(cv_old));
                }
            },
        }
        step = step + 1;
    }
    let ghost before = chain.deep_view();
    let ghost cv_old = cur@;
    chain.push(cur);
    proof {
        assert(chain.deep_view() =~= before.push(cv_old));
    }
    chain
}

/// Compute the processing order over the transclusion graph.
///
/// The result is `Ok` exactly when every transclusion target names a loaded
/// note and the transclusion graph is acyclic; the order places every target
/// before each of its transcluders, and is the same for every run on the
/// same table.
pub fn topo_sort_transclusions(notes: &Vec<Note>) -> (r: Result<Vec<String>, BuildError>)
    ensures
        match r {
            Result::Ok(v) => spec_topo(notes.deep_view()) == Result::<Seq<Seq<char>>, ErrorV>::Ok(
                v.deep_view(),
            ),
            Result::Err(e) => spec_topo(notes.deep_view()) == Result::<
                Seq<Seq<char>>,
                ErrorV,
            >::Err(e@),
        },
{
    let ghost nv = notes.deep_view();
    let all = note_ids(notes);
    match find_unknown(notes, &all) {
        Some(p) => {
            return Err(BuildError::UnknownReferenceTarget { source: p.0, target: p.1 });
        },
        None => {},
    }
    let sorted_all = sort_ids(&all);
    let mut order: Vec<String> = Vec::new();
    proof {
        assert(order.deep_view() =~= Seq::<Seq<char>>::empty());
    }
    let n: usize = notes.len();
    let mut step: usize = 0;
    while step < n
        invariant
            0 <= step <= n,
            n == nv.len(),
            nv == notes.deep_view(),
            sorted_all.deep_view() == spec_sort(note_ids_of(nv)),
            first_unknown(nv, note_ids_of(nv)) == Option::None::<(Seq<char>, Seq<char>)>,
            order.deep_view().len() == step,
            spec_order_rec(nv, Seq::empty(), nv.len() as nat) == spec_order_rec(nv,
            order.deep_view(), (n - step) as nat),
        decreases n - step,
    {
        match find_eligible(&sorted_all, notes, &order) {
            Some(id) => {
                let ghost before = order.deep_view();
                order.push(id);
                proof {
                    assert(order.deep_view() =~= before.push(order@[order@.len() - 1]@));
                }
            },
            None => {
                let chain = cycle_chain(notes, &sorted_all, &order);
                return Err(BuildError::TransclusionCycle { chain });
            },
        }
        step = step + 1;
    }
    Ok(order)
}

} // verus!
