//! Ordered id lists: membership, lexicographic sorting and deduplication.
//!
//! Citation, related, backlink and context lists are all kept as vectors of
//! note ids, sorted with [`spec_sort`] and deduplicated, so that every
//! produced page is a pure function of the input corpus.

use vstd::prelude::*;

use crate::text::{seq_le, seq_lt, str_eq, str_lt};

verus! {

/// Two sequences with equal heads and equal tails are equal.
proof fn lemma_eq_head_tail(a: Seq<char>, b: Seq<char>)
    requires
        a.len() > 0,
        b.len() > 0,
        a[0] == b[0],
        a.drop_first() == b.drop_first(),
    ensures
        a == b,
{
    assert(a.drop_first().len() == a.len() - 1);
    assert(b.drop_first().len() == b.len() - 1);
    assert(a.len() == b.len());
    assert forall|i: int| 0 <= i < a.len() implies a[i] == b[i] by {
        if i > 0 {
            assert(a.drop_first()[i - 1] == a[i]);
            assert(b.drop_first()[i - 1] == b[i]);
        }
    }
    assert(a =~= b);
}

/// Two characters with the same scalar value are the same character.
proof fn lemma_char_inj(c: char, d: char)
    requires
        (c as u32) == (d as u32),
    ensures
        c == d,
{
    vstd::utf8::char_u32_cast(c, c as u32);
    vstd::utf8::char_u32_cast(d, d as u32);
}

/// Whether `ids` (a sequence of id views) contains `x`.
pub open spec fn id_list_contains(ids: Seq<Seq<char>>, x: Seq<char>) -> bool {
    ids.contains(x)
}

/// Membership test against a vector of ids.
pub fn contains_id(ids: &Vec<String>, x: &str) -> (r: bool)
    ensures
        r == id_list_contains(ids.deep_view(), x@),
{
    let mut i: usize = 0;
    while i < ids.len()
        invariant
            0 <= i <= ids@.len(),
            forall|j: int| 0 <= j < i ==> ids.deep_view()[j] != x@,
        decreases ids@.len() - i,
    {
        if str_eq(ids[i].as_str(), x) {
            proof {
                assert(ids.deep_view()[i as int] == x@);
            }
            return true;
        }
        proof {
            assert(ids.deep_view()[i as int] == ids[i as int]@);
        }
        i = i + 1;
    }
    proof {
        if ids.deep_view().contains(x@) {
            let j = choose|j: int| 0 <= j < ids.deep_view().len() && ids.deep_view()[j] == x@;
            assert(false);
        }
    }
    false
}

/// `x` inserted in front of the first element of `s` that is not below it.
pub open spec fn spec_ins(s: Seq<Seq<char>>, x: Seq<char>) -> Seq<Seq<char>>
    decreases s.len(),
{
    if s.len() == 0 {
        seq![x]
    } else if seq_le(x, s[0]) {
        seq![x] + s
    } else {
        seq![s[0]] + spec_ins(s.drop_first(), x)
    }
}

/// Insertion sort of a sequence of ids, in lexicographic order.
pub open spec fn spec_sort(s: Seq<Seq<char>>) -> Seq<Seq<char>>
    decreases s.len(),
{
    if s.len() == 0 {
        Seq::empty()
    } else {
        spec_ins(spec_sort(s.drop_last()), s.last())
    }
}

/// Pairwise lexicographic sortedness.
pub open spec fn sorted(s: Seq<Seq<char>>) -> bool {
    forall|i: int, j: int| 0 <= i < j < s.len() ==> seq_le(#[trigger] s[i], #[trigger] s[j])
}

proof fn lemma_seq_le_total(a: Seq<char>, b: Seq<char>)
    ensures
        seq_le(a, b) || seq_le(b, a),
    decreases a.len(),
{
    if b.len() == 0 || a.len() == 0 {
        if a.len() == 0 && b.len() == 0 {
            assert(a =~= b);
        }
    } else if (a[0] as u32) == (b[0] as u32) {
        lemma_char_inj(a[0], b[0]);
        lemma_seq_le_total(a.drop_first(), b.drop_first());
        if seq_lt(a.drop_first(), b.drop_first()) {
            assert(seq_lt(a, b));
        } else if seq_lt(b.drop_first(), a.drop_first()) {
            assert(seq_lt(b, a));
        } else if a.drop_first() == b.drop_first() {
            lemma_eq_head_tail(a, b);
        } else {
            assert(b.drop_first() == a.drop_first());
        }
    } else if (a[0] as u32) < (b[0] as u32) {
        assert(seq_lt(a, b));
    } else {
        assert(seq_lt(b, a));
    }
}

proof fn lemma_ins_sorted(s: Seq<Seq<char>>, x: Seq<char>)
    requires
        sorted(s),
    ensures
        sorted(spec_ins(s, x)),
        spec_ins(s, x).len() == s.len() + 1,
        forall|y: Seq<char>| #[trigger] spec_ins(s, x).contains(y) <==> (s.contains(y) || y == x),
    decreases s.len(),
{
    if s.len() == 0 {
        assert(spec_ins(s, x) =~= seq![x]);
        assert forall|y: Seq<char>| #[trigger] spec_ins(s, x).contains(y) <==> (s.contains(y) || y
            == x) by {
            if y == x {
                assert(spec_ins(s, x)[0] == y);
            }
            if spec_ins(s, x).contains(y) {
                let k = choose|k: int| 0 <= k < spec_ins(s, x).len() && spec_ins(s, x)[k] == y;
                assert(k == 0);
            }
        }
    } else if seq_le(x, s[0]) {
        let r = seq![x] + s;
        assert(forall|i: int| 1 <= i < r.len() ==> r[i] == s[i - 1]);
        assert forall|i: int, j: int| 0 <= i < j < r.len() implies seq_le(r[i], r[j]) by {
            if i == 0 {
                if j >= 1 {
                    if x == s[j - 1] {
                    } else {
                        if 0 < j - 1 {
                            assert(seq_le(s[0], s[j - 1]));
                        }
                        lemma_seq_le_trans(x, s[0], s[j - 1]);
                    }
                }
            }
        }
        assert forall|y: Seq<char>| r.contains(y) <==> (s.contains(y) || y == x) by {
            if r.contains(y) {
                let k = choose|k: int| 0 <= k < r.len() && r[k] == y;
                if k > 0 {
                    assert(s[k - 1] == y);
                }
            }
            if s.contains(y) {
                let k = choose|k: int| 0 <= k < s.len() && s[k] == y;
                assert(r[k + 1] == y);
            }
            if y == x {
                assert(r[0] == y);
            }
        }
    } else {
        lemma_seq_le_total(x, s[0]);
        assert(seq_le(s[0], x));
        let t = s.drop_first();
        assert(sorted(t)) by {
            assert(forall|i: int| 0 <= i < t.len() ==> t[i] == s[i + 1]);
        }
        lemma_ins_sorted(t, x);
        let r = seq![s[0]] + spec_ins(t, x);
        assert forall|i: int, j: int| 0 <= i < j < r.len() implies seq_le(r[i], r[j]) by {
            if i == 0 {
                let y = r[j];
                assert(spec_ins(t, x).contains(y)) by {
                    assert(spec_ins(t, x)[j - 1] == y);
                }
                if y == x {
                } else {
                    assert(t.contains(y));
                    let k = choose|k: int| 0 <= k < t.len() && t[k] == y;
                    assert(t[k] == s[k + 1]);
                    assert(seq_le(s[0], s[k + 1])) by {
                        assert(sorted(s));
                        assert(0 < k + 1 < s.len());
                    }
                    assert(seq_le(r[i], r[j]));
                }
            } else {
                assert(r[i] == spec_ins(t, x)[i - 1]);
                assert(r[j] == spec_ins(t, x)[j - 1]);
            }
        }
        assert forall|y: Seq<char>| r.contains(y) <==> (s.contains(y) || y == x) by {
            if r.contains(y) {
                let k = choose|k: int| 0 <= k < r.len() && r[k] == y;
                if k == 0 {
                    assert(s[0] == y);
                } else {
                    assert(spec_ins(t, x)[k - 1] == y);
                    assert(spec_ins(t, x).contains(y));
                    if y != x {
                        assert(t.contains(y));
                        let m = choose|m: int| 0 <= m < t.len() && t[m] == y;
                        assert(t[m] == s[m + 1]);
                    }
                }
            }
            if s.contains(y) {
                let k = choose|k: int| 0 <= k < s.len() && s[k] == y;
                if k == 0 {
                    assert(r[0] == y);
                } else {
                    assert(t[k - 1] == y);
                    assert(t.contains(y));
                    assert(spec_ins(t, x).contains(y));
                    let m = choose|m: int| 0 <= m < spec_ins(t, x).len() && spec_ins(t, x)[m]
                        == y;
                    assert(r[m + 1] == y);
                }
            }
            if y == x {
                assert(spec_ins(t, x).contains(y));
                let m = choose|m: int| 0 <= m < spec_ins(t, x).len() && spec_ins(t, x)[m] == y;
                assert(r[m + 1] == y);
                assert(r.contains(y));
            }
        }
    }
}

proof fn lemma_seq_le_trans(a: Seq<char>, b: Seq<char>, c: Seq<char>)
    requires
        seq_le(a, b),
        seq_le(b, c),
    ensures
        seq_le(a, c),
    decreases a.len() + b.len() + c.len(),
{
    if a == b || b == c {
    } else {
        if c.len() == 0 {
            assert(!seq_lt(b, c));
        } else if a.len() == 0 {
        } else if b.len() == 0 {
            assert(!seq_lt(a, b));
        } else {
            if (a[0] as u32) < (b[0] as u32) || (b[0] as u32) < (c[0] as u32) {
                assert((a[0] as u32) <= (b[0] as u32) && (b[0] as u32) <= (c[0] as u32)) by {
                    assert(seq_lt(a, b) && seq_lt(b, c));
                }
                assert((a[0] as u32) < (c[0] as u32));
                assert(seq_lt(a, c));
            } else {
                lemma_char_inj(a[0], b[0]);
                lemma_char_inj(b[0], c[0]);
                assert(a[0] == b[0] && b[0] == c[0]);
                assert(seq_lt(a.drop_first(), b.drop_first()) || a.drop_first() == b.drop_first())
                    by {
                    assert(seq_lt(a, b));
                }
                assert(seq_lt(b.drop_first(), c.drop_first()) || b.drop_first() == c.drop_first())
                    by {
                    assert(seq_lt(b, c));
                }
                lemma_seq_le_trans(a.drop_first(), b.drop_first(), c.drop_first());
                if seq_lt(a.drop_first(), c.drop_first()) {
                    assert(seq_lt(a, c));
                } else {
                    assert(a.drop_first() == c.drop_first());
                    lemma_eq_head_tail(a, c);
                }
            }
        }
    }
}

/// Sorting sorts: the specification order is pairwise sorted and keeps
/// exactly the ids of the input.
pub proof fn lemma_sort_sorted(s: Seq<Seq<char>>)
    ensures
        sorted(spec_sort(s)),
        spec_sort(s).len() == s.len(),
        forall|y: Seq<char>| #[trigger] spec_sort(s).contains(y) <==> s.contains(y),
    decreases s.len(),
{
    if s.len() == 0 {
    } else {
        let t = s.drop_last();
        lemma_sort_sorted(t);
        lemma_ins_sorted(spec_sort(t), s.last());
        assert forall|y: Seq<char>| spec_sort(s).contains(y) <==> s.contains(y) by {
            if s.contains(y) {
                let k = choose|k: int| 0 <= k < s.len() && s[k] == y;
                if k < s.len() - 1 {
                    assert(t[k] == y);
                    assert(t.contains(y));
                }
            }
            if t.contains(y) {
                let k = choose|k: int| 0 <= k < t.len() && t[k] == y;
                assert(s[k] == y);
            }
            if y == s.last() {
                assert(s.contains(y));
            }
        }
    }
}

proof fn lemma_ins_at(s: Seq<Seq<char>>, x: Seq<char>, k: int)
    requires
        0 <= k <= s.len(),
        forall|j: int| 0 <= j < k ==> !seq_le(x, #[trigger] s[j]),
        k < s.len() ==> seq_le(x, s[k]),
    ensures
        spec_ins(s, x) == s.insert(k, x),
    decreases s.len(),
{
    if s.len() == 0 {
        assert(spec_ins(s, x) =~= s.insert(0, x));
    } else if seq_le(x, s[0]) {
        assert(k == 0);
        assert(spec_ins(s, x) =~= s.insert(0, x));
    } else {
        assert(k > 0);
        let t = s.drop_first();
        lemma_ins_at(t, x, k - 1);
        assert(seq![s[0]] + t.insert(k - 1, x) =~= s.insert(k, x));
    }
}

/// Sort a list of ids lexicographically.
pub fn sort_ids(v: &Vec<String>) -> (r: Vec<String>)
    ensures
        r.deep_view() == spec_sort(v.deep_view()),
{
    let mut out: Vec<String> = Vec::new();
    let mut i: usize = 0;
    while i < v.len()
        invariant
            0 <= i <= v@.len(),
            out.deep_view() == spec_sort(v.deep_view().subrange(0, i as int)),
        decreases v@.len() - i,
    {
        let x = &v[i];
        let mut k: usize = 0;
        while k < out.len() && str_lt(out[k].as_str(), x.as_str())
            invariant
                0 <= k <= out@.len(),
                forall|j: int| 0 <= j < k ==> seq_lt(#[trigger] out.deep_view()[j], x@),
            decreases out@.len() - k,
        {
            proof {
                assert(out.deep_view()[k as int] == out[k as int]@);
            }
            k = k + 1;
        }
        proof {
            let dv = out.deep_view();
            assert forall|j: int| 0 <= j < k implies !seq_le(x@, #[trigger] dv[j]) by {
                lemma_le_lt_excl(dv[j], x@);
            }
            if k < out@.len() {
                assert(dv[k as int] == out[k as int]@);
                assert(!seq_lt(out[k as int]@, x@));
                lemma_seq_le_total(x@, dv[k as int]);
                if x@ == dv[k as int] {
                } else {
                    assert(seq_le(x@, dv[k as int]));
                }
            }
            lemma_ins_at(dv, x@, k as int);
        }
        let xc = x.clone();
        out.insert(k, xc);
        proof {
            let pre = v.deep_view().subrange(0, i as int);
            let cur = v.deep_view().subrange(0, i + 1);
            assert(cur.drop_last() =~= pre);
            assert(cur.last() == v.deep_view()[i as int]);
            assert(v.deep_view()[i as int] == v[i as int]@);
            assert(out.deep_view() =~= spec_ins(spec_sort(pre), v[i as int]@));
        }
        i = i + 1;
    }
    proof {
        assert(v.deep_view().subrange(0, v@.len() as int) =~= v.deep_view());
    }
    out
}

proof fn lemma_le_lt_excl(a: Seq<char>, b: Seq<char>)
    requires
        seq_lt(a, b),
    ensures
        !seq_le(b, a),
    decreases a.len(),
{
    if b.len() == 0 {
    } else if a.len() == 0 {
        assert(!seq_lt(b, a));
        assert(a != b);
    } else {
        if (a[0] as u32) < (b[0] as u32) {
            assert(!seq_lt(b, a));
            assert(a != b) by {
                if a == b {
                    assert(a[0] == b[0]);
                }
            }
        } else {
            assert(!((a[0] as u32) > (b[0] as u32))) by {
                if (a[0] as u32) > (b[0] as u32) {
                    assert(!seq_lt(a, b));
                }
            }
            assert((a[0] as u32) == (b[0] as u32));
            lemma_char_inj(a[0], b[0]);
            lemma_le_lt_excl(a.drop_first(), b.drop_first());
            assert(!seq_lt(b, a));
            if a == b {
                assert(a.drop_first() == b.drop_first());
            }
        }
    }
}

/// `s` with immediately repeated ids collapsed to one.
pub open spec fn spec_dedup(s: Seq<Seq<char>>) -> Seq<Seq<char>>
    decreases s.len(),
{
    if s.len() == 0 {
        Seq::empty()
    } else if s.len() == 1 {
        s
    } else if s.last() == s[s.len() - 2] {
        spec_dedup(s.drop_last())
    } else {
        spec_dedup(s.drop_last()).push(s.last())
    }
}

/// Collapse adjacent duplicates of a sorted id list.
pub fn dedup_sorted(v: &Vec<String>) -> (r: Vec<String>)
    ensures
        r.deep_view() == spec_dedup(v.deep_view()),
{
    let mut out: Vec<String> = Vec::new();
    let mut i: usize = 0;
    while i < v.len()
        invariant
            0 <= i <= v@.len(),
            out.deep_view() == spec_dedup(v.deep_view().subrange(0, i as int)),
            i > 0 ==> out@.len() > 0,
        decreases v@.len() - i,
    {
        proof {
            let pre = v.deep_view().subrange(0, i as int);
            let cur = v.deep_view().subrange(0, i + 1);
            assert(cur.drop_last() =~= pre);
            assert(cur.last() == v.deep_view()[i as int]);
            assert(v.deep_view()[i as int] == v[i as int]@);
            if i > 0 {
                assert(cur[i - 1] == v.deep_view()[i - 1]);
                assert(v.deep_view()[i - 1] == v[i - 1]@);
            }
        }
        if i > 0 && str_eq(v[i].as_str(), v[i - 1].as_str()) {
        } else {
            let xc = v[i].clone();
            out.push(xc);
            proof {
                let pre = v.deep_view().subrange(0, i as int);
                assert(out.deep_view() =~= spec_dedup(pre).push(v[i as int]@));
                if i > 0 {
                    let cur = v.deep_view().subrange(0, i + 1);
                    assert(cur.last() != cur[i - 1]);
                }
            }
        }
        i = i + 1;
    }
    proof {
        assert(v.deep_view().subrange(0, v@.len() as int) =~= v.deep_view());
    }
    out
}

/// Sort then deduplicate: the canonical form of an id set.
pub open spec fn spec_sorted_set(s: Seq<Seq<char>>) -> Seq<Seq<char>> {
    spec_dedup(spec_sort(s))
}

/// Sort a list of ids and drop duplicates.
pub fn sorted_id_set(v: &Vec<String>) -> (r: Vec<String>)
    ensures
        r.deep_view() == spec_sorted_set(v.deep_view()),
{
    let s = sort_ids(v);
    dedup_sorted(&s)
}


/// The value filed under the first entry with key `k`, if any.
pub open spec fn assoc_lookup(m: Seq<(Seq<char>, Seq<char>)>, k: Seq<char>) -> Option<Seq<char>>
    decreases m.len(),
{
    if m.len() == 0 {
        Option::None
    } else if m[0].0 == k {
        Option::Some(m[0].1)
    } else {
        assoc_lookup(m.drop_first(), k)
    }
}

/// The pair views of a vector of string pairs.
pub open spec fn pairs_view(m: Seq<(String, String)>) -> Seq<(Seq<char>, Seq<char>)> {
    Seq::new(m.len(), |i: int| (m[i].0@, m[i].1@))
}

/// Find the first entry with the given key.
pub fn assoc_get<'a>(m: &'a Vec<(String, String)>, k: &str) -> (r: Option<&'a String>)
    ensures
        match r {
            Option::Some(v) => assoc_lookup(pairs_view(m@), k@) == Option::Some(v@),
            Option::None => assoc_lookup(pairs_view(m@), k@) == Option::None::<Seq<char>>,
        },
{
    let mut i: usize = 0;
    proof {
        assert(pairs_view(m@).skip(0) =~= pairs_view(m@));
    }
    while i < m.len()
        invariant
            0 <= i <= m@.len(),
            assoc_lookup(pairs_view(m@), k@) == assoc_lookup(pairs_view(m@).skip(i as int), k@),
        decreases m@.len() - i,
    {
        let hit = str_eq(m[i].0.as_str(), k);
        proof {
            let mv = pairs_view(m@);
            assert(mv.skip(i as int)[0] == mv[i as int]);
            assert(mv[i as int] == (m@[i as int].0@, m@[i as int].1@));
        }
        if hit {
            return Some(&m[i].1);
        }
        proof {
            let mv = pairs_view(m@);
            assert(mv.skip(i as int).drop_first() =~= mv.skip(i + 1));
        }
        i = i + 1;
    }
    proof {
        assert(pairs_view(m@).skip(m@.len() as int).len() == 0);
    }
    None
}

/// The value filed under the last entry with key `k`, if any: map semantics
/// where a later write wins.
pub open spec fn assoc_lookup_last(m: Seq<(Seq<char>, Seq<char>)>, k: Seq<char>) -> Option<
    Seq<char>,
>
    decreases m.len(),
{
    if m.len() == 0 {
        Option::None
    } else if m.last().0 == k {
        Option::Some(m.last().1)
    } else {
        assoc_lookup_last(m.drop_last(), k)
    }
}

/// Find the last entry with the given key.
pub fn assoc_get_last<'a>(m: &'a Vec<(String, String)>, k: &str) -> (r: Option<&'a String>)
    ensures
        match r {
            Option::Some(v) => assoc_lookup_last(pairs_view(m@), k@) == Option::Some(v@),
            Option::None => assoc_lookup_last(pairs_view(m@), k@) == Option::None::<Seq<char>>,
        },
{
    let mut i: usize = m.len();
    proof {
        assert(pairs_view(m@).subrange(0, m@.len() as int) =~= pairs_view(m@));
    }
    while i > 0
        invariant
            0 <= i <= m@.len(),
            assoc_lookup_last(pairs_view(m@), k@) == assoc_lookup_last(
                pairs_view(m@).subrange(0, i as int),
                k@,
            ),
        decreases i,
    {
        let hit = str_eq(m[i - 1].0.as_str(), k);
        proof {
            let mv = pairs_view(m@);
            let cur = mv.subrange(0, i as int);
            assert(cur.last() == mv[i - 1]);
            assert(mv[i - 1] == (m@[i - 1].0@, m@[i - 1].1@));
        }
        if hit {
            return Some(&m[i - 1].1);
        }
        proof {
            let mv = pairs_view(m@);
            assert(mv.subrange(0, i as int).drop_last() =~= mv.subrange(0, i - 1));
        }
        i = i - 1;
    }
    proof {
        assert(pairs_view(m@).subrange(0, 0).len() == 0);
    }
    None
}


proof fn lemma_sorted_prefix(s: Seq<Seq<char>>)
    requires
        sorted(s),
        s.len() > 0,
    ensures
        sorted(s.drop_last()),
{
    assert forall|i: int, j: int| 0 <= i < j < s.drop_last().len() implies seq_le(
        #[trigger] s.drop_last()[i],
        #[trigger] s.drop_last()[j],
    ) by {
        assert(s.drop_last()[i] == s[i]);
        assert(s.drop_last()[j] == s[j]);
    }
}

proof fn lemma_dedup_sorted(s: Seq<Seq<char>>)
    requires
        sorted(s),
    ensures
        sorted(spec_dedup(s)),
        forall|y: Seq<char>| #[trigger] spec_dedup(s).contains(y) <==> s.contains(y),
        spec_dedup(s).len() > 0 ==> s.len() > 0 && spec_dedup(s).last() == s.last(),
    decreases s.len(),
{
    if s.len() == 0 {
    } else if s.len() == 1 {
        assert forall|y: Seq<char>| #[trigger] spec_dedup(s).contains(y) <==> s.contains(y) by {}
    } else {
        let t = s.drop_last();
        lemma_sorted_prefix(s);
        lemma_dedup_sorted(t);
        assert(t.len() > 0);
        assert forall|y: Seq<char>| #[trigger] t.contains(y) implies s.contains(y) by {
            let k = choose|k: int| 0 <= k < t.len() && t[k] == y;
            assert(s[k] == y);
        }
        if s.last() == s[s.len() - 2] {
            assert(t.contains(s.last())) by {
                assert(t[t.len() - 1] == s[s.len() - 2]);
            }
            assert forall|y: Seq<char>| #[trigger] spec_dedup(s).contains(y) <==> s.contains(y)
                by {
                if s.contains(y) {
                    let k = choose|k: int| 0 <= k < s.len() && s[k] == y;
                    if k < s.len() - 1 {
                        assert(t[k] == y);
                        assert(t.contains(y));
                    } else {
                        assert(y == s.last());
                        assert(t.contains(y));
                    }
                }
            }
        } else {
            let d = spec_dedup(t).push(s.last());
            assert(spec_dedup(s) == d);
            assert(sorted(d)) by {
                assert forall|i: int, j: int| 0 <= i < j < d.len() implies seq_le(
                    #[trigger] d[i],
                    #[trigger] d[j],
                ) by {
                    if j < d.len() - 1 {
                        assert(d[i] == spec_dedup(t)[i] && d[j] == spec_dedup(t)[j]);
                    } else {
                        assert(d[j] == s.last());
                        assert(d[i] == spec_dedup(t)[i]);
                        assert(spec_dedup(t).contains(spec_dedup(t)[i]));
                        assert(t.contains(d[i]));
                        let k = choose|k: int| 0 <= k < t.len() && t[k] == d[i];
                        assert(s[k] == d[i]);
                        assert(seq_le(s[k], s[s.len() - 1]));
                    }
                }
            }
            assert forall|y: Seq<char>| #[trigger] spec_dedup(s).contains(y) <==> s.contains(y)
                by {
                if d.contains(y) {
                    let k = choose|k: int| 0 <= k < d.len() && d[k] == y;
                    if k < d.len() - 1 {
                        assert(spec_dedup(t)[k] == y);
                        assert(spec_dedup(t).contains(y));
                        assert(t.contains(y));
                    } else {
                        assert(y == s.last());
                        assert(s.contains(y)) by {
                            assert(s[s.len() - 1] == y);
                        }
                    }
                }
                if s.contains(y) {
                    let k = choose|k: int| 0 <= k < s.len() && s[k] == y;
                    if k < s.len() - 1 {
                        assert(t[k] == y);
                        assert(t.contains(y));
                        assert(spec_dedup(t).contains(y));
                        let m = choose|m: int|
                            0 <= m < spec_dedup(t).len() && spec_dedup(t)[m] == y;
                        assert(d[m] == y);
                        assert(d.contains(y));
                    } else {
                        assert(d[d.len() - 1] == y);
                        assert(d.contains(y));
                    }
                }
            }
        }
    }
}

/// The canonical form of an id set is sorted, duplicate-free in effect, and
/// holds exactly the ids of the input.
pub proof fn lemma_sorted_set_canonical(s: Seq<Seq<char>>)
    ensures
        sorted(spec_sorted_set(s)),
        forall|y: Seq<char>| #[trigger] spec_sorted_set(s).contains(y) <==> s.contains(y),
{
    lemma_sort_sorted(s);
    lemma_dedup_sorted(spec_sort(s));
}

} // verus!
