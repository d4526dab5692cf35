//! Text utilities: HTML escaping, ASCII case folding, trimming, target
//! normalization, and lexicographic ordering of note ids.

use vstd::prelude::*;

verus! {

broadcast use vstd::utf8::char_u32_cast;

/// ASCII whitespace as HTML knows it.
pub open spec fn is_space(c: char) -> bool {
    c == ' ' || c == '\t' || c == '\n' || c == '\r' || c == '\u{0c}'
}

/// ASCII uppercase letters map to lowercase; everything else is unchanged.
pub open spec fn lower_char(c: char) -> char {
    if 'A' <= c && c <= 'Z' {
        (((c as u32) + 32) as char)
    } else {
        c
    }
}

/// Character-wise ASCII lowercasing.
pub open spec fn seq_lower(s: Seq<char>) -> Seq<char> {
    s.map_values(|c: char| lower_char(c))
}

/// Equality up to ASCII case.
pub open spec fn seq_eq_ci(a: Seq<char>, b: Seq<char>) -> bool {
    seq_lower(a) == seq_lower(b)
}

/// Relies on str::to_ascii_lowercase: the result is the input with ASCII
/// uppercase letters replaced by their lowercase counterparts.
#[verifier::external_body]
pub fn ascii_lower(s: &str) -> (r: String)
    ensures
        r@ == seq_lower(s@),
{
    s.to_ascii_lowercase()
}

/// String slice equality, decided through owned strings.
pub fn str_eq(a: &str, b: &str) -> (r: bool)
    ensures
        r == (a@ == b@),
{
    let oa = a.to_owned();
    let ob = b.to_owned();
    oa == ob
}

/// Case-insensitive (ASCII) string equality.
pub fn eq_ignore_case(a: &str, b: &str) -> (r: bool)
    ensures
        r == seq_eq_ci(a@, b@),
{
    let la = ascii_lower(a);
    let lb = ascii_lower(b);
    la == lb
}

/// The suffix of `s` left after dropping leading whitespace.
pub open spec fn ltrim_spec(s: Seq<char>) -> Seq<char>
    decreases s.len(),
{
    if s.len() == 0 || !is_space(s[0]) {
        s
    } else {
        ltrim_spec(s.drop_first())
    }
}

/// The prefix of `s` left after dropping trailing whitespace.
pub open spec fn rtrim_spec(s: Seq<char>) -> Seq<char>
    decreases s.len(),
{
    if s.len() == 0 || !is_space(s.last()) {
        s
    } else {
        rtrim_spec(s.drop_last())
    }
}

/// `s` with leading and trailing whitespace dropped.
pub open spec fn trim_spec(s: Seq<char>) -> Seq<char> {
    rtrim_spec(ltrim_spec(s))
}

proof fn lemma_ltrim_at(s: Seq<char>, a: int)
    requires
        0 <= a <= s.len(),
        forall|j: int| 0 <= j < a ==> is_space(s[j]),
        a < s.len() ==> !is_space(s[a]),
    ensures
        ltrim_spec(s) == s.subrange(a, s.len() as int),
    decreases a,
{
    if a == 0 {
        assert(s.subrange(0, s.len() as int) =~= s);
    } else {
        assert(is_space(s[0]));
        lemma_ltrim_at(s.drop_first(), a - 1);
        assert(s.drop_first().subrange(a - 1, s.drop_first().len() as int) =~= s.subrange(
            a,
            s.len() as int,
        ));
    }
}

proof fn lemma_rtrim_at(s: Seq<char>, b: int)
    requires
        0 <= b <= s.len(),
        forall|j: int| b <= j < s.len() ==> is_space(s[j]),
        b > 0 ==> !is_space(s[b - 1]),
    ensures
        rtrim_spec(s) == s.subrange(0, b),
    decreases s.len() - b,
{
    if b == s.len() {
        assert(s.subrange(0, b) =~= s);
    } else {
        assert(is_space(s.last()));
        lemma_rtrim_at(s.drop_last(), b);
        assert(s.drop_last().subrange(0, b) =~= s.subrange(0, b));
    }
}

/// Drop surrounding whitespace.
pub fn trim(s: &str) -> (r: String)
    ensures
        r@ == trim_spec(s@),
{
    let n: usize = s.unicode_len();
    let mut a: usize = 0;
    while a < n && is_space_exec(s.get_char(a))
        invariant
            0 <= a <= n,
            n == s@.len(),
            forall|j: int| 0 <= j < a ==> is_space(s@[j]),
        decreases n - a,
    {
        a = a + 1;
    }
    let mut b: usize = n;
    while b > a && is_space_exec(s.get_char(b - 1))
        invariant
            a <= b <= n,
            n == s@.len(),
            forall|j: int| b <= j < n ==> is_space(s@[j]),
        decreases b,
    {
        b = b - 1;
    }
    let r = s.substring_char(a, b);
    proof {
        lemma_ltrim_at(s@, a as int);
        let t = s@.subrange(a as int, s@.len() as int);
        if b == a {
            lemma_rtrim_at(t, 0);
        } else {
            lemma_rtrim_at(t, b - a);
        }
        assert(t.subrange(0, b - a) =~= s@.subrange(a as int, b as int));
    }
    r.to_owned()
}

/// Whether `c` is ASCII whitespace.
pub fn is_space_exec(c: char) -> (r: bool)
    ensures
        r == is_space(c),
{
    c == ' ' || c == '\t' || c == '\n' || c == '\r' || c == '\u{0c}'
}

/// Whether `p` is a prefix of `s`.
pub open spec fn starts_with_spec(s: Seq<char>, p: Seq<char>) -> bool {
    s.len() >= p.len() && s.subrange(0, p.len() as int) == p
}

/// Prefix test, character by character.
pub fn starts_with(s: &str, p: &str) -> (r: bool)
    ensures
        r == starts_with_spec(s@, p@),
{
    let n: usize = s.unicode_len();
    let m: usize = p.unicode_len();
    if n < m {
        return false;
    }
    let mut i: usize = 0;
    while i < m
        invariant
            0 <= i <= m <= n,
            n == s@.len(),
            m == p@.len(),
            forall|j: int| 0 <= j < i ==> s@[j] == p@[j],
        decreases m - i,
    {
        if s.get_char(i) != p.get_char(i) {
            assert(s@.subrange(0, m as int)[i as int] != p@[i as int]);
            return false;
        }
        i = i + 1;
    }
    proof {
        assert(s@.subrange(0, m as int) =~= p@);
    }
    true
}

/// A reference target, cleaned: surrounding whitespace dropped, then a
/// literal `wb:` namespace prefix stripped if present, then trimmed again.
pub open spec fn normalize_target_spec(raw: Seq<char>) -> Seq<char> {
    let t = trim_spec(raw);
    let u = if starts_with_spec(t, "wb:"@) {
        t.subrange("wb:"@.len() as int, t.len() as int)
    } else {
        t
    };
    trim_spec(u)
}

/// Clean a reference target taken from a `target` attribute.
pub fn normalize_target(raw: &str) -> (r: String)
    ensures
        r@ == normalize_target_spec(raw@),
{
    let t = trim(raw);
    let stripped: String = if starts_with(t.as_str(), "wb:") {
        let m: usize = "wb:".unicode_len();
        t.as_str().substring_char(m, t.as_str().unicode_len()).to_owned()
    } else {
        t
    };
    trim(stripped.as_str())
}

/// The replacement for one character of text content.
pub open spec fn esc_text_char(c: char) -> Seq<char> {
    if c == '&' {
        "&amp;"@
    } else if c == '<' {
        "&lt;"@
    } else if c == '>' {
        "&gt;"@
    } else {
        seq![c]
    }
}

/// Text content with `&`, `<` and `>` escaped.
pub open spec fn escape_text_spec(t: Seq<char>) -> Seq<char>
    decreases t.len(),
{
    if t.len() == 0 {
        Seq::empty()
    } else {
        escape_text_spec(t.drop_last()) + esc_text_char(t.last())
    }
}

/// Escape a text node for serialization.
pub fn escape_text(t: &str) -> (r: String)
    ensures
        r@ == escape_text_spec(t@),
{
    let n: usize = t.unicode_len();
    let mut out = String::new();
    let mut i: usize = 0;
    while i < n
        invariant
            0 <= i <= n,
            n == t@.len(),
            out@ == escape_text_spec(t@.subrange(0, i as int)),
        decreases n - i,
    {
        let c = t.get_char(i);
        if c == '&' {
            out.append("&amp;");
        } else if c == '<' {
            out.append("&lt;");
        } else if c == '>' {
            out.append("&gt;");
        } else {
            let piece = t.substring_char(i, i + 1);
            proof {
                assert(t@.subrange(i as int, i + 1) =~= seq![t@[i as int]]);
            }
            out.append(piece);
        }
        proof {
            let pre = t@.subrange(0, i as int);
            let cur = t@.subrange(0, i + 1);
            assert(cur.drop_last() =~= pre);
            assert(cur.last() == t@[i as int]);
        }
        i = i + 1;
    }
    proof {
        assert(t@.subrange(0, n as int) =~= t@);
    }
    out
}

/// The replacement for one character of an attribute value.
pub open spec fn esc_attr_char(c: char) -> Seq<char> {
    if c == '&' {
        "&amp;"@
    } else if c == '"' {
        "&quot;"@
    } else if c == '<' {
        "&lt;"@
    } else if c == '>' {
        "&gt;"@
    } else {
        seq![c]
    }
}

/// An attribute value with `&`, `"`, `<` and `>` escaped.
pub open spec fn escape_attr_spec(t: Seq<char>) -> Seq<char>
    decreases t.len(),
{
    if t.len() == 0 {
        Seq::empty()
    } else {
        escape_attr_spec(t.drop_last()) + esc_attr_char(t.last())
    }
}

/// Escape an attribute value for serialization.
pub fn escape_attr(t: &str) -> (r: String)
    ensures
        r@ == escape_attr_spec(t@),
{
    let n: usize = t.unicode_len();
    let mut out = String::new();
    let mut i: usize = 0;
    while i < n
        invariant
            0 <= i <= n,
            n == t@.len(),
            out@ == escape_attr_spec(t@.subrange(0, i as int)),
        decreases n - i,
    {
        let c = t.get_char(i);
        if c == '&' {
            out.append("&amp;");
        } else if c == '"' {
            out.append("&quot;");
        } else if c == '<' {
            out.append("&lt;");
        } else if c == '>' {
            out.append("&gt;");
        } else {
            let piece = t.substring_char(i, i + 1);
            proof {
                assert(t@.subrange(i as int, i + 1) =~= seq![t@[i as int]]);
            }
            out.append(piece);
        }
        proof {
            let pre = t@.subrange(0, i as int);
            let cur = t@.subrange(0, i + 1);
            assert(cur.drop_last() =~= pre);
            assert(cur.last() == t@[i as int]);
        }
        i = i + 1;
    }
    proof {
        assert(t@.subrange(0, n as int) =~= t@);
    }
    out
}

/// Strict lexicographic order on character sequences, by code point.
pub open spec fn seq_lt(a: Seq<char>, b: Seq<char>) -> bool
    decreases a.len(),
{
    if b.len() == 0 {
        false
    } else if a.len() == 0 {
        true
    } else if (a[0] as u32) < (b[0] as u32) {
        true
    } else if (a[0] as u32) > (b[0] as u32) {
        false
    } else {
        seq_lt(a.drop_first(), b.drop_first())
    }
}

/// Non-strict lexicographic order.
pub open spec fn seq_le(a: Seq<char>, b: Seq<char>) -> bool {
    seq_lt(a, b) || a == b
}

/// Lexicographic comparison of two strings, by code point.
pub fn str_lt(a: &str, b: &str) -> (r: bool)
    ensures
        r == seq_lt(a@, b@),
{
    let na: usize = a.unicode_len();
    let nb: usize = b.unicode_len();
    let mut i: usize = 0;
    proof {
        assert(a@.subrange(0, na as int) =~= a@);
        assert(b@.subrange(0, nb as int) =~= b@);
    }
    while i < na && i < nb
        invariant
            0 <= i,
            i <= na,
            i <= nb,
            na == a@.len(),
            nb == b@.len(),
            forall|j: int| 0 <= j < i ==> a@[j] == b@[j],
            seq_lt(a@, b@) == seq_lt(a@.subrange(i as int, na as int), b@.subrange(i as int, nb as int)),
        decreases na - i,
    {
        let ca = a.get_char(i);
        let cb = b.get_char(i);
        let ga: Ghost<Seq<char>> = Ghost(a@.subrange(i as int, na as int));
        let gb: Ghost<Seq<char>> = Ghost(b@.subrange(i as int, nb as int));
        if (ca as u32) < (cb as u32) {
            proof {
                assert(ga@[0] == ca && gb@[0] == cb);
            }
            return true;
        }
        if (ca as u32) > (cb as u32) {
            proof {
                assert(ga@[0] == ca && gb@[0] == cb);
            }
            return false;
        }
        proof {
            assert(ca as u32 == cb as u32);
            assert(ca == cb);
            assert(ga@[0] == ca && gb@[0] == cb);
            assert(ga@.drop_first() =~= a@.subrange(i + 1, na as int));
            assert(gb@.drop_first() =~= b@.subrange(i + 1, nb as int));
        }
        i = i + 1;
    }
    proof {
        let ta = a@.subrange(i as int, na as int);
        let tb = b@.subrange(i as int, nb as int);
        if i == na && i == nb {
            assert(ta.len() == 0 && tb.len() == 0);
        } else if i == na {
            assert(ta.len() == 0 && tb.len() > 0);
        } else {
            assert(tb.len() == 0);
        }
    }
    i == na && i < nb
}

} // verus!
