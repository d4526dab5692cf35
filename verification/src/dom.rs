//! The document tree that all rendering logic works on.
//!
//! Every note is held as an [`HtmlNode`] tree of plain values (strings and
//! vectors), so the whole rendering pipeline can be specified and verified
//! over the mathematical model [`DomNode`].

use vstd::prelude::*;

verus! {

broadcast use vstd::std_specs::vec::group_vec_axioms;

/// Mathematical model of a document node: the view of [`HtmlNode`].
pub enum DomNode {
    Document { children: Seq<DomNode> },
    Doctype { name: Seq<char>, public_id: Seq<char>, system_id: Seq<char> },
    Comment { text: Seq<char> },
    Text { text: Seq<char> },
    Instruction { target_name: Seq<char>, data: Seq<char> },
    Element { tag: Seq<char>, attrs: Seq<(Seq<char>, Seq<char>)>, children: Seq<DomNode> },
}

/// One node of a parsed HTML document.
#[derive(Debug)]
pub enum HtmlNode {
    /// The document (or fragment) root; it only carries children.
    Document { children: Vec<HtmlNode> },
    /// A doctype declaration.
    Doctype { name: String, public_id: String, system_id: String },
    /// A comment, stored without the comment delimiters.
    Comment { text: String },
    /// A text node, stored unescaped.
    Text { text: String },
    /// A processing instruction.
    Instruction { target_name: String, data: String },
    /// An element with its tag name, attributes in document order, and children.
    Element { tag: String, attrs: Vec<(String, String)>, children: Vec<HtmlNode> },
}

/// The views of a sequence of nodes, in order.
pub open spec fn dom_seq(cs: Seq<HtmlNode>) -> Seq<DomNode>
    decreases cs,
{
    if cs.len() == 0 {
        Seq::empty()
    } else {
        dom_seq(cs.drop_last()).push(cs.last()@)
    }
}

/// The views of a vector of nodes, in order.
pub open spec fn dom_children(cs: &Vec<HtmlNode>) -> Seq<DomNode>
    decreases cs,
{
    dom_seq(cs@)
}

/// The attribute views of an attribute vector.
pub open spec fn attrs_view(attrs: Seq<(String, String)>) -> Seq<(Seq<char>, Seq<char>)> {
    Seq::new(attrs.len(), |i: int| (attrs[i].0@, attrs[i].1@))
}

impl View for HtmlNode {
    type V = DomNode;

    open spec fn view(&self) -> DomNode
        decreases self,
    {
        match self {
            HtmlNode::Document { children } => DomNode::Document {
                children: dom_children(children),
            },
            HtmlNode::Doctype { name, public_id, system_id } => DomNode::Doctype {
                name: name@,
                public_id: public_id@,
                system_id: system_id@,
            },
            HtmlNode::Comment { text } => DomNode::Comment { text: text@ },
            HtmlNode::Text { text } => DomNode::Text { text: text@ },
            HtmlNode::Instruction { target_name, data } => DomNode::Instruction {
                target_name: target_name@,
                data: data@,
            },
            HtmlNode::Element { tag, attrs, children } => DomNode::Element {
                tag: tag@,
                attrs: attrs_view(attrs@),
                children: dom_children(children),
            },
        }
    }
}

impl DeepView for HtmlNode {
    type V = DomNode;

    open spec fn deep_view(&self) -> DomNode {
        self.view()
    }
}


/// The element views of a node vector, element by element.
pub proof fn lemma_dom_seq(cs: Seq<HtmlNode>)
    ensures
        dom_seq(cs).len() == cs.len(),
        forall|i: int| 0 <= i < cs.len() ==> dom_seq(cs)[i] == #[trigger] cs[i]@,
    decreases cs.len(),
{
    if cs.len() > 0 {
        lemma_dom_seq(cs.drop_last());
        assert(cs.drop_last().len() == cs.len() - 1);
        assert(dom_seq(cs) == dom_seq(cs.drop_last()).push(cs.last()@));
        assert(dom_seq(cs).len() == cs.len());
        assert forall|i: int| 0 <= i < cs.len() implies dom_seq(cs)[i] == #[trigger] cs[i]@ by {
            if i < cs.len() - 1 {
                assert(cs.drop_last()[i] == cs[i]);
                assert(dom_seq(cs.drop_last())[i] == cs.drop_last()[i]@);
                assert(dom_seq(cs)[i] == dom_seq(cs.drop_last())[i]);
            } else {
                assert(dom_seq(cs)[i] == cs.last()@);
            }
        }
    }
}

/// The value of the first attribute whose name equals `name` up to ASCII
/// case, if any.
pub open spec fn attr_lookup(attrs: Seq<(Seq<char>, Seq<char>)>, name: Seq<char>) -> Option<
    Seq<char>,
>
    decreases attrs.len(),
{
    if attrs.len() == 0 {
        Option::None
    } else if crate::text::seq_eq_ci(attrs[0].0, name) {
        Option::Some(attrs[0].1)
    } else {
        attr_lookup(attrs.drop_first(), name)
    }
}

/// Look an attribute up by name, ASCII case-insensitively.
pub fn get_attr<'a>(attrs: &'a Vec<(String, String)>, name: &str) -> (r: Option<&'a String>)
    ensures
        match r {
            Option::Some(v) => attr_lookup(attrs_view(attrs@), name@) == Option::Some(v@),
            Option::None => attr_lookup(attrs_view(attrs@), name@) == Option::None::<Seq<char>>,
        },
{
    let mut i: usize = 0;
    proof {
        assert(attrs_view(attrs@).skip(0) =~= attrs_view(attrs@));
    }
    while i < attrs.len()
        invariant
            0 <= i <= attrs@.len(),
            attr_lookup(attrs_view(attrs@), name@) == attr_lookup(
                attrs_view(attrs@).skip(i as int),
                name@,
            ),
        decreases attrs@.len() - i,
    {
        let hit = crate::text::eq_ignore_case(attrs[i].0.as_str(), name);
        proof {
            let av = attrs_view(attrs@);
            assert(av.skip(i as int)[0] == av[i as int]);
            assert(av[i as int] == (attrs@[i as int].0@, attrs@[i as int].1@));
        }
        if hit {
            return Some(&attrs[i].1);
        }
        proof {
            let av = attrs_view(attrs@);
            assert(av.skip(i as int).drop_first() =~= av.skip(i + 1));
        }
        i = i + 1;
    }
    proof {
        assert(attrs_view(attrs@).skip(attrs@.len() as int).len() == 0);
    }
    None
}

/// Whether position `i` in `v` starts a whitespace-delimited token equal to
/// `c`.
pub open spec fn class_match_at(v: Seq<char>, c: Seq<char>, i: int) -> bool {
    &&& c.len() > 0
    &&& 0 <= i
    &&& i + c.len() <= v.len()
    &&& v.subrange(i, i + c.len()) == c
    &&& (i == 0 || crate::text::is_space(v[i - 1]))
    &&& (i + c.len() == v.len() || crate::text::is_space(v[i + c.len()]))
}

/// Whether the class attribute value `v` contains `c` as one
/// whitespace-delimited token.
pub open spec fn has_class_spec(v: Seq<char>, c: Seq<char>) -> bool {
    exists|i: int| class_match_at(v, c, i)
}

/// Whether a class attribute value contains the given class token.
pub fn has_class(value: &str, class: &str) -> (r: bool)
    ensures
        r == has_class_spec(value@, class@),
{
    let n: usize = value.unicode_len();
    let m: usize = class.unicode_len();
    if m == 0 || m > n {
        proof {
            assert forall|i: int| !class_match_at(value@, class@, i) by {}
        }
        return false;
    }
    let mut i: usize = 0;
    while i <= n - m
        invariant
            0 <= i,
            1 <= m <= n,
            i <= n - m + 1,
            n == value@.len(),
            m == class@.len(),
            forall|j: int| 0 <= j < i ==> !class_match_at(value@, class@, j),
        decreases n - m - i + 1,
    {
        let left_ok = i == 0 || crate::text::is_space_exec(value.get_char(i - 1));
        let right_ok = i + m == n || crate::text::is_space_exec(value.get_char(i + m));
        if left_ok && right_ok {
            let piece = value.substring_char(i, i + m);
            if crate::text::str_eq(piece, class) {
                proof {
                    assert(class_match_at(value@, class@, i as int));
                }
                return true;
            }
        }
        proof {
            assert(!class_match_at(value@, class@, i as int));
        }
        i = i + 1;
    }
    proof {
        assert forall|j: int| !class_match_at(value@, class@, j) by {
            if 0 <= j && j + class@.len() <= value@.len() {
                assert(j < i);
            }
        }
    }
    false
}

/// The view of an optional string.
pub open spec fn opt_view(v: Option<String>) -> Option<Seq<char>> {
    match v {
        Option::Some(s) => Option::Some(s@),
        Option::None => Option::None,
    }
}

/// A class attribute value extended by `c`, unless `c` is already one of its
/// tokens.
pub open spec fn add_class_spec(v: Option<Seq<char>>, c: Seq<char>) -> Seq<char> {
    match v {
        Option::None => c,
        Option::Some(e) => if has_class_spec(e, c) {
            e
        } else {
            e + " "@ + c
        },
    }
}

/// Add a class token to an optional class attribute value.
pub fn add_class(class_value: &mut Option<String>, class: &str)
    ensures
        opt_view(*final(class_value)) == Option::Some(
            add_class_spec(opt_view(*old(class_value)), class@),
        ),
{
    let updated: String = match class_value.take() {
        Some(existing) => {
            if has_class(existing.as_str(), class) {
                existing
            } else {
                let mut e = existing;
                e.append(" ");
                e.append(class);
                e
            }
        },
        None => class.to_owned(),
    };
    *class_value = Some(updated);
}

/// The boolean read from an attribute value: `true` and `false` are
/// recognized ASCII case-insensitively, anything else (including an absent
/// attribute) falls back to the default.
pub open spec fn parse_bool_spec(value: Option<Seq<char>>, default: bool) -> bool {
    match value {
        Option::Some(v) => if crate::text::seq_eq_ci(v, "true"@) {
            true
        } else if crate::text::seq_eq_ci(v, "false"@) {
            false
        } else {
            default
        },
        Option::None => default,
    }
}

/// Read a boolean option from an optional attribute value.
pub fn parse_bool_attr(value: Option<&str>, default: bool) -> (r: bool)
    ensures
        r == parse_bool_spec(
            match value {
                Option::Some(v) => Option::Some(v@),
                Option::None => Option::None,
            },
            default,
        ),
{
    match value {
        Some(v) if crate::text::eq_ignore_case(v, "true") => true,
        Some(v) if crate::text::eq_ignore_case(v, "false") => false,
        Some(_) => default,
        None => default,
    }
}

} // verus!
