//! The recursive DOM serializer, in its fragment mode.
//!
//! The same serialization core is shared by every pass of the pipeline:
//! attribute rendering with the class attribute moved last, void elements,
//! raw `script`/`style` bodies, and escaped text.  Fragment mode performs no
//! substitution, but carries the options of an enclosing transclusion:
//! heading demotion, a numbering-disabling class on headings, a
//! `hide-metadata` class for the first element, and collapsing of the first
//! `details` element.

use vstd::prelude::*;

use crate::dom::{
    add_class, add_class_spec, attrs_view, dom_children, dom_seq, lemma_dom_seq, opt_view,
    DomNode, HtmlNode,
};
use crate::error::{res_view, BuildError, ErrorV};
use crate::parse::{parse_fragment, parsed_fragment};
use crate::text::{
    eq_ignore_case, escape_attr, escape_attr_spec, escape_text, escape_text_spec, seq_eq_ci,
};

verus! {

/// A serialized doctype declaration.
pub open spec fn doctype_str(name: Seq<char>, public_id: Seq<char>, system_id: Seq<char>) -> Seq<
    char,
> {
    if public_id.len() == 0 && system_id.len() == 0 {
        "<!DOCTYPE "@ + name + ">"@
    } else {
        "<!DOCTYPE "@ + name + " PUBLIC \""@ + public_id + "\" \""@ + system_id + "\">"@
    }
}

/// A serialized comment.
pub open spec fn comment_str(text: Seq<char>) -> Seq<char> {
    "<!--"@ + text + "-->"@
}

/// A serialized processing instruction.
pub open spec fn instruction_str(target_name: Seq<char>, data: Seq<char>) -> Seq<char> {
    "<?"@ + target_name + " "@ + data + "?>"@
}

/// Whether `tag` names a void element, which is serialized without children
/// or a closing tag.
pub open spec fn is_void_spec(tag: Seq<char>) -> bool {
    ||| seq_eq_ci(tag, "area"@)
    ||| seq_eq_ci(tag, "base"@)
    ||| seq_eq_ci(tag, "br"@)
    ||| seq_eq_ci(tag, "col"@)
    ||| seq_eq_ci(tag, "embed"@)
    ||| seq_eq_ci(tag, "hr"@)
    ||| seq_eq_ci(tag, "img"@)
    ||| seq_eq_ci(tag, "input"@)
    ||| seq_eq_ci(tag, "link"@)
    ||| seq_eq_ci(tag, "meta"@)
    ||| seq_eq_ci(tag, "param"@)
    ||| seq_eq_ci(tag, "source"@)
    ||| seq_eq_ci(tag, "track"@)
    ||| seq_eq_ci(tag, "wbr"@)
}

/// Void-element test, ASCII case-insensitive.
pub fn is_void_element(tag: &str) -> (r: bool)
    ensures
        r == is_void_spec(tag@),
{
    eq_ignore_case(tag, "area") || eq_ignore_case(tag, "base") || eq_ignore_case(tag, "br")
        || eq_ignore_case(tag, "col") || eq_ignore_case(tag, "embed") || eq_ignore_case(tag, "hr")
        || eq_ignore_case(tag, "img") || eq_ignore_case(tag, "input") || eq_ignore_case(
        tag,
        "link",
    ) || eq_ignore_case(tag, "meta") || eq_ignore_case(tag, "param") || eq_ignore_case(
        tag,
        "source",
    ) || eq_ignore_case(tag, "track") || eq_ignore_case(tag, "wbr")
}

/// The heading level named by `tag`, or 0 if it is not a heading.
pub open spec fn heading_level(tag: Seq<char>) -> int {
    if seq_eq_ci(tag, "h1"@) {
        1
    } else if seq_eq_ci(tag, "h2"@) {
        2
    } else if seq_eq_ci(tag, "h3"@) {
        3
    } else if seq_eq_ci(tag, "h4"@) {
        4
    } else if seq_eq_ci(tag, "h5"@) {
        5
    } else if seq_eq_ci(tag, "h6"@) {
        6
    } else {
        0
    }
}

/// Heading-level test, ASCII case-insensitive.
pub fn heading_level_of(tag: &str) -> (r: u32)
    ensures
        r as int == heading_level(tag@),
{
    if eq_ignore_case(tag, "h1") {
        1
    } else if eq_ignore_case(tag, "h2") {
        2
    } else if eq_ignore_case(tag, "h3") {
        3
    } else if eq_ignore_case(tag, "h4") {
        4
    } else if eq_ignore_case(tag, "h5") {
        5
    } else if eq_ignore_case(tag, "h6") {
        6
    } else {
        0
    }
}

/// The lowercase tag for a heading level between 1 and 6.
pub open spec fn heading_tag(level: int) -> Seq<char> {
    if level <= 1 {
        "h1"@
    } else if level == 2 {
        "h2"@
    } else if level == 3 {
        "h3"@
    } else if level == 4 {
        "h4"@
    } else if level == 5 {
        "h5"@
    } else {
        "h6"@
    }
}

/// The tag name for a heading level, clamped at 6.
pub fn heading_tag_of(level: u32) -> (r: &'static str)
    ensures
        r@ == heading_tag(level as int),
{
    if level <= 1 {
        "h1"
    } else if level == 2 {
        "h2"
    } else if level == 3 {
        "h3"
    } else if level == 4 {
        "h4"
    } else if level == 5 {
        "h5"
    } else {
        "h6"
    }
}

/// One pass over an attribute list: the attributes kept, in order, and the
/// value of the last class attribute.  When `remove_open` is set, attributes
/// named `open` are dropped.
pub open spec fn scan_attrs(attrs: Seq<(Seq<char>, Seq<char>)>, remove_open: bool) -> (
    Seq<(Seq<char>, Seq<char>)>,
    Option<Seq<char>>,
)
    decreases attrs.len(),
{
    if attrs.len() == 0 {
        (Seq::empty(), Option::None)
    } else {
        let (others, cls) = scan_attrs(attrs.drop_last(), remove_open);
        let kv = attrs.last();
        if remove_open && seq_eq_ci(kv.0, "open"@) {
            (others, cls)
        } else if seq_eq_ci(kv.0, "class"@) {
            (others, Option::Some(kv.1))
        } else {
            (others.push(kv), cls)
        }
    }
}

/// One serialized attribute, with its value escaped.
pub open spec fn attr_one(name: Seq<char>, value: Seq<char>) -> Seq<char> {
    " "@ + name + "=\""@ + escape_attr_spec(value) + "\""@
}

/// The serialized attribute list.
pub open spec fn attrs_str(attrs: Seq<(Seq<char>, Seq<char>)>) -> Seq<char>
    decreases attrs.len(),
{
    if attrs.len() == 0 {
        Seq::empty()
    } else {
        attrs_str(attrs.drop_last()) + attr_one(attrs.last().0, attrs.last().1)
    }
}

/// The serialized class attribute, if one is present.
pub open spec fn class_str(cls: Option<Seq<char>>) -> Seq<char> {
    match cls {
        Option::None => Seq::empty(),
        Option::Some(c) => attr_one("class"@, c),
    }
}

/// A complete element open tag: the non-class attributes in order, the class
/// attribute last, extended by the requested marker classes.
pub open spec fn open_tag_spec(
    tag: Seq<char>,
    attrs: Seq<(Seq<char>, Seq<char>)>,
    remove_open: bool,
    add_hide: bool,
    add_dn: bool,
) -> Seq<char> {
    let (others, cls0) = scan_attrs(attrs, remove_open);
    let cls1 = if add_hide {
        Option::Some(add_class_spec(cls0, "hide-metadata"@))
    } else {
        cls0
    };
    let cls2 = if add_dn {
        Option::Some(add_class_spec(cls1, "disable-numbering"@))
    } else {
        cls1
    };
    "<"@ + tag + attrs_str(others) + class_str(cls2) + ">"@
}

/// Serialize an element open tag.
pub fn open_tag(
    tag_disp: &str,
    attrs: &Vec<(String, String)>,
    remove_open: bool,
    add_hide: bool,
    add_dn: bool,
) -> (r: String)
    ensures
        r@ == open_tag_spec(tag_disp@, attrs_view(attrs@), remove_open, add_hide, add_dn),
{
    let mut others: Vec<(String, String)> = Vec::new();
    let mut cls: Option<String> = None;
    let mut i: usize = 0;
    proof {
        assert(attrs_view(attrs@).subrange(0, 0) =~= Seq::empty());
        assert(attrs_view(others@) =~= Seq::empty());
    }
    while i < attrs.len()
        invariant
            0 <= i <= attrs@.len(),
            (attrs_view(others@), opt_view(cls)) == scan_attrs(
                attrs_view(attrs@).subrange(0, i as int),
                remove_open,
            ),
        decreases attrs@.len() - i,
    {
        let ghost av = attrs_view(attrs@);
        let ghost pre = av.subrange(0, i as int);
        let ghost cur = av.subrange(0, i + 1);
        proof {
            assert(cur.drop_last() =~= pre);
            assert(cur.last() == av[i as int]);
            assert(av[i as int] == (attrs@[i as int].0@, attrs@[i as int].1@));
        }
        let k = &attrs[i].0;
        let v = &attrs[i].1;
        if remove_open && eq_ignore_case(k.as_str(), "open") {
        } else if eq_ignore_case(k.as_str(), "class") {
            cls = Some(v.clone());
        } else {
            let ghost before = attrs_view(others@);
            others.push((k.clone(), v.clone()));
            proof {
                assert(attrs_view(others@) =~= before.push((attrs@[i as int].0@, attrs@[
                    i as int].1@)));
            }
        }
        i = i + 1;
    }
    proof {
        assert(attrs_view(attrs@).subrange(0, attrs@.len() as int) =~= attrs_view(attrs@));
    }
    let mut cv = cls;
    if add_hide {
        add_class(&mut cv, "hide-metadata");
    }
    if add_dn {
        add_class(&mut cv, "disable-numbering");
    }
    let mut out = String::from_str("<");
    out.append(tag_disp);
    let mut j: usize = 0;
    proof {
        assert(attrs_view(others@).subrange(0, 0) =~= Seq::empty());
    }
    while j < others.len()
        invariant
            0 <= j <= others@.len(),
            out@ == "<"@ + tag_disp@ + attrs_str(attrs_view(others@).subrange(0, j as int)),
        decreases others@.len() - j,
    {
        let ghost ov = attrs_view(others@);
        let ghost pre = ov.subrange(0, j as int);
        let ghost cur = ov.subrange(0, j + 1);
        proof {
            assert(cur.drop_last() =~= pre);
            assert(cur.last() == ov[j as int]);
            assert(ov[j as int] == (others@[j as int].0@, others@[j as int].1@));
        }
        out.append(" ");
        out.append(others[j].0.as_str());
        out.append("=\"");
        let ev = escape_attr(others[j].1.as_str());
        out.append(ev.as_str());
        out.append("\"");
        j = j + 1;
    }
    proof {
        assert(attrs_view(others@).subrange(0, others@.len() as int) =~= attrs_view(others@));
    }
    match &cv {
        Some(c) => {
            out.append(" ");
            out.append("class");
            out.append("=\"");
            let ec = escape_attr(c.as_str());
            out.append(ec.as_str());
            out.append("\"");
        },
        None => {},
    }
    out.append(">");
    out
}


/// The view of a fragment-render result: the serialized text plus the state
/// of the two one-shot markers (hide-metadata pending, collapse pending).
pub open spec fn frag_rv(r: Result<(String, bool, bool), BuildError>) -> Result<
    (Seq<char>, bool, bool),
    ErrorV,
> {
    match r {
        Result::Ok((s, h, c)) => Result::Ok((s@, h, c)),
        Result::Err(e) => Result::Err(e@),
    }
}

/// Fragment rendering of one node.
pub open spec fn spec_frag_node(
    n: DomNode,
    demote: int,
    dn: bool,
    hide_pending: bool,
    collapse: bool,
) -> Result<(Seq<char>, bool, bool), ErrorV>
    decreases n, 0int,
{
    match n {
        DomNode::Document { children } => spec_frag_children(children, demote, dn, hide_pending, collapse),
        DomNode::Doctype { name, public_id, system_id } => Result::Ok(
            (doctype_str(name, public_id, system_id), hide_pending, collapse),
        ),
        DomNode::Comment { text } => Result::Ok((comment_str(text), hide_pending, collapse)),
        DomNode::Text { text } => Result::Ok((escape_text_spec(text), hide_pending, collapse)),
        DomNode::Instruction { target_name, data } => Result::Ok(
            (instruction_str(target_name, data), hide_pending, collapse),
        ),
        DomNode::Element { tag, attrs, children } => spec_frag_element(
            tag,
            attrs,
            children,
            demote,
            dn,
            hide_pending,
            collapse,
        ),
    }
}

/// Fragment rendering of one node inside a raw (`script`/`style`) body:
/// text is copied verbatim and comments keep their delimiters.
pub open spec fn spec_raw_node(
    n: DomNode,
    demote: int,
    dn: bool,
    hide_pending: bool,
    collapse: bool,
) -> Result<(Seq<char>, bool, bool), ErrorV>
    decreases n, 1int,
{
    match n {
        DomNode::Text { text } => Result::Ok((text, hide_pending, collapse)),
        DomNode::Comment { text } => Result::Ok((comment_str(text), hide_pending, collapse)),
        _ => spec_frag_node(n, demote, dn, hide_pending, collapse),
    }
}

/// Fragment rendering of a child list, threading the marker state from left
/// to right.
pub open spec fn spec_frag_children(
    cs: Seq<DomNode>,
    demote: int,
    dn: bool,
    hide_pending: bool,
    collapse: bool,
) -> Result<(Seq<char>, bool, bool), ErrorV>
    decreases cs, 2int,
{
    if cs.len() == 0 {
        Result::Ok((Seq::empty(), hide_pending, collapse))
    } else {
        match spec_frag_children(cs.drop_last(), demote, dn, hide_pending, collapse) {
            Result::Err(e) => Result::Err(e),
            Result::Ok((p, h, c)) => match spec_frag_node(cs.last(), demote, dn, h, c) {
                Result::Err(e) => Result::Err(e),
                Result::Ok((s, h2, c2)) => Result::Ok((p + s, h2, c2)),
            },
        }
    }
}

/// Raw rendering of a child list.
pub open spec fn spec_raw_children(
    cs: Seq<DomNode>,
    demote: int,
    dn: bool,
    hide_pending: bool,
    collapse: bool,
) -> Result<(Seq<char>, bool, bool), ErrorV>
    decreases cs, 2int,
{
    if cs.len() == 0 {
        Result::Ok((Seq::empty(), hide_pending, collapse))
    } else {
        match spec_raw_children(cs.drop_last(), demote, dn, hide_pending, collapse) {
            Result::Err(e) => Result::Err(e),
            Result::Ok((p, h, c)) => match spec_raw_node(cs.last(), demote, dn, h, c) {
                Result::Err(e) => Result::Err(e),
                Result::Ok((s, h2, c2)) => Result::Ok((p + s, h2, c2)),
            },
        }
    }
}

/// Fragment rendering of one element.
pub open spec fn spec_frag_element(
    tag: Seq<char>,
    attrs: Seq<(Seq<char>, Seq<char>)>,
    children: Seq<DomNode>,
    demote: int,
    dn: bool,
    hide_pending: bool,
    collapse: bool,
) -> Result<(Seq<char>, bool, bool), ErrorV>
    decreases children, 3int,
{
    if seq_eq_ci(tag, "transclusion"@) {
        Result::Err(
            ErrorV::InternalInvariant { detail: "unexpected transclusion element in fragment"@ },
        )
    } else {
        let lvl = heading_level(tag);
        let is_heading = lvl > 0;
        let dl = if lvl + demote > 6 { 6int } else { lvl + demote };
        let disp = if is_heading && demote > 0 {
            heading_tag(dl)
        } else {
            tag
        };
        let skip_open = collapse && seq_eq_ci(tag, "details"@);
        let wrapper = seq_eq_ci(tag, "html"@) || seq_eq_ci(tag, "body"@);
        let mark_hide = hide_pending && !wrapper;
        let hide_next = if mark_hide { false } else { hide_pending };
        let collapse1 = if skip_open { false } else { collapse };
        let add_dn = dn && is_heading;
        let otag = open_tag_spec(disp, attrs, skip_open, mark_hide, add_dn);
        if is_void_spec(tag) {
            Result::Ok((otag, hide_next, collapse1))
        } else if seq_eq_ci(tag, "script"@) || seq_eq_ci(tag, "style"@) {
            match spec_raw_children(children, demote, dn, hide_next, collapse1) {
                Result::Err(e) => Result::Err(e),
                Result::Ok((inner, h2, c2)) => Result::Ok(
                    (otag + inner + "</"@ + disp + ">"@, h2, c2),
                ),
            }
        } else {
            match spec_frag_children(children, demote, dn, hide_next, collapse1) {
                Result::Err(e) => Result::Err(e),
                Result::Ok((inner, h2, c2)) => Result::Ok(
                    (otag + inner + "</"@ + disp + ">"@, h2, c2),
                ),
            }
        }
    }
}

/// An error of a child-list prefix is the error of the whole list.
pub proof fn lemma_frag_children_err(
    cs: Seq<DomNode>,
    j: int,
    demote: int,
    dn: bool,
    hide_pending: bool,
    collapse: bool,
)
    requires
        0 <= j <= cs.len(),
        spec_frag_children(cs.subrange(0, j), demote, dn, hide_pending, collapse) matches Result::Err(_),
    ensures
        spec_frag_children(cs, demote, dn, hide_pending, collapse) == spec_frag_children(
            cs.subrange(0, j),
            demote,
            dn,
            hide_pending,
            collapse,
        ),
    decreases cs.len() - j,
{
    if j == cs.len() {
        assert(cs.subrange(0, j) =~= cs);
    } else {
        let pre = cs.subrange(0, j);
        let cur = cs.subrange(0, j + 1);
        assert(cur.drop_last() =~= pre);
        lemma_frag_children_err(cs, j + 1, demote, dn, hide_pending, collapse);
    }
}

/// An error of a raw child-list prefix is the error of the whole list.
pub proof fn lemma_raw_children_err(
    cs: Seq<DomNode>,
    j: int,
    demote: int,
    dn: bool,
    hide_pending: bool,
    collapse: bool,
)
    requires
        0 <= j <= cs.len(),
        spec_raw_children(cs.subrange(0, j), demote, dn, hide_pending, collapse) matches Result::Err(_),
    ensures
        spec_raw_children(cs, demote, dn, hide_pending, collapse) == spec_raw_children(
            cs.subrange(0, j),
            demote,
            dn,
            hide_pending,
            collapse,
        ),
    decreases cs.len() - j,
{
    if j == cs.len() {
        assert(cs.subrange(0, j) =~= cs);
    } else {
        let pre = cs.subrange(0, j);
        let cur = cs.subrange(0, j + 1);
        assert(cur.drop_last() =~= pre);
        lemma_raw_children_err(cs, j + 1, demote, dn, hide_pending, collapse);
    }
}

/// Render one node in fragment mode.
pub fn frag_node(n: &HtmlNode, demote: u32, dn: bool, hide_pending: bool, collapse: bool) -> (r: Result<
    (String, bool, bool),
    BuildError,
>)
    ensures
        frag_rv(r) == spec_frag_node(n@, demote as int, dn, hide_pending, collapse),
    decreases n, 0int,
{
    match n {
        HtmlNode::Document { children } => frag_children(children, demote, dn, hide_pending, collapse),
        HtmlNode::Doctype { name, public_id, system_id } => {
            let mut out = String::from_str("<!DOCTYPE ");
            out.append(name.as_str());
            if public_id.as_str().is_empty() && system_id.as_str().is_empty() {
                out.append(">");
            } else {
                out.append(" PUBLIC \"");
                out.append(public_id.as_str());
                out.append("\" \"");
                out.append(system_id.as_str());
                out.append("\">");
            }
            Ok((out, hide_pending, collapse))
        },
        HtmlNode::Comment { text } => {
            let mut out = String::from_str("<!--");
            out.append(text.as_str());
            out.append("-->");
            Ok((out, hide_pending, collapse))
        },
        HtmlNode::Text { text } => {
            let out = escape_text(text.as_str());
            Ok((out, hide_pending, collapse))
        },
        HtmlNode::Instruction { target_name, data } => {
            let mut out = String::from_str("<?");
            out.append(target_name.as_str());
            out.append(" ");
            out.append(data.as_str());
            out.append("?>");
            Ok((out, hide_pending, collapse))
        },
        HtmlNode::Element { tag, attrs, children } => frag_element(
            tag,
            attrs,
            children,
            demote,
            dn,
            hide_pending,
            collapse,
        ),
    }
}

/// Render one node of a raw (`script`/`style`) body.
pub fn raw_node(n: &HtmlNode, demote: u32, dn: bool, hide_pending: bool, collapse: bool) -> (r: Result<
    (String, bool, bool),
    BuildError,
>)
    ensures
        frag_rv(r) == spec_raw_node(n@, demote as int, dn, hide_pending, collapse),
    decreases n, 1int,
{
    match n {
        HtmlNode::Text { text } => Ok((text.clone(), hide_pending, collapse)),
        HtmlNode::Comment { text } => {
            let mut out = String::from_str("<!--");
            out.append(text.as_str());
            out.append("-->");
            Ok((out, hide_pending, collapse))
        },
        _ => frag_node(n, demote, dn, hide_pending, collapse),
    }
}

/// Render a child list in fragment mode.
pub fn frag_children(cs: &Vec<HtmlNode>, demote: u32, dn: bool, hide_pending: bool, collapse: bool) -> (r:
    Result<(String, bool, bool), BuildError>)
    ensures
        frag_rv(r) == spec_frag_children(dom_children(cs), demote as int, dn, hide_pending, collapse),
    decreases cs, 2int,
{
    let ghost ds = dom_seq(cs@);
    proof {
        lemma_dom_seq(cs@);
        assert(ds.subrange(0, 0) =~= Seq::empty());
    }
    let mut out = String::new();
    let mut h = hide_pending;
    let mut c = collapse;
    let mut i: usize = 0;
    while i < cs.len()
        invariant
            0 <= i <= cs@.len(),
            ds == dom_seq(cs@),
            ds.len() == cs@.len(),
            forall|k: int| 0 <= k < cs@.len() ==> ds[k] == #[trigger] cs@[k]@,
            spec_frag_children(ds.subrange(0, i as int), demote as int, dn, hide_pending, collapse)
                == Result::<(Seq<char>, bool, bool), ErrorV>::Ok((out@, h, c)),
        decreases cs@.len() - i,
    {
        let ghost pre = ds.subrange(0, i as int);
        let ghost cur = ds.subrange(0, i + 1);
        proof {
            assert(cur.drop_last() =~= pre);
            assert(cur.last() == ds[i as int]);
            assert(ds[i as int] == cs@[i as int]@);
        }
        let step = frag_node(&cs[i], demote, dn, h, c);
        match step {
            Ok((s, h2, c2)) => {
                out.append(s.as_str());
                h = h2;
                c = c2;
            },
            Err(e) => {
                proof {
                    lemma_frag_children_err(ds, i + 1, demote as int, dn, hide_pending, collapse);
                }
                return Err(e);
            },
        }
        i = i + 1;
    }
    proof {
        assert(ds.subrange(0, cs@.len() as int) =~= ds);
    }
    Ok((out, h, c))
}

/// Render a raw child list.
pub fn raw_children(cs: &Vec<HtmlNode>, demote: u32, dn: bool, hide_pending: bool, collapse: bool) -> (r:
    Result<(String, bool, bool), BuildError>)
    ensures
        frag_rv(r) == spec_raw_children(dom_children(cs), demote as int, dn, hide_pending, collapse),
    decreases cs, 2int,
{
    let ghost ds = dom_seq(cs@);
    proof {
        lemma_dom_seq(cs@);
        assert(ds.subrange(0, 0) =~= Seq::empty());
    }
    let mut out = String::new();
    let mut h = hide_pending;
    let mut c = collapse;
    let mut i: usize = 0;
    while i < cs.len()
        invariant
            0 <= i <= cs@.len(),
            ds == dom_seq(cs@),
            ds.len() == cs@.len(),
            forall|k: int| 0 <= k < cs@.len() ==> ds[k] == #[trigger] cs@[k]@,
            spec_raw_children(ds.subrange(0, i as int), demote as int, dn, hide_pending, collapse)
                == Result::<(Seq<char>, bool, bool), ErrorV>::Ok((out@, h, c)),
        decreases cs@.len() - i,
    {
        let ghost pre = ds.subrange(0, i as int);
        let ghost cur = ds.subrange(0, i + 1);
        proof {
            assert(cur.drop_last() =~= pre);
            assert(cur.last() == ds[i as int]);
            assert(ds[i as int] == cs@[i as int]@);
        }
        let step = raw_node(&cs[i], demote, dn, h, c);
        match step {
            Ok((s, h2, c2)) => {
                out.append(s.as_str());
                h = h2;
                c = c2;
            },
            Err(e) => {
                proof {
                    lemma_raw_children_err(ds, i + 1, demote as int, dn, hide_pending, collapse);
                }
                return Err(e);
            },
        }
        i = i + 1;
    }
    proof {
        assert(ds.subrange(0, cs@.len() as int) =~= ds);
    }
    Ok((out, h, c))
}

/// Render one element in fragment mode.
#[verifier::rlimit(60)]
pub fn frag_element(
    tag: &String,
    attrs: &Vec<(String, String)>,
    children: &Vec<HtmlNode>,
    demote: u32,
    dn: bool,
    hide_pending: bool,
    collapse: bool,
) -> (r: Result<(String, bool, bool), BuildError>)
    ensures
        frag_rv(r) == spec_frag_element(
            tag@,
            attrs_view(attrs@),
            dom_children(children),
            demote as int,
            dn,
            hide_pending,
            collapse,
        ),
    decreases children, 3int,
{
    if eq_ignore_case(tag.as_str(), "transclusion") {
        return Err(
            BuildError::InternalInvariant {
                detail: String::from_str("unexpected transclusion element in fragment"),
            },
        );
    }
    let lvl: u32 = heading_level_of(tag.as_str());
    let is_heading = lvl > 0;
    let disp: &str = if is_heading && demote > 0 {
        let d: u32 = if demote > 6 {
            6
        } else if lvl + demote > 6 {
            6
        } else {
            lvl + demote
        };
        proof {
            assert(d as int == (if lvl as int + demote as int > 6 {
                6int
            } else {
                lvl as int + demote as int
            }));
        }
        heading_tag_of(d)
    } else {
        tag.as_str()
    };
    let skip_open = collapse && eq_ignore_case(tag.as_str(), "details");
    let wrapper = eq_ignore_case(tag.as_str(), "html") || eq_ignore_case(tag.as_str(), "body");
    let mark_hide = hide_pending && !wrapper;
    let hide_next = if mark_hide {
        false
    } else {
        hide_pending
    };
    let collapse1 = if skip_open {
        false
    } else {
        collapse
    };
    let add_dn = dn && is_heading;
    let otag = open_tag(disp, attrs, skip_open, mark_hide, add_dn);
    if is_void_element(tag.as_str()) {
        return Ok((otag, hide_next, collapse1));
    }
    let raw = eq_ignore_case(tag.as_str(), "script") || eq_ignore_case(tag.as_str(), "style");
    let inner_r = if raw {
        raw_children(children, demote, dn, hide_next, collapse1)
    } else {
        frag_children(children, demote, dn, hide_next, collapse1)
    };
    match inner_r {
        Err(e) => Err(e),
        Ok((inner, h2, c2)) => {
            let mut out = otag;
            out.append(inner.as_str());
            out.append("</");
            out.append(disp);
            out.append(">");
            Ok((out, h2, c2))
        },
    }
}


/// The saturation bound for a parsed `demote-headings` count: any value this
/// high already demotes every heading to level 6.
pub open spec fn demote_cap() -> int {
    7
}

/// The digits of `s` read as a non-negative number, saturating at
/// [`demote_cap`]; `None` if any character is not an ASCII digit.
pub open spec fn demote_digits(s: Seq<char>) -> Option<int>
    decreases s.len(),
{
    if s.len() == 0 {
        Option::Some(0)
    } else {
        match demote_digits(s.drop_last()) {
            Option::None => Option::None,
            Option::Some(v) => if '0' <= s.last() && s.last() <= '9' {
                let d = (s.last() as int) - ('0' as int);
                Option::Some(if v * 10 + d > demote_cap() { demote_cap() } else { v * 10 + d })
            } else {
                Option::None
            },
        }
    }
}

/// The heading demotion read from a `demote-headings` attribute: a
/// non-negative decimal number; an absent, empty or malformed value falls
/// back to the default of 1.
pub open spec fn parse_demote_spec(value: Option<Seq<char>>) -> int {
    match value {
        Option::None => 1,
        Option::Some(s) => if s.len() == 0 {
            1
        } else {
            match demote_digits(s) {
                Option::Some(v) => v,
                Option::None => 1,
            }
        },
    }
}

/// Read the heading demotion count from an optional attribute value.
pub fn parse_demote_attr(value: Option<&str>) -> (r: u32)
    ensures
        r as int == parse_demote_spec(
            match value {
                Option::Some(v) => Option::Some(v@),
                Option::None => Option::None,
            },
        ),
        r <= 7,
{
    match value {
        None => 1,
        Some(s) => {
            let n: usize = s.unicode_len();
            if n == 0 {
                return 1;
            }
            let mut v: u32 = 0;
            let mut i: usize = 0;
            while i < n
                invariant
                    0 <= i <= n,
                    n == s@.len(),
                    v <= 7,
                    value == Option::Some(s),
                    demote_digits(s@.subrange(0, i as int)) == Option::Some(v as int),
                decreases n - i,
            {
                let c = s.get_char(i);
                let ghost pre = s@.subrange(0, i as int);
                let ghost cur = s@.subrange(0, i + 1);
                proof {
                    assert(cur.drop_last() =~= pre);
                    assert(cur.last() == s@[i as int]);
                }
                let cu = c as u32;
                if 48 <= cu && cu <= 57 {
                    let d: u32 = cu - 48;
                    proof {
                        assert('0' as u32 == 48 && '9' as u32 == 57);
                        assert('0' <= c && c <= '9');
                        assert(d as int == (c as int) - ('0' as int));
                    }
                    let w: u32 = v * 10 + d;
                    v = if w > 7 {
                        7
                    } else {
                        w
                    };
                } else {
                    proof {
                        assert(!('0' <= c && c <= '9'));
                        assert(demote_digits(cur) == Option::None::<int>);
                        lemma_demote_digits_err(s@, i + 1);
                        assert(demote_digits(s@) == Option::None::<int>);
                        assert(s@.len() > 0);
                        assert(parse_demote_spec(Option::Some(s@)) == 1);
                    }
                    return 1;
                }
                i = i + 1;
            }
            proof {
                assert(s@.subrange(0, n as int) =~= s@);
            }
            v
        },
    }
}

/// A malformed digit prefix makes the whole string malformed.
proof fn lemma_demote_digits_err(s: Seq<char>, j: int)
    requires
        0 <= j <= s.len(),
        demote_digits(s.subrange(0, j)) == Option::None::<int>,
    ensures
        demote_digits(s) == Option::None::<int>,
    decreases s.len() - j,
{
    if j == s.len() {
        assert(s.subrange(0, j) =~= s);
    } else {
        let cur = s.subrange(0, j + 1);
        assert(cur.drop_last() =~= s.subrange(0, j));
        lemma_demote_digits_err(s, j + 1);
    }
}

/// The children over which a parsed fragment is rendered: the synthetic
/// `html` wrapper that fragment parsing introduces is unwrapped.
pub open spec fn fragment_body(n: DomNode) -> Seq<DomNode> {
    match n {
        DomNode::Document { children } => if children.len() == 1 {
            match children[0] {
                DomNode::Element { tag, children: inner, .. } => if seq_eq_ci(tag, "html"@) {
                    inner
                } else {
                    children
                },
                _ => children,
            }
        } else {
            children
        },
        _ => seq![n],
    }
}

/// A transcluded body, rendered with its options: parsed as a fragment,
/// unwrapped, and serialized in fragment mode with heading demotion, the
/// numbering-disabling class, a `hide-metadata` class on the first element
/// unless metadata is shown, and the first `details` element collapsed
/// unless expanded.
pub open spec fn spec_render_fragment_with_options(
    body: Seq<char>,
    show_metadata: bool,
    expanded: bool,
    dn: bool,
    demote: int,
) -> Result<Seq<char>, ErrorV> {
    let cs = fragment_body(parsed_fragment(body));
    match spec_frag_children(cs, demote, dn, !show_metadata, !expanded) {
        Result::Ok((s, h, c)) => Result::Ok(s),
        Result::Err(e) => Result::Err(e),
    }
}

/// Render a transcluded body with its options.
pub fn render_fragment_with_options(
    body: &str,
    show_metadata: bool,
    expanded: bool,
    dn: bool,
    demote: u32,
) -> (r: Result<String, BuildError>)
    ensures
        res_view(r) == spec_render_fragment_with_options(
            body@,
            show_metadata,
            expanded,
            dn,
            demote as int,
        ),
{
    let tree = parse_fragment(body);
    let ghost cs = fragment_body(tree@);
    let step: Result<(String, bool, bool), BuildError> = match &tree {
        HtmlNode::Document { children } => {
            proof {
                lemma_dom_seq(children@);
            }
            let mut unwrap_html = false;
            if children.len() == 1 {
                match &children[0] {
                    HtmlNode::Element { tag, .. } => {
                        if eq_ignore_case(tag.as_str(), "html") {
                            unwrap_html = true;
                        }
                    },
                    _ => {},
                }
            }
            if unwrap_html {
                match &children[0] {
                    HtmlNode::Element { children: inner, .. } => {
                        proof {
                            assert(dom_seq(children@)[0] == children@[0]@);
                            assert(cs == dom_children(inner));
                        }
                        frag_children(inner, demote, dn, !show_metadata, !expanded)
                    },
                    _ => frag_children(children, demote, dn, !show_metadata, !expanded),
                }
            } else {
                proof {
                    if dom_seq(children@).len() == 1 {
                        assert(dom_seq(children@)[0] == children@[0]@);
                    }
                    assert(cs == dom_children(children));
                }
                frag_children(children, demote, dn, !show_metadata, !expanded)
            }
        },
        _ => {
            let one = frag_node(&tree, demote, dn, !show_metadata, !expanded);
            proof {
                assert(cs =~= seq![tree@]);
                assert(cs.len() == 1);
                assert(cs.drop_last() =~= Seq::<DomNode>::empty());
                assert(cs.last() == tree@);
                assert(spec_frag_children(
                    cs.drop_last(),
                    demote as int,
                    dn,
                    !show_metadata,
                    !expanded,
                ) == Result::<(Seq<char>, bool, bool), ErrorV>::Ok((
                    Seq::<char>::empty(),
                    !show_metadata,
                    !expanded,
                )));
                match spec_frag_node(tree@, demote as int, dn, !show_metadata, !expanded) {
                    Result::Ok((s2, h2, c2)) => {
                        assert(Seq::<char>::empty() + s2 =~= s2);
                        assert(spec_frag_children(cs, demote as int, dn, !show_metadata, !expanded)
                            == Result::<(Seq<char>, bool, bool), ErrorV>::Ok((s2, h2, c2)));
                    },
                    Result::Err(e2) => {
                        assert(spec_frag_children(cs, demote as int, dn, !show_metadata, !expanded)
                            == Result::<(Seq<char>, bool, bool), ErrorV>::Err(e2));
                    },
                }
            }
            one
        },
    };
    match step {
        Ok((s, _h, _c)) => Ok(s),
        Err(e) => Err(e),
    }
}

} // verus!
