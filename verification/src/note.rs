//! The note repository: loading per-note HTML documents, extracting each
//! note's id, metadata, title and edge lists.

use vstd::prelude::*;

use crate::dom::{attr_lookup, dom_children, dom_seq, get_attr, lemma_dom_seq, DomNode,
    HtmlNode};
use crate::error::{BuildError, ErrorV};
use crate::parse::{parse_document, parsed_document};
use crate::text::{ascii_lower, eq_ignore_case, normalize_target, normalize_target_spec,
    seq_eq_ci, seq_lower, starts_with, starts_with_spec, trim, trim_spec};

verus! {

/// The first element with the given tag, in document order, depth first.
pub open spec fn find_el(n: DomNode, tag: Seq<char>) -> Option<DomNode>
    decreases n, 0int,
{
    match n {
        DomNode::Document { children } => find_el_list(children, tag),
        DomNode::Element { tag: t, attrs, children } => if seq_eq_ci(t, tag) {
            Option::Some(n)
        } else {
            find_el_list(children, tag)
        },
        _ => Option::None,
    }
}

/// The first element with the given tag in a node list.
pub open spec fn find_el_list(cs: Seq<DomNode>, tag: Seq<char>) -> Option<DomNode>
    decreases cs, 1int,
{
    if cs.len() == 0 {
        Option::None
    } else {
        match find_el(cs[0], tag) {
            Option::Some(m) => Option::Some(m),
            Option::None => find_el_list(cs.drop_first(), tag),
        }
    }
}

/// Find the first element with the given tag.
pub fn find_element<'a>(n: &'a HtmlNode, tag: &str) -> (r: Option<&'a HtmlNode>)
    ensures
        match r {
            Option::Some(m) => find_el(n@, tag@) == Option::Some(m@),
            Option::None => find_el(n@, tag@) == Option::None::<DomNode>,
        },
    decreases n, 0int,
{
    match n {
        HtmlNode::Document { children } => find_element_list(children, tag),
        HtmlNode::Element { tag: t, children, .. } => {
            if eq_ignore_case(t.as_str(), tag) {
                Some(n)
            } else {
                find_element_list(children, tag)
            }
        },
        _ => None,
    }
}

/// Find the first element with the given tag in a child vector.
pub fn find_element_list<'a>(cs: &'a Vec<HtmlNode>, tag: &str) -> (r: Option<&'a HtmlNode>)
    ensures
        match r {
            Option::Some(m) => find_el_list(dom_children(cs), tag@) == Option::Some(m@),
            Option::None => find_el_list(dom_children(cs), tag@) == Option::None::<DomNode>,
        },
    decreases cs, 1int,
{
    let ghost ds = dom_seq(cs@);
    proof {
        lemma_dom_seq(cs@);
        assert(ds.skip(0) =~= ds);
    }
    let mut i: usize = 0;
    while i < cs.len()
        invariant
            0 <= i <= cs@.len(),
            ds == dom_seq(cs@),
            ds.len() == cs@.len(),
            forall|k: int| 0 <= k < cs@.len() ==> ds[k] == #[trigger] cs@[k]@,
            find_el_list(ds, tag@) == find_el_list(ds.skip(i as int), tag@),
        decreases cs@.len() - i,
    {
        proof {
            assert(ds.skip(i as int)[0] == ds[i as int]);
            assert(ds[i as int] == cs@[i as int]@);
        }
        let step = find_element(&cs[i], tag);
        match step {
            Some(m) => {
                return Some(m);
            },
            None => {},
        }
        proof {
            assert(ds.skip(i as int).drop_first() =~= ds.skip(i + 1));
        }
        i = i + 1;
    }
    proof {
        assert(ds.skip(cs@.len() as int).len() == 0);
    }
    None
}

/// All elements with the given tag in the subtree of `n`, in document order.
pub open spec fn collect_els(n: DomNode, tag: Seq<char>) -> Seq<DomNode>
    decreases n, 0int,
{
    match n {
        DomNode::Document { children } => collect_list(children, tag),
        DomNode::Element { tag: t, attrs, children } => if seq_eq_ci(t, tag) {
            seq![n] + collect_list(children, tag)
        } else {
            collect_list(children, tag)
        },
        _ => Seq::empty(),
    }
}

/// All elements with the given tag in a node list.
pub open spec fn collect_list(cs: Seq<DomNode>, tag: Seq<char>) -> Seq<DomNode>
    decreases cs, 1int,
{
    if cs.len() == 0 {
        Seq::empty()
    } else {
        collect_list(cs.drop_last(), tag) + collect_els(cs.last(), tag)
    }
}

/// Collect the elements with the given tag into `out`.
pub fn collect_elements<'a>(n: &'a HtmlNode, tag: &str, out: &mut Vec<&'a HtmlNode>)
    ensures
        final(out).deep_view() == old(out).deep_view() + collect_els(n@, tag@),
    decreases n, 0int,
{
    let ghost base = out.deep_view();
    match n {
        HtmlNode::Document { children } => {
            collect_elements_list(children, tag, out);
        },
        HtmlNode::Element { tag: t, children, .. } => {
            if eq_ignore_case(t.as_str(), tag) {
                out.push(n);
                proof {
                    assert(out.deep_view() =~= base.push(n@));
                    assert(base.push(n@) =~= base + seq![n@]);
                }
            }
            let ghost mid = out.deep_view();
            collect_elements_list(children, tag, out);
            proof {
                if seq_eq_ci(t@, tag@) {
                    assert(out.deep_view() =~= base + (seq![n@] + collect_list(
                        dom_children(children),
                        tag@,
                    )));
                } else {
                    assert(out.deep_view() =~= base + collect_list(dom_children(children), tag@));
                }
            }
        },
        _ => {
            proof {
                assert(base + Seq::<DomNode>::empty() =~= base);
            }
        },
    }
}

/// Collect the elements with the given tag from every node of a child
/// vector, in order.
pub fn collect_elements_list<'a>(cs: &'a Vec<HtmlNode>, tag: &str, out: &mut Vec<&'a HtmlNode>)
    ensures
        final(out).deep_view() == old(out).deep_view() + collect_list(dom_children(cs), tag@),
    decreases cs, 1int,
{
    let ghost ds = dom_seq(cs@);
    let ghost base = out.deep_view();
    proof {
        lemma_dom_seq(cs@);
        assert(ds.subrange(0, 0) =~= Seq::empty());
        assert(base + Seq::<DomNode>::empty() =~= base);
    }
    let mut i: usize = 0;
    while i < cs.len()
        invariant
            0 <= i <= cs@.len(),
            ds == dom_seq(cs@),
            ds.len() == cs@.len(),
            forall|k: int| 0 <= k < cs@.len() ==> ds[k] == #[trigger] cs@[k]@,
            out.deep_view() == base + collect_list(ds.subrange(0, i as int), tag@),
        decreases cs@.len() - i,
    {
        proof {
            assert(ds.subrange(0, i + 1).drop_last() =~= ds.subrange(0, i as int));
            assert(ds.subrange(0, i + 1).last() == ds[i as int]);
            assert(ds[i as int] == cs@[i as int]@);
        }
        let ghost mid = out.deep_view();
        collect_elements(&cs[i], tag, out);
        proof {
            assert(out.deep_view() =~= base + (collect_list(ds.subrange(0, i as int), tag@)
                + collect_els(ds[i as int], tag@)));
        }
        i = i + 1;
    }
    proof {
        assert(ds.subrange(0, cs@.len() as int) =~= ds);
    }
}

/// The children of a document or element node.
pub open spec fn el_children(n: DomNode) -> Seq<DomNode> {
    match n {
        DomNode::Document { children } => children,
        DomNode::Element { tag, attrs, children } => children,
        _ => Seq::empty(),
    }
}

/// The meta elements of the document head, in document order.
pub open spec fn head_metas(doc: DomNode) -> Seq<DomNode> {
    match find_el(doc, "head"@) {
        Option::Some(h) => collect_els(h, "meta"@),
        Option::None => Seq::empty(),
    }
}

/// Collect the meta elements under the first `head` element.
fn collect_head_metas<'a>(doc: &'a HtmlNode) -> (r: Vec<&'a HtmlNode>)
    ensures
        r.deep_view() == head_metas(doc@),
{
    let mut out: Vec<&HtmlNode> = Vec::new();
    match find_element(doc, "head") {
        Some(h) => {
            collect_elements(h, "meta", &mut out);
            proof {
                assert(Seq::<DomNode>::empty() + collect_els(h@, "meta"@) =~= collect_els(
                    h@,
                    "meta"@,
                ));
            }
        },
        None => {},
    }
    out
}

/// Whether a meta element's name (under `name`, `property` or `itemprop`)
/// marks it as the note identifier.
pub open spec fn meta_name_of(attrs: Seq<(Seq<char>, Seq<char>)>) -> Option<Seq<char>> {
    match attr_lookup(attrs, "name"@) {
        Option::Some(v) => Option::Some(v),
        Option::None => match attr_lookup(attrs, "property"@) {
            Option::Some(v) => Option::Some(v),
            Option::None => attr_lookup(attrs, "itemprop"@),
        },
    }
}

/// The note id declared by the first identifier meta element, if any.
pub open spec fn id_from_metas(metas: Seq<DomNode>) -> Option<Seq<char>>
    decreases metas.len(),
{
    if metas.len() == 0 {
        Option::None
    } else {
        let found = match metas[0] {
            DomNode::Element { tag, attrs, children } => {
                match meta_name_of(attrs) {
                    Option::Some(nm) => if seq_eq_ci(nm, "id"@) || seq_eq_ci(nm, "identifier"@)
                        || seq_eq_ci(nm, "wb-id"@) {
                        attr_lookup(attrs, "content"@)
                    } else {
                        Option::None
                    },
                    Option::None => Option::None,
                }
            },
            _ => Option::None,
        };
        match found {
            Option::Some(c) => Option::Some(c),
            Option::None => id_from_metas(metas.drop_first()),
        }
    }
}

/// The note id of a document: what the first identifier meta element
/// declares, or a missing-identifier error naming the source path.
pub open spec fn spec_extract_note_id(doc: DomNode, path: Seq<char>) -> Result<Seq<char>, ErrorV> {
    match id_from_metas(head_metas(doc)) {
        Option::Some(id) => Result::Ok(id),
        Option::None => Result::Err(ErrorV::MissingIdentifierMetadata { path }),
    }
}

/// Extract the note id from an identifier meta element in the document head:
/// a meta whose `name`, `property` or `itemprop` is `id`, `identifier` or
/// `wb-id` (ASCII case-insensitively); its `content` is the id.
pub fn extract_note_id(doc: &HtmlNode, path: &str) -> (r: Result<String, BuildError>)
    ensures
        crate::error::res_view(r) == spec_extract_note_id(doc@, path@),
{
    let metas = collect_head_metas(doc);
    let ghost ms = metas.deep_view();
    proof {
        assert(ms.skip(0) =~= ms);
    }
    let mut i: usize = 0;
    while i < metas.len()
        invariant
            0 <= i <= metas@.len(),
            ms == metas.deep_view(),
            ms == head_metas(doc@),
            ms.len() == metas@.len(),
            id_from_metas(ms) == id_from_metas(ms.skip(i as int)),
        decreases metas@.len() - i,
    {
        proof {
            assert(ms.skip(i as int)[0] == ms[i as int]);
            assert(ms[i as int] == metas@[i as int]@);
        }
        match metas[i] {
            HtmlNode::Element { attrs, .. } => {
                let nm0 = get_attr(attrs, "name");
                let nm = match nm0 {
                    Some(v) => Some(v),
                    None => match get_attr(attrs, "property") {
                        Some(v) => Some(v),
                        None => get_attr(attrs, "itemprop"),
                    },
                };
                match nm {
                    Some(nmv) => {
                        if eq_ignore_case(nmv.as_str(), "id") || eq_ignore_case(
                            nmv.as_str(),
                            "identifier",
                        ) || eq_ignore_case(nmv.as_str(), "wb-id") {
                            match get_attr(attrs, "content") {
                                Some(c) => {
                                    return Ok(c.clone());
                                },
                                None => {},
                            }
                        }
                    },
                    None => {},
                }
            },
            _ => {},
        }
        proof {
            assert(ms.skip(i as int).drop_first() =~= ms.skip(i + 1));
        }
        i = i + 1;
    }
    proof {
        assert(ms.skip(metas@.len() as int).len() == 0);
    }
    Err(BuildError::MissingIdentifierMetadata { path: path.to_owned() })
}


/// The metadata pairs declared by meta elements: name lowercased and
/// trimmed, empty names skipped, in document order (a later entry with the
/// same key wins on lookup).
pub open spec fn metadata_of(metas: Seq<DomNode>) -> Seq<(Seq<char>, Seq<char>)>
    decreases metas.len(),
{
    if metas.len() == 0 {
        Seq::empty()
    } else {
        let p = metadata_of(metas.drop_last());
        match metas.last() {
            DomNode::Element { tag, attrs, children } => {
                match attr_lookup(attrs, "name"@) {
                    Option::Some(nm) => match attr_lookup(attrs, "content"@) {
                        Option::Some(c) => {
                            let key = seq_lower(trim_spec(nm));
                            if key.len() == 0 {
                                p
                            } else {
                                p.push((key, c))
                            }
                        },
                        Option::None => p,
                    },
                    Option::None => p,
                }
            },
            _ => p,
        }
    }
}

/// The metadata map of a document.
pub open spec fn spec_extract_metadata(doc: DomNode) -> Seq<(Seq<char>, Seq<char>)> {
    metadata_of(head_metas(doc))
}

/// Extract the metadata pairs from the document head's meta elements.
pub fn extract_metadata(doc: &HtmlNode) -> (r: Vec<(String, String)>)
    ensures
        crate::ids::pairs_view(r@) == spec_extract_metadata(doc@),
{
    let metas = collect_head_metas(doc);
    let ghost ms = metas.deep_view();
    let mut out: Vec<(String, String)> = Vec::new();
    proof {
        assert(ms.subrange(0, 0) =~= Seq::empty());
        assert(crate::ids::pairs_view(out@) =~= Seq::empty());
    }
    let mut i: usize = 0;
    while i < metas.len()
        invariant
            0 <= i <= metas@.len(),
            ms == metas.deep_view(),
            ms == head_metas(doc@),
            ms.len() == metas@.len(),
            crate::ids::pairs_view(out@) == metadata_of(ms.subrange(0, i as int)),
        decreases metas@.len() - i,
    {
        proof {
            assert(ms.subrange(0, i + 1).drop_last() =~= ms.subrange(0, i as int));
            assert(ms.subrange(0, i + 1).last() == ms[i as int]);
            assert(ms[i as int] == metas@[i as int]@);
        }
        match metas[i] {
            HtmlNode::Element { attrs, .. } => {
                match get_attr(attrs, "name") {
                    Some(nm) => {
                        match get_attr(attrs, "content") {
                            Some(c) => {
                                let trimmed = trim(nm.as_str());
                                let key = ascii_lower(trimmed.as_str());
                                if key.as_str().unicode_len() > 0 {
                                    let ghost before = crate::ids::pairs_view(out@);
                                    out.push((key, c.clone()));
                                    proof {
                                        assert(crate::ids::pairs_view(out@) =~= before.push(
                                            (seq_lower(trim_spec(nm@)), c@),
                                        ));
                                    }
                                }
                            },
                            None => {},
                        }
                    },
                    None => {},
                }
            },
            _ => {},
        }
        i = i + 1;
    }
    proof {
        assert(ms.subrange(0, metas@.len() as int) =~= ms);
    }
    out
}

/// The concatenated text content of a node, in document order.
pub open spec fn text_of(n: DomNode) -> Seq<char>
    decreases n, 0int,
{
    match n {
        DomNode::Text { text } => text,
        DomNode::Document { children } => text_list(children),
        DomNode::Element { tag, attrs, children } => text_list(children),
        _ => Seq::empty(),
    }
}

/// The concatenated text content of a node list.
pub open spec fn text_list(cs: Seq<DomNode>) -> Seq<char>
    decreases cs, 1int,
{
    if cs.len() == 0 {
        Seq::empty()
    } else {
        text_list(cs.drop_last()) + text_of(cs.last())
    }
}

/// The raw text content of a node.
pub fn text_content(n: &HtmlNode) -> (r: String)
    ensures
        r@ == text_of(n@),
    decreases n, 0int,
{
    match n {
        HtmlNode::Text { text } => text.clone(),
        HtmlNode::Document { children } => text_content_list(children),
        HtmlNode::Element { children, .. } => text_content_list(children),
        _ => String::new(),
    }
}

/// The raw text content of a child vector.
pub fn text_content_list(cs: &Vec<HtmlNode>) -> (r: String)
    ensures
        r@ == text_list(dom_children(cs)),
    decreases cs, 1int,
{
    let ghost ds = dom_seq(cs@);
    proof {
        lemma_dom_seq(cs@);
        assert(ds.subrange(0, 0) =~= Seq::empty());
    }
    let mut out = String::new();
    let mut i: usize = 0;
    while i < cs.len()
        invariant
            0 <= i <= cs@.len(),
            ds == dom_seq(cs@),
            ds.len() == cs@.len(),
            forall|k: int| 0 <= k < cs@.len() ==> ds[k] == #[trigger] cs@[k]@,
            out@ == text_list(ds.subrange(0, i as int)),
        decreases cs@.len() - i,
    {
        proof {
            assert(ds.subrange(0, i + 1).drop_last() =~= ds.subrange(0, i as int));
            assert(ds.subrange(0, i + 1).last() == ds[i as int]);
            assert(ds[i as int] == cs@[i as int]@);
        }
        let piece = text_content(&cs[i]);
        out.append(piece.as_str());
        i = i + 1;
    }
    proof {
        assert(ds.subrange(0, cs@.len() as int) =~= ds);
    }
    out
}

/// The first `title` element (in the head) with non-empty trimmed text.
pub open spec fn title_from_els(els: Seq<DomNode>) -> Option<Seq<char>>
    decreases els.len(),
{
    if els.len() == 0 {
        Option::None
    } else {
        let t = trim_spec(text_of(els[0]));
        if t.len() > 0 {
            Option::Some(t)
        } else {
            title_from_els(els.drop_first())
        }
    }
}

/// The title of a note: its `title` metadata entry if present, else the
/// first non-empty `title` element text in the head.
pub open spec fn spec_extract_note_title(doc: DomNode) -> Option<Seq<char>> {
    match crate::ids::assoc_lookup_last(spec_extract_metadata(doc), "title"@) {
        Option::Some(t) => Option::Some(t),
        Option::None => match find_el(doc, "head"@) {
            Option::Some(h) => title_from_els(collect_els(h, "title"@)),
            Option::None => Option::None,
        },
    }
}

/// Extract the note title from metadata or the head's `title` element.
pub fn extract_note_title(doc: &HtmlNode, metadata: &Vec<(String, String)>) -> (r: Option<String>)
    requires
        crate::ids::pairs_view(metadata@) == spec_extract_metadata(doc@),
    ensures
        match r {
            Option::Some(t) => spec_extract_note_title(doc@) == Option::Some(t@),
            Option::None => spec_extract_note_title(doc@) == Option::None::<Seq<char>>,
        },
{
    match crate::ids::assoc_get_last(metadata, "title") {
        Some(t) => {
            return Some(t.clone());
        },
        None => {},
    }
    let head = match find_element(doc, "head") {
        Some(h) => h,
        None => {
            return None;
        },
    };
    let mut els: Vec<&HtmlNode> = Vec::new();
    collect_elements(head, "title", &mut els);
    let ghost es = els.deep_view();
    proof {
        assert(Seq::<DomNode>::empty() + collect_els(head@, "title"@) =~= collect_els(
            head@,
            "title"@,
        ));
        assert(es.skip(0) =~= es);
    }
    let mut i: usize = 0;
    while i < els.len()
        invariant
            0 <= i <= els@.len(),
            es == els.deep_view(),
            es == collect_els(head@, "title"@),
            es.len() == els@.len(),
            find_el(doc@, "head"@) == Option::Some(head@),
            crate::ids::assoc_lookup_last(spec_extract_metadata(doc@), "title"@) == Option::None::<
                Seq<char>,
            >,
            title_from_els(es) == title_from_els(es.skip(i as int)),
        decreases els@.len() - i,
    {
        proof {
            assert(es.skip(i as int)[0] == es[i as int]);
            assert(es[i as int] == els@[i as int]@);
        }
        let txt = text_content(els[i]);
        let t = trim(txt.as_str());
        if t.as_str().unicode_len() > 0 {
            return Some(t);
        }
        proof {
            assert(es.skip(i as int).drop_first() =~= es.skip(i + 1));
        }
        i = i + 1;
    }
    proof {
        assert(es.skip(els@.len() as int).len() == 0);
    }
    None
}

/// The normalized `target` attributes of all elements with the given tag, or
/// a missing-attribute error naming the tag and source path.
pub open spec fn targets_of(els: Seq<DomNode>, tag: Seq<char>, path: Seq<char>) -> Result<
    Seq<Seq<char>>,
    ErrorV,
>
    decreases els.len(),
{
    if els.len() == 0 {
        Result::Ok(Seq::empty())
    } else {
        match targets_of(els.drop_last(), tag, path) {
            Result::Err(e) => Result::Err(e),
            Result::Ok(p) => match els.last() {
                DomNode::Element { tag: t, attrs, children } => {
                    match attr_lookup(attrs, "target"@) {
                        Option::Some(v) => Result::Ok(p.push(normalize_target_spec(v))),
                        Option::None => Result::Err(
                            ErrorV::MissingRequiredAttribute { tag, path },
                        ),
                    }
                },
                _ => Result::Ok(p),
            },
        }
    }
}

/// The edge list a document declares under a custom tag name.
pub open spec fn spec_collect_targets(doc: DomNode, tag: Seq<char>, path: Seq<char>) -> Result<
    Seq<Seq<char>>,
    ErrorV,
> {
    targets_of(collect_els(doc, tag), tag, path)
}

proof fn lemma_targets_err(els: Seq<DomNode>, j: int, tag: Seq<char>, path: Seq<char>)
    requires
        0 <= j <= els.len(),
        targets_of(els.subrange(0, j), tag, path) matches Result::Err(_),
    ensures
        targets_of(els, tag, path) == targets_of(els.subrange(0, j), tag, path),
    decreases els.len() - j,
{
    if j == els.len() {
        assert(els.subrange(0, j) =~= els);
    } else {
        assert(els.subrange(0, j + 1).drop_last() =~= els.subrange(0, j));
        lemma_targets_err(els, j + 1, tag, path);
    }
}

/// Collect the normalized reference targets declared by all elements with
/// the given tag.
pub fn collect_targets(doc: &HtmlNode, tag: &str, path: &str) -> (r: Result<
    Vec<String>,
    BuildError,
>)
    ensures
        match r {
            Result::Ok(v) => spec_collect_targets(doc@, tag@, path@) == Result::<
                Seq<Seq<char>>,
                ErrorV,
            >::Ok(v.deep_view()),
            Result::Err(e) => spec_collect_targets(doc@, tag@, path@) == Result::<
                Seq<Seq<char>>,
                ErrorV,
            >::Err(e@),
        },
{
    let mut els: Vec<&HtmlNode> = Vec::new();
    collect_elements(doc, tag, &mut els);
    let ghost es = els.deep_view();
    proof {
        assert(Seq::<DomNode>::empty() + collect_els(doc@, tag@) =~= collect_els(doc@, tag@));
        assert(es.subrange(0, 0) =~= Seq::empty());
    }
    let mut out: Vec<String> = Vec::new();
    proof {
        assert(out.deep_view() =~= Seq::<Seq<char>>::empty());
    }
    let mut i: usize = 0;
    while i < els.len()
        invariant
            0 <= i <= els@.len(),
            es == els.deep_view(),
            es == collect_els(doc@, tag@),
            es.len() == els@.len(),
            targets_of(es.subrange(0, i as int), tag@, path@) == Result::<
                Seq<Seq<char>>,
                ErrorV,
            >::Ok(out.deep_view()),
        decreases els@.len() - i,
    {
        proof {
            assert(es.subrange(0, i + 1).drop_last() =~= es.subrange(0, i as int));
            assert(es.subrange(0, i + 1).last() == es[i as int]);
            assert(es[i as int] == els@[i as int]@);
        }
        match els[i] {
            HtmlNode::Element { attrs, .. } => {
                match get_attr(attrs, "target") {
                    Some(v) => {
                        let ghost before = out.deep_view();
                        let nt = normalize_target(v.as_str());
                        out.push(nt);
                        proof {
                            assert(out.deep_view() =~= before.push(normalize_target_spec(v@)));
                        }
                    },
                    None => {
                        proof {
                            lemma_targets_err(es, i + 1, tag@, path@);
                        }
                        return Err(
                            BuildError::MissingRequiredAttribute {
                                tag: tag.to_owned(),
                                path: path.to_owned(),
                            },
                        );
                    },
                }
            },
            _ => {},
        }
        i = i + 1;
    }
    proof {
        assert(es.subrange(0, els@.len() as int) =~= es);
    }
    Ok(out)
}

/// The template ids a note asks to hide, from meta elements whose name is
/// `hide:` followed by the template id.
pub open spec fn hide_ids_of(metas: Seq<DomNode>) -> Seq<Seq<char>>
    decreases metas.len(),
{
    if metas.len() == 0 {
        Seq::empty()
    } else {
        let p = hide_ids_of(metas.drop_last());
        match metas.last() {
            DomNode::Element { tag, attrs, children } => {
                match attr_lookup(attrs, "name"@) {
                    Option::Some(nm) => {
                        let nt = trim_spec(nm);
                        if starts_with_spec(nt, "hide:"@) {
                            let rest = trim_spec(nt.subrange("hide:"@.len() as int, nt.len() as int));
                            if rest.len() > 0 {
                                p.push(rest)
                            } else {
                                p
                            }
                        } else {
                            p
                        }
                    },
                    Option::None => p,
                }
            },
            _ => p,
        }
    }
}

/// The template ids a document asks to hide.
pub open spec fn spec_extract_hide_template_ids(doc: DomNode) -> Seq<Seq<char>> {
    hide_ids_of(head_metas(doc))
}

/// Extract the template ids the note asks to hide.
pub fn extract_hide_template_ids(doc: &HtmlNode) -> (r: Vec<String>)
    ensures
        r.deep_view() == spec_extract_hide_template_ids(doc@),
{
    let metas = collect_head_metas(doc);
    let ghost ms = metas.deep_view();
    let mut out: Vec<String> = Vec::new();
    proof {
        assert(ms.subrange(0, 0) =~= Seq::empty());
        assert(out.deep_view() =~= Seq::<Seq<char>>::empty());
    }
    let mut i: usize = 0;
    while i < metas.len()
        invariant
            0 <= i <= metas@.len(),
            ms == metas.deep_view(),
            ms == head_metas(doc@),
            ms.len() == metas@.len(),
            out.deep_view() == hide_ids_of(ms.subrange(0, i as int)),
        decreases metas@.len() - i,
    {
        proof {
            assert(ms.subrange(0, i + 1).drop_last() =~= ms.subrange(0, i as int));
            assert(ms.subrange(0, i + 1).last() == ms[i as int]);
            assert(ms[i as int] == metas@[i as int]@);
        }
        match metas[i] {
            HtmlNode::Element { attrs, .. } => {
                match get_attr(attrs, "name") {
                    Some(nm) => {
                        let nt = trim(nm.as_str());
                        if starts_with(nt.as_str(), "hide:") {
                            let m: usize = "hide:".unicode_len();
                            let restraw = nt.as_str().substring_char(
                                m,
                                nt.as_str().unicode_len(),
                            );
                            let rest = trim(restraw);
                            if rest.as_str().unicode_len() > 0 {
                                let ghost before = out.deep_view();
                                out.push(rest);
                                proof {
                                    assert(out.deep_view() =~= before.push(trim_spec(
                                        trim_spec(nm@).subrange(
                                            "hide:"@.len() as int,
                                            trim_spec(nm@).len() as int,
                                        ),
                                    )));
                                }
                            }
                        }
                    },
                    None => {},
                }
            },
            _ => {},
        }
        i = i + 1;
    }
    proof {
        assert(ms.subrange(0, metas@.len() as int) =~= ms);
    }
    out
}


/// Mathematical model of a loaded note.
pub struct NoteV {
    pub id: Seq<char>,
    pub source_path: Seq<char>,
    pub document: DomNode,
    pub transcludes: Seq<Seq<char>>,
    pub links_out: Seq<Seq<char>>,
}

/// A loaded note: its id, source path, parsed document, and the two edge
/// lists it declares (transclusion targets and internal-link targets, in
/// declaration order, normalized).
#[derive(Debug)]
pub struct Note {
    pub id: String,
    pub source_path: String,
    pub document: HtmlNode,
    pub transcludes: Vec<String>,
    pub links_out: Vec<String>,
}

impl View for Note {
    type V = NoteV;

    open spec fn view(&self) -> NoteV {
        NoteV {
            id: self.id@,
            source_path: self.source_path@,
            document: self.document@,
            transcludes: self.transcludes.deep_view(),
            links_out: self.links_out.deep_view(),
        }
    }
}

impl DeepView for Note {
    type V = NoteV;

    open spec fn deep_view(&self) -> NoteV {
        self.view()
    }
}

/// A parsed note document with its id, before edge extraction.
#[derive(Debug)]
pub struct HtmlNote {
    pub id: String,
    pub source_path: String,
    pub document: HtmlNode,
}

/// Parse one note document and extract its id.
pub fn parse_note_html(html: &str, source_path: &str) -> (r: Result<HtmlNote, BuildError>)
    ensures
        match r {
            Result::Ok(note) => {
                &&& note.document@ == parsed_document(html@)
                &&& note.source_path@ == source_path@
                &&& spec_extract_note_id(parsed_document(html@), source_path@) == Result::<
                    Seq<char>,
                    ErrorV,
                >::Ok(note.id@)
            },
            Result::Err(e) => spec_extract_note_id(parsed_document(html@), source_path@)
                == Result::<Seq<char>, ErrorV>::Err(e@),
        },
{
    let document = parse_document(html);
    match extract_note_id(&document, source_path) {
        Ok(id) => Ok(HtmlNote { id, source_path: source_path.to_owned(), document }),
        Err(e) => Err(e),
    }
}

/// The ids of a sequence of notes, in order.
pub open spec fn note_ids_of(ns: Seq<NoteV>) -> Seq<Seq<char>>
    decreases ns.len(),
{
    if ns.len() == 0 {
        Seq::empty()
    } else {
        note_ids_of(ns.drop_last()).push(ns.last().id)
    }
}

/// The note ids in load order.
pub fn note_ids(notes: &Vec<Note>) -> (r: Vec<String>)
    ensures
        r.deep_view() == note_ids_of(notes.deep_view()),
{
    let ghost nv = notes.deep_view();
    let mut out: Vec<String> = Vec::new();
    proof {
        assert(nv.subrange(0, 0) =~= Seq::empty());
        assert(out.deep_view() =~= Seq::<Seq<char>>::empty());
        assert(note_ids_of(Seq::empty()) =~= Seq::<Seq<char>>::empty());
    }
    let mut i: usize = 0;
    while i < notes.len()
        invariant
            0 <= i <= notes@.len(),
            nv == notes.deep_view(),
            nv.len() == notes@.len(),
            out.deep_view() == note_ids_of(nv.subrange(0, i as int)),
        decreases notes@.len() - i,
    {
        proof {
            assert(nv.subrange(0, i + 1).drop_last() =~= nv.subrange(0, i as int));
            assert(nv.subrange(0, i + 1).last() == nv[i as int]);
            assert(nv[i as int] == notes@[i as int]@);
        }
        let ghost before = out.deep_view();
        let idc = notes[i].id.clone();
        out.push(idc);
        proof {
            assert(out.deep_view() =~= before.push(notes@[i as int].id@));
        }
        i = i + 1;
    }
    proof {
        assert(nv.subrange(0, notes@.len() as int) =~= nv);
    }
    out
}

/// The result of loading one parsed document into the table built so far.
pub open spec fn spec_load_step(ns: Seq<NoteV>, source_path: Seq<char>, html: Seq<char>) -> Result<
    NoteV,
    ErrorV,
> {
    let doc = parsed_document(html);
    match spec_extract_note_id(doc, source_path) {
        Result::Err(e) => Result::Err(e),
        Result::Ok(id) => if note_ids_of(ns).contains(id) {
            Result::Err(ErrorV::DuplicateNoteId { id })
        } else {
            match spec_collect_targets(doc, "transclusion"@, source_path) {
                Result::Err(e) => Result::Err(e),
                Result::Ok(transcludes) => match spec_collect_targets(
                    doc,
                    "internal-link"@,
                    source_path,
                ) {
                    Result::Err(e) => Result::Err(e),
                    Result::Ok(links_out) => Result::Ok(
                        NoteV { id, source_path, document: doc, transcludes, links_out },
                    ),
                },
            }
        },
    }
}

/// The note table built from a sequence of `(source path, document text)`
/// pairs, in order.
pub open spec fn spec_load_fold(docs: Seq<(Seq<char>, Seq<char>)>) -> Result<Seq<NoteV>, ErrorV>
    decreases docs.len(),
{
    if docs.len() == 0 {
        Result::Ok(Seq::empty())
    } else {
        match spec_load_fold(docs.drop_last()) {
            Result::Err(e) => Result::Err(e),
            Result::Ok(ns) => match spec_load_step(ns, docs.last().0, docs.last().1) {
                Result::Err(e) => Result::Err(e),
                Result::Ok(n) => Result::Ok(ns.push(n)),
            },
        }
    }
}

/// Loading a note table: empty input is an error, a duplicate id is an
/// error, and otherwise every document contributes one note, in input order.
pub open spec fn spec_load_notes(docs: Seq<(Seq<char>, Seq<char>)>) -> Result<Seq<NoteV>, ErrorV> {
    if docs.len() == 0 {
        Result::Err(ErrorV::EmptyCorpus)
    } else {
        spec_load_fold(docs)
    }
}

proof fn lemma_load_fold_err(docs: Seq<(Seq<char>, Seq<char>)>, j: int)
    requires
        0 <= j <= docs.len(),
        spec_load_fold(docs.subrange(0, j)) matches Result::Err(_),
    ensures
        spec_load_fold(docs) == spec_load_fold(docs.subrange(0, j)),
    decreases docs.len() - j,
{
    if j == docs.len() {
        assert(docs.subrange(0, j) =~= docs);
    } else {
        assert(docs.subrange(0, j + 1).drop_last() =~= docs.subrange(0, j));
        lemma_load_fold_err(docs, j + 1);
    }
}

/// Load all note documents: parse each, extract ids and edge lists, and
/// refuse duplicate ids or an empty corpus.
pub fn load_notes(docs: &Vec<(String, String)>) -> (r: Result<Vec<Note>, BuildError>)
    ensures
        match r {
            Result::Ok(notes) => spec_load_notes(crate::ids::pairs_view(docs@)) == Result::<
                Seq<NoteV>,
                ErrorV,
            >::Ok(notes.deep_view()),
            Result::Err(e) => spec_load_notes(crate::ids::pairs_view(docs@)) == Result::<
                Seq<NoteV>,
                ErrorV,
            >::Err(e@),
        },
{
    if docs.len() == 0 {
        return Err(BuildError::EmptyCorpus);
    }
    let ghost dv = crate::ids::pairs_view(docs@);
    let mut notes: Vec<Note> = Vec::new();
    proof {
        assert(dv.subrange(0, 0) =~= Seq::empty());
        assert(notes.deep_view() =~= Seq::<NoteV>::empty());
    }
    let mut i: usize = 0;
    while i < docs.len()
        invariant
            0 <= i <= docs@.len(),
            docs@.len() > 0,
            dv == crate::ids::pairs_view(docs@),
            dv.len() == docs@.len(),
            spec_load_fold(dv.subrange(0, i as int)) == Result::<Seq<NoteV>, ErrorV>::Ok(
                notes.deep_view(),
            ),
        decreases docs@.len() - i,
    {
        proof {
            assert(dv.subrange(0, i + 1).drop_last() =~= dv.subrange(0, i as int));
            assert(dv.subrange(0, i + 1).last() == dv[i as int]);
            assert(dv[i as int] == (docs@[i as int].0@, docs@[i as int].1@));
        }
        let source_path = &docs[i].0;
        let html = &docs[i].1;
        let ghost ns_pre = notes.deep_view();
        let parsed = parse_note_html(html.as_str(), source_path.as_str());
        match parsed {
            Err(e) => {
                proof {
                    lemma_load_fold_err(dv, i + 1);
                }
                return Err(e);
            },
            Ok(hn) => {
                let ids_so_far = note_ids(&notes);
                if crate::ids::contains_id(&ids_so_far, hn.id.as_str()) {
                    proof {
                        lemma_load_fold_err(dv, i + 1);
                    }
                    return Err(BuildError::DuplicateNoteId { id: hn.id });
                }
                let transcludes = match collect_targets(
                    &hn.document,
                    "transclusion",
                    source_path.as_str(),
                ) {
                    Err(e) => {
                        proof {
                            lemma_load_fold_err(dv, i + 1);
                        }
                        return Err(e);
                    },
                    Ok(v) => v,
                };
                let links_out = match collect_targets(
                    &hn.document,
                    "internal-link",
                    source_path.as_str(),
                ) {
                    Err(e) => {
                        proof {
                            lemma_load_fold_err(dv, i + 1);
                        }
                        return Err(e);
                    },
                    Ok(v) => v,
                };
                let note = Note {
                    id: hn.id,
                    source_path: hn.source_path,
                    document: hn.document,
                    transcludes,
                    links_out,
                };
                notes.push(note);
                proof {
                    assert(notes.deep_view() =~= ns_pre.push(notes@[notes@.len() - 1]@));
                }
            },
        }
        i = i + 1;
    }
    proof {
        assert(dv.subrange(0, docs@.len() as int) =~= dv);
    }
    Ok(notes)
}

} // verus!
