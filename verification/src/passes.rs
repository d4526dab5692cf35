//! The three substituting passes over note documents.
//!
//! The note pass inlines transclusions against the already-processed bodies;
//! the link pass resolves internal links and citations against the note-id
//! set while collecting the citation and related sets; the template pass
//! fills a page template's slots with the rendered parts of one note.

use vstd::prelude::*;

use crate::dom::{
    attr_lookup, attrs_view, dom_children, dom_seq, get_attr, lemma_dom_seq, parse_bool_attr,
    parse_bool_spec, DomNode, HtmlNode,
};
use crate::error::{res_view, BuildError, ErrorV};
use crate::ids::{assoc_get, assoc_lookup, contains_id, id_list_contains, pairs_view};
use crate::render::{
    comment_str, doctype_str, instruction_str, is_void_element, is_void_spec, open_tag,
    open_tag_spec, parse_demote_attr, parse_demote_spec, render_fragment_with_options,
    spec_raw_children, spec_render_fragment_with_options, raw_children,
};
use crate::text::{
    escape_text, escape_text_spec, eq_ignore_case, normalize_target, normalize_target_spec,
    seq_eq_ci,
};

verus! {

/// Note-pass rendering of one node: transclusion elements are substituted,
/// everything else is serialized.
pub open spec fn spec_note_node(n: DomNode, processed: Seq<(Seq<char>, Seq<char>)>, path: Seq<
    char,
>) -> Result<Seq<char>, ErrorV>
    decreases n, 0int,
{
    match n {
        DomNode::Document { children } => spec_note_children(children, processed, path),
        DomNode::Doctype { name, public_id, system_id } => Result::Ok(
            doctype_str(name, public_id, system_id),
        ),
        DomNode::Comment { text } => Result::Ok(comment_str(text)),
        DomNode::Text { text } => Result::Ok(escape_text_spec(text)),
        DomNode::Instruction { target_name, data } => Result::Ok(
            instruction_str(target_name, data),
        ),
        DomNode::Element { tag, attrs, children } => spec_note_element(
            tag,
            attrs,
            children,
            processed,
            path,
        ),
    }
}

/// Note-pass rendering of a child list.
pub open spec fn spec_note_children(
    cs: Seq<DomNode>,
    processed: Seq<(Seq<char>, Seq<char>)>,
    path: Seq<char>,
) -> Result<Seq<char>, ErrorV>
    decreases cs, 2int,
{
    if cs.len() == 0 {
        Result::Ok(Seq::empty())
    } else {
        match spec_note_children(cs.drop_last(), processed, path) {
            Result::Err(e) => Result::Err(e),
            Result::Ok(p) => match spec_note_node(cs.last(), processed, path) {
                Result::Err(e) => Result::Err(e),
                Result::Ok(s) => Result::Ok(p + s),
            },
        }
    }
}

/// Note-pass rendering of one element.
pub open spec fn spec_note_element(
    tag: Seq<char>,
    attrs: Seq<(Seq<char>, Seq<char>)>,
    children: Seq<DomNode>,
    processed: Seq<(Seq<char>, Seq<char>)>,
    path: Seq<char>,
) -> Result<Seq<char>, ErrorV>
    decreases children, 3int,
{
    if seq_eq_ci(tag, "transclusion"@) {
        match attr_lookup(attrs, "target"@) {
            Option::None => Result::Err(
                ErrorV::MissingRequiredAttribute { tag: "transclusion"@, path },
            ),
            Option::Some(t0) => {
                let t = normalize_target_spec(t0);
                match assoc_lookup(processed, t) {
                    Option::None => Result::Err(
                        ErrorV::InternalInvariant {
                            detail: "transclusion target is not processed yet: "@ + t,
                        },
                    ),
                    Option::Some(body) => {
                        let sm = parse_bool_spec(attr_lookup(attrs, "show-metadata"@), true);
                        let exp = parse_bool_spec(attr_lookup(attrs, "expanded"@), true);
                        let dnum = parse_bool_spec(
                            attr_lookup(attrs, "disable-numbering"@),
                            false,
                        );
                        let dem = parse_demote_spec(attr_lookup(attrs, "demote-headings"@));
                        spec_render_fragment_with_options(body, sm, exp, dnum, dem)
                    },
                }
            },
        }
    } else {
        let otag = open_tag_spec(tag, attrs, false, false, false);
        if is_void_spec(tag) {
            Result::Ok(otag)
        } else if seq_eq_ci(tag, "script"@) || seq_eq_ci(tag, "style"@) {
            match spec_raw_children(children, 0, false, false, false) {
                Result::Err(e) => Result::Err(e),
                Result::Ok((inner, h, c)) => Result::Ok(otag + inner + "</"@ + tag + ">"@),
            }
        } else {
            match spec_note_children(children, processed, path) {
                Result::Err(e) => Result::Err(e),
                Result::Ok(inner) => Result::Ok(otag + inner + "</"@ + tag + ">"@),
            }
        }
    }
}

/// An error of a note-pass child-list prefix is the error of the whole list.
proof fn lemma_note_children_err(
    cs: Seq<DomNode>,
    j: int,
    processed: Seq<(Seq<char>, Seq<char>)>,
    path: Seq<char>,
)
    requires
        0 <= j <= cs.len(),
        spec_note_children(cs.subrange(0, j), processed, path) matches Result::Err(_),
    ensures
        spec_note_children(cs, processed, path) == spec_note_children(
            cs.subrange(0, j),
            processed,
            path,
        ),
    decreases cs.len() - j,
{
    if j == cs.len() {
        assert(cs.subrange(0, j) =~= cs);
    } else {
        assert(cs.subrange(0, j + 1).drop_last() =~= cs.subrange(0, j));
        lemma_note_children_err(cs, j + 1, processed, path);
    }
}

/// Render one node in note mode.
pub fn note_node(n: &HtmlNode, processed: &Vec<(String, String)>, path: &str) -> (r: Result<
    String,
    BuildError,
>)
    ensures
        res_view(r) == spec_note_node(n@, pairs_view(processed@), path@),
    decreases n, 0int,
{
    match n {
        HtmlNode::Document { children } => note_children(children, processed, path),
        HtmlNode::Doctype { name, public_id, system_id } => {
            let mut out = String::from_str("<!DOCTYPE ");
            out.append(name.as_str());
            if public_id.as_str().is_empty() && system_id.as_str().is_empty() {
                out.append(">");
            } else {
                out.append(" PUBLIC \"");
                out.append(public_id.as_str());
                out.append("\" \"");
                out.append(system_id.as_str());
                out.append("\">");
            }
            Ok(out)
        },
        HtmlNode::Comment { text } => {
            let mut out = String::from_str("<!--");
            out.append(text.as_str());
            out.append("-->");
            Ok(out)
        },
        HtmlNode::Text { text } => Ok(escape_text(text.as_str())),
        HtmlNode::Instruction { target_name, data } => {
            let mut out = String::from_str("<?");
            out.append(target_name.as_str());
            out.append(" ");
            out.append(data.as_str());
            out.append("?>");
            Ok(out)
        },
        HtmlNode::Element { tag, attrs, children } => note_element(
            tag,
            attrs,
            children,
            processed,
            path,
        ),
    }
}

/// Render a child list in note mode.
pub fn note_children(cs: &Vec<HtmlNode>, processed: &Vec<(String, String)>, path: &str) -> (r:
    Result<String, BuildError>)
    ensures
        res_view(r) == spec_note_children(dom_children(cs), pairs_view(processed@), path@),
    decreases cs, 2int,
{
    let ghost ds = dom_seq(cs@);
    proof {
        lemma_dom_seq(cs@);
        assert(ds.subrange(0, 0) =~= Seq::empty());
    }
    let mut out = String::new();
    let mut i: usize = 0;
    while i < cs.len()
        invariant
            0 <= i <= cs@.len(),
            ds == dom_seq(cs@),
            ds.len() == cs@.len(),
            forall|k: int| 0 <= k < cs@.len() ==> ds[k] == #[trigger] cs@[k]@,
            spec_note_children(ds.subrange(0, i as int), pairs_view(processed@), path@)
                == Result::<Seq<char>, ErrorV>::Ok(out@),
        decreases cs@.len() - i,
    {
        proof {
            assert(ds.subrange(0, i + 1).drop_last() =~= ds.subrange(0, i as int));
            assert(ds.subrange(0, i + 1).last() == ds[i as int]);
            assert(ds[i as int] == cs@[i as int]@);
        }
        let step = note_node(&cs[i], processed, path);
        match step {
            Ok(s) => {
                out.append(s.as_str());
            },
            Err(e) => {
                proof {
                    lemma_note_children_err(ds, i + 1, pairs_view(processed@), path@);
                }
                return Err(e);
            },
        }
        i = i + 1;
    }
    proof {
        assert(ds.subrange(0, cs@.len() as int) =~= ds);
    }
    Ok(out)
}

/// Render one element in note mode.
#[verifier::rlimit(60)]
pub fn note_element(
    tag: &String,
    attrs: &Vec<(String, String)>,
    children: &Vec<HtmlNode>,
    processed: &Vec<(String, String)>,
    path: &str,
) -> (r: Result<String, BuildError>)
    ensures
        res_view(r) == spec_note_element(
            tag@,
            attrs_view(attrs@),
            dom_children(children),
            pairs_view(processed@),
            path@,
        ),
    decreases children, 3int,
{
    if eq_ignore_case(tag.as_str(), "transclusion") {
        let t0 = match get_attr(attrs, "target") {
            None => {
                return Err(
                    BuildError::MissingRequiredAttribute {
                        tag: String::from_str("transclusion"),
                        path: path.to_owned(),
                    },
                );
            },
            Some(t0) => t0,
        };
        let t = normalize_target(t0.as_str());
        let body = match assoc_get(processed, t.as_str()) {
            None => {
                let mut detail = String::from_str("transclusion target is not processed yet: ");
                detail.append(t.as_str());
                return Err(BuildError::InternalInvariant { detail });
            },
            Some(body) => body,
        };
        let sm_v = get_attr(attrs, "show-metadata");
        let sm = parse_bool_attr(
            match sm_v {
                Some(v) => Some(v.as_str()),
                None => None,
            },
            true,
        );
        let exp_v = get_attr(attrs, "expanded");
        let exp = parse_bool_attr(
            match exp_v {
                Some(v) => Some(v.as_str()),
                None => None,
            },
            true,
        );
        let dn_v = get_attr(attrs, "disable-numbering");
        let dnum = parse_bool_attr(
            match dn_v {
                Some(v) => Some(v.as_str()),
                None => None,
            },
            false,
        );
        let dem_v = get_attr(attrs, "demote-headings");
        let dem = parse_demote_attr(
            match dem_v {
                Some(v) => Some(v.as_str()),
                None => None,
            },
        );
        render_fragment_with_options(body.as_str(), sm, exp, dnum, dem)
    } else {
        let otag = open_tag(tag.as_str(), attrs, false, false, false);
        if is_void_element(tag.as_str()) {
            return Ok(otag);
        }
        let raw = eq_ignore_case(tag.as_str(), "script") || eq_ignore_case(tag.as_str(), "style");
        if raw {
            match raw_children(children, 0, false, false, false) {
                Err(e) => Err(e),
                Ok((inner, _h, _c)) => {
                    let mut out = otag;
                    out.append(inner.as_str());
                    out.append("</");
                    out.append(tag.as_str());
                    out.append(">");
                    Ok(out)
                },
            }
        } else {
            match note_children(children, processed, path) {
                Err(e) => Err(e),
                Ok(inner) => {
                    let mut out = otag;
                    out.append(inner.as_str());
                    out.append("</");
                    out.append(tag.as_str());
                    out.append(">");
                    Ok(out)
                },
            }
        }
    }
}


/// The href of a note page: the site root for the `index` note, otherwise a
/// directory URL or an `.html` URL depending on the trailing-slash policy.
pub open spec fn href_spec(target: Seq<char>, root_dir: Seq<char>, trailing_slash: bool) -> Seq<
    char,
> {
    if target == "index"@ {
        root_dir
    } else if trailing_slash {
        root_dir + target + "/"@
    } else {
        root_dir + target + ".html"@
    }
}

/// Compute the href for a note id under the site settings.
pub fn href_for(target: &str, root_dir: &str, trailing_slash: bool) -> (r: String)
    ensures
        r@ == href_spec(target@, root_dir@, trailing_slash),
{
    if crate::text::str_eq(target, "index") {
        root_dir.to_owned()
    } else if trailing_slash {
        let mut out = root_dir.to_owned();
        out.append(target);
        out.append("/");
        out
    } else {
        let mut out = root_dir.to_owned();
        out.append(target);
        out.append(".html");
        out
    }
}

/// The display title of a note: its extracted title if one exists, else its
/// id.
pub open spec fn title_for(titles: Seq<(Seq<char>, Seq<char>)>, id: Seq<char>) -> Seq<char> {
    match assoc_lookup(titles, id) {
        Option::Some(t) => t,
        Option::None => id,
    }
}

/// The result of the link pass on a subtree: the substituted markup, the
/// citation targets and the related (internally linked) targets, in document
/// order.
pub open spec fn link_post(
    sres: Result<(Seq<char>, Seq<Seq<char>>, Seq<Seq<char>>), ErrorV>,
    r: Result<String, BuildError>,
    c0: Seq<Seq<char>>,
    c1: Seq<Seq<char>>,
    r0: Seq<Seq<char>>,
    r1: Seq<Seq<char>>,
) -> bool {
    match sres {
        Result::Ok((s, cseq, rseq)) => match r {
            Result::Ok(v) => v@ == s && c1 == c0 + cseq && r1 == r0 + rseq,
            Result::Err(_) => false,
        },
        Result::Err(e) => match r {
            Result::Ok(_) => false,
            Result::Err(x) => x@ == e,
        },
    }
}

/// Link-pass rendering of one node.
pub open spec fn spec_link_node(
    n: DomNode,
    ids: Seq<Seq<char>>,
    titles: Seq<(Seq<char>, Seq<char>)>,
    source: Seq<char>,
    root_dir: Seq<char>,
    trailing_slash: bool,
) -> Result<(Seq<char>, Seq<Seq<char>>, Seq<Seq<char>>), ErrorV>
    decreases n, 0int,
{
    match n {
        DomNode::Document { children } => spec_link_children(
            children,
            ids,
            titles,
            source,
            root_dir,
            trailing_slash,
        ),
        DomNode::Doctype { name, public_id, system_id } => Result::Ok(
            (doctype_str(name, public_id, system_id), Seq::empty(), Seq::empty()),
        ),
        DomNode::Comment { text } => Result::Ok((comment_str(text), Seq::empty(), Seq::empty())),
        DomNode::Text { text } => Result::Ok((escape_text_spec(text), Seq::empty(), Seq::empty())),
        DomNode::Instruction { target_name, data } => Result::Ok(
            (instruction_str(target_name, data), Seq::empty(), Seq::empty()),
        ),
        DomNode::Element { tag, attrs, children } => spec_link_element(
            tag,
            attrs,
            children,
            ids,
            titles,
            source,
            root_dir,
            trailing_slash,
        ),
    }
}

/// Link-pass rendering of a child list.
pub open spec fn spec_link_children(
    cs: Seq<DomNode>,
    ids: Seq<Seq<char>>,
    titles: Seq<(Seq<char>, Seq<char>)>,
    source: Seq<char>,
    root_dir: Seq<char>,
    trailing_slash: bool,
) -> Result<(Seq<char>, Seq<Seq<char>>, Seq<Seq<char>>), ErrorV>
    decreases cs, 2int,
{
    if cs.len() == 0 {
        Result::Ok((Seq::empty(), Seq::empty(), Seq::empty()))
    } else {
        match spec_link_children(cs.drop_last(), ids, titles, source, root_dir, trailing_slash) {
            Result::Err(e) => Result::Err(e),
            Result::Ok((p, cs1, rs1)) => match spec_link_node(
                cs.last(),
                ids,
                titles,
                source,
                root_dir,
                trailing_slash,
            ) {
                Result::Err(e) => Result::Err(e),
                Result::Ok((s, cs2, rs2)) => Result::Ok((p + s, cs1 + cs2, rs1 + rs2)),
            },
        }
    }
}

/// Link-pass rendering of one element: internal links and citations are
/// replaced by anchors, their targets collected; a transclusion here is an
/// internal-consistency error.
pub open spec fn spec_link_element(
    tag: Seq<char>,
    attrs: Seq<(Seq<char>, Seq<char>)>,
    children: Seq<DomNode>,
    ids: Seq<Seq<char>>,
    titles: Seq<(Seq<char>, Seq<char>)>,
    source: Seq<char>,
    root_dir: Seq<char>,
    trailing_slash: bool,
) -> Result<(Seq<char>, Seq<Seq<char>>, Seq<Seq<char>>), ErrorV>
    decreases children, 3int,
{
    if seq_eq_ci(tag, "transclusion"@) {
        Result::Err(
            ErrorV::InternalInvariant { detail: "unexpected transclusion element in link pass"@ },
        )
    } else if seq_eq_ci(tag, "internal-link"@) || seq_eq_ci(tag, "citation"@) {
        let is_citation = seq_eq_ci(tag, "citation"@);
        match attr_lookup(attrs, "target"@) {
            Option::None => Result::Err(
                ErrorV::MissingRequiredAttribute {
                    tag: if is_citation { "citation"@ } else { "internal-link"@ },
                    path: source,
                },
            ),
            Option::Some(t0) => {
                let t = normalize_target_spec(t0);
                if !id_list_contains(ids, t) {
                    Result::Err(ErrorV::UnknownReferenceTarget { source, target: t })
                } else {
                    match spec_link_children(
                        children,
                        ids,
                        titles,
                        source,
                        root_dir,
                        trailing_slash,
                    ) {
                        Result::Err(e) => Result::Err(e),
                        Result::Ok((content, cs1, rs1)) => {
                            let text = if content.len() == 0 {
                                escape_text_spec(title_for(titles, t))
                            } else {
                                content
                            };
                            let href = crate::text::escape_attr_spec(
                                href_spec(t, root_dir, trailing_slash),
                            );
                            if is_citation {
                                Result::Ok(
                                    (
                                        "<a class=\"citation\" href=\""@ + href + "\">"@ + text
                                            + "</a>"@,
                                        cs1.push(t),
                                        rs1,
                                    ),
                                )
                            } else {
                                Result::Ok(
                                    (
                                        "<a href=\""@ + href + "\">"@ + text + "</a>"@,
                                        cs1,
                                        rs1.push(t),
                                    ),
                                )
                            }
                        },
                    }
                }
            },
        }
    } else {
        let otag = open_tag_spec(tag, attrs, false, false, false);
        if is_void_spec(tag) {
            Result::Ok((otag, Seq::empty(), Seq::empty()))
        } else if seq_eq_ci(tag, "script"@) || seq_eq_ci(tag, "style"@) {
            match spec_raw_children(children, 0, false, false, false) {
                Result::Err(e) => Result::Err(e),
                Result::Ok((inner, h, c)) => Result::Ok(
                    (otag + inner + "</"@ + tag + ">"@, Seq::empty(), Seq::empty()),
                ),
            }
        } else {
            match spec_link_children(children, ids, titles, source, root_dir, trailing_slash) {
                Result::Err(e) => Result::Err(e),
                Result::Ok((inner, cs1, rs1)) => Result::Ok(
                    (otag + inner + "</"@ + tag + ">"@, cs1, rs1),
                ),
            }
        }
    }
}

/// An error of a link-pass child-list prefix is the error of the whole list.
proof fn lemma_link_children_err(
    cs: Seq<DomNode>,
    j: int,
    ids: Seq<Seq<char>>,
    titles: Seq<(Seq<char>, Seq<char>)>,
    source: Seq<char>,
    root_dir: Seq<char>,
    trailing_slash: bool,
)
    requires
        0 <= j <= cs.len(),
        spec_link_children(cs.subrange(0, j), ids, titles, source, root_dir, trailing_slash)
            matches Result::Err(_),
    ensures
        spec_link_children(cs, ids, titles, source, root_dir, trailing_slash)
            == spec_link_children(cs.subrange(0, j), ids, titles, source, root_dir, trailing_slash),
    decreases cs.len() - j,
{
    if j == cs.len() {
        assert(cs.subrange(0, j) =~= cs);
    } else {
        assert(cs.subrange(0, j + 1).drop_last() =~= cs.subrange(0, j));
        lemma_link_children_err(cs, j + 1, ids, titles, source, root_dir, trailing_slash);
    }
}

/// Render one node in link mode, collecting citation and related targets.
pub fn link_node(
    n: &HtmlNode,
    ids: &Vec<String>,
    titles: &Vec<(String, String)>,
    source: &str,
    root_dir: &str,
    trailing_slash: bool,
    cits: &mut Vec<String>,
    rel: &mut Vec<String>,
) -> (r: Result<String, BuildError>)
    ensures
        link_post(
            spec_link_node(n@, ids.deep_view(), pairs_view(titles@), source@, root_dir@,
            trailing_slash),
            r,
            old(cits).deep_view(),
            final(cits).deep_view(),
            old(rel).deep_view(),
            final(rel).deep_view(),
        ),
    decreases n, 0int,
{
    match n {
        HtmlNode::Document { children } => link_children(
            children,
            ids,
            titles,
            source,
            root_dir,
            trailing_slash,
            cits,
            rel,
        ),
        HtmlNode::Doctype { name, public_id, system_id } => {
            let mut out = String::from_str("<!DOCTYPE ");
            out.append(name.as_str());
            if public_id.as_str().is_empty() && system_id.as_str().is_empty() {
                out.append(">");
            } else {
                out.append(" PUBLIC \"");
                out.append(public_id.as_str());
                out.append("\" \"");
                out.append(system_id.as_str());
                out.append("\">");
            }
            proof {
                assert(old(cits).deep_view() + Seq::<Seq<char>>::empty() =~= old(
                    cits,
                ).deep_view());
                assert(old(rel).deep_view() + Seq::<Seq<char>>::empty() =~= old(rel).deep_view());
            }
            Ok(out)
        },
        HtmlNode::Comment { text } => {
            let mut out = String::from_str("<!--");
            out.append(text.as_str());
            out.append("-->");
            proof {
                assert(old(cits).deep_view() + Seq::<Seq<char>>::empty() =~= old(
                    cits,
                ).deep_view());
                assert(old(rel).deep_view() + Seq::<Seq<char>>::empty() =~= old(rel).deep_view());
            }
            Ok(out)
        },
        HtmlNode::Text { text } => {
            proof {
                assert(old(cits).deep_view() + Seq::<Seq<char>>::empty() =~= old(
                    cits,
                ).deep_view());
                assert(old(rel).deep_view() + Seq::<Seq<char>>::empty() =~= old(rel).deep_view());
            }
            Ok(escape_text(text.as_str()))
        },
        HtmlNode::Instruction { target_name, data } => {
            let mut out = String::from_str("<?");
            out.append(target_name.as_str());
            out.append(" ");
            out.append(data.as_str());
            out.append("?>");
            proof {
                assert(old(cits).deep_view() + Seq::<Seq<char>>::empty() =~= old(
                    cits,
                ).deep_view());
                assert(old(rel).deep_view() + Seq::<Seq<char>>::empty() =~= old(rel).deep_view());
            }
            Ok(out)
        },
        HtmlNode::Element { tag, attrs, children } => link_element(
            tag,
            attrs,
            children,
            ids,
            titles,
            source,
            root_dir,
            trailing_slash,
            cits,
            rel,
        ),
    }
}

/// Render a child list in link mode.
pub fn link_children(
    cs: &Vec<HtmlNode>,
    ids: &Vec<String>,
    titles: &Vec<(String, String)>,
    source: &str,
    root_dir: &str,
    trailing_slash: bool,
    cits: &mut Vec<String>,
    rel: &mut Vec<String>,
) -> (r: Result<String, BuildError>)
    ensures
        link_post(
            spec_link_children(dom_children(cs), ids.deep_view(), pairs_view(titles@), source@,
            root_dir@, trailing_slash),
            r,
            old(cits).deep_view(),
            final(cits).deep_view(),
            old(rel).deep_view(),
            final(rel).deep_view(),
        ),
    decreases cs, 2int,
{
    let ghost ds = dom_seq(cs@);
    let ghost c0 = cits.deep_view();
    let ghost r0 = rel.deep_view();
    proof {
        lemma_dom_seq(cs@);
        assert(ds.subrange(0, 0) =~= Seq::empty());
        assert(c0 + Seq::<Seq<char>>::empty() =~= c0);
        assert(r0 + Seq::<Seq<char>>::empty() =~= r0);
        assert(c0.skip(c0.len() as int) =~= Seq::<Seq<char>>::empty());
        assert(r0.skip(r0.len() as int) =~= Seq::<Seq<char>>::empty());
        assert(c0.subrange(0, c0.len() as int) =~= c0);
        assert(r0.subrange(0, r0.len() as int) =~= r0);
    }
    let mut out = String::new();
    let mut i: usize = 0;
    while i < cs.len()
        invariant
            0 <= i <= cs@.len(),
            ds == dom_seq(cs@),
            ds.len() == cs@.len(),
            c0 == old(cits).deep_view(),
            r0 == old(rel).deep_view(),
            forall|k: int| 0 <= k < cs@.len() ==> ds[k] == #[trigger] cs@[k]@,
            spec_link_children(ds.subrange(0, i as int), ids.deep_view(), pairs_view(titles@),
            source@, root_dir@, trailing_slash) == Result::<
                (Seq<char>, Seq<Seq<char>>, Seq<Seq<char>>),
                ErrorV,
            >::Ok((out@, cits.deep_view().skip(c0.len() as int), rel.deep_view().skip(
                r0.len() as int,
            ))),
            cits.deep_view().len() >= c0.len(),
            rel.deep_view().len() >= r0.len(),
            cits.deep_view().subrange(0, c0.len() as int) == c0,
            rel.deep_view().subrange(0, r0.len() as int) == r0,
        decreases cs@.len() - i,
    {
        proof {
            assert(ds.subrange(0, i + 1).drop_last() =~= ds.subrange(0, i as int));
            assert(ds.subrange(0, i + 1).last() == ds[i as int]);
            assert(ds[i as int] == cs@[i as int]@);
        }
        let ghost c_pre = cits.deep_view();
        let ghost r_pre = rel.deep_view();
        let step = link_node(&cs[i], ids, titles, source, root_dir, trailing_slash, cits, rel);
        match step {
            Ok(s) => {
                out.append(s.as_str());
                proof {
                    let cv = cits.deep_view();
                    let rv = rel.deep_view();
                    let sres = spec_link_node(ds[i as int], ids.deep_view(), pairs_view(titles@),
                    source@, root_dir@, trailing_slash);
                    match sres {
                        Result::Ok((s_i, cs_i, rs_i)) => {
                            assert(cv == c_pre + cs_i);
                            assert(rv == r_pre + rs_i);
                            assert(cv.skip(c_pre.len() as int) =~= cs_i);
                            assert(rv.skip(r_pre.len() as int) =~= rs_i);
                            assert(cv.subrange(0, c0.len() as int) =~= c0);
                            assert(rv.subrange(0, r0.len() as int) =~= r0);
                            assert(cv.skip(c0.len() as int) =~= c_pre.skip(c0.len() as int)
                                + cs_i);
                            assert(rv.skip(r0.len() as int) =~= r_pre.skip(r0.len() as int)
                                + rs_i);
                        },
                        Result::Err(_) => {
                            assert(false);
                        },
                    }
                }
            },
            Err(e) => {
                proof {
                    lemma_link_children_err(ds, i + 1, ids.deep_view(), pairs_view(titles@),
                    source@, root_dir@, trailing_slash);
                }
                return Err(e);
            },
        }
        i = i + 1;
    }
    proof {
        assert(ds.subrange(0, cs@.len() as int) =~= ds);
        assert(cits.deep_view() =~= c0 + cits.deep_view().skip(c0.len() as int));
        assert(rel.deep_view() =~= r0 + rel.deep_view().skip(r0.len() as int));
    }
    Ok(out)
}

/// Render one element in link mode.
#[verifier::rlimit(100)]
pub fn link_element(
    tag: &String,
    attrs: &Vec<(String, String)>,
    children: &Vec<HtmlNode>,
    ids: &Vec<String>,
    titles: &Vec<(String, String)>,
    source: &str,
    root_dir: &str,
    trailing_slash: bool,
    cits: &mut Vec<String>,
    rel: &mut Vec<String>,
) -> (r: Result<String, BuildError>)
    ensures
        link_post(
            spec_link_element(tag@, attrs_view(attrs@), dom_children(children), ids.deep_view(),
            pairs_view(titles@), source@, root_dir@, trailing_slash),
            r,
            old(cits).deep_view(),
            final(cits).deep_view(),
            old(rel).deep_view(),
            final(rel).deep_view(),
        ),
    decreases children, 3int,
{
    if eq_ignore_case(tag.as_str(), "transclusion") {
        return Err(
            BuildError::InternalInvariant {
                detail: String::from_str("unexpected transclusion element in link pass"),
            },
        );
    }
    let is_link = eq_ignore_case(tag.as_str(), "internal-link");
    let is_citation = eq_ignore_case(tag.as_str(), "citation");
    if is_link || is_citation {
        let t0 = match get_attr(attrs, "target") {
            None => {
                let tag_name = if is_citation {
                    String::from_str("citation")
                } else {
                    String::from_str("internal-link")
                };
                return Err(
                    BuildError::MissingRequiredAttribute { tag: tag_name, path: source.to_owned() },
                );
            },
            Some(t0) => t0,
        };
        let t = normalize_target(t0.as_str());
        if !contains_id(ids, t.as_str()) {
            return Err(
                BuildError::UnknownReferenceTarget { source: source.to_owned(), target: t },
            );
        }
        let ghost c_pre = cits.deep_view();
        let ghost r_pre = rel.deep_view();
        let content = match link_children(
            children,
            ids,
            titles,
            source,
            root_dir,
            trailing_slash,
            cits,
            rel,
        ) {
            Err(e) => {
                return Err(e);
            },
            Ok(content) => content,
        };
        let text: String = if content.as_str().is_empty() {
            let title = match assoc_get(titles, t.as_str()) {
                Some(x) => x.as_str(),
                None => t.as_str(),
            };
            escape_text(title)
        } else {
            content
        };
        let href = href_for(t.as_str(), root_dir, trailing_slash);
        let ehref = crate::text::escape_attr(href.as_str());
        let mut out = if is_citation {
            String::from_str("<a class=\"citation\" href=\"")
        } else {
            String::from_str("<a href=\"")
        };
        out.append(ehref.as_str());
        out.append("\">");
        out.append(text.as_str());
        out.append("</a>");
        let ghost c_mid = cits.deep_view();
        let ghost r_mid = rel.deep_view();
        let ghost tv = t@;
        if is_citation {
            let tc = t;
            cits.push(tc);
        } else {
            let tc = t;
            rel.push(tc);
        }
        proof {
            let sres = spec_link_children(dom_children(children), ids.deep_view(), pairs_view(
                titles@,
            ), source@, root_dir@, trailing_slash);
            match sres {
                Result::Ok((content_s, cs1, rs1)) => {
                    assert(c_mid == c_pre + cs1);
                    assert(r_mid == r_pre + rs1);
                    if is_citation {
                        assert(cits.deep_view() =~= c_mid.push(tv));
                        assert(c_mid.push(tv) =~= c_pre + cs1.push(tv));
                    } else {
                        assert(rel.deep_view() =~= r_mid.push(tv));
                        assert(r_mid.push(tv) =~= r_pre + rs1.push(tv));
                    }
                },
                Result::Err(_) => {
                    assert(false);
                },
            }
        }
        Ok(out)
    } else {
        let otag = open_tag(tag.as_str(), attrs, false, false, false);
        if is_void_element(tag.as_str()) {
            proof {
                assert(old(cits).deep_view() + Seq::<Seq<char>>::empty() =~= old(
                    cits,
                ).deep_view());
                assert(old(rel).deep_view() + Seq::<Seq<char>>::empty() =~= old(rel).deep_view());
            }
            return Ok(otag);
        }
        let raw = eq_ignore_case(tag.as_str(), "script") || eq_ignore_case(tag.as_str(), "style");
        if raw {
            match raw_children(children, 0, false, false, false) {
                Err(e) => Err(e),
                Ok((inner, _h, _c)) => {
                    let mut out = otag;
                    out.append(inner.as_str());
                    out.append("</");
                    out.append(tag.as_str());
                    out.append(">");
                    proof {
                        assert(old(cits).deep_view() + Seq::<Seq<char>>::empty() =~= old(
                            cits,
                        ).deep_view());
                        assert(old(rel).deep_view() + Seq::<Seq<char>>::empty() =~= old(
                            rel,
                        ).deep_view());
                    }
                    Ok(out)
                },
            }
        } else {
            match link_children(children, ids, titles, source, root_dir, trailing_slash, cits, rel)
            {
                Err(e) => Err(e),
                Ok(inner) => {
                    let mut out = otag;
                    out.append(inner.as_str());
                    out.append("</");
                    out.append(tag.as_str());
                    out.append(">");
                    Ok(out)
                },
            }
        }
    }
}


/// Template-pass rendering of one node: `template` elements can be hidden,
/// `slot` elements are filled, and the rendered head fragment is appended
/// inside the `head` element.
pub open spec fn spec_tmpl_node(
    n: DomNode,
    head_html: Seq<char>,
    content_html: Seq<char>,
    backmatter_html: Seq<char>,
    toc_html: Seq<char>,
    hidden: Seq<Seq<char>>,
) -> Result<Seq<char>, ErrorV>
    decreases n, 0int,
{
    match n {
        DomNode::Document { children } => spec_tmpl_children(
            children,
            head_html,
            content_html,
            backmatter_html,
            toc_html,
            hidden,
        ),
        DomNode::Doctype { name, public_id, system_id } => Result::Ok(
            doctype_str(name, public_id, system_id),
        ),
        DomNode::Comment { text } => Result::Ok(comment_str(text)),
        DomNode::Text { text } => Result::Ok(escape_text_spec(text)),
        DomNode::Instruction { target_name, data } => Result::Ok(
            instruction_str(target_name, data),
        ),
        DomNode::Element { tag, attrs, children } => spec_tmpl_element(
            tag,
            attrs,
            children,
            head_html,
            content_html,
            backmatter_html,
            toc_html,
            hidden,
        ),
    }
}

/// Template-pass rendering of a child list.
pub open spec fn spec_tmpl_children(
    cs: Seq<DomNode>,
    head_html: Seq<char>,
    content_html: Seq<char>,
    backmatter_html: Seq<char>,
    toc_html: Seq<char>,
    hidden: Seq<Seq<char>>,
) -> Result<Seq<char>, ErrorV>
    decreases cs, 2int,
{
    if cs.len() == 0 {
        Result::Ok(Seq::empty())
    } else {
        match spec_tmpl_children(
            cs.drop_last(),
            head_html,
            content_html,
            backmatter_html,
            toc_html,
            hidden,
        ) {
            Result::Err(e) => Result::Err(e),
            Result::Ok(p) => match spec_tmpl_node(
                cs.last(),
                head_html,
                content_html,
                backmatter_html,
                toc_html,
                hidden,
            ) {
                Result::Err(e) => Result::Err(e),
                Result::Ok(s) => Result::Ok(p + s),
            },
        }
    }
}

/// An ordinary element under the template pass.
pub open spec fn spec_tmpl_plain(
    tag: Seq<char>,
    attrs: Seq<(Seq<char>, Seq<char>)>,
    children: Seq<DomNode>,
    head_html: Seq<char>,
    content_html: Seq<char>,
    backmatter_html: Seq<char>,
    toc_html: Seq<char>,
    hidden: Seq<Seq<char>>,
) -> Result<Seq<char>, ErrorV>
    decreases children, 3int,
{
    let otag = open_tag_spec(tag, attrs, false, false, false);
    if is_void_spec(tag) {
        Result::Ok(otag)
    } else if seq_eq_ci(tag, "script"@) || seq_eq_ci(tag, "style"@) {
        match spec_raw_children(children, 0, false, false, false) {
            Result::Err(e) => Result::Err(e),
            Result::Ok((inner, h, c)) => Result::Ok(otag + inner + "</"@ + tag + ">"@),
        }
    } else {
        match spec_tmpl_children(
            children,
            head_html,
            content_html,
            backmatter_html,
            toc_html,
            hidden,
        ) {
            Result::Err(e) => Result::Err(e),
            Result::Ok(inner) => Result::Ok(otag + inner + "</"@ + tag + ">"@),
        }
    }
}

/// Template-pass rendering of one element.
pub open spec fn spec_tmpl_element(
    tag: Seq<char>,
    attrs: Seq<(Seq<char>, Seq<char>)>,
    children: Seq<DomNode>,
    head_html: Seq<char>,
    content_html: Seq<char>,
    backmatter_html: Seq<char>,
    toc_html: Seq<char>,
    hidden: Seq<Seq<char>>,
) -> Result<Seq<char>, ErrorV>
    decreases children, 4int,
{
    if seq_eq_ci(tag, "template"@) && attr_lookup(attrs, "id"@) is Some {
        let id = attr_lookup(attrs, "id"@)->Some_0;
        if hidden.contains(id) {
            Result::Ok(Seq::empty())
        } else {
            spec_tmpl_children(children, head_html, content_html, backmatter_html, toc_html, hidden)
        }
    } else if seq_eq_ci(tag, "slot"@) && attr_lookup(attrs, "name"@) is Some {
        let name = attr_lookup(attrs, "name"@)->Some_0;
        if name == "content"@ {
            Result::Ok(content_html)
        } else if name == "backmatters"@ {
            Result::Ok(backmatter_html)
        } else if name == "toc"@ {
            Result::Ok(toc_html)
        } else {
            spec_tmpl_plain(
                tag,
                attrs,
                children,
                head_html,
                content_html,
                backmatter_html,
                toc_html,
                hidden,
            )
        }
    } else if seq_eq_ci(tag, "head"@) {
        let otag = open_tag_spec(tag, attrs, false, false, false);
        match spec_tmpl_children(
            children,
            head_html,
            content_html,
            backmatter_html,
            toc_html,
            hidden,
        ) {
            Result::Err(e) => Result::Err(e),
            Result::Ok(inner) => Result::Ok(otag + inner + head_html + "</"@ + tag + ">"@),
        }
    } else {
        spec_tmpl_plain(
            tag,
            attrs,
            children,
            head_html,
            content_html,
            backmatter_html,
            toc_html,
            hidden,
        )
    }
}

/// An error of a template-pass child-list prefix is the error of the whole
/// list.
proof fn lemma_tmpl_children_err(
    cs: Seq<DomNode>,
    j: int,
    head_html: Seq<char>,
    content_html: Seq<char>,
    backmatter_html: Seq<char>,
    toc_html: Seq<char>,
    hidden: Seq<Seq<char>>,
)
    requires
        0 <= j <= cs.len(),
        spec_tmpl_children(cs.subrange(0, j), head_html, content_html, backmatter_html, toc_html,
        hidden) matches Result::Err(_),
    ensures
        spec_tmpl_children(cs, head_html, content_html, backmatter_html, toc_html, hidden)
            == spec_tmpl_children(cs.subrange(0, j), head_html, content_html, backmatter_html,
        toc_html, hidden),
    decreases cs.len() - j,
{
    if j == cs.len() {
        assert(cs.subrange(0, j) =~= cs);
    } else {
        assert(cs.subrange(0, j + 1).drop_last() =~= cs.subrange(0, j));
        lemma_tmpl_children_err(cs, j + 1, head_html, content_html, backmatter_html, toc_html,
        hidden);
    }
}

/// Render one node in template mode.
pub fn tmpl_node(
    n: &HtmlNode,
    head_html: &str,
    content_html: &str,
    backmatter_html: &str,
    toc_html: &str,
    hidden: &Vec<String>,
) -> (r: Result<String, BuildError>)
    ensures
        res_view(r) == spec_tmpl_node(n@, head_html@, content_html@, backmatter_html@, toc_html@,
        hidden.deep_view()),
    decreases n, 0int,
{
    match n {
        HtmlNode::Document { children } => tmpl_children(
            children,
            head_html,
            content_html,
            backmatter_html,
            toc_html,
            hidden,
        ),
        HtmlNode::Doctype { name, public_id, system_id } => {
            let mut out = String::from_str("<!DOCTYPE ");
            out.append(name.as_str());
            if public_id.as_str().is_empty() && system_id.as_str().is_empty() {
                out.append(">");
            } else {
                out.append(" PUBLIC \"");
                out.append(public_id.as_str());
                out.append("\" \"");
                out.append(system_id.as_str());
                out.append("\">");
            }
            Ok(out)
        },
        HtmlNode::Comment { text } => {
            let mut out = String::from_str("<!--");
            out.append(text.as_str());
            out.append("-->");
            Ok(out)
        },
        HtmlNode::Text { text } => Ok(escape_text(text.as_str())),
        HtmlNode::Instruction { target_name, data } => {
            let mut out = String::from_str("<?");
            out.append(target_name.as_str());
            out.append(" ");
            out.append(data.as_str());
            out.append("?>");
            Ok(out)
        },
        HtmlNode::Element { tag, attrs, children } => tmpl_element(
            tag,
            attrs,
            children,
            head_html,
            content_html,
            backmatter_html,
            toc_html,
            hidden,
        ),
    }
}

/// Render a child list in template mode.
pub fn tmpl_children(
    cs: &Vec<HtmlNode>,
    head_html: &str,
    content_html: &str,
    backmatter_html: &str,
    toc_html: &str,
    hidden: &Vec<String>,
) -> (r: Result<String, BuildError>)
    ensures
        res_view(r) == spec_tmpl_children(dom_children(cs), head_html@, content_html@,
        backmatter_html@, toc_html@, hidden.deep_view()),
    decreases cs, 2int,
{
    let ghost ds = dom_seq(cs@);
    proof {
        lemma_dom_seq(cs@);
        assert(ds.subrange(0, 0) =~= Seq::empty());
    }
    let mut out = String::new();
    let mut i: usize = 0;
    while i < cs.len()
        invariant
            0 <= i <= cs@.len(),
            ds == dom_seq(cs@),
            ds.len() == cs@.len(),
            forall|k: int| 0 <= k < cs@.len() ==> ds[k] == #[trigger] cs@[k]@,
            spec_tmpl_children(ds.subrange(0, i as int), head_html@, content_html@,
            backmatter_html@, toc_html@, hidden.deep_view()) == Result::<Seq<char>, ErrorV>::Ok(
                out@,
            ),
        decreases cs@.len() - i,
    {
        proof {
            assert(ds.subrange(0, i + 1).drop_last() =~= ds.subrange(0, i as int));
            assert(ds.subrange(0, i + 1).last() == ds[i as int]);
            assert(ds[i as int] == cs@[i as int]@);
        }
        let step = tmpl_node(&cs[i], head_html, content_html, backmatter_html, toc_html, hidden);
        match step {
            Ok(s) => {
                out.append(s.as_str());
            },
            Err(e) => {
                proof {
                    lemma_tmpl_children_err(ds, i + 1, head_html@, content_html@,
                    backmatter_html@, toc_html@, hidden.deep_view());
                }
                return Err(e);
            },
        }
        i = i + 1;
    }
    proof {
        assert(ds.subrange(0, cs@.len() as int) =~= ds);
    }
    Ok(out)
}

/// Render one ordinary element in template mode.
pub fn tmpl_plain(
    tag: &String,
    attrs: &Vec<(String, String)>,
    children: &Vec<HtmlNode>,
    head_html: &str,
    content_html: &str,
    backmatter_html: &str,
    toc_html: &str,
    hidden: &Vec<String>,
) -> (r: Result<String, BuildError>)
    ensures
        res_view(r) == spec_tmpl_plain(tag@, attrs_view(attrs@), dom_children(children),
        head_html@, content_html@, backmatter_html@, toc_html@, hidden.deep_view()),
    decreases children, 3int,
{
    let otag = open_tag(tag.as_str(), attrs, false, false, false);
    if is_void_element(tag.as_str()) {
        return Ok(otag);
    }
    let raw = eq_ignore_case(tag.as_str(), "script") || eq_ignore_case(tag.as_str(), "style");
    if raw {
        match raw_children(children, 0, false, false, false) {
            Err(e) => Err(e),
            Ok((inner, _h, _c)) => {
                let mut out = otag;
                out.append(inner.as_str());
                out.append("</");
                out.append(tag.as_str());
                out.append(">");
                Ok(out)
            },
        }
    } else {
        match tmpl_children(children, head_html, content_html, backmatter_html, toc_html, hidden) {
            Err(e) => Err(e),
            Ok(inner) => {
                let mut out = otag;
                out.append(inner.as_str());
                out.append("</");
                out.append(tag.as_str());
                out.append(">");
                Ok(out)
            },
        }
    }
}

/// Render one element in template mode.
#[verifier::rlimit(60)]
pub fn tmpl_element(
    tag: &String,
    attrs: &Vec<(String, String)>,
    children: &Vec<HtmlNode>,
    head_html: &str,
    content_html: &str,
    backmatter_html: &str,
    toc_html: &str,
    hidden: &Vec<String>,
) -> (r: Result<String, BuildError>)
    ensures
        res_view(r) == spec_tmpl_element(tag@, attrs_view(attrs@), dom_children(children),
        head_html@, content_html@, backmatter_html@, toc_html@, hidden.deep_view()),
    decreases children, 4int,
{
    if eq_ignore_case(tag.as_str(), "template") {
        match get_attr(attrs, "id") {
            Some(id) => {
                if contains_id(hidden, id.as_str()) {
                    return Ok(String::new());
                }
                return tmpl_children(
                    children,
                    head_html,
                    content_html,
                    backmatter_html,
                    toc_html,
                    hidden,
                );
            },
            None => {},
        }
    }
    if eq_ignore_case(tag.as_str(), "slot") {
        match get_attr(attrs, "name") {
            Some(name) => {
                if crate::text::str_eq(name.as_str(), "content") {
                    return Ok(content_html.to_owned());
                }
                if crate::text::str_eq(name.as_str(), "backmatters") {
                    return Ok(backmatter_html.to_owned());
                }
                if crate::text::str_eq(name.as_str(), "toc") {
                    return Ok(toc_html.to_owned());
                }
                return tmpl_plain(
                    tag,
                    attrs,
                    children,
                    head_html,
                    content_html,
                    backmatter_html,
                    toc_html,
                    hidden,
                );
            },
            None => {},
        }
    }
    if eq_ignore_case(tag.as_str(), "head") {
        let otag = open_tag(tag.as_str(), attrs, false, false, false);
        match tmpl_children(children, head_html, content_html, backmatter_html, toc_html, hidden) {
            Err(e) => {
                return Err(e);
            },
            Ok(inner) => {
                let mut out = otag;
                out.append(inner.as_str());
                out.append(head_html);
                out.append("</");
                out.append(tag.as_str());
                out.append(">");
                return Ok(out);
            },
        }
    }
    tmpl_plain(
        tag,
        attrs,
        children,
        head_html,
        content_html,
        backmatter_html,
        toc_html,
        hidden,
    )
}

} // verus!
