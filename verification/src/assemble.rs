//! The build pipeline: content processing in resolver order, link rendering,
//! backmatter synthesis, and page assembly.

use vstd::prelude::*;

use crate::dom::{DomNode, HtmlNode};
use crate::error::{BuildError, ErrorV};
use crate::ids::{pairs_view, sorted_id_set, spec_sorted_set};
use crate::index::{table_lookup, table_view};
use crate::note::{el_children, find_el, find_element, Note, NoteV};
use crate::parse::{parse_fragment, parsed_fragment};
use crate::passes::{
    link_children, note_children, spec_link_children, spec_note_children, spec_tmpl_node,
    tmpl_node,
};
use crate::render::{frag_children, spec_frag_children};
use crate::text::str_eq;

verus! {

/// Mathematical model of a processed note.
pub struct ProcessedV {
    pub id: Seq<char>,
    pub head_html: Seq<char>,
    pub body_html: Seq<char>,
    pub metadata: Seq<(Seq<char>, Seq<char>)>,
    pub title: Option<Seq<char>>,
    pub hide_ids: Seq<Seq<char>>,
}

/// A note after the first (transclusion) pass: its rendered head, its body
/// with transclusions inlined but links untouched, its metadata, title, and
/// the template ids it hides.
#[derive(Debug)]
pub struct ProcessedNote {
    pub id: String,
    pub head_html: String,
    pub body_html: String,
    pub metadata: Vec<(String, String)>,
    pub title: Option<String>,
    pub hide_ids: Vec<String>,
}

impl View for ProcessedNote {
    type V = ProcessedV;

    open spec fn view(&self) -> ProcessedV {
        ProcessedV {
            id: self.id@,
            head_html: self.head_html@,
            body_html: self.body_html@,
            metadata: pairs_view(self.metadata@),
            title: crate::dom::opt_view(self.title),
            hide_ids: self.hide_ids.deep_view(),
        }
    }
}

impl DeepView for ProcessedNote {
    type V = ProcessedV;

    open spec fn deep_view(&self) -> ProcessedV {
        self.view()
    }
}

/// The first note with the given id.
pub open spec fn note_by_id(ns: Seq<NoteV>, id: Seq<char>) -> Option<NoteV>
    decreases ns.len(),
{
    if ns.len() == 0 {
        Option::None
    } else if ns[0].id == id {
        Option::Some(ns[0])
    } else {
        note_by_id(ns.drop_first(), id)
    }
}

/// Find a note by id.
pub fn get_note<'a>(notes: &'a Vec<Note>, id: &str) -> (r: Option<&'a Note>)
    ensures
        match r {
            Option::Some(n) => note_by_id(notes.deep_view(), id@) == Option::Some(n@),
            Option::None => note_by_id(notes.deep_view(), id@) == Option::None::<NoteV>,
        },
{
    let ghost nv = notes.deep_view();
    proof {
        assert(nv.skip(0) =~= nv);
    }
    let mut i: usize = 0;
    while i < notes.len()
        invariant
            0 <= i <= notes@.len(),
            nv == notes.deep_view(),
            nv.len() == notes@.len(),
            note_by_id(nv, id@) == note_by_id(nv.skip(i as int), id@),
        decreases notes@.len() - i,
    {
        proof {
            assert(nv.skip(i as int)[0] == nv[i as int]);
            assert(nv[i as int] == notes@[i as int]@);
        }
        if str_eq(notes[i].id.as_str(), id) {
            return Some(&notes[i]);
        }
        proof {
            assert(nv.skip(i as int).drop_first() =~= nv.skip(i + 1));
        }
        i = i + 1;
    }
    proof {
        assert(nv.skip(notes@.len() as int).len() == 0);
    }
    None
}

/// The first pass over one note: its body with transclusions inlined against
/// the already-processed bodies, its head rendered as a fragment, and its
/// extracted metadata, title and hidden template ids.
pub open spec fn spec_process_note(n: NoteV, bodies: Seq<(Seq<char>, Seq<char>)>) -> Result<
    ProcessedV,
    ErrorV,
> {
    match find_el(n.document, "body"@) {
        Option::None => Result::Err(
            ErrorV::MissingRequiredElement { element: "body"@, path: n.source_path },
        ),
        Option::Some(body_el) => match spec_note_children(
            el_children(body_el),
            bodies,
            n.source_path,
        ) {
            Result::Err(e) => Result::Err(e),
            Result::Ok(body_html) => match find_el(n.document, "head"@) {
                Option::None => Result::Err(
                    ErrorV::MissingRequiredElement { element: "head"@, path: n.source_path },
                ),
                Option::Some(head_el) => match spec_frag_children(
                    el_children(head_el),
                    0,
                    false,
                    false,
                    false,
                ) {
                    Result::Err(e) => Result::Err(e),
                    Result::Ok((head_html, h, c)) => Result::Ok(
                        ProcessedV {
                            id: n.id,
                            head_html,
                            body_html,
                            metadata: crate::note::spec_extract_metadata(n.document),
                            title: crate::note::spec_extract_note_title(n.document),
                            hide_ids: crate::note::spec_extract_hide_template_ids(n.document),
                        },
                    ),
                },
            },
        },
    }
}

/// The `(id, processed body)` pairs of a processed table.
pub open spec fn bodies_of(ps: Seq<ProcessedV>) -> Seq<(Seq<char>, Seq<char>)> {
    Seq::new(ps.len(), |i: int| (ps[i].id, ps[i].body_html))
}

/// The first pass over a whole order: every note is processed against the
/// bodies of the notes placed before it.
pub open spec fn spec_process_all(ns: Seq<NoteV>, order: Seq<Seq<char>>) -> Result<
    Seq<ProcessedV>,
    ErrorV,
>
    decreases order.len(),
{
    if order.len() == 0 {
        Result::Ok(Seq::empty())
    } else {
        match spec_process_all(ns, order.drop_last()) {
            Result::Err(e) => Result::Err(e),
            Result::Ok(ps) => match note_by_id(ns, order.last()) {
                Option::None => Result::Err(
                    ErrorV::InternalInvariant { detail: "ordered id is not a note"@ },
                ),
                Option::Some(n) => match spec_process_note(n, bodies_of(ps)) {
                    Result::Err(e) => Result::Err(e),
                    Result::Ok(p) => Result::Ok(ps.push(p)),
                },
            },
        }
    }
}

proof fn lemma_process_all_err(ns: Seq<NoteV>, order: Seq<Seq<char>>, j: int)
    requires
        0 <= j <= order.len(),
        spec_process_all(ns, order.subrange(0, j)) matches Result::Err(_),
    ensures
        spec_process_all(ns, order) == spec_process_all(ns, order.subrange(0, j)),
    decreases order.len() - j,
{
    if j == order.len() {
        assert(order.subrange(0, j) =~= order);
    } else {
        assert(order.subrange(0, j + 1).drop_last() =~= order.subrange(0, j));
        lemma_process_all_err(ns, order, j + 1);
    }
}

/// Process one note against the processed bodies so far.
pub fn process_note(note: &Note, bodies: &Vec<(String, String)>) -> (r: Result<
    ProcessedNote,
    BuildError,
>)
    ensures
        match r {
            Result::Ok(p) => spec_process_note(note@, pairs_view(bodies@)) == Result::<
                ProcessedV,
                ErrorV,
            >::Ok(p@),
            Result::Err(e) => spec_process_note(note@, pairs_view(bodies@)) == Result::<
                ProcessedV,
                ErrorV,
            >::Err(e@),
        },
{
    let body_el = match find_element(&note.document, "body") {
        Some(b) => b,
        None => {
            return Err(
                BuildError::MissingRequiredElement {
                    element: String::from_str("body"),
                    path: note.source_path.clone(),
                },
            );
        },
    };
    let empty_children: Vec<HtmlNode> = Vec::new();
    proof {
        assert(crate::dom::dom_children(&empty_children) =~= Seq::<DomNode>::empty());
    }
    let body_html = match body_el {
        HtmlNode::Element { children, .. } => note_children(
            children,
            bodies,
            note.source_path.as_str(),
        ),
        HtmlNode::Document { children } => note_children(
            children,
            bodies,
            note.source_path.as_str(),
        ),
        _ => note_children(&empty_children, bodies, note.source_path.as_str()),
    };
    let body_html = match body_html {
        Ok(s) => s,
        Err(e) => {
            return Err(e);
        },
    };
    let head_el = match find_element(&note.document, "head") {
        Some(h) => h,
        None => {
            return Err(
                BuildError::MissingRequiredElement {
                    element: String::from_str("head"),
                    path: note.source_path.clone(),
                },
            );
        },
    };
    let head_html = match head_el {
        HtmlNode::Element { children, .. } => frag_children(children, 0, false, false, false),
        HtmlNode::Document { children } => frag_children(children, 0, false, false, false),
        _ => frag_children(&empty_children, 0, false, false, false),
    };
    let head_html = match head_html {
        Ok((s, _h, _c)) => s,
        Err(e) => {
            return Err(e);
        },
    };
    let metadata = crate::note::extract_metadata(&note.document);
    let title = crate::note::extract_note_title(&note.document, &metadata);
    let hide_ids = crate::note::extract_hide_template_ids(&note.document);
    Ok(
        ProcessedNote {
            id: note.id.clone(),
            head_html,
            body_html,
            metadata,
            title,
            hide_ids,
        },
    )
}

/// Process every note, in resolver order.
#[verifier::rlimit(60)]
pub fn process_all(notes: &Vec<Note>, order: &Vec<String>) -> (r: Result<
    Vec<ProcessedNote>,
    BuildError,
>)
    ensures
        match r {
            Result::Ok(ps) => spec_process_all(notes.deep_view(), order.deep_view()) == Result::<
                Seq<ProcessedV>,
                ErrorV,
            >::Ok(ps.deep_view()),
            Result::Err(e) => spec_process_all(notes.deep_view(), order.deep_view()) == Result::<
                Seq<ProcessedV>,
                ErrorV,
            >::Err(e@),
        },
{
    let ghost nv = notes.deep_view();
    let ghost ov = order.deep_view();
    let mut ps: Vec<ProcessedNote> = Vec::new();
    let mut bodies: Vec<(String, String)> = Vec::new();
    proof {
        assert(ov.subrange(0, 0) =~= Seq::empty());
        assert(ps.deep_view() =~= Seq::<ProcessedV>::empty());
        assert(pairs_view(bodies@) =~= bodies_of(Seq::empty()));
    }
    let mut i: usize = 0;
    while i < order.len()
        invariant
            0 <= i <= order@.len(),
            nv == notes.deep_view(),
            ov == order.deep_view(),
            ov.len() == order@.len(),
            ps.deep_view().len() == i,
            spec_process_all(nv, ov.subrange(0, i as int)) == Result::<
                Seq<ProcessedV>,
                ErrorV,
            >::Ok(ps.deep_view()),
            pairs_view(bodies@) == bodies_of(ps.deep_view()),
        decreases order@.len() - i,
    {
        proof {
            assert(ov.subrange(0, i + 1).drop_last() =~= ov.subrange(0, i as int));
            assert(ov.subrange(0, i + 1).last() == ov[i as int]);
            assert(ov[i as int] == order@[i as int]@);
        }
        let note = match get_note(notes, order[i].as_str()) {
            Some(n) => n,
            None => {
                proof {
                    lemma_process_all_err(nv, ov, i + 1);
                }
                return Err(
                    BuildError::InternalInvariant {
                        detail: String::from_str("ordered id is not a note"),
                    },
                );
            },
        };
        let p = match process_note(note, &bodies) {
            Ok(p) => p,
            Err(e) => {
                proof {
                    lemma_process_all_err(nv, ov, i + 1);
                }
                return Err(e);
            },
        };
        let idc = p.id.clone();
        let bodyc = p.body_html.clone();
        let ghost idv = idc@;
        let ghost bodyv = bodyc@;
        let ghost ps_pre = ps.deep_view();
        let ghost bv_pre = pairs_view(bodies@);
        let ghost bodies_pre = bodies@;
        let ghost pv = p@;
        ps.push(p);
        bodies.push((idc, bodyc));
        proof {
            assert(ps.deep_view() =~= ps_pre.push(pv));
            assert(idv == pv.id);
            assert(bodyv == pv.body_html);
            assert(pairs_view(bodies@) =~= bodies_of(ps.deep_view())) by {
                assert(bodies@.len() == bodies_pre.len() + 1);
                assert(ps.deep_view().len() == ps_pre.len() + 1);
                assert(bv_pre.len() == bodies_pre.len());
                assert(ps_pre.len() == bodies_pre.len());
                assert(pairs_view(bodies@).len() == bodies@.len());
                assert(bodies_of(ps.deep_view()).len() == ps.deep_view().len());
                assert forall|k: int| 0 <= k < pairs_view(bodies@).len() implies pairs_view(
                    bodies@,
                )[k] == bodies_of(ps.deep_view())[k] by {
                    assert(pairs_view(bodies@)[k] == (bodies@[k].0@, bodies@[k].1@));
                    assert(bodies_of(ps.deep_view())[k] == (ps.deep_view()[k].id, ps.deep_view()[
                        k].body_html));
                    if k < bv_pre.len() {
                        assert(bodies@[k] == bodies_pre[k]);
                        assert(bv_pre[k] == (bodies_pre[k].0@, bodies_pre[k].1@));
                        assert(bv_pre[k] == bodies_of(ps_pre)[k]);
                        assert(bodies_of(ps_pre)[k] == (ps_pre[k].id, ps_pre[k].body_html));
                        assert(ps.deep_view()[k] == ps_pre[k]);
                    } else {
                        assert(bodies@[k].0@ == idv);
                        assert(bodies@[k].1@ == bodyv);
                        assert(ps.deep_view()[k] == pv);
                    }
                }
            }
        }
        i = i + 1;
    }
    proof {
        assert(ov.subrange(0, order@.len() as int) =~= ov);
    }
    Ok(ps)
}


/// Mathematical model of a fully rendered note.
pub struct RenderedV {
    pub id: Seq<char>,
    pub body_html: Seq<char>,
    pub citations: Seq<Seq<char>>,
    pub related: Seq<Seq<char>>,
}

/// A note after the second (link) pass: its final body and its sorted
/// citation and related sets.
#[derive(Debug)]
pub struct RenderedNote {
    pub id: String,
    pub body_html: String,
    pub citations: Vec<String>,
    pub related: Vec<String>,
}

impl View for RenderedNote {
    type V = RenderedV;

    open spec fn view(&self) -> RenderedV {
        RenderedV {
            id: self.id@,
            body_html: self.body_html@,
            citations: self.citations.deep_view(),
            related: self.related.deep_view(),
        }
    }
}

impl DeepView for RenderedNote {
    type V = RenderedV;

    open spec fn deep_view(&self) -> RenderedV {
        self.view()
    }
}

/// The `(id, title)` pairs of the notes that have a title.
pub open spec fn titles_of(ps: Seq<ProcessedV>) -> Seq<(Seq<char>, Seq<char>)>
    decreases ps.len(),
{
    if ps.len() == 0 {
        Seq::empty()
    } else {
        let p = titles_of(ps.drop_last());
        match ps.last().title {
            Option::Some(t) => p.push((ps.last().id, t)),
            Option::None => p,
        }
    }
}

/// Collect the title table of the processed notes.
pub fn build_titles(ps: &Vec<ProcessedNote>) -> (r: Vec<(String, String)>)
    ensures
        pairs_view(r@) == titles_of(ps.deep_view()),
{
    let ghost pv = ps.deep_view();
    let mut out: Vec<(String, String)> = Vec::new();
    proof {
        assert(pv.subrange(0, 0) =~= Seq::empty());
        assert(pairs_view(out@) =~= Seq::<(Seq<char>, Seq<char>)>::empty());
    }
    let mut i: usize = 0;
    while i < ps.len()
        invariant
            0 <= i <= ps@.len(),
            pv == ps.deep_view(),
            pv.len() == ps@.len(),
            pairs_view(out@) == titles_of(pv.subrange(0, i as int)),
        decreases ps@.len() - i,
    {
        proof {
            assert(pv.subrange(0, i + 1).drop_last() =~= pv.subrange(0, i as int));
            assert(pv.subrange(0, i + 1).last() == pv[i as int]);
            assert(pv[i as int] == ps@[i as int]@);
        }
        match &ps[i].title {
            Some(t) => {
                let ghost before = pairs_view(out@);
                let idc = ps[i].id.clone();
                let tc = t.clone();
                out.push((idc, tc));
                proof {
                    assert(pairs_view(out@) =~= before.push((pv[i as int].id, pv[i as int].title->Some_0)));
                }
            },
            None => {},
        }
        i = i + 1;
    }
    proof {
        assert(pv.subrange(0, ps@.len() as int) =~= pv);
    }
    out
}

/// The second pass over one processed note: its body is re-parsed as a
/// fragment and internal links and citations are substituted, collecting the
/// citation and related sets, which are sorted and deduplicated.
pub open spec fn spec_render_note(
    p: ProcessedV,
    ids: Seq<Seq<char>>,
    titles: Seq<(Seq<char>, Seq<char>)>,
    root_dir: Seq<char>,
    trailing_slash: bool,
) -> Result<RenderedV, ErrorV> {
    let cs = crate::render::fragment_body(parsed_fragment(p.body_html));
    match spec_link_children(cs, ids, titles, p.id, root_dir, trailing_slash) {
        Result::Err(e) => Result::Err(e),
        Result::Ok((html, cits, rels)) => Result::Ok(
            RenderedV {
                id: p.id,
                body_html: html,
                citations: spec_sorted_set(cits),
                related: spec_sorted_set(rels),
            },
        ),
    }
}

/// Render one processed note through the link pass.
pub fn render_note(
    p: &ProcessedNote,
    ids: &Vec<String>,
    titles: &Vec<(String, String)>,
    root_dir: &str,
    trailing_slash: bool,
) -> (r: Result<RenderedNote, BuildError>)
    ensures
        match r {
            Result::Ok(rn) => spec_render_note(p@, ids.deep_view(), pairs_view(titles@),
            root_dir@, trailing_slash) == Result::<RenderedV, ErrorV>::Ok(rn@),
            Result::Err(e) => spec_render_note(p@, ids.deep_view(), pairs_view(titles@),
            root_dir@, trailing_slash) == Result::<RenderedV, ErrorV>::Err(e@),
        },
{
    let tree = parse_fragment(p.body_html.as_str());
    let ghost cs = crate::render::fragment_body(tree@);
    let mut cits: Vec<String> = Vec::new();
    let mut rels: Vec<String> = Vec::new();
    proof {
        assert(cits.deep_view() =~= Seq::<Seq<char>>::empty());
        assert(rels.deep_view() =~= Seq::<Seq<char>>::empty());
    }
    let step: Result<String, BuildError> = match &tree {
        HtmlNode::Document { children } => {
            proof {
                crate::dom::lemma_dom_seq(children@);
            }
            let mut unwrap_html = false;
            if children.len() == 1 {
                match &children[0] {
                    HtmlNode::Element { tag, .. } => {
                        if crate::text::eq_ignore_case(tag.as_str(), "html") {
                            unwrap_html = true;
                        }
                    },
                    _ => {},
                }
            }
            if unwrap_html {
                match &children[0] {
                    HtmlNode::Element { children: inner, .. } => {
                        proof {
                            assert(crate::dom::dom_seq(children@)[0] == children@[0]@);
                            assert(cs == crate::dom::dom_children(inner));
                        }
                        link_children(inner, ids, titles, p.id.as_str(), root_dir,
                        trailing_slash, &mut cits, &mut rels)
                    },
                    _ => link_children(children, ids, titles, p.id.as_str(), root_dir,
                    trailing_slash, &mut cits, &mut rels),
                }
            } else {
                proof {
                    if crate::dom::dom_seq(children@).len() == 1 {
                        assert(crate::dom::dom_seq(children@)[0] == children@[0]@);
                    }
                    assert(cs == crate::dom::dom_children(children));
                }
                link_children(children, ids, titles, p.id.as_str(), root_dir, trailing_slash,
                &mut cits, &mut rels)
            }
        },
        _ => {
            let one = crate::passes::link_node(&tree, ids, titles, p.id.as_str(), root_dir,
            trailing_slash, &mut cits, &mut rels);
            proof {
                assert(cs =~= seq![tree@]);
                assert(cs.len() == 1);
                assert(cs.drop_last() =~= Seq::<DomNode>::empty());
                assert(cs.last() == tree@);
                let e0: Seq<Seq<char>> = Seq::empty();
                assert(spec_link_children(cs.drop_last(), ids.deep_view(), pairs_view(titles@),
                p.id@, root_dir@, trailing_slash) == Result::<
                    (Seq<char>, Seq<Seq<char>>, Seq<Seq<char>>),
                    ErrorV,
                >::Ok((Seq::<char>::empty(), e0, e0)));
                match crate::passes::spec_link_node(tree@, ids.deep_view(), pairs_view(titles@),
                p.id@, root_dir@, trailing_slash) {
                    Result::Ok((s2, c2, r2)) => {
                        assert(Seq::<char>::empty() + s2 =~= s2);
                        assert(e0 + c2 =~= c2);
                        assert(e0 + r2 =~= r2);
                        assert(spec_link_children(cs, ids.deep_view(), pairs_view(titles@), p.id@,
                        root_dir@, trailing_slash) == Result::<
                            (Seq<char>, Seq<Seq<char>>, Seq<Seq<char>>),
                            ErrorV,
                        >::Ok((s2, c2, r2)));
                    },
                    Result::Err(e2) => {
                        assert(spec_link_children(cs, ids.deep_view(), pairs_view(titles@), p.id@,
                        root_dir@, trailing_slash) == Result::<
                            (Seq<char>, Seq<Seq<char>>, Seq<Seq<char>>),
                            ErrorV,
                        >::Err(e2));
                    },
                }
            }
            one
        },
    };
    match step {
        Err(e) => Err(e),
        Ok(html) => {
            let scits = sorted_id_set(&cits);
            let srels = sorted_id_set(&rels);
            proof {
                match spec_link_children(cs, ids.deep_view(), pairs_view(titles@), p.id@,
                root_dir@, trailing_slash) {
                    Result::Ok((s2, c2, r2)) => {
                        assert(Seq::<Seq<char>>::empty() + c2 =~= c2);
                        assert(Seq::<Seq<char>>::empty() + r2 =~= r2);
                    },
                    Result::Err(_) => {
                        assert(false);
                    },
                }
            }
            Ok(RenderedNote { id: p.id.clone(), body_html: html, citations: scits, related: srels })
        },
    }
}

/// The second pass over the whole processed table.
pub open spec fn spec_render_all(
    ps: Seq<ProcessedV>,
    ids: Seq<Seq<char>>,
    titles: Seq<(Seq<char>, Seq<char>)>,
    root_dir: Seq<char>,
    trailing_slash: bool,
) -> Result<Seq<RenderedV>, ErrorV>
    decreases ps.len(),
{
    if ps.len() == 0 {
        Result::Ok(Seq::empty())
    } else {
        match spec_render_all(ps.drop_last(), ids, titles, root_dir, trailing_slash) {
            Result::Err(e) => Result::Err(e),
            Result::Ok(rs) => match spec_render_note(ps.last(), ids, titles, root_dir,
            trailing_slash) {
                Result::Err(e) => Result::Err(e),
                Result::Ok(rn) => Result::Ok(rs.push(rn)),
            },
        }
    }
}

proof fn lemma_render_all_err(
    ps: Seq<ProcessedV>,
    j: int,
    ids: Seq<Seq<char>>,
    titles: Seq<(Seq<char>, Seq<char>)>,
    root_dir: Seq<char>,
    trailing_slash: bool,
)
    requires
        0 <= j <= ps.len(),
        spec_render_all(ps.subrange(0, j), ids, titles, root_dir, trailing_slash)
            matches Result::Err(_),
    ensures
        spec_render_all(ps, ids, titles, root_dir, trailing_slash) == spec_render_all(
            ps.subrange(0, j),
            ids,
            titles,
            root_dir,
            trailing_slash,
        ),
    decreases ps.len() - j,
{
    if j == ps.len() {
        assert(ps.subrange(0, j) =~= ps);
    } else {
        assert(ps.subrange(0, j + 1).drop_last() =~= ps.subrange(0, j));
        lemma_render_all_err(ps, j + 1, ids, titles, root_dir, trailing_slash);
    }
}

/// Render every processed note through the link pass.
pub fn render_all(
    ps: &Vec<ProcessedNote>,
    ids: &Vec<String>,
    titles: &Vec<(String, String)>,
    root_dir: &str,
    trailing_slash: bool,
) -> (r: Result<Vec<RenderedNote>, BuildError>)
    ensures
        match r {
            Result::Ok(rs) => spec_render_all(ps.deep_view(), ids.deep_view(), pairs_view(
                titles@,
            ), root_dir@, trailing_slash) == Result::<Seq<RenderedV>, ErrorV>::Ok(rs.deep_view()),
            Result::Err(e) => spec_render_all(ps.deep_view(), ids.deep_view(), pairs_view(
                titles@,
            ), root_dir@, trailing_slash) == Result::<Seq<RenderedV>, ErrorV>::Err(e@),
        },
{
    let ghost pv = ps.deep_view();
    let mut out: Vec<RenderedNote> = Vec::new();
    proof {
        assert(pv.subrange(0, 0) =~= Seq::empty());
        assert(out.deep_view() =~= Seq::<RenderedV>::empty());
    }
    let mut i: usize = 0;
    while i < ps.len()
        invariant
            0 <= i <= ps@.len(),
            pv == ps.deep_view(),
            pv.len() == ps@.len(),
            spec_render_all(pv.subrange(0, i as int), ids.deep_view(), pairs_view(titles@),
            root_dir@, trailing_slash) == Result::<Seq<RenderedV>, ErrorV>::Ok(out.deep_view()),
        decreases ps@.len() - i,
    {
        proof {
            assert(pv.subrange(0, i + 1).drop_last() =~= pv.subrange(0, i as int));
            assert(pv.subrange(0, i + 1).last() == pv[i as int]);
            assert(pv[i as int] == ps@[i as int]@);
        }
        match render_note(&ps[i], ids, titles, root_dir, trailing_slash) {
            Err(e) => {
                proof {
                    lemma_render_all_err(pv, i + 1, ids.deep_view(), pairs_view(titles@),
                    root_dir@, trailing_slash);
                }
                return Err(e);
            },
            Ok(rn) => {
                let ghost before = out.deep_view();
                let ghost rv = rn@;
                out.push(rn);
                proof {
                    assert(out.deep_view() =~= before.push(rv));
                }
            },
        }
        i = i + 1;
    }
    proof {
        assert(pv.subrange(0, ps@.len() as int) =~= pv);
    }
    Ok(out)
}

/// The rendered note with the given id, if any.
pub open spec fn rendered_by_id(rs: Seq<RenderedV>, id: Seq<char>) -> Option<RenderedV>
    decreases rs.len(),
{
    if rs.len() == 0 {
        Option::None
    } else if rs[0].id == id {
        Option::Some(rs[0])
    } else {
        rendered_by_id(rs.drop_first(), id)
    }
}

/// Find a rendered note by id.
pub fn get_rendered<'a>(rs: &'a Vec<RenderedNote>, id: &str) -> (r: Option<&'a RenderedNote>)
    ensures
        match r {
            Option::Some(n) => rendered_by_id(rs.deep_view(), id@) == Option::Some(n@),
            Option::None => rendered_by_id(rs.deep_view(), id@) == Option::None::<RenderedV>,
        },
{
    let ghost rv = rs.deep_view();
    proof {
        assert(rv.skip(0) =~= rv);
    }
    let mut i: usize = 0;
    while i < rs.len()
        invariant
            0 <= i <= rs@.len(),
            rv == rs.deep_view(),
            rv.len() == rs@.len(),
            rendered_by_id(rv, id@) == rendered_by_id(rv.skip(i as int), id@),
        decreases rs@.len() - i,
    {
        proof {
            assert(rv.skip(i as int)[0] == rv[i as int]);
            assert(rv[i as int] == rs@[i as int]@);
        }
        if str_eq(rs[i].id.as_str(), id) {
            return Some(&rs[i]);
        }
        proof {
            assert(rv.skip(i as int).drop_first() =~= rv.skip(i + 1));
        }
        i = i + 1;
    }
    proof {
        assert(rv.skip(rs@.len() as int).len() == 0);
    }
    None
}

/// The processed note with the given id, if any.
pub open spec fn processed_by_id(ps: Seq<ProcessedV>, id: Seq<char>) -> Option<ProcessedV>
    decreases ps.len(),
{
    if ps.len() == 0 {
        Option::None
    } else if ps[0].id == id {
        Option::Some(ps[0])
    } else {
        processed_by_id(ps.drop_first(), id)
    }
}

/// Find a processed note by id.
pub fn get_processed<'a>(ps: &'a Vec<ProcessedNote>, id: &str) -> (r: Option<&'a ProcessedNote>)
    ensures
        match r {
            Option::Some(n) => processed_by_id(ps.deep_view(), id@) == Option::Some(n@),
            Option::None => processed_by_id(ps.deep_view(), id@) == Option::None::<ProcessedV>,
        },
{
    let ghost pv = ps.deep_view();
    proof {
        assert(pv.skip(0) =~= pv);
    }
    let mut i: usize = 0;
    while i < ps.len()
        invariant
            0 <= i <= ps@.len(),
            pv == ps.deep_view(),
            pv.len() == ps@.len(),
            processed_by_id(pv, id@) == processed_by_id(pv.skip(i as int), id@),
        decreases ps@.len() - i,
    {
        proof {
            assert(pv.skip(i as int)[0] == pv[i as int]);
            assert(pv[i as int] == ps@[i as int]@);
        }
        if str_eq(ps[i].id.as_str(), id) {
            return Some(&ps[i]);
        }
        proof {
            assert(pv.skip(i as int).drop_first() =~= pv.skip(i + 1));
        }
        i = i + 1;
    }
    proof {
        assert(pv.skip(ps@.len() as int).len() == 0);
    }
    None
}

/// Whether `x` was already cited or related inside transcluded content: `x`
/// appears in the citation (or related) set of some note in the closure.
pub open spec fn seen_in_closure(
    x: Seq<char>,
    cl: Seq<Seq<char>>,
    rs: Seq<RenderedV>,
    use_citations: bool,
) -> bool
    decreases cl.len(),
{
    if cl.len() == 0 {
        false
    } else {
        let here = match rendered_by_id(rs, cl[0]) {
            Option::Some(w) => if use_citations {
                w.citations.contains(x)
            } else {
                w.related.contains(x)
            },
            Option::None => false,
        };
        here || seen_in_closure(x, cl.drop_first(), rs, use_citations)
    }
}

/// A backmatter id list, filtered by the transclusion closure: ids the
/// reader already saw inlined (members of the closure, and ids cited or
/// related by a note of the closure) are dropped.
pub open spec fn spec_filter_ids(
    xs: Seq<Seq<char>>,
    cl: Seq<Seq<char>>,
    rs: Seq<RenderedV>,
    use_citations: bool,
) -> Seq<Seq<char>>
    decreases xs.len(),
{
    if xs.len() == 0 {
        Seq::empty()
    } else {
        let p = spec_filter_ids(xs.drop_last(), cl, rs, use_citations);
        let x = xs.last();
        if !cl.contains(x) && !seen_in_closure(x, cl, rs, use_citations) {
            p.push(x)
        } else {
            p
        }
    }
}

/// Test whether an id was already seen inside transcluded content.
fn seen_in_closure_exec(
    x: &str,
    cl: &Vec<String>,
    rs: &Vec<RenderedNote>,
    use_citations: bool,
) -> (r: bool)
    ensures
        r == seen_in_closure(x@, cl.deep_view(), rs.deep_view(), use_citations),
{
    let ghost cv = cl.deep_view();
    let ghost rv = rs.deep_view();
    proof {
        assert(cv.skip(0) =~= cv);
    }
    let mut i: usize = 0;
    while i < cl.len()
        invariant
            0 <= i <= cl@.len(),
            cv == cl.deep_view(),
            rv == rs.deep_view(),
            cv.len() == cl@.len(),
            seen_in_closure(x@, cv, rv, use_citations) == seen_in_closure(x@, cv.skip(i as int),
            rv, use_citations),
        decreases cl@.len() - i,
    {
        proof {
            assert(cv.skip(i as int)[0] == cv[i as int]);
            assert(cv[i as int] == cl@[i as int]@);
        }
        match get_rendered(rs, cl[i].as_str()) {
            Some(w) => {
                let hit = if use_citations {
                    crate::ids::contains_id(&w.citations, x)
                } else {
                    crate::ids::contains_id(&w.related, x)
                };
                if hit {
                    return true;
                }
            },
            None => {},
        }
        proof {
            assert(cv.skip(i as int).drop_first() =~= cv.skip(i + 1));
        }
        i = i + 1;
    }
    proof {
        assert(cv.skip(cl@.len() as int).len() == 0);
    }
    false
}

/// Filter a backmatter id list by the transclusion closure.
pub fn filter_ids(
    xs: &Vec<String>,
    cl: &Vec<String>,
    rs: &Vec<RenderedNote>,
    use_citations: bool,
) -> (r: Vec<String>)
    ensures
        r.deep_view() == spec_filter_ids(xs.deep_view(), cl.deep_view(), rs.deep_view(),
        use_citations),
{
    let ghost xv = xs.deep_view();
    let mut out: Vec<String> = Vec::new();
    proof {
        assert(xv.subrange(0, 0) =~= Seq::empty());
        assert(out.deep_view() =~= Seq::<Seq<char>>::empty());
    }
    let mut i: usize = 0;
    while i < xs.len()
        invariant
            0 <= i <= xs@.len(),
            xv == xs.deep_view(),
            xv.len() == xs@.len(),
            out.deep_view() == spec_filter_ids(xv.subrange(0, i as int), cl.deep_view(),
            rs.deep_view(), use_citations),
        decreases xs@.len() - i,
    {
        proof {
            assert(xv.subrange(0, i + 1).drop_last() =~= xv.subrange(0, i as int));
            assert(xv.subrange(0, i + 1).last() == xv[i as int]);
            assert(xv[i as int] == xs@[i as int]@);
        }
        let x = &xs[i];
        if !crate::ids::contains_id(cl, x.as_str()) && !seen_in_closure_exec(
            x.as_str(),
            cl,
            rs,
            use_citations,
        ) {
            let ghost before = out.deep_view();
            let xc = x.clone();
            out.push(xc);
            proof {
                assert(out.deep_view() =~= before.push(xv[i as int]));
            }
        }
        i = i + 1;
    }
    proof {
        assert(xv.subrange(0, xs@.len() as int) =~= xv);
    }
    out
}


/// The `(id, rendered body)` pairs of a rendered table.
pub open spec fn rbodies_of(rs: Seq<RenderedV>) -> Seq<(Seq<char>, Seq<char>)> {
    Seq::new(rs.len(), |i: int| (rs[i].id, rs[i].body_html))
}

/// Collect the rendered bodies as a lookup table.
pub fn build_rbodies(rs: &Vec<RenderedNote>) -> (r: Vec<(String, String)>)
    ensures
        pairs_view(r@) == rbodies_of(rs.deep_view()),
{
    let ghost rv = rs.deep_view();
    let mut out: Vec<(String, String)> = Vec::new();
    let mut i: usize = 0;
    while i < rs.len()
        invariant
            0 <= i <= rs@.len(),
            rv == rs.deep_view(),
            rv.len() == rs@.len(),
            out@.len() == i,
            forall|k: int|
                0 <= k < i ==> #[trigger] pairs_view(out@)[k] == (rv[k].id, rv[k].body_html),
        decreases rs@.len() - i,
    {
        proof {
            assert(rv[i as int] == rs@[i as int]@);
        }
        let idc = rs[i].id.clone();
        let bc = rs[i].body_html.clone();
        let ghost idv = idc@;
        let ghost bv = bc@;
        let ghost out_pre = out@;
        out.push((idc, bc));
        proof {
            assert forall|k: int| 0 <= k < i + 1 implies #[trigger] pairs_view(out@)[k] == (
            rv[k].id, rv[k].body_html) by {
                assert(pairs_view(out@)[k] == (out@[k].0@, out@[k].1@));
                if k < i {
                    assert(out@[k] == out_pre[k]);
                    assert(pairs_view(out_pre)[k] == (out_pre[k].0@, out_pre[k].1@));
                    assert(pairs_view(out_pre)[k] == (rv[k].id, rv[k].body_html));
                } else {
                    assert(out@[k].0@ == idv);
                    assert(out@[k].1@ == bv);
                }
            }
        }
        i = i + 1;
    }
    proof {
        assert(pairs_view(out@) =~= rbodies_of(rv));
    }
    out
}

/// The attribute list of a virtual backmatter transclusion element.
pub open spec fn virt_attrs(id: Seq<char>) -> Seq<(Seq<char>, Seq<char>)> {
    seq![
        ("target"@, id),
        ("show-metadata"@, "true"@),
        ("expanded"@, "false"@),
        ("disable-numbering"@, "true"@),
        ("demote-headings"@, "1"@),
    ]
}

/// The virtual note body of a backmatter section: one transclusion element
/// per listed id, with the fixed option profile.
pub open spec fn virt_nodes(bids: Seq<Seq<char>>) -> Seq<DomNode> {
    Seq::new(
        bids.len(),
        |i: int|
            DomNode::Element { tag: "transclusion"@, attrs: virt_attrs(bids[i]), children: Seq::empty() },
    )
}

/// Build the virtual transclusion elements of a backmatter section.
fn build_virt_nodes(bids: &Vec<String>) -> (r: Vec<HtmlNode>)
    ensures
        crate::dom::dom_children(&r) == virt_nodes(bids.deep_view()),
{
    let ghost bv = bids.deep_view();
    let mut out: Vec<HtmlNode> = Vec::new();
    proof {
        crate::dom::lemma_dom_seq(out@);
    }
    let mut i: usize = 0;
    while i < bids.len()
        invariant
            0 <= i <= bids@.len(),
            bv == bids.deep_view(),
            bv.len() == bids@.len(),
            out@.len() == i,
            forall|k: int|
                0 <= k < i ==> #[trigger] out@[k]@ == (DomNode::Element {
                    tag: "transclusion"@,
                    attrs: virt_attrs(bv[k]),
                    children: Seq::empty(),
                }),
        decreases bids@.len() - i,
    {
        proof {
            assert(bv[i as int] == bids@[i as int]@);
        }
        let mut attrs: Vec<(String, String)> = Vec::new();
        attrs.push((String::from_str("target"), bids[i].clone()));
        attrs.push((String::from_str("show-metadata"), String::from_str("true")));
        attrs.push((String::from_str("expanded"), String::from_str("false")));
        attrs.push((String::from_str("disable-numbering"), String::from_str("true")));
        attrs.push((String::from_str("demote-headings"), String::from_str("1")));
        let el = HtmlNode::Element {
            tag: String::from_str("transclusion"),
            attrs,
            children: Vec::new(),
        };
        let ghost ev = el@;
        proof {
            match ev {
                DomNode::Element { tag, attrs: av, children } => {
                    assert(tag == "transclusion"@);
                    assert(av =~= virt_attrs(bv[i as int]));
                    assert(children =~= Seq::<DomNode>::empty());
                },
                _ => {
                    assert(false);
                },
            }
            assert(ev == (DomNode::Element {
                tag: "transclusion"@,
                attrs: virt_attrs(bv[i as int]),
                children: Seq::empty(),
            }));
        }
        let ghost out_pre = out@;
        out.push(el);
        proof {
            assert forall|k: int| 0 <= k < i + 1 implies #[trigger] out@[k]@ == (
            DomNode::Element { tag: "transclusion"@, attrs: virt_attrs(bv[k]), children: Seq::empty() }) by {
                if k < i {
                    assert(out@[k] == out_pre[k]);
                }
            }
        }
        i = i + 1;
    }
    proof {
        crate::dom::lemma_dom_seq(out@);
        assert(crate::dom::dom_seq(out@).len() == virt_nodes(bv).len());
        assert forall|k: int| 0 <= k < out@.len() implies crate::dom::dom_seq(out@)[k]
            == virt_nodes(bv)[k] by {
            assert(crate::dom::dom_seq(out@)[k] == out@[k]@);
        }
        assert(crate::dom::dom_seq(out@) =~= virt_nodes(bv));
    }
    out
}

/// One backmatter section: the sorted ids rendered as a virtual note of
/// transclusions against the rendered bodies, wrapped in the fixed section
/// markup; an empty id list yields no section at all.
pub open spec fn spec_backmatter_section(
    title: Seq<char>,
    cls: Seq<char>,
    bids: Seq<Seq<char>>,
    rbodies: Seq<(Seq<char>, Seq<char>)>,
    path: Seq<char>,
) -> Result<Seq<char>, ErrorV> {
    if bids.len() == 0 {
        Result::Ok(Seq::empty())
    } else {
        match spec_note_children(virt_nodes(bids), rbodies, path) {
            Result::Err(e) => Result::Err(e),
            Result::Ok(items) => Result::Ok(
                "<section class=\"backmatter "@ + cls + " hide-metadata\">"@ + "<header><h2>"@
                    + title + "</h2></header>"@ + "<div class=\"backmatter-items\">"@ + items
                    + "</div></section>"@,
            ),
        }
    }
}

/// Render one backmatter section.
pub fn render_backmatter_section(
    title: &str,
    cls: &str,
    bids: &Vec<String>,
    rbodies: &Vec<(String, String)>,
    path: &str,
) -> (r: Result<String, BuildError>)
    ensures
        crate::error::res_view(r) == spec_backmatter_section(title@, cls@, bids.deep_view(),
        pairs_view(rbodies@), path@),
{
    if bids.len() == 0 {
        proof {
            assert(bids.deep_view().len() == 0);
        }
        return Ok(String::new());
    }
    proof {
        assert(bids.deep_view().len() == bids@.len());
    }
    let virt = build_virt_nodes(bids);
    let items = match note_children(&virt, rbodies, path) {
        Err(e) => {
            return Err(e);
        },
        Ok(items) => items,
    };
    let mut out = String::from_str("<section class=\"backmatter ");
    out.append(cls);
    out.append(" hide-metadata\">");
    out.append("<header><h2>");
    out.append(title);
    out.append("</h2></header>");
    out.append("<div class=\"backmatter-items\">");
    out.append(items.as_str());
    out.append("</div></section>");
    Ok(out)
}

/// The whole backmatter of one note: Contexts, References, Backlinks and
/// Related, in that order, empty sections skipped.
pub open spec fn spec_backmatter(
    ctx: Seq<Seq<char>>,
    refs: Seq<Seq<char>>,
    bl: Seq<Seq<char>>,
    rel: Seq<Seq<char>>,
    rbodies: Seq<(Seq<char>, Seq<char>)>,
    path: Seq<char>,
) -> Result<Seq<char>, ErrorV> {
    match spec_backmatter_section("Contexts"@, "contexts"@, ctx, rbodies, path) {
        Result::Err(e) => Result::Err(e),
        Result::Ok(s1) => match spec_backmatter_section(
            "References"@,
            "references"@,
            refs,
            rbodies,
            path,
        ) {
            Result::Err(e) => Result::Err(e),
            Result::Ok(s2) => match spec_backmatter_section(
                "Backlinks"@,
                "backlinks"@,
                bl,
                rbodies,
                path,
            ) {
                Result::Err(e) => Result::Err(e),
                Result::Ok(s3) => match spec_backmatter_section(
                    "Related"@,
                    "related"@,
                    rel,
                    rbodies,
                    path,
                ) {
                    Result::Err(e) => Result::Err(e),
                    Result::Ok(s4) => Result::Ok(s1 + s2 + s3 + s4),
                },
            },
        },
    }
}

/// Render the whole backmatter of one note.
pub fn render_backmatter(
    ctx: &Vec<String>,
    refs: &Vec<String>,
    bl: &Vec<String>,
    rel: &Vec<String>,
    rbodies: &Vec<(String, String)>,
    path: &str,
) -> (r: Result<String, BuildError>)
    ensures
        crate::error::res_view(r) == spec_backmatter(ctx.deep_view(), refs.deep_view(),
        bl.deep_view(), rel.deep_view(), pairs_view(rbodies@), path@),
{
    let s1 = match render_backmatter_section("Contexts", "contexts", ctx, rbodies, path) {
        Err(e) => {
            return Err(e);
        },
        Ok(s) => s,
    };
    let s2 = match render_backmatter_section("References", "references", refs, rbodies, path) {
        Err(e) => {
            return Err(e);
        },
        Ok(s) => s,
    };
    let s3 = match render_backmatter_section("Backlinks", "backlinks", bl, rbodies, path) {
        Err(e) => {
            return Err(e);
        },
        Ok(s) => s,
    };
    let s4 = match render_backmatter_section("Related", "related", rel, rbodies, path) {
        Err(e) => {
            return Err(e);
        },
        Ok(s) => s,
    };
    let mut out = s1;
    out.append(s2.as_str());
    out.append(s3.as_str());
    out.append(s4.as_str());
    Ok(out)
}

/// The output path of a note page: `index.html` for the `index` note,
/// otherwise a directory index or a flat `.html` file depending on the
/// trailing-slash policy.
pub open spec fn output_rel_path(id: Seq<char>, trailing_slash: bool) -> Seq<char> {
    if id == "index"@ {
        "index.html"@
    } else if trailing_slash {
        id + "/index.html"@
    } else {
        id + ".html"@
    }
}

/// Compute the output path of a note page.
pub fn output_path_for(id: &str, trailing_slash: bool) -> (r: String)
    ensures
        r@ == output_rel_path(id@, trailing_slash),
{
    if str_eq(id, "index") {
        let r = String::from_str("index.html");
        proof {
            assert(r@ == "index.html"@);
        }
        r
    } else if trailing_slash {
        let mut out = id.to_owned();
        out.append("/index.html");
        out
    } else {
        let mut out = id.to_owned();
        out.append(".html");
        out
    }
}


/// The contexts of one note, computed from the table.
pub fn contexts_for(notes: &Vec<Note>, id: &str) -> (r: Vec<String>)
    ensures
        r.deep_view() == crate::index::contexts_of(notes.deep_view(), id@),
{
    let srcs = crate::index::collect_edge_sources(notes, id, true);
    sorted_id_set(&srcs)
}

/// The backlinks of one note, computed from the table.
pub fn backlinks_for(notes: &Vec<Note>, id: &str) -> (r: Vec<String>)
    ensures
        r.deep_view() == crate::index::backlinks_of(notes.deep_view(), id@),
{
    let srcs = crate::index::collect_edge_sources(notes, id, false);
    sorted_id_set(&srcs)
}

/// One assembled page: the template filled with the note's head, body,
/// backmatter and table of contents.
pub open spec fn spec_page(
    ns: Seq<NoteV>,
    ps: Seq<ProcessedV>,
    rs: Seq<RenderedV>,
    closures: Seq<(Seq<char>, Seq<Seq<char>>)>,
    tmpl: DomNode,
    id: Seq<char>,
    root_dir: Seq<char>,
    trailing_slash: bool,
) -> Result<Seq<char>, ErrorV> {
    match processed_by_id(ps, id) {
        Option::None => Result::Err(
            ErrorV::InternalInvariant { detail: "page id is not processed"@ },
        ),
        Option::Some(p) => match rendered_by_id(rs, id) {
            Option::None => Result::Err(
                ErrorV::InternalInvariant { detail: "page id is not rendered"@ },
            ),
            Option::Some(rn) => {
                let cl = table_lookup(closures, id);
                let ctx = crate::index::contexts_of(ns, id);
                let bl = crate::index::backlinks_of(ns, id);
                let refs = spec_filter_ids(rn.citations, cl, rs, true);
                let rel = spec_filter_ids(rn.related, cl, rs, false);
                match spec_backmatter(ctx, refs, bl, rel, rbodies_of(rs), id) {
                    Result::Err(e) => Result::Err(e),
                    Result::Ok(bm) => match crate::toc::spec_build_toc(rn.body_html) {
                        Result::Err(e) => Result::Err(e),
                        Result::Ok(forest) => spec_tmpl_node(
                            tmpl,
                            p.head_html,
                            rn.body_html,
                            bm,
                            crate::toc::spec_toc_html(forest),
                            p.hide_ids,
                        ),
                    },
                }
            },
        },
    }
}

/// Assemble one page.
pub fn build_page(
    notes: &Vec<Note>,
    ps: &Vec<ProcessedNote>,
    rs: &Vec<RenderedNote>,
    closures: &Vec<(String, Vec<String>)>,
    rbodies: &Vec<(String, String)>,
    tmpl: &HtmlNode,
    id: &str,
    root_dir: &str,
    trailing_slash: bool,
) -> (r: Result<String, BuildError>)
    requires
        pairs_view(rbodies@) == rbodies_of(rs.deep_view()),
    ensures
        crate::error::res_view(r) == spec_page(notes.deep_view(), ps.deep_view(), rs.deep_view(),
        table_view(closures@), tmpl@, id@, root_dir@, trailing_slash),
{
    let p = match get_processed(ps, id) {
        Some(p) => p,
        None => {
            return Err(
                BuildError::InternalInvariant {
                    detail: String::from_str("page id is not processed"),
                },
            );
        },
    };
    let rn = match get_rendered(rs, id) {
        Some(rn) => rn,
        None => {
            return Err(
                BuildError::InternalInvariant {
                    detail: String::from_str("page id is not rendered"),
                },
            );
        },
    };
    let empty_cl: Vec<String> = Vec::new();
    proof {
        assert(empty_cl.deep_view() =~= Seq::<Seq<char>>::empty());
    }
    let cl: &Vec<String> = match crate::index::table_get(closures, id) {
        Some(v) => v,
        None => &empty_cl,
    };
    let ctx = contexts_for(notes, id);
    let bl = backlinks_for(notes, id);
    let refs = filter_ids(&rn.citations, cl, rs, true);
    let rel = filter_ids(&rn.related, cl, rs, false);
    let bm = match render_backmatter(&ctx, &refs, &bl, &rel, rbodies, id) {
        Err(e) => {
            return Err(e);
        },
        Ok(bm) => bm,
    };
    let forest = match crate::toc::build_toc(rn.body_html.as_str()) {
        Err(e) => {
            return Err(e);
        },
        Ok(f) => f,
    };
    let toc = crate::toc::toc_html(&forest);
    tmpl_node(
        tmpl,
        p.head_html.as_str(),
        rn.body_html.as_str(),
        bm.as_str(),
        toc.as_str(),
        &p.hide_ids,
    )
}

/// The pages of the site, one per note id, in sorted id order.
pub open spec fn spec_pages(
    ns: Seq<NoteV>,
    ps: Seq<ProcessedV>,
    rs: Seq<RenderedV>,
    closures: Seq<(Seq<char>, Seq<Seq<char>>)>,
    tmpl: DomNode,
    idlist: Seq<Seq<char>>,
    root_dir: Seq<char>,
    trailing_slash: bool,
) -> Result<Seq<(Seq<char>, Seq<char>)>, ErrorV>
    decreases idlist.len(),
{
    if idlist.len() == 0 {
        Result::Ok(Seq::empty())
    } else {
        match spec_pages(ns, ps, rs, closures, tmpl, idlist.drop_last(), root_dir,
        trailing_slash) {
            Result::Err(e) => Result::Err(e),
            Result::Ok(acc) => match spec_page(ns, ps, rs, closures, tmpl, idlist.last(),
            root_dir, trailing_slash) {
                Result::Err(e) => Result::Err(e),
                Result::Ok(page) => Result::Ok(
                    acc.push((output_rel_path(idlist.last(), trailing_slash), page)),
                ),
            },
        }
    }
}

proof fn lemma_pages_err(
    ns: Seq<NoteV>,
    ps: Seq<ProcessedV>,
    rs: Seq<RenderedV>,
    closures: Seq<(Seq<char>, Seq<Seq<char>>)>,
    tmpl: DomNode,
    idlist: Seq<Seq<char>>,
    j: int,
    root_dir: Seq<char>,
    trailing_slash: bool,
)
    requires
        0 <= j <= idlist.len(),
        spec_pages(ns, ps, rs, closures, tmpl, idlist.subrange(0, j), root_dir, trailing_slash)
            matches Result::Err(_),
    ensures
        spec_pages(ns, ps, rs, closures, tmpl, idlist, root_dir, trailing_slash) == spec_pages(
            ns,
            ps,
            rs,
            closures,
            tmpl,
            idlist.subrange(0, j),
            root_dir,
            trailing_slash,
        ),
    decreases idlist.len() - j,
{
    if j == idlist.len() {
        assert(idlist.subrange(0, j) =~= idlist);
    } else {
        assert(idlist.subrange(0, j + 1).drop_last() =~= idlist.subrange(0, j));
        lemma_pages_err(ns, ps, rs, closures, tmpl, idlist, j + 1, root_dir, trailing_slash);
    }
}

/// The whole build: load, order, process, render, and assemble one page per
/// note, in sorted id order, each with its output path.
pub open spec fn spec_build_site(
    docs: Seq<(Seq<char>, Seq<char>)>,
    template: Seq<char>,
    root_dir: Seq<char>,
    trailing_slash: bool,
) -> Result<Seq<(Seq<char>, Seq<char>)>, ErrorV> {
    match crate::note::spec_load_notes(docs) {
        Result::Err(e) => Result::Err(e),
        Result::Ok(ns) => match crate::resolver::spec_topo(ns) {
            Result::Err(e) => Result::Err(e),
            Result::Ok(order) => match spec_process_all(ns, order) {
                Result::Err(e) => Result::Err(e),
                Result::Ok(ps) => match spec_render_all(
                    ps,
                    crate::note::note_ids_of(ns),
                    titles_of(ps),
                    root_dir,
                    trailing_slash,
                ) {
                    Result::Err(e) => Result::Err(e),
                    Result::Ok(rs) => spec_pages(
                        ns,
                        ps,
                        rs,
                        crate::index::spec_closures(ns, order),
                        crate::parse::parsed_document(template),
                        crate::ids::spec_sort(crate::note::note_ids_of(ns)),
                        root_dir,
                        trailing_slash,
                    ),
                },
            },
        },
    }
}

/// Build the site: from `(source path, document text)` pairs and the page
/// template text to one `(output path, page text)` pair per note.
///
/// The result is a pure function of the inputs: two runs on the same input
/// yield byte-identical pages.
pub fn build_site(
    docs: &Vec<(String, String)>,
    template: &str,
    root_dir: &str,
    trailing_slash: bool,
) -> (r: Result<Vec<(String, String)>, BuildError>)
    ensures
        match r {
            Result::Ok(pages) => spec_build_site(pairs_view(docs@), template@, root_dir@,
            trailing_slash) == Result::<Seq<(Seq<char>, Seq<char>)>, ErrorV>::Ok(pairs_view(
                pages@,
            )),
            Result::Err(e) => spec_build_site(pairs_view(docs@), template@, root_dir@,
            trailing_slash) == Result::<Seq<(Seq<char>, Seq<char>)>, ErrorV>::Err(e@),
        },
{
    let notes = match crate::note::load_notes(docs) {
        Err(e) => {
            return Err(e);
        },
        Ok(ns) => ns,
    };
    let order = match crate::resolver::topo_sort_transclusions(&notes) {
        Err(e) => {
            return Err(e);
        },
        Ok(o) => o,
    };
    let ps = match process_all(&notes, &order) {
        Err(e) => {
            return Err(e);
        },
        Ok(ps) => ps,
    };
    let ids = crate::note::note_ids(&notes);
    let titles = build_titles(&ps);
    let rs = match render_all(&ps, &ids, &titles, root_dir, trailing_slash) {
        Err(e) => {
            return Err(e);
        },
        Ok(rs) => rs,
    };
    let closures = crate::index::compute_closures(&notes, &order);
    let rbodies = build_rbodies(&rs);
    let tmpl = crate::parse::parse_document(template);
    let sorted = crate::ids::sort_ids(&ids);
    let ghost nv = notes.deep_view();
    let ghost sv = sorted.deep_view();
    let mut pages: Vec<(String, String)> = Vec::new();
    proof {
        assert(sv.subrange(0, 0) =~= Seq::empty());
        assert(pairs_view(pages@) =~= Seq::<(Seq<char>, Seq<char>)>::empty());
    }
    let mut i: usize = 0;
    while i < sorted.len()
        invariant
            0 <= i <= sorted@.len(),
            nv == notes.deep_view(),
            sv == sorted.deep_view(),
            sv.len() == sorted@.len(),
            sv == crate::ids::spec_sort(crate::note::note_ids_of(nv)),
            crate::note::spec_load_notes(pairs_view(docs@)) == Result::<
                Seq<NoteV>,
                ErrorV,
            >::Ok(nv),
            crate::resolver::spec_topo(nv) == Result::<Seq<Seq<char>>, ErrorV>::Ok(
                order.deep_view(),
            ),
            spec_process_all(nv, order.deep_view()) == Result::<Seq<ProcessedV>, ErrorV>::Ok(
                ps.deep_view(),
            ),
            spec_render_all(ps.deep_view(), crate::note::note_ids_of(nv), titles_of(
                ps.deep_view(),
            ), root_dir@, trailing_slash) == Result::<Seq<RenderedV>, ErrorV>::Ok(rs.deep_view()),
            pairs_view(rbodies@) == rbodies_of(rs.deep_view()),
            table_view(closures@) == crate::index::spec_closures(nv, order.deep_view()),
            tmpl@ == crate::parse::parsed_document(template@),
            spec_pages(nv, ps.deep_view(), rs.deep_view(), table_view(closures@), tmpl@,
            sv.subrange(0, i as int), root_dir@, trailing_slash) == Result::<
                Seq<(Seq<char>, Seq<char>)>,
                ErrorV,
            >::Ok(pairs_view(pages@)),
        decreases sorted@.len() - i,
    {
        proof {
            assert(sv.subrange(0, i + 1).drop_last() =~= sv.subrange(0, i as int));
            assert(sv.subrange(0, i + 1).last() == sv[i as int]);
            assert(sv[i as int] == sorted@[i as int]@);
        }
        let page = match build_page(
            &notes,
            &ps,
            &rs,
            &closures,
            &rbodies,
            &tmpl,
            sorted[i].as_str(),
            root_dir,
            trailing_slash,
        ) {
            Err(e) => {
                proof {
                    lemma_pages_err(nv, ps.deep_view(), rs.deep_view(), table_view(closures@),
                    tmpl@, sv, i + 1, root_dir@, trailing_slash);
                }
                return Err(e);
            },
            Ok(page) => page,
        };
        let path = output_path_for(sorted[i].as_str(), trailing_slash);
        let ghost before = pairs_view(pages@);
        let ghost pathv = path@;
        let ghost pagev = page@;
        pages.push((path, page));
        proof {
            assert(pairs_view(pages@) =~= before.push((pathv, pagev)));
        }
        i = i + 1;
    }
    proof {
        assert(sv.subrange(0, sorted@.len() as int) =~= sv);
    }
    Ok(pages)
}


/// What the backmatter filter keeps, exactly: an id stays when it was
/// collected, is not itself transcluded content, and was not cited or
/// related by any transcluded note.
pub proof fn lemma_filter_ids_characterized(
    xs: Seq<Seq<char>>,
    cl: Seq<Seq<char>>,
    rs: Seq<RenderedV>,
    use_citations: bool,
)
    ensures
        forall|x: Seq<char>|
            #[trigger] spec_filter_ids(xs, cl, rs, use_citations).contains(x) <==> (xs.contains(x)
                && !cl.contains(x) && !seen_in_closure(x, cl, rs, use_citations)),
    decreases xs.len(),
{
    if xs.len() > 0 {
        let t = xs.drop_last();
        lemma_filter_ids_characterized(t, cl, rs, use_citations);
        let p = spec_filter_ids(t, cl, rs, use_citations);
        let r = spec_filter_ids(xs, cl, rs, use_citations);
        assert forall|x: Seq<char>| #[trigger] r.contains(x) <==> (xs.contains(x)
            && !cl.contains(x) && !seen_in_closure(x, cl, rs, use_citations)) by {
            assert forall|y: Seq<char>| t.contains(y) implies xs.contains(y) by {
                let k = choose|k: int| 0 <= k < t.len() && t[k] == y;
                assert(xs[k] == y);
            }
            if r.contains(x) {
                if xs.last() == x && !cl.contains(x) && !seen_in_closure(x, cl, rs,
                use_citations) {
                    assert(xs.contains(x)) by {
                        assert(xs[xs.len() - 1] == x);
                    }
                } else {
                    let k = choose|k: int| 0 <= k < r.len() && r[k] == x;
                    if r == p.push(xs.last()) && k == r.len() - 1 {
                        assert(xs.contains(x)) by {
                            assert(xs[xs.len() - 1] == x);
                        }
                    } else {
                        assert(p.contains(x)) by {
                            assert(p[k] == x);
                        }
                    }
                }
            }
            if xs.contains(x) && !cl.contains(x) && !seen_in_closure(x, cl, rs, use_citations) {
                let k = choose|k: int| 0 <= k < xs.len() && xs[k] == x;
                if k < xs.len() - 1 {
                    assert(t[k] == x);
                    assert(t.contains(x));
                    assert(p.contains(x));
                    let m = choose|m: int| 0 <= m < p.len() && p[m] == x;
                    assert(r[m] == x);
                    assert(r.contains(x));
                } else {
                    assert(xs.last() == x);
                    assert(r == p.push(x));
                    assert(r[r.len() - 1] == x);
                    assert(r.contains(x));
                }
            }
        }
    }
}

} // verus!
