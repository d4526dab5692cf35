//! The table-of-contents builder: heading extraction and nesting.

use vstd::prelude::*;

use crate::dom::{attr_lookup, dom_children, dom_seq, get_attr, has_class, has_class_spec,
    lemma_dom_seq, DomNode, HtmlNode};
use crate::error::{BuildError, ErrorV};
use crate::parse::{parse_fragment, parsed_fragment};
use crate::render::{frag_children, heading_level, heading_level_of, spec_frag_children};
use crate::text::{escape_attr, escape_attr_spec};

verus! {

/// Mathematical model of a heading tree: the view of [`Heading`].
pub struct HeadingV {
    pub level: int,
    pub id: Seq<char>,
    pub content: Seq<char>,
    pub disable_numbering: bool,
    pub children: Seq<HeadingV>,
}

/// One heading of a page: its level (1 to 6), `id` attribute (possibly
/// empty), rendered inner HTML, numbering flag, and nested child headings.
#[derive(Debug)]
pub struct Heading {
    pub level: u32,
    pub id: String,
    pub content: String,
    pub disable_numbering: bool,
    pub children: Vec<Heading>,
}

/// The views of a sequence of headings.
pub open spec fn heading_seq(cs: Seq<Heading>) -> Seq<HeadingV>
    decreases cs,
{
    if cs.len() == 0 {
        Seq::empty()
    } else {
        heading_seq(cs.drop_last()).push(cs.last()@)
    }
}

impl View for Heading {
    type V = HeadingV;

    open spec fn view(&self) -> HeadingV
        decreases self,
    {
        HeadingV {
            level: self.level as int,
            id: self.id@,
            content: self.content@,
            disable_numbering: self.disable_numbering,
            children: heading_seq(self.children@),
        }
    }
}

impl DeepView for Heading {
    type V = HeadingV;

    open spec fn deep_view(&self) -> HeadingV {
        self.view()
    }
}

/// The heading views of a vector, element by element.
pub proof fn lemma_heading_seq(cs: Seq<Heading>)
    ensures
        heading_seq(cs).len() == cs.len(),
        forall|i: int| 0 <= i < cs.len() ==> heading_seq(cs)[i] == #[trigger] cs[i]@,
    decreases cs.len(),
{
    if cs.len() > 0 {
        lemma_heading_seq(cs.drop_last());
        assert(heading_seq(cs) == heading_seq(cs.drop_last()).push(cs.last()@));
        assert forall|i: int| 0 <= i < cs.len() implies heading_seq(cs)[i] == #[trigger] cs[i]@
            by {
            if i < cs.len() - 1 {
                assert(cs.drop_last()[i] == cs[i]);
                assert(heading_seq(cs.drop_last())[i] == cs.drop_last()[i]@);
                assert(heading_seq(cs)[i] == heading_seq(cs.drop_last())[i]);
            } else {
                assert(heading_seq(cs)[i] == cs.last()@);
            }
        }
    }
}

/// All heading elements (`h1` to `h6`) in the subtree, in document order.
pub open spec fn collect_heads(n: DomNode) -> Seq<DomNode>
    decreases n, 0int,
{
    match n {
        DomNode::Document { children } => collect_heads_list(children),
        DomNode::Element { tag, attrs, children } => if heading_level(tag) > 0 {
            seq![n] + collect_heads_list(children)
        } else {
            collect_heads_list(children)
        },
        _ => Seq::empty(),
    }
}

/// All heading elements in a node list.
pub open spec fn collect_heads_list(cs: Seq<DomNode>) -> Seq<DomNode>
    decreases cs, 1int,
{
    if cs.len() == 0 {
        Seq::empty()
    } else {
        collect_heads_list(cs.drop_last()) + collect_heads(cs.last())
    }
}

/// Collect the heading elements into `out`.
fn collect_headings<'a>(n: &'a HtmlNode, out: &mut Vec<&'a HtmlNode>)
    ensures
        final(out).deep_view() == old(out).deep_view() + collect_heads(n@),
    decreases n, 0int,
{
    let ghost base = out.deep_view();
    match n {
        HtmlNode::Document { children } => {
            collect_headings_list(children, out);
        },
        HtmlNode::Element { tag, children, .. } => {
            if heading_level_of(tag.as_str()) > 0 {
                out.push(n);
                proof {
                    assert(out.deep_view() =~= base.push(n@));
                    assert(base.push(n@) =~= base + seq![n@]);
                }
            }
            collect_headings_list(children, out);
            proof {
                if heading_level(tag@) > 0 {
                    assert(out.deep_view() =~= base + (seq![n@] + collect_heads_list(
                        dom_children(children),
                    )));
                } else {
                    assert(out.deep_view() =~= base + collect_heads_list(dom_children(children)));
                }
            }
        },
        _ => {
            proof {
                assert(base + Seq::<DomNode>::empty() =~= base);
            }
        },
    }
}

/// Collect the heading elements of a child vector into `out`.
fn collect_headings_list<'a>(cs: &'a Vec<HtmlNode>, out: &mut Vec<&'a HtmlNode>)
    ensures
        final(out).deep_view() == old(out).deep_view() + collect_heads_list(dom_children(cs)),
    decreases cs, 1int,
{
    let ghost ds = dom_seq(cs@);
    let ghost base = out.deep_view();
    proof {
        lemma_dom_seq(cs@);
        assert(ds.subrange(0, 0) =~= Seq::empty());
        assert(base + Seq::<DomNode>::empty() =~= base);
    }
    let mut i: usize = 0;
    while i < cs.len()
        invariant
            0 <= i <= cs@.len(),
            ds == dom_seq(cs@),
            ds.len() == cs@.len(),
            forall|k: int| 0 <= k < cs@.len() ==> ds[k] == #[trigger] cs@[k]@,
            out.deep_view() == base + collect_heads_list(ds.subrange(0, i as int)),
        decreases cs@.len() - i,
    {
        proof {
            assert(ds.subrange(0, i + 1).drop_last() =~= ds.subrange(0, i as int));
            assert(ds.subrange(0, i + 1).last() == ds[i as int]);
            assert(ds[i as int] == cs@[i as int]@);
        }
        collect_headings(&cs[i], out);
        proof {
            assert(out.deep_view() =~= base + (collect_heads_list(ds.subrange(0, i as int))
                + collect_heads(ds[i as int])));
        }
        i = i + 1;
    }
    proof {
        assert(ds.subrange(0, cs@.len() as int) =~= ds);
    }
}

/// The flat heading record of one heading element: level, id attribute,
/// numbering flag from the class attribute, and rendered inner HTML.
pub open spec fn spec_heading_of(n: DomNode) -> Result<HeadingV, ErrorV> {
    match n {
        DomNode::Element { tag, attrs, children } => {
            let idv = match attr_lookup(attrs, "id"@) {
                Option::Some(v) => v,
                Option::None => Seq::empty(),
            };
            let cls = match attr_lookup(attrs, "class"@) {
                Option::Some(v) => v,
                Option::None => Seq::empty(),
            };
            match spec_frag_children(children, 0, false, false, false) {
                Result::Err(e) => Result::Err(e),
                Result::Ok((content, h, c)) => Result::Ok(
                    HeadingV {
                        level: heading_level(tag),
                        id: idv,
                        content,
                        disable_numbering: has_class_spec(cls, "disable-numbering"@),
                        children: Seq::empty(),
                    },
                ),
            }
        },
        _ => Result::Err(ErrorV::InternalInvariant { detail: "heading is not an element"@ }),
    }
}

/// The flat heading records of a list of heading elements.
pub open spec fn spec_heading_list(els: Seq<DomNode>) -> Result<Seq<HeadingV>, ErrorV>
    decreases els.len(),
{
    if els.len() == 0 {
        Result::Ok(Seq::empty())
    } else {
        match spec_heading_list(els.drop_last()) {
            Result::Err(e) => Result::Err(e),
            Result::Ok(p) => match spec_heading_of(els.last()) {
                Result::Err(e) => Result::Err(e),
                Result::Ok(h) => Result::Ok(p.push(h)),
            },
        }
    }
}

proof fn lemma_heading_list_err(els: Seq<DomNode>, j: int)
    requires
        0 <= j <= els.len(),
        spec_heading_list(els.subrange(0, j)) matches Result::Err(_),
    ensures
        spec_heading_list(els) == spec_heading_list(els.subrange(0, j)),
    decreases els.len() - j,
{
    if j == els.len() {
        assert(els.subrange(0, j) =~= els);
    } else {
        assert(els.subrange(0, j + 1).drop_last() =~= els.subrange(0, j));
        lemma_heading_list_err(els, j + 1);
    }
}

/// A new heading attached under the rightmost spine of `node`: it descends
/// while the rightmost child is shallower than the new heading.
pub open spec fn spec_attach(node: HeadingV, h: HeadingV) -> HeadingV
    decreases node,
{
    if node.children.len() > 0 && node.children.last().level < h.level {
        HeadingV {
            children: node.children.update(
                node.children.len() - 1,
                spec_attach(node.children.last(), h),
            ),
            ..node
        }
    } else {
        HeadingV { children: node.children.push(h), ..node }
    }
}

/// A new heading inserted into the forest: under the last root when that
/// root is shallower, else as a new root.
pub open spec fn spec_forest_insert(forest: Seq<HeadingV>, h: HeadingV) -> Seq<HeadingV> {
    if forest.len() > 0 && forest.last().level < h.level {
        forest.update(forest.len() - 1, spec_attach(forest.last(), h))
    } else {
        forest.push(h)
    }
}

/// The heading forest built from flat heading records, in document order.
pub open spec fn spec_build_forest(hs: Seq<HeadingV>) -> Seq<HeadingV>
    decreases hs.len(),
{
    if hs.len() == 0 {
        Seq::empty()
    } else {
        spec_forest_insert(spec_build_forest(hs.drop_last()), hs.last())
    }
}

/// The table of contents of a rendered body: the heading forest of the
/// fragment's headings.
pub open spec fn spec_build_toc(body: Seq<char>) -> Result<Seq<HeadingV>, ErrorV> {
    match spec_heading_list(collect_heads(parsed_fragment(body))) {
        Result::Err(e) => Result::Err(e),
        Result::Ok(hs) => Result::Ok(spec_build_forest(hs)),
    }
}

/// Attach a heading under the rightmost spine of `node`.
fn attach(node: Heading, h: Heading) -> (r: Heading)
    ensures
        r@ == spec_attach(node@, h@),
    decreases node,
{
    let ghost nv = node@;
    let Heading { level, id, content, disable_numbering, mut children } = node;
    proof {
        lemma_heading_seq(children@);
    }
    let cn = children.len();
    proof {
        if cn > 0 {
            assert(heading_seq(children@)[cn - 1] == children@[cn - 1]@);
            assert(nv.children.last() == children@[cn - 1]@);
        }
    }
    if cn > 0 && children[cn - 1].level < h.level {
        let lastc = match children.pop() {
            Some(c) => c,
            None => {
                proof {
                    assert(false);
                }
                return Heading { level, id, content, disable_numbering, children };
            },
        };
        let ghost lv = lastc@;
        let newc = attach(lastc, h);
        let ghost newv = newc@;
        children.push(newc);
        proof {
            lemma_heading_seq(children@);
            assert(heading_seq(children@) =~= nv.children.update(nv.children.len() - 1, newv))
                by {
                lemma_heading_seq(children@.drop_last());
                assert forall|k: int| 0 <= k < heading_seq(children@).len() implies heading_seq(
                    children@,
                )[k] == nv.children.update(nv.children.len() - 1, newv)[k] by {
                    assert(heading_seq(children@)[k] == children@[k]@);
                }
            }
            assert(lv == nv.children.last());
        }
        Heading { level, id, content, disable_numbering, children }
    } else {
        children.push(h);
        proof {
            lemma_heading_seq(children@);
            assert(heading_seq(children@) =~= nv.children.push(h@)) by {
                assert forall|k: int| 0 <= k < heading_seq(children@).len() implies heading_seq(
                    children@,
                )[k] == nv.children.push(h@)[k] by {
                    assert(heading_seq(children@)[k] == children@[k]@);
                }
            }
        }
        Heading { level, id, content, disable_numbering, children }
    }
}

/// Insert a heading into the forest.
fn forest_insert(forest: &mut Vec<Heading>, h: Heading)
    ensures
        heading_seq(final(forest)@) == spec_forest_insert(heading_seq(old(forest)@), h@),
{
    let ghost fv = heading_seq(forest@);
    proof {
        lemma_heading_seq(forest@);
    }
    let n = forest.len();
    proof {
        if n > 0 {
            assert(heading_seq(forest@)[n - 1] == forest@[n - 1]@);
            assert(fv.last() == forest@[n - 1]@);
        }
    }
    if n > 0 && forest[n - 1].level < h.level {
        let lastr = match forest.pop() {
            Some(c) => c,
            None => {
                proof {
                    assert(false);
                }
                return;
            },
        };
        let ghost lv = lastr@;
        let newr = attach(lastr, h);
        let ghost newv = newr@;
        forest.push(newr);
        proof {
            lemma_heading_seq(forest@);
            assert(lv == fv.last());
            assert(heading_seq(forest@) =~= fv.update(fv.len() - 1, newv)) by {
                lemma_heading_seq(forest@.drop_last());
                assert forall|k: int| 0 <= k < heading_seq(forest@).len() implies heading_seq(
                    forest@,
                )[k] == fv.update(fv.len() - 1, newv)[k] by {
                    assert(heading_seq(forest@)[k] == forest@[k]@);
                }
            }
        }
    } else {
        let ghost hv = h@;
        forest.push(h);
        proof {
            lemma_heading_seq(forest@);
            assert(heading_seq(forest@) =~= fv.push(hv)) by {
                assert forall|k: int| 0 <= k < heading_seq(forest@).len() implies heading_seq(
                    forest@,
                )[k] == fv.push(hv)[k] by {
                    assert(heading_seq(forest@)[k] == forest@[k]@);
                }
            }
        }
    }
}

/// Build the table of contents of a rendered body: headings are collected in
/// document order and nested by level, a shallower heading closing every
/// deeper scope.
pub fn build_toc(body: &str) -> (r: Result<Vec<Heading>, BuildError>)
    ensures
        match r {
            Result::Ok(f) => spec_build_toc(body@) == Result::<Seq<HeadingV>, ErrorV>::Ok(
                heading_seq(f@),
            ),
            Result::Err(e) => spec_build_toc(body@) == Result::<Seq<HeadingV>, ErrorV>::Err(e@),
        },
{
    let tree = parse_fragment(body);
    let mut els: Vec<&HtmlNode> = Vec::new();
    collect_headings(&tree, &mut els);
    let ghost es = els.deep_view();
    proof {
        assert(Seq::<DomNode>::empty() + collect_heads(tree@) =~= collect_heads(tree@));
        assert(es.subrange(0, 0) =~= Seq::empty());
    }
    let mut forest: Vec<Heading> = Vec::new();
    let ghost done: Seq<HeadingV> = Seq::empty();
    proof {
        assert(heading_seq(forest@) =~= Seq::<HeadingV>::empty());
        assert(spec_heading_list(Seq::<DomNode>::empty()) == Result::<
            Seq<HeadingV>,
            ErrorV,
        >::Ok(Seq::empty()));
    }
    let mut i: usize = 0;
    while i < els.len()
        invariant
            0 <= i <= els@.len(),
            es == els.deep_view(),
            es == collect_heads(parsed_fragment(body@)),
            es.len() == els@.len(),
            spec_heading_list(es.subrange(0, i as int)) matches Result::Ok(hs) && heading_seq(
                forest@,
            ) == spec_build_forest(hs),
        decreases els@.len() - i,
    {
        proof {
            assert(es.subrange(0, i + 1).drop_last() =~= es.subrange(0, i as int));
            assert(es.subrange(0, i + 1).last() == es[i as int]);
            assert(es[i as int] == els@[i as int]@);
        }
        let el = els[i];
        match el {
            HtmlNode::Element { tag, attrs, children } => {
                let level = heading_level_of(tag.as_str());
                let idv: String = match get_attr(attrs, "id") {
                    Some(v) => v.clone(),
                    None => String::new(),
                };
                let cls: String = match get_attr(attrs, "class") {
                    Some(v) => v.clone(),
                    None => String::new(),
                };
                let dn = has_class(cls.as_str(), "disable-numbering");
                let content = match frag_children(children, 0, false, false, false) {
                    Ok((s, _h, _c)) => s,
                    Err(e) => {
                        proof {
                            lemma_heading_list_err(es, i + 1);
                        }
                        return Err(e);
                    },
                };
                let h = Heading { level, id: idv, content, disable_numbering: dn, children: Vec::new() };
                let ghost hv2 = h@;
                let ghost prev_hs = spec_heading_list(es.subrange(0, i as int))->Ok_0;
                proof {
                    assert(heading_seq(h.children@) =~= Seq::<HeadingV>::empty());
                    assert(spec_heading_of(es[i as int]) == Result::<HeadingV, ErrorV>::Ok(hv2));
                    assert(spec_heading_list(es.subrange(0, i + 1)) == Result::<
                        Seq<HeadingV>,
                        ErrorV,
                    >::Ok(prev_hs.push(hv2)));
                    assert(prev_hs.push(hv2).drop_last() =~= prev_hs);
                }
                forest_insert(&mut forest, h);
                proof {
                    assert(spec_build_forest(prev_hs.push(hv2)) == spec_forest_insert(
                        spec_build_forest(prev_hs),
                        hv2,
                    ));
                }
            },
            _ => {
                proof {
                    lemma_heading_list_err(es, i + 1);
                }
                return Err(
                    BuildError::InternalInvariant {
                        detail: String::from_str("heading is not an element"),
                    },
                );
            },
        }
        i = i + 1;
    }
    proof {
        assert(es.subrange(0, els@.len() as int) =~= es);
    }
    Ok(forest)
}

/// The markup of one table-of-contents entry.
pub open spec fn spec_toc_item(h: HeadingV) -> Seq<char>
    decreases h, 0int,
{
    let anchor = "<li><a href=\"#"@ + escape_attr_spec(h.id) + "\">"@ + h.content + "</a>"@;
    if h.children.len() > 0 {
        anchor + spec_toc_list(h.children) + "</li>"@
    } else {
        anchor + "</li>"@
    }
}

/// The markup of a table-of-contents level.
pub open spec fn spec_toc_list(hs: Seq<HeadingV>) -> Seq<char>
    decreases hs, 1int,
{
    "<ol>"@ + spec_toc_items(hs) + "</ol>"@
}

/// The item markup of a table-of-contents level.
pub open spec fn spec_toc_items(hs: Seq<HeadingV>) -> Seq<char>
    decreases hs, 0int,
{
    if hs.len() == 0 {
        Seq::empty()
    } else {
        spec_toc_items(hs.drop_last()) + spec_toc_item(hs.last())
    }
}

/// The markup of the whole table of contents: empty when there is none.
pub open spec fn spec_toc_html(forest: Seq<HeadingV>) -> Seq<char> {
    if forest.len() == 0 {
        Seq::empty()
    } else {
        "<nav class=\"toc\">"@ + spec_toc_list(forest) + "</nav>"@
    }
}

/// Render one table-of-contents entry.
fn toc_item(h: &Heading) -> (r: String)
    ensures
        r@ == spec_toc_item(h@),
    decreases h, 0int,
{
    let mut out = String::from_str("<li><a href=\"#");
    let eid = escape_attr(h.id.as_str());
    out.append(eid.as_str());
    out.append("\">");
    out.append(h.content.as_str());
    out.append("</a>");
    if h.children.len() > 0 {
        proof {
            lemma_heading_seq(h.children@);
        }
        let inner = toc_level(&h.children);
        out.append(inner.as_str());
    }
    out.append("</li>");
    out
}

/// Render one table-of-contents level.
fn toc_level(hs: &Vec<Heading>) -> (r: String)
    ensures
        r@ == spec_toc_list(heading_seq(hs@)),
    decreases hs, 1int,
{
    let ghost hv = heading_seq(hs@);
    proof {
        lemma_heading_seq(hs@);
        assert(hv.subrange(0, 0) =~= Seq::empty());
    }
    let mut out = String::from_str("<ol>");
    let mut i: usize = 0;
    while i < hs.len()
        invariant
            0 <= i <= hs@.len(),
            hv == heading_seq(hs@),
            hv.len() == hs@.len(),
            forall|k: int| 0 <= k < hs@.len() ==> hv[k] == #[trigger] hs@[k]@,
            out@ == "<ol>"@ + spec_toc_items(hv.subrange(0, i as int)),
        decreases hs@.len() - i,
    {
        proof {
            assert(hv.subrange(0, i + 1).drop_last() =~= hv.subrange(0, i as int));
            assert(hv.subrange(0, i + 1).last() == hv[i as int]);
            assert(hv[i as int] == hs@[i as int]@);
        }
        let piece = toc_item(&hs[i]);
        out.append(piece.as_str());
        i = i + 1;
    }
    proof {
        assert(hv.subrange(0, hs@.len() as int) =~= hv);
    }
    out.append("</ol>");
    out
}

/// Render the table of contents as nested lists.
pub fn toc_html(forest: &Vec<Heading>) -> (r: String)
    ensures
        r@ == spec_toc_html(heading_seq(forest@)),
{
    proof {
        lemma_heading_seq(forest@);
    }
    if forest.len() == 0 {
        return String::new();
    }
    let mut out = String::from_str("<nav class=\"toc\">");
    let inner = toc_level(forest);
    out.append(inner.as_str());
    out.append("</nav>");
    out
}

} // verus!
