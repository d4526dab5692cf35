//! The trusted boundary to the HTML5 parser.
//!
//! Parsing a string into a DOM is delegated to the `scraper` crate.  What a
//! parse returns is a pure function of the input text alone, so the two
//! entry points below name their results with the uninterpreted functions
//! [`parsed_document`] and [`parsed_fragment`]; everything the library then
//! does with a parsed tree is ordinary verified code over [`HtmlNode`].

use vstd::prelude::*;

use crate::dom::{DomNode, HtmlNode};

verus! {

#[verifier::external_type_specification]
#[verifier::external_body]
pub struct ExHtml(scraper::Html);

#[verifier::external_type_specification]
#[verifier::external_body]
pub struct ExNodeId(ego_tree::NodeId);

#[verifier::external_type_specification]
#[verifier::external_body]
pub struct ExNode(scraper::Node);

#[verifier::external_type_specification]
#[verifier::external_body]
pub struct ExElement(scraper::node::Element);

#[verifier::external_type_specification]
#[verifier::external_body]
pub struct ExDoctype(scraper::node::Doctype);

#[verifier::external_type_specification]
#[verifier::external_body]
pub struct ExInstruction(scraper::node::ProcessingInstruction);

/// The tree that the HTML5 parser builds for `s` in document mode.
pub uninterp spec fn parsed_document(s: Seq<char>) -> DomNode;

/// The tree that the HTML5 parser builds for `s` in fragment mode.
pub uninterp spec fn parsed_fragment(s: Seq<char>) -> DomNode;

/// Relies on scraper::Html::parse_document: the parse is a pure function of
/// the input text, here named `parsed_document`.
#[verifier::external_body]
pub fn parse_document(html: &str) -> (t: HtmlNode)
    ensures
        t@ == parsed_document(html@),
{
    let doc = scraper::Html::parse_document(html);
    let root = doc.tree.root().id();
    from_tree_node(&doc, root)
}

/// Relies on scraper::Html::parse_fragment: the parse is a pure function of
/// the input text, here named `parsed_fragment`.
#[verifier::external_body]
pub fn parse_fragment(html: &str) -> (t: HtmlNode)
    ensures
        t@ == parsed_fragment(html@),
{
    let doc = scraper::Html::parse_fragment(html);
    let root = doc.tree.root().id();
    from_tree_node(&doc, root)
}

/// Relies on ego_tree::Tree::get and child iteration: copies the node named
/// by `id` and its descendants out of the parsed tree, in document order.
#[verifier::external_body]
fn from_tree_node(doc: &scraper::Html, id: ego_tree::NodeId) -> HtmlNode {
    let node = doc.tree.get(id).expect("id was taken from this tree");
    let mut children: Vec<HtmlNode> = Vec::new();
    for child in node.children() {
        children.push(from_tree_node(doc, child.id()));
    }
    from_node_value(node.value(), children)
}

/// Relies on scraper::Node: each variant is moved into the library's own
/// tree, field by field.
#[verifier::external_body]
fn from_node_value(value: &scraper::Node, children: Vec<HtmlNode>) -> HtmlNode {
    match value {
        scraper::Node::Document | scraper::Node::Fragment => HtmlNode::Document { children },
        scraper::Node::Doctype(d) => from_doctype(d),
        scraper::Node::Comment(c) => HtmlNode::Comment { text: (&**c).to_string() },
        scraper::Node::Text(t) => HtmlNode::Text { text: (&**t).to_string() },
        scraper::Node::ProcessingInstruction(pi) => from_instruction(pi),
        scraper::Node::Element(e) => HtmlNode::Element {
            tag: e.name().to_string(),
            attrs: attrs_of_element(e),
            children,
        },
    }
}

/// Relies on scraper::node::Doctype: its name and ids are copied out.
#[verifier::external_body]
fn from_doctype(d: &scraper::node::Doctype) -> HtmlNode {
    HtmlNode::Doctype {
        name: d.name().to_string(),
        public_id: d.public_id().to_string(),
        system_id: d.system_id().to_string(),
    }
}

/// Relies on scraper::node::ProcessingInstruction: its target and data are
/// copied out.
#[verifier::external_body]
fn from_instruction(pi: &scraper::node::ProcessingInstruction) -> HtmlNode {
    HtmlNode::Instruction { target_name: (&*pi.target).to_string(), data: (&*pi.data).to_string() }
}

/// Relies on scraper::node::Element::attrs: the attributes are copied out in
/// document order.
#[verifier::external_body]
fn attrs_of_element(e: &scraper::node::Element) -> Vec<(String, String)> {
    e.attrs().map(|(k, v)| (k.to_string(), v.to_string())).collect()
}

} // verus!
