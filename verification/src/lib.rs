//! Static-site assembler for a networked note collection.
//!
//! The crate takes a set of already-rendered per-note HTML documents and
//! produces a cross-linked, templated HTML site: transclusion of one note's
//! body inside another, internal links and citations, auto-generated
//! backmatter sections, and a per-page table of contents.
//!
//! The documents live in [`dom::HtmlNode`] trees of plain values;
//! [`note`] loads them, [`resolver`] orders them over the transclusion
//! graph, [`passes`] substitutes transclusions and links, [`index`] inverts
//! the edge lists, [`toc`] nests the headings, and [`assemble`] puts whole
//! pages together.  Every step is specified against the mathematical models
//! in the same modules, and [`laws`] states the global guarantees.

use vstd::prelude::*;

pub mod args;
pub mod assemble;
pub mod compiler;
pub mod config;
pub mod dom;
pub mod error;
pub mod ids;
pub mod index;
pub mod laws;
pub mod note;
pub mod parse;
pub mod passes;
pub mod render;
pub mod resolver;
pub mod text;
pub mod toc;

verus! {

/// Version string reported by the command line front end.
pub fn notty_version() -> (r: &'static str)
    ensures
        r@ == "0.1.0"@,
{
    "0.1.0"
}

} // verus!
