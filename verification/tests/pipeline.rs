//! End-to-end tests of the build pipeline on synthetic note corpora.

use weibian::assemble::build_site;
use weibian::error::BuildError;
use weibian::note::load_notes;
use weibian::resolver::topo_sort_transclusions;
use weibian::toc::build_toc;

fn doc(path: &str, html: &str) -> (String, String) {
    (path.to_string(), html.to_string())
}

fn note_html(id: &str, extra_head: &str, body: &str) -> String {
    format!(
        "<html><head><meta name=\"id\" content=\"{id}\">{extra_head}</head><body>{body}</body></html>"
    )
}

const TEMPLATE: &str = "<html><head><title>site</title></head><body><main><slot name=\"content\"></slot></main><aside><slot name=\"backmatters\"></slot></aside></body></html>";

#[test]
fn loading_extracts_ids_and_edges() {
    let docs = vec![doc(
        "a.html",
        &note_html(
            "a",
            "",
            "<transclusion target=\" wb:b \"></transclusion><internal-link target=\"c\">x</internal-link>",
        ),
    )];
    let notes = load_notes(&docs).unwrap();
    assert_eq!(notes.len(), 1);
    assert_eq!(notes[0].id, "a");
    assert_eq!(notes[0].transcludes, vec!["b".to_string()]);
    assert_eq!(notes[0].links_out, vec!["c".to_string()]);
}

#[test]
fn loading_refuses_duplicates_and_empties() {
    let docs = vec![
        doc("a.html", &note_html("a", "", "x")),
        doc("b.html", &note_html("a", "", "y")),
    ];
    assert!(matches!(load_notes(&docs), Err(BuildError::DuplicateNoteId { .. })));
    let none: Vec<(String, String)> = Vec::new();
    assert!(matches!(load_notes(&none), Err(BuildError::EmptyCorpus)));
}

#[test]
fn loading_requires_an_identifier() {
    let docs = vec![doc("x.html", "<html><head></head><body>hi</body></html>")];
    match load_notes(&docs) {
        Err(BuildError::MissingIdentifierMetadata { path }) => assert_eq!(path, "x.html"),
        other => panic!("expected a missing identifier error, got {other:?}"),
    }
}

#[test]
fn loading_requires_target_attributes() {
    let docs = vec![doc("a.html", &note_html("a", "", "<transclusion></transclusion>"))];
    match load_notes(&docs) {
        Err(BuildError::MissingRequiredAttribute { tag, path }) => {
            assert_eq!(tag, "transclusion");
            assert_eq!(path, "a.html");
        },
        other => panic!("expected a missing attribute error, got {other:?}"),
    }
}

#[test]
fn resolver_orders_targets_before_sources() {
    let docs = vec![
        doc("a.html", &note_html("a", "", "<transclusion target=\"b\"></transclusion>")),
        doc("b.html", &note_html("b", "", "base")),
        doc("c.html", &note_html("c", "", "<transclusion target=\"a\"></transclusion>")),
    ];
    let notes = load_notes(&docs).unwrap();
    let order = topo_sort_transclusions(&notes).unwrap();
    let pos = |id: &str| order.iter().position(|x| x == id).unwrap();
    assert!(pos("b") < pos("a"));
    assert!(pos("a") < pos("c"));
    let again = topo_sort_transclusions(&notes).unwrap();
    assert_eq!(order, again);
}

#[test]
fn resolver_reports_cycles_with_both_ids() {
    let docs = vec![
        doc("a.html", &note_html("a", "", "<transclusion target=\"b\"></transclusion>")),
        doc("b.html", &note_html("b", "", "<transclusion target=\"a\"></transclusion>")),
    ];
    let notes = load_notes(&docs).unwrap();
    match topo_sort_transclusions(&notes) {
        Err(e @ BuildError::TransclusionCycle { .. }) => {
            let m = e.message();
            assert!(m.contains("a"), "message: {m}");
            assert!(m.contains("b"), "message: {m}");
        },
        other => panic!("expected a cycle error, got {other:?}"),
    }
}

#[test]
fn resolver_reports_unknown_targets() {
    let docs = vec![doc(
        "a.html",
        &note_html("a", "", "<transclusion target=\"ghost\"></transclusion>"),
    )];
    let notes = load_notes(&docs).unwrap();
    match topo_sort_transclusions(&notes) {
        Err(BuildError::UnknownReferenceTarget { source, target }) => {
            assert_eq!(source, "a");
            assert_eq!(target, "ghost");
        },
        other => panic!("expected an unknown target error, got {other:?}"),
    }
}

#[test]
fn unknown_transclusion_target_fails_the_build() {
    let docs = vec![doc(
        "a.html",
        &note_html("a", "", "<transclusion target=\"ghost\"></transclusion>"),
    )];
    let r = build_site(&docs, TEMPLATE, "/", false);
    assert!(matches!(r, Err(BuildError::UnknownReferenceTarget { .. })));
}

#[test]
fn unknown_link_target_fails_the_build() {
    let docs = vec![doc(
        "a.html",
        &note_html("a", "", "<internal-link target=\"ghost\">x</internal-link>"),
    )];
    let r = build_site(&docs, TEMPLATE, "/", false);
    match r {
        Err(BuildError::UnknownReferenceTarget { source, target }) => {
            assert_eq!(source, "a");
            assert_eq!(target, "ghost");
        },
        other => panic!("expected an unknown target error, got {other:?}"),
    }
}

#[test]
fn linked_site_round_trip() {
    // The index links to the notes page; the notes page gets a backlink.
    let docs = vec![
        doc(
            "index.html",
            &note_html("index", "", "<internal-link target=\"notes\">See</internal-link>"),
        ),
        doc(
            "notes.html",
            &note_html(
                "notes",
                "<meta name=\"title\" content=\"Notes\"><title>Notes</title>",
                "<p>All notes</p>",
            ),
        ),
    ];
    let pages = build_site(&docs, TEMPLATE, "/", false).unwrap();
    assert_eq!(pages.len(), 2);
    let index = &pages.iter().find(|p| p.0 == "index.html").unwrap().1;
    let notes = &pages.iter().find(|p| p.0 == "notes.html").unwrap().1;
    assert!(index.contains("href=\"/notes.html\""), "index page: {index}");
    assert!(index.contains(">See</a>"), "index page: {index}");
    assert!(notes.contains("backmatter backlinks"), "notes page: {notes}");
    assert!(notes.contains("See"), "notes page: {notes}");
}

#[test]
fn empty_link_text_falls_back_to_the_title() {
    let docs = vec![
        doc(
            "index.html",
            &note_html("index", "", "<internal-link target=\"notes\"></internal-link>"),
        ),
        doc(
            "notes.html",
            &note_html("notes", "<meta name=\"title\" content=\"All &amp; More\">", "<p>x</p>"),
        ),
    ];
    let pages = build_site(&docs, TEMPLATE, "/", false).unwrap();
    let index = &pages.iter().find(|p| p.0 == "index.html").unwrap().1;
    assert!(index.contains(">All &amp; More</a>"), "index page: {index}");
}

#[test]
fn transclusion_inlines_the_target_body() {
    let docs = vec![
        doc(
            "a.html",
            &note_html("a", "", "<p>before</p><transclusion target=\"b\"></transclusion>"),
        ),
        doc("b.html", &note_html("b", "", "<p>inlined words</p>")),
    ];
    let pages = build_site(&docs, TEMPLATE, "/", false).unwrap();
    let a = &pages.iter().find(|p| p.0 == "a.html").unwrap().1;
    assert!(a.contains("inlined words"), "page: {a}");
    assert!(a.contains("before"), "page: {a}");
}

#[test]
fn citations_seen_in_transcluded_content_are_not_repeated() {
    // X transcludes Y; Y cites Z; X also cites Z directly. Z stays in Y's
    // references and is filtered from X's.
    let docs = vec![
        doc(
            "x.html",
            &note_html(
                "x",
                "",
                "<transclusion target=\"y\"></transclusion><citation target=\"z\">see z</citation>",
            ),
        ),
        doc("y.html", &note_html("y", "", "<citation target=\"z\">z cited</citation>")),
        doc("z.html", &note_html("z", "", "<p>the z content</p>")),
    ];
    let pages = build_site(&docs, TEMPLATE, "/", false).unwrap();
    let x = &pages.iter().find(|p| p.0 == "x.html").unwrap().1;
    let y = &pages.iter().find(|p| p.0 == "y.html").unwrap().1;
    assert!(y.contains("backmatter references"), "y page: {y}");
    assert!(y.contains("the z content"), "y page: {y}");
    assert!(!x.contains("backmatter references"), "x page: {x}");
}

#[test]
fn contexts_list_the_transcluding_notes() {
    let docs = vec![
        doc("a.html", &note_html("a", "", "<transclusion target=\"b\"></transclusion>")),
        doc("b.html", &note_html("b", "", "<p>b body</p>")),
    ];
    let pages = build_site(&docs, TEMPLATE, "/", false).unwrap();
    let b = &pages.iter().find(|p| p.0 == "b.html").unwrap().1;
    assert!(b.contains("backmatter contexts"), "b page: {b}");
}

#[test]
fn building_twice_gives_identical_pages() {
    let docs = vec![
        doc(
            "index.html",
            &note_html("index", "", "<internal-link target=\"notes\">See</internal-link>"),
        ),
        doc(
            "notes.html",
            &note_html("notes", "<meta name=\"title\" content=\"Notes\">",
                "<h1>One</h1><h2>Two</h2>"),
        ),
    ];
    let first = build_site(&docs, TEMPLATE, "/", false).unwrap();
    let second = build_site(&docs, TEMPLATE, "/", false).unwrap();
    assert_eq!(first, second);
}

#[test]
fn toc_nesting_follows_heading_levels() {
    // Heading sequence h1, h2, h3, h2: one root, two children under it, one
    // grandchild under the first child.
    let forest = build_toc("<h1>A</h1><h2>B</h2><h3>C</h3><h2>D</h2>").unwrap();
    assert_eq!(forest.len(), 1);
    assert_eq!(forest[0].level, 1);
    assert_eq!(forest[0].children.len(), 2);
    assert_eq!(forest[0].children[0].content, "B");
    assert_eq!(forest[0].children[0].children.len(), 1);
    assert_eq!(forest[0].children[0].children[0].content, "C");
    assert_eq!(forest[0].children[1].content, "D");
    assert_eq!(forest[0].children[1].children.len(), 0);
}

#[test]
fn toc_handles_skipped_levels() {
    let forest = build_toc("<h1>A</h1><h3>C</h3><h2>B</h2>").unwrap();
    assert_eq!(forest.len(), 1);
    assert_eq!(forest[0].children.len(), 2);
    assert_eq!(forest[0].children[0].content, "C");
    assert_eq!(forest[0].children[1].content, "B");
}

#[test]
fn hidden_templates_disappear_from_the_page() {
    let tmpl = "<html><head></head><body><template id=\"banner\"><p>BANNER</p></template><slot name=\"content\"></slot></body></html>";
    let docs = vec![
        doc(
            "a.html",
            &note_html("a", "<meta name=\"hide:banner\" content=\"\">", "<p>a body</p>"),
        ),
        doc("b.html", &note_html("b", "", "<p>b body</p>")),
    ];
    let pages = build_site(&docs, tmpl, "/", false).unwrap();
    let a = &pages.iter().find(|p| p.0 == "a.html").unwrap().1;
    let b = &pages.iter().find(|p| p.0 == "b.html").unwrap().1;
    assert!(!a.contains("BANNER"), "a page: {a}");
    assert!(b.contains("BANNER"), "b page: {b}");
}

#[test]
fn metadata_keys_are_folded_to_lowercase() {
    let docs = vec![doc(
        "n.html",
        "<html><head><meta name=\"id\" content=\"n\"><meta name=\" TiTlE \" content=\"Folded\"></head><body><p>x</p></body></html>",
    )];
    let notes = load_notes(&docs).unwrap();
    let metadata = weibian::note::extract_metadata(&notes[0].document);
    let title = weibian::note::extract_note_title(&notes[0].document, &metadata);
    assert_eq!(title.as_deref(), Some("Folded"));
}

#[test]
fn script_bodies_are_copied_raw() {
    let docs = vec![doc(
        "s.html",
        &note_html("s", "", "<script>if (a < b && c > d) { go(); }</script>"),
    )];
    let pages = build_site(&docs, TEMPLATE, "/", false).unwrap();
    let s = &pages.iter().find(|p| p.0 == "s.html").unwrap().1;
    assert!(s.contains("if (a < b && c > d) { go(); }"), "page: {s}");
}

#[test]
fn text_nodes_are_escaped() {
    let docs = vec![doc("e.html", &note_html("e", "", "<p>1 &lt; 2 &amp; 3</p>"))];
    let pages = build_site(&docs, TEMPLATE, "/", false).unwrap();
    let e = &pages.iter().find(|p| p.0 == "e.html").unwrap().1;
    assert!(e.contains("1 &lt; 2 &amp; 3"), "page: {e}");
}

#[test]
fn trailing_slash_sites_use_directory_paths() {
    let docs = vec![
        doc("index.html", &note_html("index", "",
            "<internal-link target=\"notes\">See</internal-link>")),
        doc("notes.html", &note_html("notes", "", "<p>n</p>")),
    ];
    let pages = build_site(&docs, TEMPLATE, "/", true).unwrap();
    assert!(pages.iter().any(|p| p.0 == "index.html"));
    assert!(pages.iter().any(|p| p.0 == "notes/index.html"));
    let index = &pages.iter().find(|p| p.0 == "index.html").unwrap().1;
    assert!(index.contains("href=\"/notes/\""), "index page: {index}");
}

#[test]
fn transclusion_options_reach_the_inlined_content() {
    let docs = vec![
        doc(
            "a.html",
            &note_html(
                "a",
                "",
                "<transclusion target=\"b\" demote-headings=\"2\" disable-numbering=\"true\"></transclusion>",
            ),
        ),
        doc("b.html", &note_html("b", "", "<h1>Deep</h1>")),
    ];
    let pages = build_site(&docs, TEMPLATE, "/", false).unwrap();
    let a = &pages.iter().find(|p| p.0 == "a.html").unwrap().1;
    assert!(a.contains("<h3"), "page: {a}");
    assert!(a.contains("disable-numbering"), "page: {a}");
}

#[test]
fn later_metadata_entries_win() {
    let docs = vec![doc(
        "n.html",
        "<html><head><meta name=\"id\" content=\"n\"><meta name=\"title\" content=\"First\"><meta name=\"title\" content=\"Second\"></head><body><p>x</p></body></html>",
    )];
    let notes = load_notes(&docs).unwrap();
    let metadata = weibian::note::extract_metadata(&notes[0].document);
    let title = weibian::note::extract_note_title(&notes[0].document, &metadata);
    assert_eq!(title.as_deref(), Some("Second"));
}

#[test]
fn citations_render_as_citation_anchors() {
    let docs = vec![
        doc("a.html", &note_html("a", "", "<citation target=\"b\">see</citation>")),
        doc("b.html", &note_html("b", "", "<p>b</p>")),
    ];
    let pages = build_site(&docs, TEMPLATE, "/", false).unwrap();
    let a = &pages.iter().find(|p| p.0 == "a.html").unwrap().1;
    assert!(a.contains("<a class=\"citation\" href=\"/b.html\">see</a>"), "page: {a}");
}

#[test]
fn toc_slot_is_filled_with_nested_lists() {
    let tmpl = "<html><head></head><body><nav><slot name=\"toc\"></slot></nav><slot name=\"content\"></slot></body></html>";
    let docs = vec![doc(
        "t.html",
        &note_html("t", "", "<h1 id=\"one\">One</h1><h2 id=\"two\">Two</h2>"),
    )];
    let pages = build_site(&docs, tmpl, "/", false).unwrap();
    let t = &pages.iter().find(|p| p.0 == "t.html").unwrap().1;
    assert!(t.contains("<nav class=\"toc\">"), "page: {t}");
    assert!(t.contains("href=\"#one\""), "page: {t}");
    assert!(t.contains("href=\"#two\""), "page: {t}");
}
