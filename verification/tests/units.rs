//! Unit tests for the text utilities, option parsing and small helpers.

use weibian::args::parse_sys_input_pair;
use weibian::assemble::output_path_for;
use weibian::config::{normalize_root_dir, resolve_dir};
use weibian::dom::{add_class, has_class, parse_bool_attr};
use weibian::error::BuildError;
use weibian::ids::{contains_id, sorted_id_set};
use weibian::passes::href_for;
use weibian::render::{is_void_element, parse_demote_attr, render_fragment_with_options};
use weibian::text::{escape_attr, escape_text, normalize_target, str_lt, trim};

#[test]
fn normalize_target_strips_prefix_and_space() {
    assert_eq!(normalize_target(" wb:foo "), "foo");
    assert_eq!(normalize_target("bar"), "bar");
}

#[test]
fn normalize_target_trims_after_prefix() {
    assert_eq!(normalize_target("wb: baz "), "baz");
    assert_eq!(normalize_target("  wb:wb"), "wb");
}

#[test]
fn escape_text_escapes_markup() {
    assert_eq!(escape_text("a<b&c>d"), "a&lt;b&amp;c&gt;d");
    assert_eq!(escape_text("plain"), "plain");
}

#[test]
fn escape_attr_escapes_quotes_too() {
    assert_eq!(escape_attr("a\"b<c>&"), "a&quot;b&lt;c&gt;&amp;");
}

#[test]
fn trim_drops_surrounding_whitespace() {
    assert_eq!(trim("  x y\t"), "x y");
    assert_eq!(trim(""), "");
    assert_eq!(trim("   "), "");
}

#[test]
fn parse_bool_attr_is_case_insensitive_with_default() {
    assert!(parse_bool_attr(Some("true"), false));
    assert!(parse_bool_attr(Some("TRUE"), false));
    assert!(!parse_bool_attr(Some("False"), true));
    assert!(parse_bool_attr(Some("junk"), true));
    assert!(!parse_bool_attr(Some("junk"), false));
    assert!(parse_bool_attr(None, true));
}

#[test]
fn parse_demote_attr_reads_digits_with_default_one() {
    assert_eq!(parse_demote_attr(None), 1);
    assert_eq!(parse_demote_attr(Some("3")), 3);
    assert_eq!(parse_demote_attr(Some("0")), 0);
    assert_eq!(parse_demote_attr(Some("")), 1);
    assert_eq!(parse_demote_attr(Some("x2")), 1);
    assert_eq!(parse_demote_attr(Some("999")), 7);
}

#[test]
fn has_class_finds_whole_tokens_only() {
    assert!(has_class("a b c", "b"));
    assert!(!has_class("ab c", "b"));
    assert!(has_class("hide-metadata", "hide-metadata"));
    assert!(!has_class("hide-metadata-x", "hide-metadata"));
}

#[test]
fn add_class_appends_once() {
    let mut v: Option<String> = None;
    add_class(&mut v, "x");
    assert_eq!(v.as_deref(), Some("x"));
    add_class(&mut v, "y");
    assert_eq!(v.as_deref(), Some("x y"));
    add_class(&mut v, "x");
    assert_eq!(v.as_deref(), Some("x y"));
}

#[test]
fn void_elements_close_themselves() {
    assert!(is_void_element("br"));
    assert!(is_void_element("BR"));
    assert!(is_void_element("meta"));
    assert!(!is_void_element("div"));
    assert!(!is_void_element("script"));
}

#[test]
fn id_sets_sort_and_deduplicate() {
    let v = vec!["b".to_string(), "a".to_string(), "b".to_string(), "c".to_string()];
    let s = sorted_id_set(&v);
    assert_eq!(s, vec!["a".to_string(), "b".to_string(), "c".to_string()]);
    assert!(contains_id(&s, "b"));
    assert!(!contains_id(&s, "z"));
}

#[test]
fn string_order_is_lexicographic() {
    assert!(str_lt("a", "b"));
    assert!(str_lt("a", "ab"));
    assert!(!str_lt("b", "ab"));
    assert!(!str_lt("a", "a"));
}

#[test]
fn hrefs_follow_the_trailing_slash_policy() {
    assert_eq!(href_for("index", "/", false), "/");
    assert_eq!(href_for("notes", "/", false), "/notes.html");
    assert_eq!(href_for("notes", "/", true), "/notes/");
    assert_eq!(href_for("notes", "/root/", false), "/root/notes.html");
}

#[test]
fn output_paths_follow_the_trailing_slash_policy() {
    assert_eq!(output_path_for("index", false), "index.html");
    assert_eq!(output_path_for("index", true), "index.html");
    assert_eq!(output_path_for("notes", false), "notes.html");
    assert_eq!(output_path_for("notes", true), "notes/index.html");
}

#[test]
fn root_dir_is_normalized_to_slashes() {
    assert_eq!(normalize_root_dir(None), "/");
    assert_eq!(normalize_root_dir(Some("")), "/");
    assert_eq!(normalize_root_dir(Some("notes")), "/notes/");
    assert_eq!(normalize_root_dir(Some(" /notes ")), "/notes/");
    assert_eq!(normalize_root_dir(Some("/")), "/");
}

#[test]
fn resolve_dir_prefers_the_command_line() {
    let cli = "a".to_string();
    let cfg = "b".to_string();
    assert_eq!(resolve_dir(Some(&cli), Some(&cfg), "c"), "a");
    assert_eq!(resolve_dir(None, Some(&cfg), "c"), "b");
    assert_eq!(resolve_dir(None, None, "c"), "c");
}

#[test]
fn sys_input_pairs_split_at_the_first_equal_sign() {
    assert_eq!(parse_sys_input_pair("k=v").unwrap(), ("k".to_string(), "v".to_string()));
    assert_eq!(parse_sys_input_pair(" a = b=c ").unwrap(), ("a".to_string(), "b=c".to_string()));
    assert!(parse_sys_input_pair("novalue").is_err());
    assert!(parse_sys_input_pair("=v").is_err());
}

#[test]
fn fragment_rendering_demotes_headings() {
    let out = render_fragment_with_options("<h1>T</h1>", true, true, false, 2).unwrap();
    assert!(out.contains("<h3>T</h3>"), "got: {out}");
}

#[test]
fn fragment_rendering_marks_numbering_and_metadata() {
    let out = render_fragment_with_options("<h2 class=\"x\">T</h2>", false, true, true, 0)
        .unwrap();
    assert!(out.contains("disable-numbering"), "got: {out}");
    assert!(out.contains("hide-metadata"), "got: {out}");
}

#[test]
fn fragment_rendering_collapses_details() {
    let out = render_fragment_with_options("<details open><p>x</p></details>", true, false,
        false, 0).unwrap();
    assert!(!out.contains("open"), "got: {out}");
    let kept = render_fragment_with_options("<details open><p>x</p></details>", true, true,
        false, 0).unwrap();
    assert!(kept.contains("open"), "got: {kept}");
}

#[test]
fn fragment_rendering_refuses_transclusions() {
    let r = render_fragment_with_options("<transclusion target=\"x\"></transclusion>", true,
        true, false, 0);
    assert!(matches!(r, Err(BuildError::InternalInvariant { .. })));
}

#[test]
fn filesystem_failure_message_names_the_path() {
    let e = BuildError::FilesystemFailure { path: "dist/a".to_string(), detail: "denied"
        .to_string() };
    let m = e.message();
    assert!(m.contains("dist/a"));
    assert!(m.contains("denied"));
}
