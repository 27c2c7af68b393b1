use rheo::parser::labels::{collect_user_labels, extract_nodes, prefix_labels};
use rheo::parser::metadata::DocumentDate;
use rheo::parser::syntax::{parse_source, visit_all, SyntaxTree};
use rheo::parser::vars::extract_package_imports;
use rheo::parser::{
    DocumentMetadata, ImportInfo, LabelRole, LabelSite, LabelSites, LossyTitle, MetaValue,
    RheoValue, RheoVar,
};

// ─── Walk ───────────────────────────────────────────────────────────────────

fn count_nodes(node: &SyntaxTree) -> usize {
    1 + node.children.iter().map(count_nodes).sum::<usize>()
}

#[test]
fn walk_tree_visits_each_node_once() {
    let root = parse_source("= H <a>\n\n#let rheo-x = \"y\"\n\nSee @a.");
    let expected = count_nodes(&root);
    assert_eq!(visit_all(&root).len(), expected, "walk must visit each node exactly once");
}

#[test]
fn extract_nodes_parses_and_traverses_once() {
    let src = "= Heading <h>\nSee @h and #link(<h>)[here].";
    let extracted = extract_nodes(src);
    assert_eq!(extracted.labels, LabelSites::from_source(src));
    assert_eq!(extracted.labels.definitions.len(), 1);
    assert_eq!(extracted.labels.references.len(), 2);
}

#[test]
fn offsets_are_byte_positions_and_lines_count_breaks() {
    let src = "é\n\n= A <a>";
    let root = parse_source(src);
    let visits = visit_all(&root);
    let label = visits.iter().find(|v| v.0.kind == "Label").expect("a label");
    assert_eq!(&src[label.1..label.1 + label.0.len], "<a>");
    assert_eq!(label.3, 2);
    assert!(!label.2.in_code);
    assert!(label.2.file_scope);
}

// ─── Labels ─────────────────────────────────────────────────────────────────

#[test]
fn test_collect_user_labels() {
    let source = r#"= Introduction <intro>

Some text. <fig:chart>

#figure([], caption: [Chart]) <fig:chart>

== Section <sec-one>"#;
    let mut labels = collect_user_labels(source);
    labels.sort();
    assert_eq!(labels, vec!["fig:chart", "fig:chart", "intro", "sec-one"]);
}

#[test]
fn test_collect_user_labels_empty() {
    let labels = collect_user_labels("= No labels here\n\nJust text.");
    assert!(labels.is_empty());
}

/// Assert that each site's recorded range slices back to `expected` text.
fn assert_sites_slice(src: &str, sites: &[LabelSite], expected: &[(&str, &str)]) {
    assert_eq!(sites.len(), expected.len(), "site count mismatch: {sites:?}");
    for (site, (name, text)) in sites.iter().zip(expected) {
        assert_eq!(&site.name, name);
        assert_eq!(&src[site.range.clone()], *text);
    }
}

#[test]
fn test_sites_heading_definition() {
    let src = "= Intro <intro>";
    let sites = LabelSites::from_source(src);
    assert_sites_slice(src, &sites.definitions, &[("intro", "<intro>")]);
    assert!(sites.references.is_empty());
}

#[test]
fn test_sites_figure_label_definition() {
    let src = "#figure([], caption: [c]) <fig:chart>";
    let sites = LabelSites::from_source(src);
    assert_sites_slice(src, &sites.definitions, &[("fig:chart", "<fig:chart>")]);
    assert!(sites.references.is_empty());
}

#[test]
fn test_sites_ref_marker_is_reference() {
    let src = "See @intro for more.";
    let sites = LabelSites::from_source(src);
    assert!(sites.definitions.is_empty());
    assert_sites_slice(src, &sites.references, &[("intro", "@intro")]);
}

#[test]
fn test_sites_ref_with_supplement_excludes_supplement() {
    let src = "Citation @key[p.9] here.";
    let sites = LabelSites::from_source(src);
    assert_sites_slice(src, &sites.references, &[("key", "@key")]);
}

#[test]
fn test_sites_link_and_ref_calls_are_references() {
    let src = "#link(<a>)[text] and #ref(<b>)";
    let sites = LabelSites::from_source(src);
    assert!(sites.definitions.is_empty());
    assert_sites_slice(src, &sites.references, &[("a", "<a>"), ("b", "<b>")]);
}

#[test]
fn test_sites_definition_and_reference_classified() {
    let src = "== Section <sec>\n\nBack to @sec.";
    let sites = LabelSites::from_source(src);
    assert_sites_slice(src, &sites.definitions, &[("sec", "<sec>")]);
    assert_sites_slice(src, &sites.references, &[("sec", "@sec")]);
}

#[test]
fn test_syntaxsite_collect_tags_roles() {
    let src = "= A <a>\n\n#link(<a>)[x] and @a.";
    let roles: Vec<LabelRole> = LabelSite::collect(src).into_iter().map(|s| s.role).collect();
    assert_eq!(roles, vec![LabelRole::Definition, LabelRole::Reference, LabelRole::Reference]);
}

#[test]
fn test_syntaxsite_first_returns_leading_site() {
    let src = "= A <a>\n\n== B <b>";
    let first = LabelSite::first(src).expect("a label");
    assert_eq!(first.name, "a");
}

#[test]
fn test_collect_user_labels_matches_definitions() {
    let src = "= A <a>\n\n#link(<a>)[x]\n\n== B <b>";
    let mut labels = collect_user_labels(src);
    labels.sort();
    assert_eq!(labels, vec!["a", "b"]);
}

// ─── Relabeling ─────────────────────────────────────────────────────────────

#[test]
fn local_ref_and_def_are_prefixed() {
    let src = "=== Et alia <etal>\n\nSee @etal for more.";
    let out = prefix_labels(src, "26w27");
    assert_eq!(out, "=== Et alia <26w27:etal>\n\nSee @26w27:etal for more.");
}

#[test]
fn bib_citation_without_local_def_is_untouched() {
    let src = "As shown @someKey, the result holds.";
    let out = prefix_labels(src, "26w27");
    assert_eq!(out, src);
}

#[test]
fn already_qualified_cross_file_ref_is_untouched() {
    let src = "Recall @26w24:framework from earlier.";
    let out = prefix_labels(src, "26w27");
    assert_eq!(out, src);
}

#[test]
fn nested_handle_prefixes_definition() {
    let src = "= Foo <foo>";
    let out = prefix_labels(src, "chapters:intro");
    assert_eq!(out, "= Foo <chapters:intro:foo>");
}

#[test]
fn label_already_containing_colon_gains_further_prefix() {
    let src = "#figure([], caption: [c]) <fig:chart>\n\nSee @fig:chart.";
    let out = prefix_labels(src, "H");
    assert_eq!(out, "#figure([], caption: [c]) <H:fig:chart>\n\nSee @H:fig:chart.");
}

#[test]
fn all_reference_forms_are_handled() {
    let src = "= X <x>\n\n@x and #link(<x>)[here] and #ref(<x>)";
    let out = prefix_labels(src, "H");
    assert_eq!(out, "= X <H:x>\n\n@H:x and #link(<H:x>)[here] and #ref(<H:x>)");
}

#[test]
fn ref_without_local_def_is_left_untouched() {
    let src = "= X <x>\n\nSee @x but not @y.";
    let out = prefix_labels(src, "H");
    assert_eq!(out, "= X <H:x>\n\nSee @H:x but not @y.");
}

#[test]
fn ref_supplement_is_preserved() {
    let src = "= X <x>\n\nCitation @x[p.9] here.";
    let out = prefix_labels(src, "H");
    assert_eq!(out, "= X <H:x>\n\nCitation @H:x[p.9] here.");
}

#[test]
fn multiple_definitions_are_each_prefixed() {
    let src = "= A <a>\n\n== B <b>\n\n@a then @b.";
    let out = prefix_labels(src, "26w27");
    assert_eq!(out, "= A <26w27:a>\n\n== B <26w27:b>\n\n@26w27:a then @26w27:b.");
}

#[test]
fn a_source_without_labels_comes_back_unchanged() {
    let src = "= Plain\n\nSome *strong* text, $x^2$ and #emph[more].\n";
    assert_eq!(prefix_labels(src, "H"), src);
}

// ─── `rheo-*` variables ─────────────────────────────────────────────────────

#[test]
fn test_rheo_var_string() {
    let vars = RheoVar::collect(r#"#let rheo-feed-title = "Hello""#);
    assert_eq!(vars.len(), 1);
    assert_eq!(vars[0].key, "feed-title");
    assert_eq!(vars[0].value, Some(RheoValue::Str("Hello".to_string())));
}

#[test]
fn test_rheo_var_bool() {
    let vars = RheoVar::collect("#let rheo-feed-exclude = true\n#let rheo-draft = false");
    assert_eq!(vars.len(), 2);
    assert_eq!(vars[0].key, "feed-exclude");
    assert_eq!(vars[0].value, Some(RheoValue::Bool(true)));
    assert_eq!(vars[1].key, "draft");
    assert_eq!(vars[1].value, Some(RheoValue::Bool(false)));
}

#[test]
fn test_rheo_var_non_string_is_none() {
    let vars = RheoVar::collect("#let rheo-count = 42\n#let rheo-body = [x]");
    assert_eq!(vars.len(), 2);
    assert_eq!(vars[0].key, "count");
    assert_eq!(vars[0].value, None);
    assert_eq!(vars[1].key, "body");
    assert_eq!(vars[1].value, None);
}

#[test]
fn test_rheo_var_in_block_ignored() {
    let source = r#"#{
  let rheo-inner = "nope"
}
#let f() = {
  let rheo-closure = "nope"
}"#;
    let vars = RheoVar::collect(source);
    assert_eq!(vars.len(), 0);
}

#[test]
fn test_rheo_vars_multiple_and_normal_skipped() {
    let source = r#"#let foo = "x"
#let rheo-feed-title = "Title"
#let rheo-feed-updated = "2025-01-15T00:00:00Z""#;
    let vars = RheoVar::collect(source);
    assert_eq!(vars.len(), 2);
    assert_eq!(vars[0].key, "feed-title");
    assert_eq!(vars[0].value, Some(RheoValue::Str("Title".to_string())));
    assert_eq!(vars[1].key, "feed-updated");
    assert_eq!(vars[1].value, Some(RheoValue::Str("2025-01-15T00:00:00Z".to_string())));
}

#[test]
fn test_rheo_var_line_number() {
    let vars = RheoVar::collect("Some text\n#let rheo-feed-title = \"Hello\"");
    assert_eq!(vars.len(), 1);
    assert_eq!(vars[0].line, 2);
}

#[test]
fn a_crlf_pair_ends_one_line() {
    let vars = RheoVar::collect("a\r\nb\r\n#let rheo-x = true");
    assert_eq!(vars.len(), 1);
    assert_eq!(vars[0].line, 3);
}

#[test]
fn rheo_value_accessors() {
    assert_eq!(RheoValue::Str("a".to_string()).as_str(), Some("a"));
    assert_eq!(RheoValue::Str("a".to_string()).as_bool(), None);
    assert_eq!(RheoValue::Bool(true).as_bool(), Some(true));
    assert_eq!(RheoValue::Bool(true).as_str(), None);
}

// ─── Imports ────────────────────────────────────────────────────────────────

#[test]
fn test_extract_package_imports() {
    let imports = extract_package_imports(r#"#import "@preview/tablex:0.0.6": tablex"#);
    assert_eq!(imports.len(), 1);
    assert_eq!(imports[0], "@preview/tablex:0.0.6");
}

#[test]
fn test_extract_package_imports_multiple() {
    let source = r#"#import "@preview/foo:1.0.0": *
#import "./local.typ": utils
#import "@preview/bar:2.0.0": bar"#;
    let imports = extract_package_imports(source);
    assert_eq!(imports.len(), 2);
    assert_eq!(imports[0], "@preview/foo:1.0.0");
    assert_eq!(imports[1], "@preview/bar:2.0.0");
}

#[test]
fn import_ranges_cover_the_path_literal() {
    let src = "#include \"chapter.typ\"\n#import \"@preview/x:1.0.0\"";
    let imports = ImportInfo::collect(src);
    assert_eq!(imports.len(), 2);
    assert_eq!(imports[0].path, "chapter.typ");
    assert!(!imports[0].is_package);
    assert_eq!(&src[imports[0].byte_range.clone()], "\"chapter.typ\"");
    assert!(imports[1].is_package);
    assert_eq!(&src[imports[1].byte_range.clone()], "\"@preview/x:1.0.0\"");
}

// ─── Document metadata ──────────────────────────────────────────────────────

fn metadata(src: &str) -> DocumentMetadata {
    DocumentMetadata::first(src).unwrap_or_default()
}

#[test]
fn test_string_title() {
    let m = metadata(r#"#set document(title: "My Post")"#);
    assert_eq!(m.get("title").and_then(MetaValue::as_str), Some("My Post"));
}

#[test]
fn test_bracket_title_flattens_to_plain_text() {
    let m = metadata(r#"#set document(title: [Good news - #emph[Severance]])"#);
    assert_eq!(m.get("title").and_then(MetaValue::as_str), Some("Good news - Severance"));
}

#[test]
fn test_keywords_round_trip_as_array_of_strings() {
    let m = metadata(r#"#set document(title: [X], keywords: ("DiH", "MiT"))"#);
    assert_eq!(
        m.get("keywords"),
        Some(&MetaValue::Array(vec![MetaValue::Str("DiH".into()), MetaValue::Str("MiT".into())]))
    );
    assert_eq!(m.get("keywords").unwrap().to_literal().serialize(), r#"("DiH", "MiT",)"#);
}

#[test]
fn test_single_keyword_trailing_comma() {
    let m = metadata(r#"#set document(keywords: ("DiH",))"#);
    assert_eq!(m.get("keywords"), Some(&MetaValue::Array(vec![MetaValue::Str("DiH".into())])));
}

#[test]
fn test_non_literal_scalar_args_skipped() {
    let m = metadata(r#"#set document(title: [T], count: 5, flag: true)"#);
    assert!(m.get("count").is_none());
    assert!(m.get("flag").is_none());
    assert_eq!(m.get("title").and_then(MetaValue::as_str), Some("T"));
}

#[test]
fn test_datetime_arg_skipped_not_errored() {
    let m = metadata(
        r#"#set document(title: [T], date: datetime(year: 2025, month: 1, day: 2), keywords: ("A",))"#,
    );
    assert!(m.get("date").is_none());
    assert_eq!(m.get("title").and_then(MetaValue::as_str), Some("T"));
    assert!(m.get("keywords").is_some());
}

#[test]
fn test_no_document_rule_is_empty() {
    let m = metadata("= Heading\n\nBody text.");
    assert!(m.fields.is_empty());
}

#[test]
fn test_first_document_rule_only() {
    let m = metadata("#set document(title: [First])\n#set document(title: [Second])");
    assert_eq!(m.get("title").and_then(MetaValue::as_str), Some("First"));
}

#[test]
fn test_ignores_other_set_rules() {
    let m = metadata("#set page(width: 10cm)\n#set document(title: [Doc], keywords: (\"K\",))");
    assert_eq!(m.get("title").and_then(MetaValue::as_str), Some("Doc"));
}

#[test]
fn test_empty_metadata_serializes_to_empty_dict() {
    let m = metadata("= Heading");
    assert_eq!(m.to_literal().serialize(), "(:)");
}

#[test]
fn test_set_rule_inside_function_body_not_harvested() {
    let m = metadata(
        r#"#let template(doc) = {
  set document(title: "From Template")
  doc
}
= Heading"#,
    );
    assert!(m.get("title").is_none());
    assert!(m.fields.is_empty());
}

#[test]
fn test_top_level_set_rule_still_harvested() {
    let m = metadata(r#"#set document(title: "Top Level")"#);
    assert_eq!(m.get("title").and_then(MetaValue::as_str), Some("Top Level"));
}

#[test]
fn test_smart_quotes_survive_bracket_title() {
    let m = metadata(r#"#set document(title: [She said "hello"])"#);
    assert_eq!(m.get("title").and_then(MetaValue::as_str), Some("She said \"hello\""));
}

#[test]
fn test_lossy_title_flags_styling() {
    let m = metadata(r#"#set document(title: [_Italic_ Title])"#);
    assert_eq!(
        m.lossy_title,
        Some(LossyTitle { raw: "_Italic_ Title".to_string(), stripped: "Italic Title".to_string() })
    );
}

#[test]
fn test_lossy_title_flags_sophisticated_content() {
    let m = metadata(r#"#set document(title: [Chapter $x^2$])"#);
    let lossy = m.lossy_title.expect("math title should be lossy");
    assert_eq!(lossy.stripped, "Chapter");
}

#[test]
fn test_plain_bracket_title_not_lossy() {
    let m = metadata(r#"#set document(title: [Hello World])"#);
    assert!(m.lossy_title.is_none());
}

#[test]
fn test_string_title_not_lossy() {
    let m = metadata(r#"#set document(title: "Plain String")"#);
    assert!(m.lossy_title.is_none());
}

#[test]
fn test_smart_quote_title_not_lossy() {
    let m = metadata(r#"#set document(title: [She said "hi"])"#);
    assert!(m.lossy_title.is_none());
}

#[test]
fn string_values_resolve_escapes_and_literals_quote_them() {
    let m = metadata(r#"#set document(author: "A \"B\" \\ C")"#);
    assert_eq!(m.get("author").and_then(MetaValue::as_str), Some("A \"B\" \\ C"));
    assert_eq!(m.to_literal().serialize(), r#"("author": "A \"B\" \\ C",)"#);
}

// ─── Document date ──────────────────────────────────────────────────────────

fn document_date(src: &str) -> Option<(i32, u32, u32, u32, u32, u32)> {
    DocumentDate::first(src).map(|d| (d.year, d.month, d.day, d.hour, d.minute, d.second))
}

#[test]
fn test_document_date_date_only() {
    let date = document_date("#set document(date: datetime(year: 2025, month: 1, day: 15))")
        .expect("date should parse");
    assert_eq!((date.0, date.1, date.2), (2025, 1, 15));
    assert_eq!((date.3, date.4, date.5), (0, 0, 0));
}

#[test]
fn test_document_date_with_time() {
    let date = document_date(
        "#set document(date: datetime(year: 2025, month: 3, day: 9, hour: 14, minute: 30, second: 5))",
    )
    .expect("date should parse");
    assert_eq!((date.0, date.1, date.2), (2025, 3, 9));
    assert_eq!((date.3, date.4, date.5), (14, 30, 5));
}

#[test]
fn test_document_date_none() {
    assert!(document_date("#set document(date: none)").is_none());
}

#[test]
fn test_document_date_auto() {
    assert!(document_date("#set document(date: auto)").is_none());
}

#[test]
fn test_document_date_absent() {
    assert!(document_date("#set document(title: [No Date Here])").is_none());
}

#[test]
fn test_document_date_partial_is_none() {
    assert!(document_date("#set document(date: datetime(year: 2025, month: 1))").is_none());
}

#[test]
fn test_document_date_today_is_none() {
    assert!(document_date("#set document(date: datetime.today())").is_none());
}

#[test]
fn test_document_date_ignores_other_set_rules() {
    let date = document_date(
        "#set page(width: 10cm)\n#set document(title: [Doc], date: datetime(year: 2024, month: 12, day: 31))",
    )
    .expect("date should parse");
    assert_eq!((date.0, date.1, date.2), (2024, 12, 31));
}

#[test]
fn impossible_dates_are_none() {
    assert!(document_date("#set document(date: datetime(year: 2023, month: 2, day: 29))").is_none());
    assert_eq!(
        document_date("#set document(date: datetime(year: 2024, month: 2, day: 29))"),
        Some((2024, 2, 29, 0, 0, 0))
    );
    assert!(document_date("#set document(date: datetime(year: 2024, month: 13, day: 1))").is_none());
    assert!(
        document_date("#set document(date: datetime(year: 2024, month: 1, day: 1, hour: 24))").is_none()
    );
    assert_eq!(
        document_date("#set document(date: datetime(year: 0x7e8, month: 1, day: 1))"),
        Some((2024, 1, 1, 0, 0, 0))
    );
}
