use rheo::migrate::edits::{edits_fit_exec, TextEdit};
use rheo::migrate::links::rewrite_links;

fn handles(pairs: &[(&str, &str)]) -> Vec<(String, String)> {
    pairs.iter().map(|(p, h)| (p.to_string(), h.to_string())).collect()
}

#[test]
fn a_relative_link_with_a_handle_is_rewritten() {
    let (text, edits) = rewrite_links(
        "See #link(\"./about.typ\")[About] here.",
        "/p/content",
        "/p/content",
        &handles(&[("/p/content/about.typ", "about")]),
    );
    assert_eq!(text, "See #link(<about>)[About] here.");
    assert_eq!(edits.len(), 1);
    assert_eq!((edits[0].start, edits[0].end), (10, 23));
    assert_eq!(edits[0].replacement, "<about>");
}

#[test]
fn a_rooted_link_resolves_against_the_content_dir() {
    let (text, _) = rewrite_links(
        "#link(\"/chapters/intro.typ\")[Intro]",
        "/p/content/other",
        "/p/content",
        &handles(&[("/p/content/chapters/intro.typ", "chapters:intro")]),
    );
    assert_eq!(text, "#link(<chapters:intro>)[Intro]");
}

#[test]
fn external_and_unknown_links_stay_as_written() {
    let source = "#link(\"https://example.org/a.typ\")[x] #link(\"./missing.typ\")[y]";
    let (text, edits) = rewrite_links(
        source,
        "/p/content",
        "/p/content",
        &handles(&[("/p/content/about.typ", "about")]),
    );
    assert_eq!(text, source);
    assert!(edits.is_empty());
}

#[test]
fn several_links_are_rewritten_in_one_pass() {
    let (text, edits) = rewrite_links(
        "#link(\"a.typ\")[A] and #link(\"b.typ\")[B]",
        "/p/content",
        "/p/content",
        &handles(&[("/p/content/b.typ", "b"), ("/p/content/a.typ", "a")]),
    );
    assert_eq!(text, "#link(<a>)[A] and #link(<b>)[B]");
    assert_eq!(edits.len(), 2);
}

#[test]
fn overlapping_edits_do_not_fit() {
    let e = |s: usize, t: usize| TextEdit { start: s, end: t, replacement: String::new() };
    assert!(edits_fit_exec("abcdef", &vec![e(0, 2), e(3, 4)]));
    assert!(!edits_fit_exec("abcdef", &vec![e(0, 3), e(2, 4)]));
    assert!(!edits_fit_exec("abcdef", &vec![e(4, 9)]));
    assert!(!edits_fit_exec("é", &vec![e(1, 2)]));
    assert!(edits_fit_exec("é", &vec![e(0, 2)]));
}
