use rheo::migrate::edits::{apply_edits, sort_edits_exec, TextEdit};

fn edit(start: usize, end: usize, replacement: &str) -> TextEdit {
    TextEdit { start, end, replacement: replacement.to_string() }
}

#[test]
fn edits_splice_at_byte_ranges_in_any_order() {
    let mut text = "aé-bc".to_string();
    apply_edits(&mut text, vec![edit(4, 5, "YY"), edit(0, 1, "X")]);
    assert_eq!(text, "Xé-YYc");
}

#[test]
fn a_link_href_becomes_a_handle() {
    let mut text = "See #link(\"./intro.typ\")[intro] and #link(\"b.typ\").".to_string();
    let first = text.find("\"./intro.typ\"").unwrap();
    let second = text.find("\"b.typ\"").unwrap();
    apply_edits(
        &mut text,
        vec![
            edit(first, first + "\"./intro.typ\"".len(), "<intro>"),
            edit(second, second + "\"b.typ\"".len(), "<b>"),
        ],
    );
    assert_eq!(text, "See #link(<intro>)[intro] and #link(<b>).");
}

#[test]
fn no_edits_leave_the_text_alone() {
    let mut text = "unchanged".to_string();
    apply_edits(&mut text, Vec::new());
    assert_eq!(text, "unchanged");
}

#[test]
fn edits_starting_together_keep_their_order() {
    let sorted = sort_edits_exec(vec![edit(5, 5, "b"), edit(2, 3, "x"), edit(5, 5, "a")]);
    let starts: Vec<(usize, &str)> = sorted.iter().map(|e| (e.start, e.replacement.as_str())).collect();
    assert_eq!(starts, vec![(2, "x"), (5, "b"), (5, "a")]);
}
