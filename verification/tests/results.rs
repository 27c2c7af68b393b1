use rheo::results::{CompilationResults, FormatResult};

#[test]
fn counts_accumulate_per_format() {
    let mut r = CompilationResults::new();
    r.record_success("html");
    r.record_success("html");
    r.record_failure("pdf");
    assert_eq!(r.get("html"), FormatResult { succeeded: 2, failed: 0 });
    assert_eq!(r.get("pdf"), FormatResult { succeeded: 0, failed: 1 });
    assert_eq!(r.get("epub"), FormatResult::default());
    assert!(r.has_failures());
}

#[test]
fn no_failures_without_a_failure() {
    let mut r = CompilationResults::new();
    assert!(!r.has_failures());
    r.record_success("html");
    assert!(!r.has_failures());
}

#[test]
fn summary_lines_cover_formats_that_compiled_something() {
    let mut r = CompilationResults::new();
    r.record_success("html");
    r.record_success("pdf");
    r.record_failure("pdf");
    let lines = r.log_summary(&["html", "pdf", "epub"]);
    assert_eq!(
        lines,
        vec![
            ("html".to_string(), "successfully compiled 1 file(s)".to_string()),
            ("pdf".to_string(), "compiled 1 file(s), 1 failed".to_string()),
        ]
    );
}

#[test]
fn failures_show_after_any_run_that_had_one() {
    let mut r = CompilationResults::new();
    r.record_success("html");
    r.record_success("pdf");
    assert!(!r.has_failures());
    r.record_failure("epub");
    r.record_success("epub");
    assert!(r.has_failures());
}
