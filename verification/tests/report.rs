use rheo::report::{DiagnosticReport, ResolvedSpan, Severity, SourceFile};

fn file(name: &str, text: &str) -> SourceFile {
    SourceFile { name: name.to_string(), text: text.to_string(), generated: false }
}

#[test]
fn an_empty_report_is_empty() {
    let r = DiagnosticReport::new();
    assert!(r.is_empty());
    assert!(r.files().is_empty());
    assert!(r.diagnostics().is_empty());
}

#[test]
fn files_are_interned_by_name() {
    let mut r = DiagnosticReport::new();
    r.push_resolved(
        Severity::Error,
        "bad".to_string(),
        vec![],
        Some(ResolvedSpan { file: file("a.typ", "x"), range: 0..1 }),
        vec![("called here".to_string(), Some(ResolvedSpan { file: file("a.typ", "x"), range: 0..1 }))],
    );
    r.push_resolved(
        Severity::Warning,
        "meh".to_string(),
        vec!["try this".to_string()],
        Some(ResolvedSpan { file: file("b.typ", "y"), range: 0..1 }),
        vec![],
    );
    assert!(!r.is_empty());
    assert_eq!(r.files().len(), 2);
    assert_eq!(r.diagnostics().len(), 2);
    assert_eq!(r.diagnostics()[0].span.as_ref().unwrap().file, 0);
    assert_eq!(r.diagnostics()[0].trace[0].span.as_ref().unwrap().file, 0);
    assert_eq!(r.diagnostics()[1].span.as_ref().unwrap().file, 1);
    assert_eq!(r.diagnostics()[1].hints, vec!["try this".to_string()]);
}

#[test]
fn extending_remaps_spans_to_the_same_named_files() {
    let mut a = DiagnosticReport::new();
    a.push_resolved(
        Severity::Error,
        "first".to_string(),
        vec![],
        Some(ResolvedSpan { file: file("shared.typ", "s"), range: 0..1 }),
        vec![],
    );
    let mut b = DiagnosticReport::new();
    b.push_resolved(
        Severity::Error,
        "second".to_string(),
        vec![],
        Some(ResolvedSpan { file: file("other.typ", "o"), range: 2..3 }),
        vec![],
    );
    b.push_resolved(
        Severity::Warning,
        "third".to_string(),
        vec![],
        Some(ResolvedSpan { file: file("shared.typ", "s"), range: 4..5 }),
        vec![],
    );
    a.extend(b);
    assert_eq!(a.files().len(), 2);
    assert_eq!(a.diagnostics().len(), 3);
    let names: Vec<&str> = a
        .diagnostics()
        .iter()
        .map(|d| a.files()[d.span.as_ref().unwrap().file].name.as_str())
        .collect();
    assert_eq!(names, vec!["shared.typ", "other.typ", "shared.typ"]);
    assert_eq!(a.diagnostics()[2].span.as_ref().unwrap().range, 4..5);
}

#[test]
fn a_default_report_is_empty() {
    let r = DiagnosticReport::default();
    assert!(r.files().is_empty());
    assert!(r.diagnostics().is_empty());
}
