use rheo::convergence::{convergence_line, ConvergenceScanner};

/// What a caller does once the stream is over: each iteration's length in
/// microseconds from its timestamps, then the report line.
fn finish(scanner: ConvergenceScanner) -> Option<String> {
    let durations: Vec<(u32, u64)> = scanner
        .spans()
        .into_iter()
        .map(|(n, start, end)| {
            let start: f64 = String::from_utf8(start).unwrap().parse().unwrap();
            let end: f64 = String::from_utf8(end).unwrap().parse().unwrap();
            (n, (end - start).max(0.0) as u64)
        })
        .collect();
    convergence_line(&durations)
}

/// A synthetic trace: two `iter (N)` pairs with an unrelated event
/// interleaved, plus an `args` object carrying nested braces.
fn synthetic_trace() -> String {
    [
        r#"[{"name":"iter (1)","cat":"typst","ph":"B","ts":0.0,"pid":1,"tid":1,"args":null},"#,
        r#"{"name":"layout","cat":"typst","ph":"B","ts":10.0,"pid":1,"tid":1,"args":{"file":"a.typ","line":3}},"#,
        r#"{"name":"layout","cat":"typst","ph":"E","ts":500.0,"pid":1,"tid":1,"args":{"file":"a.typ","line":3}},"#,
        r#"{"name":"iter (1)","cat":"typst","ph":"E","ts":1300000.0,"pid":1,"tid":1,"args":null},"#,
        r#"{"name":"iter (2)","cat":"typst","ph":"B","ts":1300000.0,"pid":1,"tid":1,"args":null},"#,
        r#"{"name":"iter (2)","cat":"typst","ph":"E","ts":1890000.0,"pid":1,"tid":1,"args":null}]"#,
    ].concat()
}

#[test]
fn scans_whole_buffer_in_one_write() {
    let mut scanner = ConvergenceScanner::new();
    let trace = synthetic_trace();
    assert_eq!(scanner.write(trace.as_bytes()), trace.len());
    let line = finish(scanner).unwrap();
    assert_eq!(
        line,
        "2 convergence iteration(s) — iter(1) 1.3s, iter(2) 590ms"
    );
}

#[test]
fn scans_identically_one_byte_at_a_time() {
    let mut scanner = ConvergenceScanner::new();
    for b in synthetic_trace().as_bytes() {
        scanner.write(&[*b]);
    }
    let line = finish(scanner).unwrap();
    assert_eq!(
        line,
        "2 convergence iteration(s) — iter(1) 1.3s, iter(2) 590ms"
    );
}

#[test]
fn returns_none_when_no_iterations_seen() {
    let mut scanner = ConvergenceScanner::new();
    scanner.write(
        br#"[{"name":"layout","cat":"typst","ph":"B","ts":0.0,"pid":1,"tid":1,"args":null}]"#,
    );
    assert!(finish(scanner).is_none());
}

#[test]
fn single_converged_iteration_still_reports() {
    let mut scanner = ConvergenceScanner::new();
    scanner.write(
        br#"[{"name":"iter (1)","cat":"typst","ph":"B","ts":0.0,"pid":1,"tid":1,"args":null},"#,
    );
    scanner.write(
        br#"{"name":"iter (1)","cat":"typst","ph":"E","ts":250.0,"pid":1,"tid":1,"args":null}]"#,
    );
    assert_eq!(
        finish(scanner).unwrap(),
        "1 convergence iteration(s) — iter(1) 0ms"
    );
}

// ─── Further cases ──────────────────────────────────────────────────────────

#[test]
fn iterations_are_reported_in_number_order() {
    let mut scanner = ConvergenceScanner::default();
    scanner.write([
        r#"{"name":"iter (3)","cat":"typst","ph":"B","ts":0,"#,
        r#"{"name":"iter (3)","cat":"typst","ph":"E","ts":2000,"#,
        r#"{"name":"iter (1)","cat":"typst","ph":"B","ts":1e3,"#,
        r#"{"name":"iter (1)","cat":"typst","ph":"E","ts":4e3,"#,
    ].concat().as_bytes());
    let spans = scanner.spans();
    assert_eq!(spans.len(), 2);
    assert_eq!(spans[0].0, 1);
    assert_eq!(spans[0].1, b"1e3".to_vec());
    assert_eq!(spans[1].0, 3);
}

#[test]
fn an_end_without_a_begin_is_dropped() {
    let mut scanner = ConvergenceScanner::new();
    scanner.write(br#"{"name":"iter (2)","cat":"typst","ph":"E","ts":7.5,"#);
    assert!(scanner.spans().is_empty());
}

#[test]
fn a_timestamp_that_is_not_a_number_is_ignored() {
    let mut scanner = ConvergenceScanner::new();
    scanner.write([
        r#"{"name":"iter (1)","cat":"typst","ph":"B","ts":1.2.3,"#,
        r#"{"name":"iter (1)","cat":"typst","ph":"E","ts":9,"#,
    ].concat().as_bytes());
    assert!(scanner.spans().is_empty());
}

#[test]
fn an_oversized_iteration_number_reads_as_zero() {
    let mut scanner = ConvergenceScanner::new();
    scanner.write([
        r#"{"name":"iter (99999999999)","cat":"typst","ph":"B","ts":1,"#,
        r#"{"name":"iter (99999999999)","cat":"typst","ph":"E","ts":2,"#,
    ].concat().as_bytes());
    let spans = scanner.spans();
    assert_eq!(spans.len(), 1);
    assert_eq!(spans[0].0, 0);
}

#[test]
fn report_line_formats_each_iteration() {
    assert_eq!(convergence_line(&vec![]), None);
    assert_eq!(
        convergence_line(&vec![(1, 1_250_000), (2, 999)]).unwrap(),
        "2 convergence iteration(s) — iter(1) 1.2s, iter(2) 0ms"
    );
}
