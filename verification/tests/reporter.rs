use rheo::reporter::{Reporter, Sink};

#[test]
fn capture_reads_back_every_line() {
    let (mut reporter, captured) = Reporter::capture();
    reporter.line("plain");
    reporter.rewrite("content/a.typ", 12, "old", "new");
    reporter.note("content/b.typ", "shimmed");
    reporter.retired("[html]", "feed_title", "moved to @rheo/feeds");

    assert_eq!(
        captured.text(&reporter),
        "plain\n\
         content/a.typ:12: old  ->  new\n\
         content/b.typ: shimmed\n\
         [html]: `feed_title` — moved to @rheo/feeds\n"
    );
}

#[test]
fn stdout_reporter_hands_lines_out_as_they_come() {
    let mut reporter = Reporter::stdout();
    assert_eq!(reporter.sink(), Sink::Stdout);
    reporter.line("one");
    assert_eq!(reporter.take_output(), "one\n");
    reporter.line("two");
    assert_eq!(reporter.take_output(), "two\n");
}
