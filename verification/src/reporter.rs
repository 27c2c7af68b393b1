//! The user-facing output channel.
//!
//! Everything rheo says to the person who ran it goes through a [`Reporter`].
//! The reporter lays out each message; where the text goes — stdout, or a
//! buffer a test reads back — is the caller's choice. Text written to a
//! capturing reporter is kept; text written to a streaming one is held only
//! until the caller takes it to print.

use vstd::prelude::*;
use crate::text::{decimal, push_decimal, push_str};

verus! {

/// Where a reporter's text ends up.
#[derive(Debug, Clone, Copy, PartialEq, Eq)]
pub enum Sink {
    /// Printed by the caller as it comes.
    Stdout,
    /// Kept for reading back.
    Capture,
}

/// One command's user-facing output.
pub struct Reporter {
    sink: Sink,
    out: String,
}

/// A handle for reading back what a capturing reporter wrote.
pub struct Capture {
    _private: (),
}

/// `<path>:<line>: <old>  ->  <new>` and a newline.
pub open spec fn rewrite_line(path: Seq<char>, line: nat, old: Seq<char>, new: Seq<char>) -> Seq<char> {
    path + ":"@ + decimal(line) + ": "@ + old + "  ->  "@ + new + "\n"@
}

/// `<path>: <label>` and a newline.
pub open spec fn note_line(path: Seq<char>, label: Seq<char>) -> Seq<char> {
    path + ": "@ + label + "\n"@
}

/// `<location>: `<name>` — <replacement>` and a newline.
pub open spec fn retired_line(location: Seq<char>, name: Seq<char>, replacement: Seq<char>) -> Seq<char> {
    location + ": `"@ + name + "` \u{2014} "@ + replacement + "\n"@
}

impl Reporter {
    /// Everything written and not yet taken.
    pub closed spec fn text_spec(&self) -> Seq<char> {
        self.out@
    }

    /// Where this reporter's text goes.
    pub closed spec fn sink_spec(&self) -> Sink {
        self.sink
    }

    /// The ordinary reporter, whose text the caller prints to stdout.
    pub fn stdout() -> (r: Reporter)
        ensures
            r.text_spec() == Seq::<char>::empty(),
            r.sink_spec() == Sink::Stdout,
    {
        Reporter { sink: Sink::Stdout, out: String::new() }
    }

    /// A reporter writing into a buffer, plus the handle to read it back.
    pub fn capture() -> (r: (Reporter, Capture))
        ensures
            r.0.text_spec() == Seq::<char>::empty(),
            r.0.sink_spec() == Sink::Capture,
    {
        (Reporter { sink: Sink::Capture, out: String::new() }, Capture { _private: () })
    }

    /// Where this reporter's text goes.
    pub fn sink(&self) -> (s: Sink)
        ensures
            s == self.sink_spec(),
    {
        self.sink
    }

    /// Hands over the text written since the last call, for a streaming
    /// reporter's caller to print.
    pub fn take_output(&mut self) -> (t: String)
        ensures
            t@ == old(self).text_spec(),
            final(self).text_spec() == Seq::<char>::empty(),
            final(self).sink_spec() == old(self).sink_spec(),
    {
        let mut t = String::new();
        core::mem::swap(&mut t, &mut self.out);
        t
    }

    /// One line of output.
    pub fn line(&mut self, text: &str)
        ensures
            final(self).text_spec() == old(self).text_spec() + text@ + "\n"@,
            final(self).sink_spec() == old(self).sink_spec(),
    {
        self.write(text);
        self.write("\n");
    }

    /// A rewrite made at one place in one file, reported as
    /// `<path>:<line>: <old>  ->  <new>`.
    pub fn rewrite(&mut self, path: &str, line: usize, before: &str, after: &str)
        ensures
            final(self).text_spec() == old(self).text_spec() + rewrite_line(path@, line as nat, before@, after@),
            final(self).sink_spec() == old(self).sink_spec(),
    {
        let mut s = String::new();
        push_str(&mut s, path);
        push_str(&mut s, ":");
        push_decimal(&mut s, line as u128);
        push_str(&mut s, ": ");
        push_str(&mut s, before);
        push_str(&mut s, "  ->  ");
        push_str(&mut s, after);
        self.line(s.as_str());
        proof {
            assert(old(self).text_spec() + s@ + "\n"@ =~= old(self).text_spec() + rewrite_line(
                path@,
                line as nat,
                before@,
                after@,
            ));
        }
    }

    /// Something done to a file as a whole, reported as `<path>: <label>`.
    pub fn note(&mut self, path: &str, label: &str)
        ensures
            final(self).text_spec() == old(self).text_spec() + note_line(path@, label@),
            final(self).sink_spec() == old(self).sink_spec(),
    {
        let mut s = String::new();
        push_str(&mut s, path);
        push_str(&mut s, ": ");
        push_str(&mut s, label);
        self.line(s.as_str());
        proof {
            assert(old(self).text_spec() + s@ + "\n"@ =~= old(self).text_spec() + note_line(path@, label@));
        }
    }

    /// A retired name found at `location`, and what replaces it.
    pub fn retired(&mut self, location: &str, name: &str, replacement: &str)
        ensures
            final(self).text_spec() == old(self).text_spec() + retired_line(location@, name@, replacement@),
            final(self).sink_spec() == old(self).sink_spec(),
    {
        let mut s = String::new();
        push_str(&mut s, location);
        push_str(&mut s, ": `");
        push_str(&mut s, name);
        push_str(&mut s, "` \u{2014} ");
        push_str(&mut s, replacement);
        self.line(s.as_str());
        proof {
            assert(old(self).text_spec() + s@ + "\n"@ =~= old(self).text_spec() + retired_line(
                location@,
                name@,
                replacement@,
            ));
        }
    }

    /// Output is a courtesy, never the work: writing cannot fail.
    fn write(&mut self, text: &str)
        ensures
            final(self).text_spec() == old(self).text_spec() + text@,
            final(self).sink_spec() == old(self).sink_spec(),
    {
        push_str(&mut self.out, text);
    }
}

impl Capture {
    /// Everything `reporter` has written so far, as text.
    pub fn text(&self, reporter: &Reporter) -> (t: String)
        ensures
            t@ == reporter.text_spec(),
    {
        reporter.out.clone()
    }
}

} // verus!
