//! Reads Typst's introspection-convergence iterations off a `typst_timing`
//! Chrome-tracing JSON stream without ever materializing the trace.
//!
//! `typst::compile` re-runs layout until introspected state stabilizes, and
//! each pass is a timing scope named `iter (N)`. The serializer writes every
//! event's fields in a fixed order (`name`, `cat`, `ph`, `ts`, ...), so each
//! `iter (N)` event's phase and timestamp can be found by matching three
//! literal byte runs in sequence rather than parsing JSON. The scanner is a
//! byte-at-a-time state machine, so what it finds never depends on how the
//! stream was split into writes.

use vstd::prelude::*;
use crate::text::{decimal, push_decimal, push_str};
use crate::timing::{human_duration, human_duration_spec, Duration};

verus! {

// ─── The literals ───────────────────────────────────────────────────────────

/// `"name":"iter (` — the start of an iteration event.
pub open spec fn prefix_lit() -> Seq<u8> {
    seq![34u8, 110u8, 97u8, 109u8, 101u8, 34u8, 58u8, 34u8, 105u8, 116u8, 101u8, 114u8, 32u8, 40u8]
}

/// `)","cat":"typst","ph":"` — from the iteration number to the phase.
pub open spec fn mid_lit() -> Seq<u8> {
    seq![
        41u8, 34u8, 44u8, 34u8, 99u8, 97u8, 116u8, 34u8, 58u8, 34u8, 116u8, 121u8, 112u8, 115u8, 116u8,
        34u8, 44u8, 34u8, 112u8, 104u8, 34u8, 58u8, 34u8,
    ]
}

/// `","ts":` — from the phase to the timestamp.
pub open spec fn ts_lit() -> Seq<u8> {
    seq![34u8, 44u8, 34u8, 116u8, 115u8, 34u8, 58u8]
}

fn prefix_bytes() -> (v: Vec<u8>)
    ensures
        v@ == prefix_lit(),
{
    let v = vec![34u8, 110u8, 97u8, 109u8, 101u8, 34u8, 58u8, 34u8, 105u8, 116u8, 101u8, 114u8, 32u8, 40u8];
    assert(v@ =~= prefix_lit());
    v
}

fn mid_bytes() -> (v: Vec<u8>)
    ensures
        v@ == mid_lit(),
{
    let v = vec![
        41u8, 34u8, 44u8, 34u8, 99u8, 97u8, 116u8, 34u8, 58u8, 34u8, 116u8, 121u8, 112u8, 115u8, 116u8,
        34u8, 44u8, 34u8, 112u8, 104u8, 34u8, 58u8, 34u8,
    ];
    assert(v@ =~= mid_lit());
    v
}

fn ts_bytes() -> (v: Vec<u8>)
    ensures
        v@ == ts_lit(),
{
    let v = vec![34u8, 44u8, 34u8, 116u8, 115u8, 34u8, 58u8];
    assert(v@ =~= ts_lit());
    v
}

// ─── Numbers as text ────────────────────────────────────────────────────────

pub open spec fn is_digit_byte(b: u8) -> bool {
    48u8 <= b <= 57u8
}

/// The value of a run of decimal digits.
pub open spec fn digits_value(d: Seq<u8>) -> nat
    decreases d.len(),
{
    if d.len() == 0 {
        0
    } else {
        10 * digits_value(d.drop_last()) + (d.last() - 48u8) as nat
    }
}

/// What `str::parse::<u32>().unwrap_or(0)` makes of a run of digits: its
/// value, or 0 when it is empty or too large for a `u32`.
pub open spec fn iteration_number(d: Seq<u8>) -> u32 {
    if d.len() > 0 && digits_value(d) <= u32::MAX {
        digits_value(d) as u32
    } else {
        0
    }
}

/// A byte that may appear in a JSON number.
pub open spec fn is_number_byte(b: u8) -> bool {
    is_digit_byte(b) || b == 45u8 || b == 43u8 || b == 46u8 || b == 101u8 || b == 69u8
}

/// The end of the run of digits in `s` starting at `i`.
pub open spec fn digit_run(s: Seq<u8>, i: int) -> int
    decreases s.len() - i,
{
    if 0 <= i < s.len() && is_digit_byte(s[i]) {
        digit_run(s, i + 1)
    } else {
        i
    }
}

/// `s` is a decimal floating-point number as std's `f64` parser reads one:
/// an optional sign, digits with at most one `.` and at least one digit,
/// then optionally `e` or `E`, an optional sign and at least one digit.
pub open spec fn is_float_text(s: Seq<u8>) -> bool {
    let p0: int = if s.len() > 0 && (s[0] == 43u8 || s[0] == 45u8) { 1 } else { 0 };
    let a = digit_run(s, p0);
    let dot = a < s.len() && s[a] == 46u8;
    let b = if dot { digit_run(s, a + 1) } else { a };
    let mantissa = (a - p0) + (if dot { b - (a + 1) } else { 0 });
    &&& mantissa >= 1
    &&& (b == s.len() || {
        let q: int = if b + 1 < s.len() && (s[b + 1] == 43u8 || s[b + 1] == 45u8) { b + 2 } else { b + 1 };
        &&& (s[b] == 101u8 || s[b] == 69u8)
        &&& digit_run(s, q) > q
        &&& digit_run(s, q) == s.len()
    })
}

// ─── The state machine ──────────────────────────────────────────────────────

/// Where the scanner is within an `iter (N)` event.
pub enum ScanState {
    /// Looking for the first byte of the prefix.
    Searching,
    /// This many prefix bytes have matched.
    MatchingPrefix(usize),
    /// Reading the iteration number's digits.
    ReadingIterNum(Vec<u8>),
    /// This many bytes of the middle literal have matched, for iteration `n`.
    MatchingMid(usize, u32),
    /// The next byte is the phase of iteration `n`.
    ReadingPh(u32),
    /// This many bytes of the timestamp literal have matched.
    MatchingTsLit(usize, u32, u8),
    /// Reading the timestamp of iteration `n` in phase `ph`.
    ReadingTs(u32, u8, Vec<u8>),
}

/// A [`ScanState`] with its digit buffers as sequences.
pub enum StateView {
    Searching,
    MatchingPrefix(int),
    ReadingIterNum(Seq<u8>),
    MatchingMid(int, u32),
    ReadingPh(u32),
    MatchingTsLit(int, u32, u8),
    ReadingTs(u32, u8, Seq<u8>),
}

impl View for ScanState {
    type V = StateView;

    open spec fn view(&self) -> StateView {
        match self {
            ScanState::Searching => StateView::Searching,
            ScanState::MatchingPrefix(i) => StateView::MatchingPrefix(*i as int),
            ScanState::ReadingIterNum(d) => StateView::ReadingIterNum(d@),
            ScanState::MatchingMid(i, n) => StateView::MatchingMid(*i as int, *n),
            ScanState::ReadingPh(n) => StateView::ReadingPh(*n),
            ScanState::MatchingTsLit(i, n, ph) => StateView::MatchingTsLit(*i as int, *n, *ph),
            ScanState::ReadingTs(n, ph, d) => StateView::ReadingTs(*n, *ph, d@),
        }
    }
}

/// An iteration number being read holds only digits.
pub open spec fn digits_only(s: StateView) -> bool {
    s matches StateView::ReadingIterNum(d) ==> forall|k: int| 0 <= k < d.len() ==> is_digit_byte(
        #[trigger] d[k],
    )
}

/// An iteration event: its number, its phase byte and its timestamp text.
pub type EventView = (u32, u8, Seq<u8>);

/// The state after seeing `b` with nothing matched.
pub open spec fn restart(b: u8) -> StateView {
    if b == prefix_lit()[0] {
        StateView::MatchingPrefix(1)
    } else {
        StateView::Searching
    }
}

/// One byte of input: the next state, and the event it completes, if any.
/// A mismatch inside a literal starts over on the same byte; a byte that
/// ends a timestamp reports the event when the timestamp is a number.
pub open spec fn step(s: StateView, b: u8) -> (StateView, Option<EventView>) {
    match s {
        StateView::Searching => (restart(b), None),
        StateView::MatchingPrefix(i) => if 0 <= i < prefix_lit().len() && b == prefix_lit()[i] {
            (
                if i + 1 == prefix_lit().len() {
                    StateView::ReadingIterNum(Seq::empty())
                } else {
                    StateView::MatchingPrefix(i + 1)
                },
                None,
            )
        } else {
            (restart(b), None)
        },
        StateView::ReadingIterNum(d) => if is_digit_byte(b) {
            (StateView::ReadingIterNum(d.push(b)), None)
        } else if b == 41u8 {
            (StateView::MatchingMid(1, iteration_number(d)), None)
        } else {
            (StateView::Searching, None)
        },
        StateView::MatchingMid(i, n) => if 0 <= i < mid_lit().len() && b == mid_lit()[i] {
            (
                if i + 1 == mid_lit().len() {
                    StateView::ReadingPh(n)
                } else {
                    StateView::MatchingMid(i + 1, n)
                },
                None,
            )
        } else {
            (restart(b), None)
        },
        StateView::ReadingPh(n) => (StateView::MatchingTsLit(0, n, b), None),
        StateView::MatchingTsLit(i, n, ph) => if 0 <= i < ts_lit().len() && b == ts_lit()[i] {
            (
                if i + 1 == ts_lit().len() {
                    StateView::ReadingTs(n, ph, Seq::empty())
                } else {
                    StateView::MatchingTsLit(i + 1, n, ph)
                },
                None,
            )
        } else {
            (restart(b), None)
        },
        StateView::ReadingTs(n, ph, d) => if is_number_byte(b) {
            (StateView::ReadingTs(n, ph, d.push(b)), None)
        } else {
            (restart(b), if is_float_text(d) { Some((n, ph, d)) } else { None })
        },
    }
}

/// The state after `bytes`, and the events they completed, in order.
pub open spec fn feed(s: StateView, bytes: Seq<u8>) -> (StateView, Seq<EventView>)
    decreases bytes.len(),
{
    if bytes.len() == 0 {
        (s, Seq::empty())
    } else {
        let (mid, before) = feed(s, bytes.drop_last());
        let (next, found) = step(mid, bytes.last());
        (
            next,
            match found {
                Some(e) => before.push(e),
                None => before,
            },
        )
    }
}

/// Scanning two pieces one after the other finds what scanning them joined
/// finds: the result never depends on where the stream was split.
pub proof fn lemma_feed_split(s: StateView, a: Seq<u8>, b: Seq<u8>)
    ensures
        feed(s, a + b) == (feed(feed(s, a).0, b).0, feed(s, a).1 + feed(feed(s, a).0, b).1),
    decreases b.len(),
{
    if b.len() == 0 {
        assert(a + b =~= a);
        assert(feed(s, a).1 + Seq::<EventView>::empty() =~= feed(s, a).1);
    } else {
        lemma_feed_split(s, a, b.drop_last());
        assert((a + b).drop_last() =~= a + b.drop_last());
        let (m, e) = feed(feed(s, a).0, b.drop_last());
        let (n, f) = step(m, b.last());
        match f {
            Some(x) => {
                assert(feed(s, a).1 + e.push(x) =~= (feed(s, a).1 + e).push(x));
            },
            None => {},
        }
    }
}

/// The chunks of a stream written one after another, joined.
pub open spec fn joined(cs: Seq<Seq<u8>>) -> Seq<u8>
    decreases cs.len(),
{
    if cs.len() == 0 {
        Seq::empty()
    } else {
        joined(cs.drop_last()) + cs.last()
    }
}

/// The state and the events after scanning each chunk in turn.
pub open spec fn feed_chunks(s: StateView, cs: Seq<Seq<u8>>) -> (StateView, Seq<EventView>)
    decreases cs.len(),
{
    if cs.len() == 0 {
        (s, Seq::empty())
    } else {
        let before = feed_chunks(s, cs.drop_last());
        let after = feed(before.0, cs.last());
        (after.0, before.1 + after.1)
    }
}

/// A stream written in any chunks, one after another, is scanned as when
/// it is written whole: the same state, the same events.
pub proof fn lemma_feed_chunks(s: StateView, cs: Seq<Seq<u8>>)
    ensures
        feed_chunks(s, cs) == feed(s, joined(cs)),
    decreases cs.len(),
{
    if cs.len() == 0 {
        assert(feed(s, Seq::<u8>::empty()).1 =~= Seq::<EventView>::empty());
    } else {
        lemma_feed_chunks(s, cs.drop_last());
        lemma_feed_split(s, joined(cs.drop_last()), cs.last());
    }
}

// ─── Pairing and the report ─────────────────────────────────────────────────

/// One iteration's begin and end timestamps, as text.
pub type SpanView = (u32, Seq<u8>, Seq<u8>);

/// Walking the events in order: the iterations begun and not yet ended
/// (a later begin replacing an earlier one), and the spans closed so far. An
/// end with no open begin, and any other phase, is ignored.
pub open spec fn pair_scan(events: Seq<EventView>) -> (Map<u32, Seq<u8>>, Seq<SpanView>)
    decreases events.len(),
{
    if events.len() == 0 {
        (Map::empty(), Seq::empty())
    } else {
        let (open, spans) = pair_scan(events.drop_last());
        let (n, ph, ts) = events.last();
        if ph == 66u8 {
            (open.insert(n, ts), spans)
        } else if ph == 69u8 && open.contains_key(n) {
            (open.remove(n), spans.push((n, open[n], ts)))
        } else {
            (open, spans)
        }
    }
}

/// `x` placed after every span whose iteration is not later than its own.
pub open spec fn insert_by_iteration(sorted: Seq<SpanView>, x: SpanView) -> Seq<SpanView>
    decreases sorted.len(),
{
    if sorted.len() == 0 {
        seq![x]
    } else if sorted.last().0 <= x.0 {
        sorted.push(x)
    } else {
        insert_by_iteration(sorted.drop_last(), x).push(sorted.last())
    }
}

/// The spans ordered by iteration, ties keeping their order — a stable sort.
pub open spec fn sort_by_iteration(spans: Seq<SpanView>) -> Seq<SpanView>
    decreases spans.len(),
{
    if spans.len() == 0 {
        spans
    } else {
        insert_by_iteration(sort_by_iteration(spans.drop_last()), spans.last())
    }
}

/// `iter(N) 1.3s` for each iteration and its length in microseconds, joined
/// by `, `.
pub open spec fn iteration_list(d: Seq<(u32, u64)>) -> Seq<char>
    decreases d.len(),
{
    if d.len() == 0 {
        Seq::empty()
    } else {
        let item = "iter("@ + decimal(d.last().0 as nat) + ") "@ + human_duration_spec(
            d.last().1 as nat * 1000,
        );
        if d.len() == 1 {
            item
        } else {
            iteration_list(d.drop_last()) + ", "@ + item
        }
    }
}

/// The one-line report for iterations and their lengths, e.g.
/// `2 convergence iteration(s) — iter(1) 1.3s, iter(2) 590ms`; nothing when
/// no iteration was seen.
pub open spec fn convergence_line_spec(d: Seq<(u32, u64)>) -> Option<Seq<char>> {
    if d.len() == 0 {
        None
    } else {
        Some(decimal(d.len()) + " convergence iteration(s) \u{2014} "@ + iteration_list(d))
    }
}

/// Scans a Chrome-tracing byte stream for `iter (N)` events.
pub struct ConvergenceScanner {
    state: ScanState,
    /// `(iteration, ph, timestamp)`, in arrival order.
    events: Vec<(u32, u8, Vec<u8>)>,
    prefix: Vec<u8>,
    mid: Vec<u8>,
    ts: Vec<u8>,
}

/// The events as sequences.
pub open spec fn events_view(events: Seq<(u32, u8, Vec<u8>)>) -> Seq<EventView> {
    events.map_values(|e: (u32, u8, Vec<u8>)| (e.0, e.1, e.2@))
}

impl ConvergenceScanner {
    #[verifier::type_invariant]
    spec fn wf(self) -> bool {
        &&& self.prefix@ == prefix_lit()
        &&& self.mid@ == mid_lit()
        &&& self.ts@ == ts_lit()
        &&& digits_only(self.state@)
    }

    /// Where the scanner is.
    pub closed spec fn state_view(self) -> StateView {
        self.state@
    }

    /// What it has found so far.
    pub closed spec fn found(self) -> Seq<EventView> {
        events_view(self.events@)
    }

    /// A scanner that has seen nothing.
    pub fn new() -> (s: Self)
        ensures
            s.state_view() == StateView::Searching,
            s.found() == Seq::<EventView>::empty(),
            s.state_view() == feed_chunks(StateView::Searching, Seq::empty()).0,
            s.found() == feed_chunks(StateView::Searching, Seq::empty()).1,
    {
        let s = ConvergenceScanner {
            state: ScanState::Searching,
            events: Vec::new(),
            prefix: prefix_bytes(),
            mid: mid_bytes(),
            ts: ts_bytes(),
        };
        assert(events_view(s.events@) =~= Seq::<EventView>::empty());
        s
    }

    fn restart_exec(&self, b: u8) -> (s: ScanState)
        ensures
            s@ == restart(b),
    {
        proof {
            use_type_invariant(self);
        }
        if b == self.prefix[0] {
            ScanState::MatchingPrefix(1)
        } else {
            ScanState::Searching
        }
    }

    /// Advances the state machine by one byte.
    fn feed_byte(&mut self, b: u8)
        ensures
            final(self).state_view() == step(old(self).state_view(), b).0,
            final(self).found() == (match step(old(self).state_view(), b).1 {
                Some(e) => old(self).found().push(e),
                None => old(self).found(),
            }),
    {
        proof {
            use_type_invariant(&*self);
        }
        let mut current = ScanState::Searching;
        core::mem::swap(&mut self.state, &mut current);
        let next = match current {
            ScanState::Searching => self.restart_exec(b),
            ScanState::MatchingPrefix(i) => {
                if i < self.prefix.len() && b == self.prefix[i] {
                    if i + 1 == self.prefix.len() {
                        ScanState::ReadingIterNum(Vec::new())
                    } else {
                        ScanState::MatchingPrefix(i + 1)
                    }
                } else {
                    self.restart_exec(b)
                }
            },
            ScanState::ReadingIterNum(mut digits) => {
                if 48u8 <= b && b <= 57u8 {
                    digits.push(b);
                    ScanState::ReadingIterNum(digits)
                } else if b == 41u8 {
                    ScanState::MatchingMid(1, parse_iteration(&digits))
                } else {
                    ScanState::Searching
                }
            },
            ScanState::MatchingMid(i, n) => {
                if i < self.mid.len() && b == self.mid[i] {
                    if i + 1 == self.mid.len() {
                        ScanState::ReadingPh(n)
                    } else {
                        ScanState::MatchingMid(i + 1, n)
                    }
                } else {
                    self.restart_exec(b)
                }
            },
            ScanState::ReadingPh(n) => ScanState::MatchingTsLit(0, n, b),
            ScanState::MatchingTsLit(i, n, ph) => {
                if i < self.ts.len() && b == self.ts[i] {
                    if i + 1 == self.ts.len() {
                        ScanState::ReadingTs(n, ph, Vec::new())
                    } else {
                        ScanState::MatchingTsLit(i + 1, n, ph)
                    }
                } else {
                    self.restart_exec(b)
                }
            },
            ScanState::ReadingTs(n, ph, mut digits) => {
                if (48u8 <= b && b <= 57u8) || b == 45u8 || b == 43u8 || b == 46u8 || b == 101u8
                    || b == 69u8 {
                    digits.push(b);
                    ScanState::ReadingTs(n, ph, digits)
                } else {
                    let next = self.restart_exec(b);
                    if is_float_text_exec(&digits) {
                        let ghost before = self.events@;
                        let mut events = Vec::new();
                        core::mem::swap(&mut self.events, &mut events);
                        events.push((n, ph, digits));
                        self.events = events;
                        proof {
                            assert(events_view(self.events@) =~= events_view(before).push(
                                (n, ph, old(self).state_view()->ReadingTs_2),
                            ));
                        }
                    }
                    next
                }
            },
        };
        self.state = next;
    }

    /// Pairs each iteration's begin and end timestamps, in iteration order:
    /// an end closes the iteration's latest open begin, and ends without one
    /// are dropped.
    pub fn spans(self) -> (r: Vec<(u32, Vec<u8>, Vec<u8>)>)
        ensures
            spans_view(r@) == sort_by_iteration(pair_scan(self.found()).1),
    {
        let ghost all = self.found();
        let mut scanner = self;
        proof {
            use_type_invariant(&scanner);
        }
        let mut rest = Vec::new();
        core::mem::swap(&mut scanner.events, &mut rest);
        let total = rest.len();
        let mut open: std::collections::HashMap<u32, Vec<u8>> = std::collections::HashMap::new();
        let mut closed: Vec<(u32, Vec<u8>, Vec<u8>)> = Vec::new();
        let mut i: usize = 0;
        while rest.len() > 0
            invariant
                i + rest@.len() == all.len(),
                all.len() == total,
                events_view(rest@) == all.skip(i as int),
                open@.dom() == pair_scan(all.take(i as int)).0.dom(),
                forall|k: u32| #[trigger] open@.contains_key(k) ==> open@[k]@ == pair_scan(all.take(i as int)).0[k],
                spans_view(closed@) == pair_scan(all.take(i as int)).1,
            decreases rest@.len(),
        {
            let ghost before = pair_scan(all.take(i as int));
            proof {
                assert(all.take(i + 1).drop_last() =~= all.take(i as int));
                assert(events_view(rest@)[0] == all[i as int]);
                assert(rest@.remove(0) =~= rest@.skip(1));
                assert(events_view(rest@.skip(1)) =~= events_view(rest@).skip(1));
                assert(all.skip(i as int).skip(1) =~= all.skip(i + 1));
            }
            let (n, ph, ts) = rest.remove(0);
            proof {
                assert(all.take(i + 1).last() == (n, ph, ts@));
            }
            if ph == 66u8 {
                open.insert(n, ts);
                proof {
                    assert(open@.dom() =~= before.0.insert(n, ts@).dom());
                }
            } else if ph == 69u8 {
                match open.remove(&n) {
                    Some(start) => {
                        let ghost c0 = closed@;
                        closed.push((n, start, ts));
                        proof {
                            assert(open@.dom() =~= before.0.remove(n).dom());
                            assert(spans_view(closed@) =~= spans_view(c0).push((n, start@, ts@)));
                        }
                    },
                    None => {},
                }
            }
            i += 1;
        }
        proof {
            assert(all.take(i as int) =~= all);
        }
        let mut sorted: Vec<(u32, Vec<u8>, Vec<u8>)> = Vec::new();
        let ghost unsorted = spans_view(closed@);
        let count = closed.len();
        let mut j: usize = 0;
        while closed.len() > 0
            invariant
                j + closed@.len() == unsorted.len(),
                unsorted.len() == count,
                spans_view(closed@) == unsorted.skip(j as int),
                spans_view(sorted@) == sort_by_iteration(unsorted.take(j as int)),
            decreases closed@.len(),
        {
            proof {
                assert(unsorted.take(j + 1).drop_last() =~= unsorted.take(j as int));
                assert(spans_view(closed@)[0] == unsorted[j as int]);
                assert(closed@.remove(0) =~= closed@.skip(1));
                assert(spans_view(closed@.skip(1)) =~= spans_view(closed@).skip(1));
                assert(unsorted.skip(j as int).skip(1) =~= unsorted.skip(j + 1));
            }
            let x = closed.remove(0);
            insert_by_iteration_exec(&mut sorted, x);
            j += 1;
        }
        proof {
            assert(unsorted.take(j as int) =~= unsorted);
        }
        sorted
    }

    /// Feeds every byte of `buf`, in order, and reports them all taken.
    pub fn write(&mut self, buf: &[u8]) -> (n: usize)
        ensures
            n == buf@.len(),
            final(self).state_view() == feed(old(self).state_view(), buf@).0,
            final(self).found() == old(self).found() + feed(old(self).state_view(), buf@).1,
            forall|s: StateView, cs: Seq<Seq<u8>>|
                old(self).state_view() == feed_chunks(s, cs).0 && old(self).found() == feed_chunks(s, cs).1 ==> (
                #[trigger] feed_chunks(s, cs.push(buf@))).0 == final(self).state_view() && feed_chunks(
                    s,
                    cs.push(buf@),
                ).1 == final(self).found(),
    {
        let mut i: usize = 0;
        while i < buf.len()
            invariant
                i <= buf@.len(),
                self.state_view() == feed(old(self).state_view(), buf@.take(i as int)).0,
                self.found() == old(self).found() + feed(old(self).state_view(), buf@.take(i as int)).1,
            decreases buf@.len() - i,
        {
            proof {
                assert(buf@.take(i + 1).drop_last() =~= buf@.take(i as int));
            }
            let ghost f0 = self.found();
            self.feed_byte(buf[i]);
            proof {
                let (m, e) = feed(old(self).state_view(), buf@.take(i as int));
                match step(m, buf@[i as int]).1 {
                    Some(x) => {
                        assert(old(self).found() + e.push(x) =~= (old(self).found() + e).push(x));
                    },
                    None => {},
                }
            }
            i += 1;
        }
        proof {
            assert(buf@.take(i as int) =~= buf@);
            assert forall|s: StateView, cs: Seq<Seq<u8>>|
                old(self).state_view() == feed_chunks(s, cs).0 && old(self).found() == feed_chunks(s, cs).1 implies (
                #[trigger] feed_chunks(s, cs.push(buf@))).0 == self.state_view() && feed_chunks(s, cs.push(buf@)).1
                == self.found() by {
                assert(cs.push(buf@).drop_last() =~= cs);
            }
        }
        buf.len()
    }
}

/// The spans as sequences.
pub open spec fn spans_view(spans: Seq<(u32, Vec<u8>, Vec<u8>)>) -> Seq<SpanView> {
    spans.map_values(|e: (u32, Vec<u8>, Vec<u8>)| (e.0, e.1@, e.2@))
}

/// Inserts `x` after every span whose iteration is not later than its own.
fn insert_by_iteration_exec(sorted: &mut Vec<(u32, Vec<u8>, Vec<u8>)>, x: (u32, Vec<u8>, Vec<u8>))
    ensures
        spans_view(final(sorted)@) == insert_by_iteration(spans_view(old(sorted)@), (x.0, x.1@, x.2@)),
{
    let ghost xv = (x.0, x.1@, x.2@);
    let ghost orig = spans_view(sorted@);
    let mut pos: usize = sorted.len();
    proof {
        assert(orig.take(pos as int) =~= orig);
        assert(orig.skip(pos as int) =~= Seq::<SpanView>::empty());
        assert(insert_by_iteration(orig, xv) + Seq::<SpanView>::empty() =~= insert_by_iteration(orig, xv));
    }
    while pos > 0 && sorted[pos - 1].0 > x.0
        invariant
            xv == (x.0, x.1@, x.2@),
            pos <= sorted@.len(),
            orig == spans_view(sorted@),
            insert_by_iteration(orig, xv) == insert_by_iteration(orig.take(pos as int), xv) + orig.skip(
                pos as int,
            ),
        decreases pos,
    {
        proof {
            let t = orig.take(pos as int);
            assert(orig[pos - 1] == (sorted@[pos - 1].0, sorted@[pos - 1].1@, sorted@[pos - 1].2@));
            assert(t.last() == orig[pos - 1]);
            assert(t.drop_last() =~= orig.take(pos - 1));
            assert(orig.skip(pos - 1) =~= seq![t.last()] + orig.skip(pos as int));
            assert(insert_by_iteration(t, xv) == insert_by_iteration(orig.take(pos - 1), xv).push(t.last()));
            assert(insert_by_iteration(orig.take(pos - 1), xv).push(t.last()) + orig.skip(pos as int)
                =~= insert_by_iteration(orig.take(pos - 1), xv) + orig.skip(pos - 1));
        }
        pos -= 1;
    }
    proof {
        let t = orig.take(pos as int);
        if pos > 0 {
            assert(orig[pos - 1] == (sorted@[pos - 1].0, sorted@[pos - 1].1@, sorted@[pos - 1].2@));
            assert(insert_by_iteration(t, xv) == t.push(xv));
        } else {
            assert(t =~= Seq::<SpanView>::empty());
            assert(insert_by_iteration(t, xv) == seq![xv]);
        }
    }
    sorted.insert(pos, x);
    proof {
        assert(spans_view(sorted@) =~= orig.take(pos as int).push(xv) + orig.skip(pos as int));
        if pos == 0 {
            assert(orig.take(0).push(xv) =~= seq![xv]);
        }
    }
}

/// `iter(N) 1.3s` for each iteration and its length in microseconds, joined
/// by `, `.
fn iteration_list_exec(d: &Vec<(u32, u64)>) -> (r: String)
    ensures
        r@ == iteration_list(d@),
{
    let mut out = String::new();
    let mut i: usize = 0;
    while i < d.len()
        invariant
            i <= d@.len(),
            out@ == iteration_list(d@.take(i as int)),
        decreases d@.len() - i,
    {
        proof {
            assert(d@.take(i + 1).drop_last() =~= d@.take(i as int));
            reveal_strlit("iter(");
            reveal_strlit(") ");
            reveal_strlit(", ");
        }
        if i > 0 {
            push_str(&mut out, ", ");
        }
        push_str(&mut out, "iter(");
        push_decimal(&mut out, d[i].0 as u128);
        push_str(&mut out, ") ");
        let hd = human_duration(Duration::from_micros(d[i].1));
        push_str(&mut out, hd.as_str());
        i += 1;
    }
    proof {
        assert(d@.take(i as int) =~= d@);
    }
    out
}

/// The one-line report for iterations and their lengths in microseconds,
/// e.g. `2 convergence iteration(s) — iter(1) 1.3s, iter(2) 590ms`; `None`
/// when no iteration was seen at all.
pub fn convergence_line(d: &Vec<(u32, u64)>) -> (r: Option<String>)
    ensures
        r matches Some(s) ==> convergence_line_spec(d@) == Some(s@),
        r is None <==> convergence_line_spec(d@) is None,
{
    if d.len() == 0 {
        return None;
    }
    let mut out = String::new();
    push_decimal(&mut out, d.len() as u128);
    push_str(&mut out, " convergence iteration(s) \u{2014} ");
    let list = iteration_list_exec(d);
    push_str(&mut out, list.as_str());
    Some(out)
}

impl Default for ConvergenceScanner {
    /// A scanner that has seen nothing.
    fn default() -> (s: Self)
        ensures
            s.state_view() == StateView::Searching,
            s.found() == Seq::<EventView>::empty(),
    {
        Self::new()
    }
}

/// `str::parse::<u32>().unwrap_or(0)` on a run of digits.
fn parse_iteration(d: &Vec<u8>) -> (n: u32)
    requires
        forall|k: int| 0 <= k < d@.len() ==> is_digit_byte(#[trigger] d@[k]),
    ensures
        n == iteration_number(d@),
{
    if d.len() == 0 {
        return 0;
    }
    let mut acc: u64 = 0;
    let mut i: usize = 0;
    while i < d.len()
        invariant
            i <= d@.len(),
            d@.len() > 0,
            forall|k: int| 0 <= k < d@.len() ==> is_digit_byte(#[trigger] d@[k]),
            acc == digits_value(d@.take(i as int)),
            acc <= u32::MAX,
        decreases d@.len() - i,
    {
        proof {
            assert(d@.take(i + 1).drop_last() =~= d@.take(i as int));
        }
        let next = acc * 10 + (d[i] - 48u8) as u64;
        if next > 0xffff_ffff {
            proof {
                lemma_digits_value_grows(d@, i as int + 1);
            }
            return 0;
        }
        acc = next;
        i += 1;
    }
    proof {
        assert(d@.take(i as int) =~= d@);
    }
    acc as u32
}

/// More digits never make a smaller number.
proof fn lemma_digits_value_grows(d: Seq<u8>, n: int)
    requires
        0 <= n <= d.len(),
        forall|k: int| 0 <= k < d.len() ==> is_digit_byte(#[trigger] d[k]),
    ensures
        digits_value(d) >= digits_value(d.take(n)),
    decreases d.len() - n,
{
    if n < d.len() {
        assert(d.take(n + 1).drop_last() =~= d.take(n));
        lemma_digits_value_grows(d, n + 1);
    } else {
        assert(d.take(n) =~= d);
    }
}

/// The end of the digit run in `s` from `i`.
fn digit_run_exec(s: &Vec<u8>, i: usize) -> (e: usize)
    requires
        i <= s@.len(),
    ensures
        e == digit_run(s@, i as int),
        i <= e <= s@.len(),
{
    let mut j = i;
    while j < s.len() && 48u8 <= s[j] && s[j] <= 57u8
        invariant
            i <= j <= s@.len(),
            digit_run(s@, i as int) == digit_run(s@, j as int),
        decreases s@.len() - j,
    {
        j += 1;
    }
    j
}

/// Whether `s` reads as an `f64`.
fn is_float_text_exec(s: &Vec<u8>) -> (r: bool)
    ensures
        r == is_float_text(s@),
{
    let p0: usize = if s.len() > 0 && (s[0] == 43u8 || s[0] == 45u8) { 1 } else { 0 };
    let a = digit_run_exec(s, p0);
    let dot = a < s.len() && s[a] == 46u8;
    let b = if dot { digit_run_exec(s, a + 1) } else { a };
    let mantissa = (a - p0) + (if dot { b - (a + 1) } else { 0 });
    if mantissa < 1 {
        return false;
    }
    if b == s.len() {
        return true;
    }
    if !(s[b] == 101u8 || s[b] == 69u8) {
        return false;
    }
    let q: usize = if b + 1 < s.len() && (s[b + 1] == 43u8 || s[b + 1] == 45u8) { b + 2 } else { b + 1 };
    let c = digit_run_exec(s, q);
    c > q && c == s.len()
}

} // verus!
