//! Where a build's wall-clock went, and how much output it produced.
//!
//! A build has clean phase seams — package resolution, the spine scan, the
//! Typst compile, the export, the plugin's writes. [`BuildTiming`] sums the
//! time spent in each (in first-seen order, so a summary reads in pipeline
//! order) and tallies the documents, assets and bytes written, so that one
//! summary line names the figures that identify a pathological project.

pub mod phase;
pub mod nearest;

use vstd::prelude::*;
use crate::manifest::{first_occurrences, lemma_first_occurrences_members};
use crate::text::{decimal, push_char, push_decimal, push_str};
use self::nearest::{
    nearest_whole, nearest_whole_exec, quotient_tenths, quotient_tenths_exec, seconds_tenths, seconds_tenths_exec,
};

verus! {

/// Nanoseconds in one second.
pub const NANOS_PER_SEC: u128 = 1_000_000_000;

/// The largest span a [`Duration`] holds: `u64::MAX` whole seconds plus
/// just under one more.
pub open spec fn max_nanos() -> nat {
    (u64::MAX as nat) * 1_000_000_000 + 999_999_999
}

/// A span of time with nanosecond precision, as long as `u64::MAX` seconds.
#[derive(Debug, Clone, Copy, PartialEq, Eq, PartialOrd, Ord)]
pub struct Duration {
    nanos: u128,
}

impl View for Duration {
    type V = nat;

    /// The span in nanoseconds.
    closed spec fn view(&self) -> nat {
        self.nanos as nat
    }
}

impl Duration {
    #[verifier::type_invariant]
    spec fn in_range(self) -> bool {
        self.nanos <= max_nanos()
    }

    /// The zero-length span.
    pub fn zero() -> (d: Duration)
        ensures
            d@ == 0,
    {
        Duration { nanos: 0 }
    }

    /// `ms` milliseconds.
    pub fn from_millis(ms: u64) -> (d: Duration)
        ensures
            d@ == ms as nat * 1_000_000,
    {
        assert(ms as nat * 1_000_000 <= max_nanos()) by (nonlinear_arith)
            requires ms <= u64::MAX;
        Duration { nanos: ms as u128 * 1_000_000 }
    }

    /// `us` microseconds.
    pub fn from_micros(us: u64) -> (d: Duration)
        ensures
            d@ == us as nat * 1_000,
    {
        assert(us as nat * 1_000 <= max_nanos()) by (nonlinear_arith)
            requires us <= u64::MAX;
        Duration { nanos: us as u128 * 1_000 }
    }

    /// `n` nanoseconds.
    pub fn from_nanos(n: u64) -> (d: Duration)
        ensures
            d@ == n as nat,
    {
        Duration { nanos: n as u128 }
    }

    /// Whole seconds, rounded down.
    pub fn as_secs(&self) -> (s: u64)
        ensures
            s as nat == self@ / 1_000_000_000,
    {
        proof {
            use_type_invariant(self);
        }
        (self.nanos / NANOS_PER_SEC) as u64
    }

    /// Whole milliseconds, rounded down.
    pub fn as_millis(&self) -> (ms: u128)
        ensures
            ms as nat == self@ / 1_000_000,
    {
        self.nanos / 1_000_000
    }

    /// Whole nanoseconds.
    pub fn as_nanos(&self) -> (n: u128)
        ensures
            n as nat == self@,
            self@ <= max_nanos(),
    {
        proof {
            use_type_invariant(self);
        }
        self.nanos
    }

    /// The sum of two spans, which must itself fit.
    pub fn add(self, other: Duration) -> (d: Duration)
        requires
            self@ + other@ <= max_nanos(),
        ensures
            d@ == self@ + other@,
    {
        proof {
            use_type_invariant(self);
            use_type_invariant(other);
        }
        Duration { nanos: self.nanos + other.nanos }
    }

    /// Whether `self` is at least as long as `other`.
    pub fn ge(&self, other: &Duration) -> (b: bool)
        ensures
            b == (self@ >= other@),
    {
        self.nanos >= other.nanos
    }
}

// ─── Specifications ─────────────────────────────────────────────────────────

/// One phase as the contracts see it: its name and its nanoseconds.
pub type PhaseView = (Seq<char>, nat);

/// The phases after adding `d` to `name`: summed in place when the name is
/// already present, appended otherwise.
pub open spec fn record_spec(phases: Seq<PhaseView>, name: Seq<char>, d: nat) -> Seq<PhaseView> {
    if exists|i: int| 0 <= i < phases.len() && phases[i].0 == name {
        Seq::new(
            phases.len(),
            |k: int| if phases[k].0 == name { (phases[k].0, phases[k].1 + d) } else { phases[k] },
        )
    } else {
        phases.push((name, d))
    }
}

/// No phase name appears twice.
pub open spec fn names_distinct(phases: Seq<PhaseView>) -> bool {
    forall|i: int, j: int| 0 <= i < j < phases.len() ==> phases[i].0 != phases[j].0
}

/// The sum of every phase's nanoseconds.
pub open spec fn total_spec(phases: Seq<PhaseView>) -> nat
    decreases phases.len(),
{
    if phases.len() == 0 {
        0
    } else {
        total_spec(phases.drop_last()) + phases.last().1
    }
}

/// `x` inserted into `sorted` (longest first) after every phase at least as
/// long — so an equal-length phase keeps its earlier position.
pub open spec fn insert_desc(sorted: Seq<PhaseView>, x: PhaseView) -> Seq<PhaseView>
    decreases sorted.len(),
{
    if sorted.len() == 0 {
        seq![x]
    } else if sorted.last().1 >= x.1 {
        sorted.push(x)
    } else {
        insert_desc(sorted.drop_last(), x).push(sorted.last())
    }
}

/// The phases ordered longest first, ties keeping their original order — a
/// stable sort by descending duration.
pub open spec fn sort_desc_stable(phases: Seq<PhaseView>) -> Seq<PhaseView>
    decreases phases.len(),
{
    if phases.len() == 0 {
        phases
    } else {
        insert_desc(sort_desc_stable(phases.drop_last()), phases.last())
    }
}

/// `s` is ordered longest first.
pub open spec fn is_sorted_desc(s: Seq<PhaseView>) -> bool {
    forall|i: int, j: int| 0 <= i < j < s.len() ==> s[i].1 >= s[j].1
}

/// `t` tenths written with one decimal place, e.g. `431` as `43.1`.
pub open spec fn one_decimal(t: nat) -> Seq<char> {
    decimal(t / 10) + seq!['.'] + decimal(t % 10)
}

/// `43.1 MB`, `112.3 kB`, `847 B` — SI units; the size is first taken as
/// its nearest binary value, then divided, the quotient again taken as its
/// nearest binary value, and shown to one decimal place.
pub open spec fn human_bytes_spec(bytes: nat) -> Seq<char> {
    if bytes >= 1_000_000 {
        one_decimal(quotient_tenths(nearest_whole(bytes), 1_000_000)) + " MB"@
    } else if bytes >= 1_000 {
        one_decimal(quotient_tenths(bytes, 1_000)) + " kB"@
    } else {
        decimal(bytes) + " B"@
    }
}

/// `29.4s` from a second up, `847ms` below it.
pub open spec fn human_duration_spec(nanos: nat) -> Seq<char> {
    if nanos >= 1_000_000_000 {
        one_decimal(seconds_tenths(nanos / 1_000_000_000, nanos % 1_000_000_000)) + "s"@
    } else {
        decimal(nanos / 1_000_000) + "ms"@
    }
}

/// `name 1.2s` for each phase, joined by `, `.
pub open spec fn phase_list(s: Seq<PhaseView>) -> Seq<char>
    decreases s.len(),
{
    if s.len() == 0 {
        Seq::empty()
    } else if s.len() == 1 {
        s[0].0 + " "@ + human_duration_spec(s[0].1)
    } else {
        phase_list(s.drop_last()) + ", "@ + s.last().0 + " "@ + human_duration_spec(s.last().1)
    }
}

/// The summary line: pages, bytes and total time, then the asset count when
/// there are assets, then the three slowest phases when there are any.
pub open spec fn summary_spec(phases: Seq<PhaseView>, outputs: nat, assets: nat, bytes: nat) -> Seq<char> {
    let head = decimal(outputs) + " page(s), "@ + human_bytes_spec(bytes) + " in "@
        + human_duration_spec(total_spec(phases));
    let with_assets = if assets > 0 {
        head + " (+"@ + decimal(assets) + " asset(s))"@
    } else {
        head
    };
    let slowest = sort_desc_stable(phases).take(if phases.len() < 3 { phases.len() as int } else { 3 });
    if slowest.len() > 0 {
        with_assets + " \u{2014} "@ + phase_list(slowest)
    } else {
        with_assets
    }
}

// ─── Laws ───────────────────────────────────────────────────────────────────

/// Inserting into a list ordered longest first keeps it so, adding exactly
/// the new phase.
proof fn lemma_insert_desc(sorted: Seq<PhaseView>, x: PhaseView)
    requires
        is_sorted_desc(sorted),
    ensures
        is_sorted_desc(insert_desc(sorted, x)),
        insert_desc(sorted, x).to_multiset() == sorted.to_multiset().insert(x),
        insert_desc(sorted, x).len() == sorted.len() + 1,
    decreases sorted.len(),
{
    broadcast use vstd::seq_lib::group_to_multiset_ensures;
    if sorted.len() == 0 {
        assert(seq![x] =~= Seq::<PhaseView>::empty().push(x));
    } else if sorted.last().1 >= x.1 {
    } else {
        let rest = sorted.drop_last();
        assert(is_sorted_desc(rest));
        lemma_insert_desc(rest, x);
        let ins = insert_desc(rest, x);
        assert(sorted =~= rest.push(sorted.last()));
        assert forall|i: int, j: int| 0 <= i < j < ins.push(sorted.last()).len() implies
            ins.push(sorted.last())[i].1 >= ins.push(sorted.last())[j].1 by {
            if j == ins.len() {
                // every element of `ins` is `x` or an element of `rest`
                let e = ins[i];
                assert(ins.to_multiset().count(e) > 0);
                assert(ins.contains(e));
                if e != x {
                    assert(rest.to_multiset().count(e) > 0);
                    assert(rest.contains(e));
                    let k = choose|k: int| 0 <= k < rest.len() && rest[k] == e;
                    assert(sorted[k] == e);
                    assert(sorted[k].1 >= sorted[sorted.len() - 1].1);
                }
            }
        }
    }
}

/// The phases ordered longest first hold exactly the phases given, and are
/// ordered longest first.
pub proof fn lemma_sort_desc_stable(phases: Seq<PhaseView>)
    ensures
        is_sorted_desc(sort_desc_stable(phases)),
        sort_desc_stable(phases).to_multiset() == phases.to_multiset(),
        sort_desc_stable(phases).len() == phases.len(),
    decreases phases.len(),
{
    broadcast use vstd::seq_lib::group_to_multiset_ensures;
    if phases.len() > 0 {
        lemma_sort_desc_stable(phases.drop_last());
        lemma_insert_desc(sort_desc_stable(phases.drop_last()), phases.last());
        assert(phases =~= phases.drop_last().push(phases.last()));
    }
}

proof fn lemma_total_update(phases: Seq<PhaseView>, i: int, d: nat)
    requires
        0 <= i < phases.len(),
    ensures
        total_spec(phases.update(i, (phases[i].0, phases[i].1 + d))) == total_spec(phases) + d,
    decreases phases.len(),
{
    let up = phases.update(i, (phases[i].0, phases[i].1 + d));
    if i == phases.len() - 1 {
        assert(up.drop_last() =~= phases.drop_last());
    } else {
        lemma_total_update(phases.drop_last(), i, d);
        assert(up.drop_last() =~= phases.drop_last().update(i, (phases[i].0, phases[i].1 + d)));
    }
}

/// Recording `d` under any name — new or already seen — adds exactly `d` to
/// the total.
pub proof fn lemma_record_adds_to_total(phases: Seq<PhaseView>, name: Seq<char>, d: nat)
    requires
        names_distinct(phases),
    ensures
        total_spec(record_spec(phases, name, d)) == total_spec(phases) + d,
{
    if exists|i: int| 0 <= i < phases.len() && phases[i].0 == name {
        let i = choose|i: int| 0 <= i < phases.len() && phases[i].0 == name;
        lemma_total_update(phases, i, d);
        assert(record_spec(phases, name, d) =~= phases.update(i, (phases[i].0, phases[i].1 + d)));
    } else {
        assert(phases.push((name, d)).drop_last() =~= phases);
    }
}

/// Recording never reorders phases seen before, and keeps names distinct.
pub proof fn lemma_record_keeps_order(phases: Seq<PhaseView>, name: Seq<char>, d: nat)
    requires
        names_distinct(phases),
    ensures
        names_distinct(record_spec(phases, name, d)),
        forall|i: int| 0 <= i < phases.len() ==> #[trigger] record_spec(phases, name, d)[i].0 == phases[i].0,
        record_spec(phases, name, d).len() >= phases.len(),
{
}

/// The phases after recording each `(name, nanoseconds)` of `rs` in turn,
/// starting from none.
pub open spec fn recorded(rs: Seq<PhaseView>) -> Seq<PhaseView>
    decreases rs.len(),
{
    if rs.len() == 0 {
        Seq::empty()
    } else {
        record_spec(recorded(rs.drop_last()), rs.last().0, rs.last().1)
    }
}

/// The names of `rs`, in order.
pub open spec fn names_of(rs: Seq<PhaseView>) -> Seq<Seq<char>> {
    rs.map_values(|p: PhaseView| p.0)
}

/// The nanoseconds `rs` records under `name`, summed.
pub open spec fn summed(rs: Seq<PhaseView>, name: Seq<char>) -> nat
    decreases rs.len(),
{
    if rs.len() == 0 {
        0
    } else {
        summed(rs.drop_last(), name) + if rs.last().0 == name {
            rs.last().1
        } else {
            0
        }
    }
}

proof fn lemma_summed_absent(rs: Seq<PhaseView>, name: Seq<char>)
    requires
        !names_of(rs).contains(name),
    ensures
        summed(rs, name) == 0,
    decreases rs.len(),
{
    if rs.len() > 0 {
        assert(names_of(rs)[rs.len() - 1] == rs.last().0);
        assert(names_of(rs.drop_last()) =~= names_of(rs).drop_last());
        if names_of(rs.drop_last()).contains(name) {
            let j = choose|j: int| 0 <= j < names_of(rs.drop_last()).len() && names_of(rs.drop_last())[j] == name;
            assert(names_of(rs)[j] == name);
        }
        lemma_summed_absent(rs.drop_last(), name);
    }
}

/// Recording a run of phases from none gives each distinct name once, in
/// the order it was first recorded, with the sum of everything recorded
/// under it.
pub proof fn lemma_recorded_sums_by_first_seen(rs: Seq<PhaseView>)
    ensures
        recorded(rs).len() == first_occurrences(names_of(rs)).len(),
        forall|i: int| 0 <= i < recorded(rs).len() ==> #[trigger] recorded(rs)[i] == (
            first_occurrences(names_of(rs))[i],
            summed(rs, first_occurrences(names_of(rs))[i]),
        ),
    decreases rs.len(),
{
    if rs.len() > 0 {
        let prev = rs.drop_last();
        let n = rs.last().0;
        let d = rs.last().1;
        lemma_recorded_sums_by_first_seen(prev);
        let np = names_of(prev);
        let fp = first_occurrences(np);
        let rp = recorded(prev);
        assert(names_of(rs).drop_last() =~= np);
        assert(names_of(rs).last() == n);
        lemma_first_occurrences_members(np);
        if exists|i: int| 0 <= i < rp.len() && rp[i].0 == n {
            let i = choose|i: int| 0 <= i < rp.len() && rp[i].0 == n;
            assert(rp[i] == (fp[i], summed(prev, fp[i])));
            assert(fp.contains(n));
            assert(first_occurrences(names_of(rs)) == fp);
            assert forall|k: int| 0 <= k < recorded(rs).len() implies #[trigger] recorded(rs)[k] == (
                first_occurrences(names_of(rs))[k],
                summed(rs, first_occurrences(names_of(rs))[k]),
            ) by {
                assert(rp[k] == (fp[k], summed(prev, fp[k])));
            }
        } else {
            assert forall|j: int| 0 <= j < fp.len() implies fp[j] != n by {
                assert(rp[j] == (fp[j], summed(prev, fp[j])));
            }
            assert(!fp.contains(n));
            assert(!np.contains(n));
            lemma_summed_absent(prev, n);
            assert(first_occurrences(names_of(rs)) == fp.push(n));
            assert forall|k: int| 0 <= k < recorded(rs).len() implies #[trigger] recorded(rs)[k] == (
                first_occurrences(names_of(rs))[k],
                summed(rs, first_occurrences(names_of(rs))[k]),
            ) by {
                if k < rp.len() {
                    assert(rp[k] == (fp[k], summed(prev, fp[k])));
                    assert(fp[k] != n);
                }
            }
        }
    }
}

// ─── Exec ───────────────────────────────────────────────────────────────────

/// One build's phase timings and output totals.
#[derive(Debug)]
pub struct BuildTiming {
    /// Insertion-ordered, not a map, so the summary reads in pipeline order;
    /// durations for a repeated phase are summed in place.
    phases: Vec<(String, Duration)>,
    outputs: usize,
    assets: usize,
    bytes: usize,
}

impl Default for BuildTiming {
    /// A timing with nothing recorded.
    fn default() -> (t: BuildTiming)
        ensures
            t.phases_spec() == Seq::<PhaseView>::empty(),
            t.phases_spec() == recorded(Seq::empty()),
            t.outputs_spec() == 0,
            t.assets_spec() == 0,
            t.bytes_spec() == 0,
    {
        BuildTiming::new()
    }
}

/// The view of a phase list.
pub open spec fn phases_view(v: Seq<(String, Duration)>) -> Seq<PhaseView> {
    v.map_values(|p: (String, Duration)| (p.0@, p.1@))
}

impl BuildTiming {
    #[verifier::type_invariant]
    spec fn inv(self) -> bool {
        names_distinct(phases_view(self.phases@))
    }

    /// The phases recorded so far, in first-seen order.
    pub closed spec fn phases_spec(self) -> Seq<PhaseView> {
        phases_view(self.phases@)
    }

    /// Documents written across every plugin.
    pub closed spec fn outputs_spec(self) -> nat {
        self.outputs as nat
    }

    /// Raw assets written across every plugin.
    pub closed spec fn assets_spec(self) -> nat {
        self.assets as nat
    }

    /// Bytes of compiled output across every plugin.
    pub closed spec fn bytes_spec(self) -> nat {
        self.bytes as nat
    }

    /// A timing with nothing recorded.
    pub fn new() -> (t: BuildTiming)
        ensures
            t.phases_spec() == Seq::<PhaseView>::empty(),
            t.phases_spec() == recorded(Seq::empty()),
            t.outputs_spec() == 0,
            t.assets_spec() == 0,
            t.bytes_spec() == 0,
    {
        let t = BuildTiming { phases: Vec::new(), outputs: 0, assets: 0, bytes: 0 };
        proof {
            assert(phases_view(t.phases@) =~= Seq::<PhaseView>::empty());
        }
        t
    }

    /// The phases recorded so far, in first-seen order.
    pub fn phases(&self) -> (r: Vec<(String, Duration)>)
        ensures
            phases_view(r@) == self.phases_spec(),
    {
        let mut r: Vec<(String, Duration)> = Vec::new();
        let mut i: usize = 0;
        while i < self.phases.len()
            invariant
                i <= self.phases@.len(),
                r@.len() == i,
                forall|j: int| 0 <= j < i ==> r@[j].0@ == self.phases@[j].0@ && r@[j].1 == self.phases@[j].1,
            decreases self.phases@.len() - i,
        {
            let name = self.phases[i].0.clone();
            let d = self.phases[i].1;
            r.push((name, d));
            i += 1;
        }
        proof {
            assert(phases_view(r@) =~= phases_view(self.phases@));
        }
        r
    }

    /// Add `elapsed` to `phase`, keeping first-seen order.
    pub fn record(&mut self, phase: &str, elapsed: Duration)
        requires
            forall|i: int| 0 <= i < old(self).phases_spec().len() && old(self).phases_spec()[i].0 == phase@
                ==> old(self).phases_spec()[i].1 + elapsed@ <= max_nanos(),
        ensures
            final(self).phases_spec() == record_spec(old(self).phases_spec(), phase@, elapsed@),
            forall|rs: Seq<PhaseView>| old(self).phases_spec() == recorded(rs) ==> #[trigger] recorded(
                rs.push((phase@, elapsed@)),
            ) == final(self).phases_spec(),
            final(self).outputs_spec() == old(self).outputs_spec(),
            final(self).assets_spec() == old(self).assets_spec(),
            final(self).bytes_spec() == old(self).bytes_spec(),
    {
        proof {
            use_type_invariant(&*self);
            assert forall|rs: Seq<PhaseView>| #[trigger] recorded(rs.push((phase@, elapsed@))) == record_spec(
                recorded(rs),
                phase@,
                elapsed@,
            ) by {
                assert(rs.push((phase@, elapsed@)).drop_last() =~= rs);
            }
        }
        let ghost old_view = phases_view(self.phases@);
        assert(old_view == old(self).phases_spec());
        assert forall|j: int| 0 <= j < old_view.len() && old_view[j].0 == phase@
            implies old_view[j].1 + elapsed@ <= max_nanos() by {
            assert(old(self).phases_spec()[j] == old_view[j]);
        }
        let mut i: usize = 0;
        while i < self.phases.len()
            invariant
                i <= self.phases@.len(),
                old_view == phases_view(self.phases@),
                old_view == old(self).phases_spec(),
                names_distinct(old_view),
                self.outputs == old(self).outputs,
                self.assets == old(self).assets,
                self.bytes == old(self).bytes,
                forall|j: int| 0 <= j < old_view.len() && old_view[j].0 == phase@
                    ==> old_view[j].1 + elapsed@ <= max_nanos(),
                forall|j: int| 0 <= j < i ==> old_view[j].0 != phase@,
            decreases self.phases@.len() - i,
        {
            if crate::text::str_eq(self.phases[i].0.as_str(), phase) {
                let d = self.phases[i].1;
                proof {
                    assert(old_view[i as int] == (self.phases@[i as int].0@, self.phases@[i as int].1@));
                    assert(old_view[i as int].0 == phase@);
                    assert(d@ + elapsed@ <= max_nanos());
                }
                let total = d.add(elapsed);
                let name = self.phases[i].0.clone();
                let mut phases: Vec<(String, Duration)> = Vec::new();
                core::mem::swap(&mut phases, &mut self.phases);
                phases.set(i, (name, total));
                proof {
                    assert(phases_view(phases@) =~= old_view.update(i as int, (phase@, old_view[i as int].1 + elapsed@)));
                    assert(phases_view(phases@) =~= record_spec(old_view, phase@, elapsed@));
                    assert(names_distinct(phases_view(phases@)));
                }
                self.phases = phases;
                proof {
                    assert forall|rs: Seq<PhaseView>| #[trigger] recorded(rs.push((phase@, elapsed@))) == record_spec(
                        recorded(rs),
                        phase@,
                        elapsed@,
                    ) by {
                        assert(rs.push((phase@, elapsed@)).drop_last() =~= rs);
                    }
                }
                return;
            }
            i += 1;
        }
        let name = crate::text::owned(phase);
        let mut phases: Vec<(String, Duration)> = Vec::new();
                core::mem::swap(&mut phases, &mut self.phases);
        phases.push((name, elapsed));
        proof {
            assert(phases_view(phases@) =~= old_view.push((phase@, elapsed@)));
            assert(!(exists|j: int| 0 <= j < old_view.len() && old_view[j].0 == phase@));
        }
        self.phases = phases;
    }

    /// Add one plugin's output tally: documents, raw assets, and bytes.
    pub fn record_outputs(&mut self, outputs: usize, assets: usize, bytes: usize)
        requires
            old(self).outputs_spec() + outputs <= usize::MAX,
            old(self).assets_spec() + assets <= usize::MAX,
            old(self).bytes_spec() + bytes <= usize::MAX,
        ensures
            final(self).outputs_spec() == old(self).outputs_spec() + outputs,
            final(self).assets_spec() == old(self).assets_spec() + assets,
            final(self).bytes_spec() == old(self).bytes_spec() + bytes,
            final(self).phases_spec() == old(self).phases_spec(),
    {
        proof {
            use_type_invariant(&*self);
        }
        self.outputs = self.outputs + outputs;
        self.assets = self.assets + assets;
        self.bytes = self.bytes + bytes;
    }

    /// Documents written across every plugin.
    pub fn outputs(&self) -> (n: usize)
        ensures
            n == self.outputs_spec(),
    {
        self.outputs
    }

    /// Bytes of compiled output across every plugin.
    pub fn bytes(&self) -> (n: usize)
        ensures
            n == self.bytes_spec(),
    {
        self.bytes
    }

    /// Sum of every phase.
    pub fn total(&self) -> (d: Duration)
        requires
            total_spec(self.phases_spec()) <= max_nanos(),
        ensures
            d@ == total_spec(self.phases_spec()),
    {
        let mut sum = Duration::zero();
        let mut i: usize = 0;
        while i < self.phases.len()
            invariant
                i <= self.phases@.len(),
                total_spec(phases_view(self.phases@)) <= max_nanos(),
                sum@ == total_spec(phases_view(self.phases@).take(i as int)),
            decreases self.phases@.len() - i,
        {
            proof {
                let v = phases_view(self.phases@);
                assert(v.take(i + 1).drop_last() =~= v.take(i as int));
                lemma_total_prefix_le(v, i + 1);
            }
            sum = sum.add(self.phases[i].1);
            i += 1;
        }
        proof {
            assert(phases_view(self.phases@).take(i as int) =~= phases_view(self.phases@));
        }
        sum
    }

    /// The `n` most expensive phases, longest first; ties keep pipeline order.
    pub fn slowest(&self, n: usize) -> (r: Vec<(String, Duration)>)
        ensures
            phases_view(r@) == sort_desc_stable(self.phases_spec()).take(
                if n <= self.phases_spec().len() { n as int } else { self.phases_spec().len() as int },
            ),
    {
        let mut sorted: Vec<(String, Duration)> = Vec::new();
        let mut i: usize = 0;
        while i < self.phases.len()
            invariant
                i <= self.phases@.len(),
                phases_view(sorted@) == sort_desc_stable(phases_view(self.phases@).take(i as int)),
            decreases self.phases@.len() - i,
        {
            let item = (self.phases[i].0.clone(), self.phases[i].1);
            insert_desc_exec(&mut sorted, item);
            proof {
                let v = phases_view(self.phases@);
                assert(v.take(i + 1).drop_last() =~= v.take(i as int));
                assert(v.take(i + 1).last() == (item.0@, item.1@));
            }
            i += 1;
        }
        proof {
            assert(phases_view(self.phases@).take(i as int) =~= phases_view(self.phases@));
            lemma_sort_desc_stable(self.phases_spec());
        }
        sorted.truncate(n);
        proof {
            let k = if n <= self.phases_spec().len() { n as int } else { self.phases_spec().len() as int };
            assert(phases_view(sorted@) =~= sort_desc_stable(self.phases_spec()).take(k));
        }
        sorted
    }

    /// The one-line summary, e.g. `364 page(s), 3.3 MB in 2.8s (+1 asset(s))
    /// — typst-compile 2.4s, plugin-write 322ms, fonts 28ms`.
    pub fn summary(&self) -> (s: String)
        requires
            total_spec(self.phases_spec()) <= max_nanos(),
        ensures
            s@ == summary_spec(self.phases_spec(), self.outputs_spec(), self.assets_spec(), self.bytes_spec()),
    {
        let mut out = String::new();
        push_decimal(&mut out, self.outputs as u128);
        push_str(&mut out, " page(s), ");
        let hb = human_bytes(self.bytes);
        push_str(&mut out, hb.as_str());
        push_str(&mut out, " in ");
        let hd = human_duration(self.total());
        push_str(&mut out, hd.as_str());
        if self.assets > 0 {
            push_str(&mut out, " (+");
            push_decimal(&mut out, self.assets as u128);
            push_str(&mut out, " asset(s))");
        }
        let slowest = self.slowest(3);
        if slowest.len() > 0 {
            push_str(&mut out, " \u{2014} ");
            let list = phase_list_exec(&slowest);
            push_str(&mut out, list.as_str());
        }
        proof {
            lemma_sort_desc_stable(self.phases_spec());
            reveal_strlit(" page(s), ");
            reveal_strlit(" in ");
            reveal_strlit(" (+");
            reveal_strlit(" asset(s))");
            reveal_strlit(" \u{2014} ");
        }
        out
    }
}

proof fn lemma_total_prefix_le(v: Seq<PhaseView>, k: int)
    requires
        0 <= k <= v.len(),
    ensures
        total_spec(v.take(k)) <= total_spec(v),
    decreases v.len(),
{
    if k < v.len() {
        lemma_total_prefix_le(v.drop_last(), k);
        assert(v.drop_last().take(k) =~= v.take(k));
    } else {
        assert(v.take(k) =~= v);
    }
}

/// Inserts `x` after every phase at least as long.
fn insert_desc_exec(sorted: &mut Vec<(String, Duration)>, x: (String, Duration))
    ensures
        phases_view(final(sorted)@) == insert_desc(phases_view(old(sorted)@), (x.0@, x.1@)),
{
    let ghost xv = (x.0@, x.1@);
    let ghost orig = phases_view(sorted@);
    // position: one past the last phase at least as long as `x`
    let mut pos: usize = sorted.len();
    proof {
        assert(orig.take(pos as int) =~= orig);
        assert(orig.skip(pos as int) =~= Seq::<PhaseView>::empty());
        assert(insert_desc(orig, xv) + Seq::<PhaseView>::empty() =~= insert_desc(orig, xv));
    }
    while pos > 0 && !sorted[pos - 1].1.ge(&x.1)
        invariant
            xv == (x.0@, x.1@),
            pos <= sorted@.len(),
            orig == phases_view(sorted@),
            insert_desc(orig, xv) == insert_desc(orig.take(pos as int), xv) + orig.skip(pos as int),
        decreases pos,
    {
        proof {
            let t = orig.take(pos as int);
            assert(orig[pos - 1] == (sorted@[pos - 1].0@, sorted@[pos - 1].1@));
            assert(t.last() == orig[pos - 1]);
            assert(t.last().1 < xv.1);
            assert(t.drop_last() =~= orig.take(pos - 1));
            assert(orig.skip(pos - 1) =~= seq![t.last()] + orig.skip(pos as int));
            assert(insert_desc(t, xv) == insert_desc(orig.take(pos - 1), xv).push(t.last()));
            assert(insert_desc(orig.take(pos - 1), xv).push(t.last()) + orig.skip(pos as int)
                =~= insert_desc(orig.take(pos - 1), xv) + orig.skip(pos - 1));
        }
        pos -= 1;
    }
    proof {
        let t = orig.take(pos as int);
        if pos > 0 {
            assert(orig[pos - 1] == (sorted@[pos - 1].0@, sorted@[pos - 1].1@));
            assert(t.last().1 >= xv.1);
            assert(insert_desc(t, xv) == t.push(xv));
        } else {
            assert(t =~= Seq::<PhaseView>::empty());
            assert(insert_desc(t, xv) == seq![xv]);
        }
    }
    sorted.insert(pos, x);
    proof {
        assert(phases_view(sorted@) =~= orig.take(pos as int).push(xv) + orig.skip(pos as int));
        if pos == 0 {
            assert(orig.take(0).push(xv) =~= seq![xv]);
        }
    }
}

/// `name 1.2s` for each phase, joined by `, `.
fn phase_list_exec(s: &Vec<(String, Duration)>) -> (r: String)
    ensures
        r@ == phase_list(phases_view(s@)),
{
    let mut out = String::new();
    let mut i: usize = 0;
    while i < s.len()
        invariant
            i <= s@.len(),
            out@ == phase_list(phases_view(s@).take(i as int)),
        decreases s@.len() - i,
    {
        proof {
            let v = phases_view(s@);
            assert(v.take(i + 1).drop_last() =~= v.take(i as int));
            reveal_strlit(", ");
            reveal_strlit(" ");
        }
        if i > 0 {
            push_str(&mut out, ", ");
        }
        push_str(&mut out, s[i].0.as_str());
        push_str(&mut out, " ");
        let d = human_duration(s[i].1);
        push_str(&mut out, d.as_str());
        proof {
            let v = phases_view(s@);
            if i == 0 {
                assert(v.take(1) =~= seq![v[0]]);
            }
        }
        i += 1;
    }
    proof {
        assert(phases_view(s@).take(i as int) =~= phases_view(s@));
    }
    out
}

/// Appends `t` tenths with one decimal place.
fn push_one_decimal(out: &mut String, t: u128)
    ensures
        final(out)@ == old(out)@ + one_decimal(t as nat),
{
    push_decimal(out, t / 10);
    push_char(out, '.');
    push_decimal(out, t % 10);
    proof {
        assert(old(out)@ + decimal((t / 10) as nat) + seq!['.'] + decimal((t % 10) as nat)
            =~= old(out)@ + one_decimal(t as nat));
    }
}

/// `43.1 MB`, `112.3 kB`, `847 B` — SI units, comparable with file sizes a
/// reader gets from `du`.
pub fn human_bytes(bytes: usize) -> (s: String)
    ensures
        s@ == human_bytes_spec(bytes as nat),
{
    let mut out = String::new();
    proof {
        reveal_strlit(" MB");
        reveal_strlit(" kB");
        reveal_strlit(" B");
    }
    if bytes >= 1_000_000 {
        let whole = nearest_whole_exec(bytes as u128);
        let t = quotient_tenths_exec(whole, 1_000_000);
        push_one_decimal(&mut out, t);
        push_str(&mut out, " MB");
    } else if bytes >= 1_000 {
        let t = quotient_tenths_exec(bytes as u128, 1_000);
        push_one_decimal(&mut out, t);
        push_str(&mut out, " kB");
    } else {
        push_decimal(&mut out, bytes as u128);
        push_str(&mut out, " B");
    }
    out
}

/// `29.4s` from a second up, `847ms` below it.
pub fn human_duration(d: Duration) -> (s: String)
    ensures
        s@ == human_duration_spec(d@),
{
    proof {
        reveal_strlit("s");
        reveal_strlit("ms");
    }
    let nanos = d.as_nanos();
    let mut out = String::new();
    if nanos >= NANOS_PER_SEC {
        let t = seconds_tenths_exec(nanos / NANOS_PER_SEC, nanos % NANOS_PER_SEC);
        push_one_decimal(&mut out, t);
        push_str(&mut out, "s");
    } else {
        push_decimal(&mut out, nanos / 1_000_000);
        push_str(&mut out, "ms");
    }
    out
}

} // verus!
