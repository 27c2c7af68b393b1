//! Per-format success and failure counts across a build.

use vstd::prelude::*;
use crate::text::{decimal, owned, push_decimal, push_str, str_eq};

verus! {

/// Result counts for a single output format.
#[derive(Debug, Default, Clone, Copy, PartialEq, Eq)]
pub struct FormatResult {
    pub succeeded: usize,
    pub failed: usize,
}

/// Aggregated compilation results across all output formats, keyed by
/// plugin name.
#[derive(Debug)]
pub struct CompilationResults {
    results: Vec<(String, FormatResult)>,
}

/// The counts recorded for `name`, zero when nothing was recorded.
pub open spec fn counts_of(m: Map<Seq<char>, FormatResult>, name: Seq<char>) -> FormatResult {
    if m.contains_key(name) {
        m[name]
    } else {
        FormatResult { succeeded: 0, failed: 0 }
    }
}

/// The log message for one format's counts, or `None` when it compiled
/// nothing.
pub open spec fn summary_message(r: FormatResult) -> Option<Seq<char>> {
    if r.succeeded + r.failed == 0 {
        None
    } else if r.failed == 0 {
        Some("successfully compiled "@ + decimal(r.succeeded as nat) + " file(s)"@)
    } else {
        Some("compiled "@ + decimal(r.succeeded as nat) + " file(s), "@ + decimal(r.failed as nat) + " failed"@)
    }
}

/// The `(format, message)` pairs a summary logs for `names`, in order.
pub open spec fn summary_spec(m: Map<Seq<char>, FormatResult>, names: Seq<Seq<char>>) -> Seq<(Seq<char>, Seq<char>)>
    decreases names.len(),
{
    if names.len() == 0 {
        Seq::empty()
    } else {
        let rest = summary_spec(m, names.drop_last());
        match summary_message(counts_of(m, names.last())) {
            Some(msg) => rest.push((names.last(), msg)),
            None => rest,
        }
    }
}

/// The counts after recording each `(name, failed)` of `es` in turn,
/// starting from none: a failure when `failed`, a success otherwise.
pub open spec fn after_records(es: Seq<(Seq<char>, bool)>) -> Map<Seq<char>, FormatResult>
    decreases es.len(),
{
    if es.len() == 0 {
        Map::empty()
    } else {
        let m = after_records(es.drop_last());
        let n = es.last().0;
        let c = counts_of(m, n);
        m.insert(
            n,
            if es.last().1 {
                FormatResult { succeeded: c.succeeded, failed: (c.failed + 1) as usize }
            } else {
                FormatResult { succeeded: (c.succeeded + 1) as usize, failed: c.failed }
            },
        )
    }
}

/// How many of `es` are failures of `name`.
pub open spec fn failures_of(es: Seq<(Seq<char>, bool)>, name: Seq<char>) -> nat
    decreases es.len(),
{
    if es.len() == 0 {
        0
    } else {
        failures_of(es.drop_last(), name) + if es.last().0 == name && es.last().1 {
            1nat
        } else {
            0nat
        }
    }
}

proof fn lemma_failure_counts(es: Seq<(Seq<char>, bool)>, name: Seq<char>)
    requires
        es.len() < usize::MAX,
    ensures
        counts_of(after_records(es), name).failed == failures_of(es, name),
        failures_of(es, name) <= es.len(),
        failures_of(es, name) > 0 ==> exists|i: int| 0 <= i < es.len() && es[i].0 == name && #[trigger] es[i].1,
    decreases es.len(),
{
    if es.len() > 0 {
        let prev = es.drop_last();
        lemma_failure_counts(prev, name);
        if failures_of(prev, name) > 0 {
            let i = choose|i: int| 0 <= i < prev.len() && prev[i].0 == name && #[trigger] prev[i].1;
            assert(es[i] == prev[i]);
        }
        if es.last().0 != name {
            assert(counts_of(after_records(es), name) == counts_of(after_records(prev), name));
        } else {
            assert(es[es.len() - 1] == es.last());
        }
    }
}

/// After any run of recorded successes and failures, starting from none,
/// some format has failures exactly when some recorded compilation failed,
/// whichever names were used.
pub proof fn lemma_failures_iff_one_failed(es: Seq<(Seq<char>, bool)>)
    requires
        es.len() < usize::MAX,
    ensures
        (exists|k: Seq<char>| after_records(es).contains_key(k) && #[trigger] after_records(es)[k].failed > 0)
            <==> (exists|i: int| 0 <= i < es.len() && #[trigger] es[i].1),
{
    let m = after_records(es);
    if exists|k: Seq<char>| m.contains_key(k) && #[trigger] m[k].failed > 0 {
        let k = choose|k: Seq<char>| m.contains_key(k) && #[trigger] m[k].failed > 0;
        lemma_failure_counts(es, k);
        let i = choose|i: int| 0 <= i < es.len() && es[i].0 == k && #[trigger] es[i].1;
        assert(es[i].1);
    }
    if exists|i: int| 0 <= i < es.len() && #[trigger] es[i].1 {
        let i = choose|i: int| 0 <= i < es.len() && #[trigger] es[i].1;
        let k = es[i].0;
        lemma_failures_positive(es, i);
        lemma_failure_counts(es, k);
        assert(m.contains_key(k) && m[k].failed > 0);
    }
}

proof fn lemma_failures_positive(es: Seq<(Seq<char>, bool)>, i: int)
    requires
        0 <= i < es.len(),
        es[i].1,
    ensures
        failures_of(es, es[i].0) > 0,
    decreases es.len(),
{
    if i < es.len() - 1 {
        assert(es.drop_last()[i] == es[i]);
        lemma_failures_positive(es.drop_last(), i);
    }
}

impl CompilationResults {
    #[verifier::type_invariant]
    spec fn inv(self) -> bool {
        forall|i: int, j: int| 0 <= i < j < self.results@.len() ==> self.results@[i].0@ != self.results@[j].0@
    }

    /// The counts recorded per plugin name.
    pub closed spec fn view_map(self) -> Map<Seq<char>, FormatResult> {
        Map::new(
            |k: Seq<char>| exists|i: int| 0 <= i < self.results@.len() && self.results@[i].0@ == k,
            |k: Seq<char>| self.results@[choose|i: int| 0 <= i < self.results@.len() && self.results@[i].0@ == k].1,
        )
    }

    /// An empty results tracker.
    pub fn new() -> (r: CompilationResults)
        ensures
            r.view_map() == Map::<Seq<char>, FormatResult>::empty(),
            r.view_map() == after_records(Seq::empty()),
    {
        let r = CompilationResults { results: Vec::new() };
        proof {
            assert(r.view_map() =~= Map::<Seq<char>, FormatResult>::empty());
        }
        r
    }

    /// Index of `name`'s entry, if recorded.
    fn position(&self, name: &str) -> (r: Option<usize>)
        ensures
            r matches Some(i) ==> i < self.results@.len() && self.results@[i as int].0@ == name@,
            r is None ==> forall|i: int| 0 <= i < self.results@.len() ==> self.results@[i].0@ != name@,
    {
        let mut i: usize = 0;
        while i < self.results.len()
            invariant
                i <= self.results@.len(),
                forall|j: int| 0 <= j < i ==> self.results@[j].0@ != name@,
            decreases self.results@.len() - i,
        {
            if str_eq(self.results[i].0.as_str(), name) {
                return Some(i);
            }
            i += 1;
        }
        None
    }

    proof fn lemma_lookup(self, i: int)
        requires
            0 <= i < self.results@.len(),
            forall|a: int, b: int| 0 <= a < b < self.results@.len() ==> self.results@[a].0@ != self.results@[b].0@,
        ensures
            self.view_map().contains_key(self.results@[i].0@),
            self.view_map()[self.results@[i].0@] == self.results@[i].1,
    {
        let k = self.results@[i].0@;
        let c = choose|j: int| 0 <= j < self.results@.len() && self.results@[j].0@ == k;
        assert(c == i) by {
            if c != i {
                if c < i {
                    assert(self.results@[c].0@ != self.results@[i].0@);
                } else {
                    assert(self.results@[i].0@ != self.results@[c].0@);
                }
            }
        }
    }

    /// Adds `ds` successes and `df` failures to `name`'s counts.
    fn bump(&mut self, name: &str, ds: usize, df: usize)
        requires
            ds + counts_of(old(self).view_map(), name@).succeeded <= usize::MAX,
            df + counts_of(old(self).view_map(), name@).failed <= usize::MAX,
        ensures
            final(self).view_map() == old(self).view_map().insert(
                name@,
                FormatResult {
                    succeeded: (counts_of(old(self).view_map(), name@).succeeded + ds) as usize,
                    failed: (counts_of(old(self).view_map(), name@).failed + df) as usize,
                },
            ),
    {
        proof {
            use_type_invariant(&*self);
        }
        let ghost old_self = *self;
        let mut results: Vec<(String, FormatResult)> = Vec::new();
        core::mem::swap(&mut results, &mut self.results);
        let tmp = CompilationResults { results };
        let pos = tmp.position(name);
        let mut results = tmp.results;
        match pos {
            Some(i) => {
                proof {
                    old_self.lemma_lookup(i as int);
                }
                let cur = results[i].1;
                let entry_name = results[i].0.clone();
                results.set(i, (entry_name, FormatResult { succeeded: cur.succeeded + ds, failed: cur.failed + df }));
                let new_self = CompilationResults { results };
                proof {
                    assert forall|j: int| 0 <= j < new_self.results@.len() implies
                        #[trigger] new_self.results@[j].0@ == old_self.results@[j].0@ by {}
                    assert forall|k: Seq<char>| #[trigger] new_self.view_map().contains_key(k)
                        == old_self.view_map().insert(name@, new_self.results@[i as int].1).contains_key(k) by {
                        if k == name@ {
                            new_self.lemma_lookup(i as int);
                        } else {
                            if new_self.view_map().contains_key(k) {
                                let j = choose|j: int| 0 <= j < new_self.results@.len() && new_self.results@[j].0@ == k;
                                assert(old_self.results@[j].0@ == k);
                            }
                            if old_self.view_map().contains_key(k) {
                                let j = choose|j: int| 0 <= j < old_self.results@.len() && old_self.results@[j].0@ == k;
                                assert(new_self.results@[j].0@ == k);
                            }
                        }
                    }
                    assert forall|k: Seq<char>| new_self.view_map().contains_key(k) implies
                        #[trigger] new_self.view_map()[k] == old_self.view_map().insert(name@, new_self.results@[i as int].1)[k] by {
                        let j = choose|j: int| 0 <= j < new_self.results@.len() && new_self.results@[j].0@ == k;
                        new_self.lemma_lookup(j);
                        if j != i {
                            old_self.lemma_lookup(j);
                        }
                    }
                    assert(new_self.view_map() =~= old_self.view_map().insert(name@, new_self.results@[i as int].1));
                }
                *self = new_self;
            },
            None => {
                let ghost old_results = results@;
                results.push((owned(name), FormatResult { succeeded: ds, failed: df }));
                let new_self = CompilationResults { results };
                proof {
                    let n = old_results.len() as int;
                    assert forall|k: Seq<char>| #[trigger] new_self.view_map().contains_key(k)
                        == old_self.view_map().insert(name@, new_self.results@[n].1).contains_key(k) by {
                        if k == name@ {
                            new_self.lemma_lookup(n);
                        } else {
                            if new_self.view_map().contains_key(k) {
                                let j = choose|j: int| 0 <= j < new_self.results@.len() && new_self.results@[j].0@ == k;
                                assert(j < n);
                                assert(old_self.results@[j].0@ == k);
                            }
                            if old_self.view_map().contains_key(k) {
                                let j = choose|j: int| 0 <= j < old_self.results@.len() && old_self.results@[j].0@ == k;
                                assert(new_self.results@[j].0@ == k);
                            }
                        }
                    }
                    assert forall|k: Seq<char>| new_self.view_map().contains_key(k) implies
                        #[trigger] new_self.view_map()[k] == old_self.view_map().insert(name@, new_self.results@[n].1)[k] by {
                        let j = choose|j: int| 0 <= j < new_self.results@.len() && new_self.results@[j].0@ == k;
                        new_self.lemma_lookup(j);
                        if j != n {
                            old_self.lemma_lookup(j);
                        }
                    }
                    assert(new_self.view_map() =~= old_self.view_map().insert(name@, new_self.results@[n].1));
                }
                *self = new_self;
            },
        }
    }

    /// Record a successful compilation for the plugin `name`.
    pub fn record_success(&mut self, name: &str)
        requires
            counts_of(old(self).view_map(), name@).succeeded < usize::MAX,
        ensures
            final(self).view_map() == old(self).view_map().insert(
                name@,
                FormatResult {
                    succeeded: (counts_of(old(self).view_map(), name@).succeeded + 1) as usize,
                    failed: counts_of(old(self).view_map(), name@).failed,
                },
            ),
            forall|es: Seq<(Seq<char>, bool)>| old(self).view_map() == after_records(es) ==> #[trigger] after_records(
                es.push((name@, false)),
            ) == final(self).view_map(),
    {
        self.bump(name, 1, 0);
        proof {
            assert forall|es: Seq<(Seq<char>, bool)>| old(self).view_map() == after_records(es) implies #[trigger] after_records(
                es.push((name@, false)),
            ) == self.view_map() by {
                assert(es.push((name@, false)).drop_last() =~= es);
            }
        }
    }

    /// Record a failed compilation for the plugin `name`.
    pub fn record_failure(&mut self, name: &str)
        requires
            counts_of(old(self).view_map(), name@).failed < usize::MAX,
        ensures
            final(self).view_map() == old(self).view_map().insert(
                name@,
                FormatResult {
                    succeeded: counts_of(old(self).view_map(), name@).succeeded,
                    failed: (counts_of(old(self).view_map(), name@).failed + 1) as usize,
                },
            ),
            forall|es: Seq<(Seq<char>, bool)>| old(self).view_map() == after_records(es) ==> #[trigger] after_records(
                es.push((name@, true)),
            ) == final(self).view_map(),
    {
        self.bump(name, 0, 1);
        proof {
            assert forall|es: Seq<(Seq<char>, bool)>| old(self).view_map() == after_records(es) implies #[trigger] after_records(
                es.push((name@, true)),
            ) == self.view_map() by {
                assert(es.push((name@, true)).drop_last() =~= es);
            }
        }
    }

    /// The counts for the plugin `name` (zero when none were recorded).
    pub fn get(&self, name: &str) -> (r: FormatResult)
        ensures
            r == counts_of(self.view_map(), name@),
    {
        proof {
            use_type_invariant(self);
        }
        match self.position(name) {
            Some(i) => {
                proof {
                    self.lemma_lookup(i as int);
                }
                self.results[i].1
            },
            None => {
                proof {
                    if self.view_map().contains_key(name@) {
                        let j = choose|j: int| 0 <= j < self.results@.len() && self.results@[j].0@ == name@;
                        assert(self.results@[j].0@ != name@);
                    }
                }
                FormatResult { succeeded: 0, failed: 0 }
            },
        }
    }

    /// Whether any compilation failed.
    pub fn has_failures(&self) -> (b: bool)
        ensures
            b == exists|k: Seq<char>| self.view_map().contains_key(k) && #[trigger] self.view_map()[k].failed > 0,
    {
        proof {
            use_type_invariant(self);
        }
        let mut i: usize = 0;
        while i < self.results.len()
            invariant
                i <= self.results@.len(),
                forall|a: int, b: int| 0 <= a < b < self.results@.len() ==> self.results@[a].0@ != self.results@[b].0@,
                forall|j: int| 0 <= j < i ==> self.results@[j].1.failed == 0,
            decreases self.results@.len() - i,
        {
            if self.results[i].1.failed > 0 {
                proof {
                    self.lemma_lookup(i as int);
                    assert(self.view_map()[self.results@[i as int].0@].failed > 0);
                }
                return true;
            }
            i += 1;
        }
        proof {
            assert forall|k: Seq<char>| self.view_map().contains_key(k) implies !(#[trigger] self.view_map()[k].failed > 0) by {
                let j = choose|j: int| 0 <= j < self.results@.len() && self.results@[j].0@ == k;
                self.lemma_lookup(j);
            }
        }
        false
    }

    /// The `(format, message)` lines that summarize the counts of `names`,
    /// for each name that compiled anything: a success count when nothing
    /// failed, otherwise both counts.
    pub fn log_summary(&self, names: &[&str]) -> (lines: Vec<(String, String)>)
        ensures
            lines@.map_values(|l: (String, String)| (l.0@, l.1@)) == summary_spec(
                self.view_map(),
                names@.map_values(|n: &str| n@),
            ),
    {
        let mut lines: Vec<(String, String)> = Vec::new();
        let mut i: usize = 0;
        while i < names.len()
            invariant
                i <= names@.len(),
                lines@.map_values(|l: (String, String)| (l.0@, l.1@)) == summary_spec(
                    self.view_map(),
                    names@.map_values(|n: &str| n@).take(i as int),
                ),
            decreases names@.len() - i,
        {
            let name = names[i];
            let result = self.get(name);
            let total_ok = result.succeeded as u128 + result.failed as u128;
            let ghost before = lines@;
            proof {
                let ns = names@.map_values(|n: &str| n@);
                assert(ns.take(i + 1).drop_last() =~= ns.take(i as int));
                assert(ns.take(i + 1).last() == name@);
                reveal_strlit("successfully compiled ");
                reveal_strlit(" file(s)");
                reveal_strlit("compiled ");
                reveal_strlit(" file(s), ");
                reveal_strlit(" failed");
            }
            if total_ok > 0 {
                let mut msg = String::new();
                if result.failed == 0 {
                    push_str(&mut msg, "successfully compiled ");
                    push_decimal(&mut msg, result.succeeded as u128);
                    push_str(&mut msg, " file(s)");
                } else {
                    push_str(&mut msg, "compiled ");
                    push_decimal(&mut msg, result.succeeded as u128);
                    push_str(&mut msg, " file(s), ");
                    push_decimal(&mut msg, result.failed as u128);
                    push_str(&mut msg, " failed");
                }
                lines.push((owned(name), msg));
                proof {
                    assert(lines@.map_values(|l: (String, String)| (l.0@, l.1@)) =~= before.map_values(
                        |l: (String, String)| (l.0@, l.1@),
                    ).push((name@, msg@)));
                }
            }
            i += 1;
        }
        proof {
            assert(names@.map_values(|n: &str| n@).take(i as int) =~= names@.map_values(|n: &str| n@));
        }
        lines
    }
}

} // verus!
