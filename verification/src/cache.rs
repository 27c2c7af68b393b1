//! A content-addressed cache for the per-file work a build repeats on every
//! rebuild. The key is a hash of the content, so a hit hands back what the
//! same work gave before: nothing here can serve a value stored under another
//! key, and a stored value never changes. Past its capacity the cache sheds
//! the half of its entries read least recently.

use vstd::prelude::*;
use std::collections::HashMap;
use vstd::std_specs::iter::IteratorSpec;

verus! {

/// What typst-utils' `hash128` gives for a string.
pub uninterp spec fn typst_hash128(s: Seq<char>) -> u128;

/// `typst_utils::hash128` of a string: a 128-bit SipHash with fixed keys,
/// so the same text hashes the same everywhere.
#[verifier::external_body]
pub(crate) fn hash128_of(text: &str) -> (h: u128)
    ensures
        h == typst_hash128(text@),
{
    typst_utils::hash128(text)
}

/// How many of `ticks` are below `t`.
pub open spec fn count_below(ticks: Seq<u64>, t: u64) -> nat
    decreases ticks.len(),
{
    if ticks.len() == 0 {
        0
    } else {
        count_below(ticks.drop_last(), t) + if ticks.last() < t {
            1nat
        } else {
            0nat
        }
    }
}

/// How many of `ticks` are below `t`, counted.
fn count_below_exec(ticks: &Vec<u64>, t: u64) -> (n: usize)
    ensures
        n == count_below(ticks@, t),
{
    let mut n: usize = 0;
    let mut j: usize = 0;
    while j < ticks.len()
        invariant
            j <= ticks@.len(),
            n == count_below(ticks@.take(j as int), t),
            n <= j,
        decreases ticks@.len() - j,
    {
        proof {
            assert(ticks@.take(j + 1).drop_last() =~= ticks@.take(j as int));
            assert(ticks@.take(j + 1).last() == ticks@[j as int]);
        }
        if ticks[j] < t {
            n += 1;
        }
        j += 1;
    }
    proof {
        assert(ticks@.take(j as int) =~= ticks@);
    }
    n
}

/// How many of `u` have at least `h` of `ticks` below them.
pub open spec fn count_warm(u: Seq<u64>, ticks: Seq<u64>, h: nat) -> nat
    decreases u.len(),
{
    if u.len() == 0 {
        0
    } else {
        count_warm(u.drop_last(), ticks, h) + if count_below(ticks, u.last()) >= h {
            1nat
        } else {
            0nat
        }
    }
}

/// Whether no tick repeats.
pub open spec fn distinct_ticks(t: Seq<u64>) -> bool {
    forall|i: int, j: int| 0 <= i < j < t.len() ==> t[i] != t[j]
}

proof fn lemma_count_warm_remove(u: Seq<u64>, ticks: Seq<u64>, h: nat, m: int)
    requires
        0 <= m < u.len(),
    ensures
        count_warm(u, ticks, h) == count_warm(u.remove(m), ticks, h) + if count_below(ticks, u[m]) >= h {
            1nat
        } else {
            0nat
        },
    decreases u.len(),
{
    if m < u.len() - 1 {
        lemma_count_warm_remove(u.drop_last(), ticks, h, m);
        assert(u.remove(m).drop_last() =~= u.drop_last().remove(m));
        assert(u.remove(m).last() == u.last());
    } else {
        assert(u.remove(m) =~= u.drop_last());
    }
}

proof fn lemma_count_below_remove(t: Seq<u64>, m: int, x: u64)
    requires
        0 <= m < t.len(),
    ensures
        count_below(t, x) == count_below(t.remove(m), x) + if t[m] < x {
            1nat
        } else {
            0nat
        },
    decreases t.len(),
{
    if m < t.len() - 1 {
        lemma_count_below_remove(t.drop_last(), m, x);
        assert(t.remove(m).drop_last() =~= t.drop_last().remove(m));
        assert(t.remove(m).last() == t.last());
    } else {
        assert(t.remove(m) =~= t.drop_last());
    }
}

proof fn lemma_count_warm_same(u: Seq<u64>, t1: Seq<u64>, t2: Seq<u64>, h: nat)
    requires
        forall|i: int| 0 <= i < u.len() ==> count_below(t1, #[trigger] u[i]) == count_below(t2, u[i]),
    ensures
        count_warm(u, t1, h) == count_warm(u, t2, h),
    decreases u.len(),
{
    if u.len() > 0 {
        assert forall|i: int| 0 <= i < u.drop_last().len() implies count_below(t1, #[trigger] u.drop_last()[i])
            == count_below(t2, u.drop_last()[i]) by {
            assert(u.drop_last()[i] == u[i]);
        }
        lemma_count_warm_same(u.drop_last(), t1, t2, h);
        assert(count_below(t1, u[u.len() - 1]) == count_below(t2, u[u.len() - 1]));
    }
}

proof fn lemma_count_below_bounds(t: Seq<u64>, x: u64)
    ensures
        count_below(t, x) <= t.len(),
        t.contains(x) ==> count_below(t, x) < t.len(),
        (forall|j: int| 0 <= j < t.len() ==> #[trigger] t[j] < x) ==> count_below(t, x) == t.len(),
    decreases t.len(),
{
    if t.len() > 0 {
        lemma_count_below_bounds(t.drop_last(), x);
        if t.contains(x) && t.last() != x {
            let i = choose|i: int| 0 <= i < t.len() && t[i] == x;
            assert(t.drop_last()[i] == x);
        }
        if forall|j: int| 0 <= j < t.len() ==> #[trigger] t[j] < x {
            assert forall|j: int| 0 <= j < t.drop_last().len() implies #[trigger] t.drop_last()[j] < x by {
                assert(t.drop_last()[j] == t[j]);
            }
            assert(t[t.len() - 1] < x);
        }
    }
}

proof fn lemma_max_index(t: Seq<u64>) -> (m: int)
    requires
        t.len() > 0,
        distinct_ticks(t),
    ensures
        0 <= m < t.len(),
        forall|j: int| 0 <= j < t.len() && j != m ==> #[trigger] t[j] < t[m],
    decreases t.len(),
{
    if t.len() == 1 {
        0
    } else {
        let d = t.drop_last();
        assert(distinct_ticks(d)) by {
            assert forall|i: int, j: int| 0 <= i < j < d.len() implies d[i] != d[j] by {
                assert(d[i] == t[i] && d[j] == t[j]);
            }
        }
        let md = lemma_max_index(d);
        if t[md] < t.last() {
            assert forall|j: int| 0 <= j < t.len() && j != t.len() - 1 implies #[trigger] t[j] < t[t.len() - 1] by {
                if j != md {
                    assert(d[j] < d[md]);
                }
            }
            t.len() - 1
        } else {
            assert(t[md] != t[t.len() - 1]);
            assert forall|j: int| 0 <= j < t.len() && j != md implies #[trigger] t[j] < t[md] by {
                if j < t.len() - 1 {
                    assert(d[j] < d[md]);
                }
            }
            md
        }
    }
}

/// Among distinct ticks, exactly `n - h` have at least `h` others below them.
proof fn lemma_count_warm_exact(t: Seq<u64>, h: nat)
    requires
        distinct_ticks(t),
        h <= t.len(),
    ensures
        count_warm(t, t, h) == t.len() - h,
    decreases t.len(),
{
    if t.len() == 0 {
    } else {
        let m = lemma_max_index(t);
        let r = t.remove(m);
        assert(distinct_ticks(r)) by {
            assert forall|i: int, j: int| 0 <= i < j < r.len() implies r[i] != r[j] by {
                let a = if i < m { i } else { i + 1 };
                let b = if j < m { j } else { j + 1 };
                assert(r[i] == t[a] && r[j] == t[b]);
            }
        }
        lemma_count_warm_remove(t, t, h, m);
        assert forall|i: int| 0 <= i < r.len() implies count_below(t, #[trigger] r[i]) == count_below(r, r[i]) by {
            lemma_count_below_remove(t, m, r[i]);
            let a = if i < m { i } else { i + 1 };
            assert(r[i] == t[a]);
            assert(t[a] < t[m]);
        }
        lemma_count_warm_same(r, t, r, h);
        lemma_count_below_remove(t, m, t[m]);
        assert forall|j: int| 0 <= j < r.len() implies #[trigger] r[j] < t[m] by {
            let a = if j < m { j } else { j + 1 };
            assert(r[j] == t[a]);
        }
        lemma_count_below_bounds(r, t[m]);
        assert(count_below(t, t[m]) == t.len() - 1);
        if h < t.len() {
            lemma_count_warm_exact(r, h);
        } else {
            lemma_count_warm_none(r);
        }
    }
}

/// No tick has as many below it as there are ticks.
proof fn lemma_count_warm_none(t: Seq<u64>)
    ensures
        count_warm(t, t, (t.len() + 1) as nat) == 0,
{
    lemma_count_warm_none_in(t, t, (t.len() + 1) as nat);
}

proof fn lemma_count_warm_none_in(u: Seq<u64>, t: Seq<u64>, h: nat)
    requires
        h > t.len(),
    ensures
        count_warm(u, t, h) == 0,
    decreases u.len(),
{
    if u.len() > 0 {
        lemma_count_warm_none_in(u.drop_last(), t, h);
        lemma_count_below_bounds(t, u.last());
    }
}

// ─── Keys and their ticks ───────────────────────────────────────────────────

/// The ticks of the entries `ks` names in `m`, in the order of `ks`.
pub open spec fn ticks_of_keys<V>(ks: Seq<u128>, m: Map<u128, (V, u64)>) -> Seq<u64> {
    ks.map_values(|k: u128| m[k].1)
}

/// The keys among `ks` whose entry in `m` was read before tick `x`.
pub open spec fn below_keys<V>(ks: Seq<u128>, m: Map<u128, (V, u64)>, x: u64) -> Set<u128>
    decreases ks.len(),
{
    if ks.len() == 0 {
        Set::empty()
    } else {
        let r = below_keys(ks.drop_last(), m, x);
        if m[ks.last()].1 < x {
            r.insert(ks.last())
        } else {
            r
        }
    }
}

/// The keys among `ks` whose entry's tick has at least `h` of `t` below it.
pub open spec fn warm_keys<V>(ks: Seq<u128>, m: Map<u128, (V, u64)>, t: Seq<u64>, h: nat) -> Set<u128>
    decreases ks.len(),
{
    if ks.len() == 0 {
        Set::empty()
    } else {
        let r = warm_keys(ks.drop_last(), m, t, h);
        if count_below(t, m[ks.last()].1) >= h {
            r.insert(ks.last())
        } else {
            r
        }
    }
}

proof fn lemma_drop_last_no_dup(ks: Seq<u128>)
    requires
        ks.len() > 0,
        ks.no_duplicates(),
    ensures
        ks.drop_last().no_duplicates(),
        !ks.drop_last().contains(ks.last()),
        forall|k: u128| ks.contains(k) <==> (ks.drop_last().contains(k) || k == ks.last()),
{
    let d = ks.drop_last();
    assert forall|i: int, j: int| 0 <= i < d.len() && 0 <= j < d.len() && i != j implies d[i] != d[j] by {
        assert(d[i] == ks[i] && d[j] == ks[j]);
    }
    if d.contains(ks.last()) {
        let i = choose|i: int| 0 <= i < d.len() && d[i] == ks.last();
        assert(ks[i] == ks[ks.len() - 1]);
    }
    assert forall|k: u128| ks.contains(k) implies (d.contains(k) || k == ks.last()) by {
        let i = choose|i: int| 0 <= i < ks.len() && ks[i] == k;
        if i < ks.len() - 1 {
            assert(d[i] == k);
        }
    }
    assert forall|k: u128| d.contains(k) implies ks.contains(k) by {
        let i = choose|i: int| 0 <= i < d.len() && d[i] == k;
        assert(ks[i] == k);
    }
    assert(ks[ks.len() - 1] == ks.last());
}

proof fn lemma_below_keys<V>(ks: Seq<u128>, m: Map<u128, (V, u64)>, x: u64)
    requires
        ks.no_duplicates(),
    ensures
        below_keys(ks, m, x).finite(),
        below_keys(ks, m, x).len() == count_below(ticks_of_keys(ks, m), x),
        forall|k: u128| #[trigger] below_keys(ks, m, x).contains(k) <==> ks.contains(k) && m[k].1 < x,
    decreases ks.len(),
{
    if ks.len() > 0 {
        let d = ks.drop_last();
        lemma_drop_last_no_dup(ks);
        lemma_below_keys(d, m, x);
        assert(ticks_of_keys(ks, m).drop_last() =~= ticks_of_keys(d, m));
        assert(ticks_of_keys(ks, m).last() == m[ks.last()].1);
    }
}

proof fn lemma_warm_keys<V>(ks: Seq<u128>, m: Map<u128, (V, u64)>, t: Seq<u64>, h: nat)
    requires
        ks.no_duplicates(),
    ensures
        warm_keys(ks, m, t, h).finite(),
        warm_keys(ks, m, t, h).len() == count_warm(ticks_of_keys(ks, m), t, h),
        forall|k: u128| #[trigger] warm_keys(ks, m, t, h).contains(k) <==> ks.contains(k) && count_below(
            t,
            m[k].1,
        ) >= h,
    decreases ks.len(),
{
    if ks.len() > 0 {
        let d = ks.drop_last();
        lemma_drop_last_no_dup(ks);
        lemma_warm_keys(d, m, t, h);
        assert(ticks_of_keys(ks, m).drop_last() =~= ticks_of_keys(d, m));
        assert(ticks_of_keys(ks, m).last() == m[ks.last()].1);
    }
}

/// How many entries of `m` were read before tick `t`.
pub open spec fn older_in<V>(m: Map<u128, (V, u64)>, t: u64) -> nat {
    m.dom().filter(|k: u128| m[k].1 < t).len()
}

/// Over an enumeration of `m`'s keys, counting the ticks below `t` counts
/// the entries read before it.
proof fn lemma_older_in<V>(ks: Seq<u128>, m: Map<u128, (V, u64)>, t: u64)
    requires
        ks.no_duplicates(),
        ks.to_set() == m.dom(),
    ensures
        older_in(m, t) == count_below(ticks_of_keys(ks, m), t),
{
    lemma_below_keys(ks, m, t);
    let f = m.dom().filter(|k: u128| m[k].1 < t);
    assert forall|k: u128| f.contains(k) <==> #[trigger] below_keys(ks, m, t).contains(k) by {
        assert(ks.to_set().contains(k) <==> ks.contains(k));
    }
    assert(f =~= below_keys(ks, m, t));
}

/// The keys of a map, each once.
fn keys_of<V>(m: &HashMap<u128, (V, u64)>) -> (ks: Vec<u128>)
    ensures
        ks@.to_set() == m@.dom(),
        ks@.no_duplicates(),
        ks@.len() == m@.dom().len(),
{
    broadcast use vstd::std_specs::hash::group_hash_axioms;
    let ghost all = vstd::std_specs::hash::spec_keys_iter(m).remaining();
    let mut ks: Vec<u128> = Vec::new();
    for k in it: m.keys()
        invariant
            ks@.len() == it.index(),
            it.seq() == all,
            forall|j: int| 0 <= j < ks@.len() ==> ks@[j] == *all[j],
    {
        ks.push(*k);
    }
    proof {
        assert(ks@ =~= all.unref());
    }
    ks
}

/// Whether no two entries share a tick.
pub open spec fn ticks_distinct<V>(m: Map<u128, (V, u64)>) -> bool {
    forall|a: u128, b: u128| m.contains_key(a) && m.contains_key(b) && a != b ==> #[trigger] m[a].1 != #[trigger] m[b].1
}

/// `m` keeping the entries at least half of all entries were read before.
pub open spec fn warm_half<V>(m: Map<u128, (V, u64)>) -> Map<u128, (V, u64)> {
    Map::new(|k: u128| m.contains_key(k) && older_in(m, m[k].1) >= m.len() / 2, |k: u128| m[k])
}

/// `entries` without the half read least recently: an entry stays when at
/// least half of all entries were read before it.
fn shed_coldest_half<V>(entries: HashMap<u128, (V, u64)>) -> (r: HashMap<u128, (V, u64)>)
    requires
        ticks_distinct(entries@),
    ensures
        r@ == warm_half(entries@),
        r@.len() == entries@.len() - entries@.len() / 2,
{
    broadcast use vstd::std_specs::hash::group_hash_axioms;
    let ghost m0 = entries@;
    let ks = keys_of(&entries);
    let n = ks.len();
    let mut ticks: Vec<u64> = Vec::new();
    let mut i: usize = 0;
    while i < n
        invariant
            n == ks@.len(),
            ks@.to_set() == m0.dom(),
            entries@ == m0,
            i <= n,
            ticks@ == ticks_of_keys(ks@.take(i as int), m0),
        decreases n - i,
    {
        proof {
            assert(ks@.to_set().contains(ks@[i as int]));
        }
        let e = entries.get(&ks[i]).unwrap();
        ticks.push(e.1);
        proof {
            assert(ticks_of_keys(ks@.take(i + 1), m0) =~= ticks_of_keys(ks@.take(i as int), m0).push(m0[ks@[i as int]].1));
        }
        i += 1;
    }
    proof {
        assert(ks@.take(n as int) =~= ks@);
    }
    let ghost t = ticks@;
    let h = n / 2;
    let mut out = entries;
    let mut j: usize = 0;
    while j < n
        invariant
            n == ks@.len(),
            ks@.to_set() == m0.dom(),
            ks@.no_duplicates(),
            t == ticks@,
            t == ticks_of_keys(ks@, m0),
            h == n / 2,
            j <= n,
            out@ == Map::new(
                |k: u128| m0.contains_key(k) && !(ks@.take(j as int).contains(k) && count_below(t, m0[k].1) < h),
                |k: u128| m0[k],
            ),
        decreases n - j,
    {
        let k = ks[j];
        let below = count_below_exec(&ticks, ticks[j]);
        let ghost before = out@;
        proof {
            assert(ticks@[j as int] == m0[k].1);
            assert(ks@.take(j + 1) =~= ks@.take(j as int).push(k));
        }
        proof {
            assert(ks@.to_set().contains(k));
            let p1 = ks@.take(j + 1);
            let p0 = ks@.take(j as int);
            assert forall|q: u128| #[trigger] p1.contains(q) <==> (p0.contains(q) || q == k) by {
                if p1.contains(q) {
                    let a = choose|a: int| 0 <= a < p1.len() && p1[a] == q;
                    if a < j {
                        assert(p0[a] == q);
                    }
                }
                if p0.contains(q) {
                    let a = choose|a: int| 0 <= a < p0.len() && p0[a] == q;
                    assert(p1[a] == q);
                }
                if q == k {
                    assert(p1[j as int] == q);
                }
            }
        }
        if below < h {
            out.remove(&k);
            proof {
                assert(out@ == before.remove(k));
                assert(out@ =~= Map::new(
                    |q: u128| m0.contains_key(q) && !(ks@.take(j + 1).contains(q) && count_below(t, m0[q].1) < h),
                    |q: u128| m0[q],
                ));
            }
        } else {
            proof {
                assert(out@ =~= Map::new(
                    |q: u128| m0.contains_key(q) && !(ks@.take(j + 1).contains(q) && count_below(t, m0[q].1) < h),
                    |q: u128| m0[q],
                ));
            }
        }
        j += 1;
    }
    proof {
        assert(ks@.take(n as int) =~= ks@);
        assert(m0.dom().len() == n);
        assert forall|k: u128| m0.contains_key(k) implies count_below(t, m0[k].1) == older_in(m0, m0[k].1) by {
            lemma_older_in(ks@, m0, m0[k].1);
        }
        assert forall|k: u128| m0.contains_key(k) implies ks@.contains(k) by {
            assert(ks@.to_set().contains(k));
        }
        assert(out@ =~= warm_half(m0));
        lemma_warm_keys(ks@, m0, t, h as nat);
        assert(out@.dom() =~= warm_keys(ks@, m0, t, h as nat));
        assert(distinct_ticks(t)) by {
            assert forall|a: int, b: int| 0 <= a < b < t.len() implies t[a] != t[b] by {
                assert(ks@[a] != ks@[b]);
                assert(ks@.to_set().contains(ks@[a]) && ks@.to_set().contains(ks@[b]));
            }
        }
        lemma_count_warm_exact(t, h as nat);
    }
    out
}

/// A map from content hash to cached value, each with the tick of its
/// last read.
pub struct ContentCache<V> {
    entries: HashMap<u128, (V, u64)>,
    clock: u64,
    capacity: usize,
}

impl<V> ContentCache<V> {
    #[verifier::type_invariant]
    spec fn inv(self) -> bool {
        &&& self.capacity > 0
        &&& ticks_distinct(self.entries@)
        &&& forall|a: u128| self.entries@.contains_key(a) ==> #[trigger] self.entries@[a].1 < self.clock
    }

    /// The value and tick cached under `key`.
    pub closed spec fn lookup(self, key: u128) -> Option<(V, u64)> {
        if self.entries@.contains_key(key) {
            Some(self.entries@[key])
        } else {
            None
        }
    }

    /// The tick of the last read of `key`'s entry (zero when absent).
    pub closed spec fn tick_of(self, key: u128) -> u64 {
        match self.lookup(key) {
            Some(e) => e.1,
            None => 0,
        }
    }

    /// How many entries were read before tick `t`.
    pub closed spec fn older_than(self, t: u64) -> nat {
        older_in(self.entries@, t)
    }

    /// The number of entries.
    pub closed spec fn size(self) -> nat {
        self.entries@.len()
    }

    /// The tick the next read takes.
    pub closed spec fn clock(self) -> u64 {
        self.clock
    }

    /// Entries kept before the cache sheds its coldest half.
    pub closed spec fn capacity(self) -> usize {
        self.capacity
    }

    /// An empty cache that sheds once it holds `capacity` entries.
    pub fn new(capacity: usize) -> (c: Self)
        requires
            capacity > 0,
        ensures
            c.size() == 0,
            c.clock() == 0,
            c.capacity() == capacity,
            forall|k: u128| c.lookup(k) is None,
    {
        broadcast use vstd::std_specs::hash::group_hash_axioms;
        let c = ContentCache { entries: HashMap::new(), clock: 0, capacity };
        proof {
            assert(c.entries@ =~= Map::<u128, (V, u64)>::empty());
        }
        c
    }

    /// The value for `key`: the cached one, now marked as read at this tick,
    /// or the one `compute` gives, cached at this tick. Every other cached
    /// value stays as it was. A miss on a full cache first sheds the entries
    /// fewer than half of which were read less recently.
    pub fn get_or_compute<F: FnOnce() -> V>(&mut self, key: u128, compute: F) -> (r: &V)
        requires
            compute.requires(()),
            old(self).clock() < u64::MAX,
        ensures
            match old(self).lookup(key) {
                Some(e) => *r == e.0,
                None => compute.ensures((), *r),
            },
            final(self).lookup(key) == Some((*r, old(self).clock())),
            final(self).clock() == old(self).clock() + 1,
            final(self).capacity() == old(self).capacity(),
            forall|k: u128| k != key && #[trigger] final(self).lookup(k) is Some ==> final(self).lookup(k)
                == old(self).lookup(k),
            old(self).lookup(key) is Some || old(self).size() < old(self).capacity() ==> forall|k: u128|
                #[trigger] old(self).lookup(k) is Some ==> final(self).lookup(k) is Some || k == key,
            old(self).lookup(key) is None && old(self).size() >= old(self).capacity() ==> forall|k: u128|
                k != key && #[trigger] old(self).lookup(k) is Some ==> (final(self).lookup(k) is Some
                <==> old(self).older_than(old(self).tick_of(k)) >= old(self).size() / 2),
            final(self).size() <= old(self).size() + 1,
            old(self).lookup(key) is None && old(self).size() >= old(self).capacity() ==> final(self).size()
                == old(self).size() - old(self).size() / 2 + 1,
            old(self).size() <= old(self).capacity() && old(self).capacity() >= 2 ==> final(self).size()
                <= final(self).capacity(),
    {
        broadcast use vstd::std_specs::hash::group_hash_axioms;
        proof {
            use_type_invariant(&*self);
        }
        let ghost old_self = *self;
        let ghost m0 = self.entries@;
        let tick = self.clock;
        let mut es: HashMap<u128, (V, u64)> = HashMap::new();
        core::mem::swap(&mut es, &mut self.entries);
        match es.remove(&key) {
            Some(e) => {
                es.insert(key, (e.0, tick));
                proof {
                    assert(es@ =~= m0.insert(key, (m0[key].0, tick)));
                }
                self.clock = tick + 1;
                self.entries = es;
                let found = self.entries.get(&key).unwrap();
                &found.0
            },
            None => {
                proof {
                    assert(es@ =~= m0);
                }
                let v = compute();
                let full = es.len() >= self.capacity;
                if full {
                    es = shed_coldest_half(es);
                }
                let ghost mid = es@;
                proof {
                    if full {
                        assert(mid == warm_half(m0));
                    } else {
                        assert(mid == m0);
                    }
                    assert(!mid.contains_key(key));
                }
                es.insert(key, (v, tick));
                proof {
                    assert(es@ == mid.insert(key, (v, tick)));
                    assert(es@.len() == mid.len() + 1);
                }
                self.clock = tick + 1;
                self.entries = es;
                let found = self.entries.get(&key).unwrap();
                &found.0
            },
        }
    }

    /// [`Self::get_or_compute`] keyed by the hash of `text` alone.
    pub fn get_or_harvest<F: FnOnce() -> V>(&mut self, text: &str, harvest: F) -> (r: &V)
        requires
            harvest.requires(()),
            old(self).clock() < u64::MAX,
        ensures
            match old(self).lookup(typst_hash128(text@)) {
                Some(e) => *r == e.0,
                None => harvest.ensures((), *r),
            },
            final(self).lookup(typst_hash128(text@)) == Some((*r, old(self).clock())),
            final(self).clock() == old(self).clock() + 1,
            final(self).capacity() == old(self).capacity(),
            forall|k: u128| k != typst_hash128(text@) && #[trigger] final(self).lookup(k) is Some
                ==> final(self).lookup(k) == old(self).lookup(k),
            final(self).size() <= old(self).size() + 1,
            old(self).size() <= old(self).capacity() && old(self).capacity() >= 2 ==> final(self).size()
                <= final(self).capacity(),
    {
        let key = hash128_of(text);
        self.get_or_compute(key, harvest)
    }

    /// The number of entries.
    pub fn len(&self) -> (n: usize)
        ensures
            n == self.size(),
    {
        broadcast use vstd::std_specs::hash::group_hash_axioms;
        self.entries.len()
    }

    /// Whether a value is cached under `key`.
    pub fn contains_key(&self, key: u128) -> (b: bool)
        ensures
            b == self.lookup(key) is Some,
    {
        broadcast use vstd::std_specs::hash::group_hash_axioms;
        self.entries.contains_key(&key)
    }
}

} // verus!
