//! Splicing replacements into a source text at byte ranges, as a migration
//! collects them from one walk of the syntax tree: ordered by where they
//! start, then applied back to front so every range not yet applied still
//! names the bytes it was found at.

use vstd::prelude::*;
use crate::parser::syntax::{utf8_len, utf8_width};
use crate::text::{chars_of, push_str, string_of_range};

verus! {

/// A replacement of the bytes `start..end` of a text.
#[derive(Debug)]
pub struct TextEdit {
    pub start: usize,
    pub end: usize,
    pub replacement: String,
}

/// Whether the first `b` bytes of `s` end at a character boundary: some
/// prefix of `s` is exactly `b` bytes long.
pub open spec fn is_boundary(s: Seq<char>, b: int) -> bool {
    exists|k: int| 0 <= k <= s.len() && utf8_len(s.take(k)) == b
}

/// The number of characters in the first `b` bytes of `s` (which end at a
/// boundary).
pub open spec fn char_at_byte(s: Seq<char>, b: int) -> int {
    choose|k: int| 0 <= k <= s.len() && utf8_len(s.take(k)) == b
}

/// `s` with the bytes of `e`'s range replaced.
pub open spec fn splice_one(s: Seq<char>, e: TextEdit) -> Seq<char> {
    s.take(char_at_byte(s, e.start as int)) + e.replacement@ + s.skip(char_at_byte(s, e.end as int))
}

/// `e` placed after every edit of `sorted` that starts no later.
pub open spec fn insert_edit(sorted: Seq<TextEdit>, e: TextEdit) -> Seq<TextEdit>
    decreases sorted.len(),
{
    if sorted.len() == 0 {
        seq![e]
    } else if sorted.last().start <= e.start {
        sorted.push(e)
    } else {
        insert_edit(sorted.drop_last(), e).push(sorted.last())
    }
}

/// The edits ordered by where they start, those starting together kept in
/// the order given.
pub open spec fn sort_edits(s: Seq<TextEdit>) -> Seq<TextEdit>
    decreases s.len(),
{
    if s.len() == 0 {
        s
    } else {
        insert_edit(sort_edits(s.drop_last()), s.last())
    }
}

/// `s` with the sorted edits `es[i..]` applied, the last first.
pub open spec fn applied(s: Seq<char>, es: Seq<TextEdit>, i: int) -> Seq<char>
    decreases es.len() - i,
{
    if i < 0 || i >= es.len() {
        s
    } else {
        splice_one(applied(s, es, i + 1), es[i])
    }
}

/// Whether the sorted edits can be spliced into `s`: each range is in
/// order, on character boundaries of `s`, and ends before the next begins.
pub open spec fn edits_fit(s: Seq<char>, es: Seq<TextEdit>) -> bool {
    &&& forall|i: int| 0 <= i < es.len() ==> (#[trigger] es[i]).start <= es[i].end
    &&& forall|i: int| 0 <= i < es.len() ==> is_boundary(s, (#[trigger] es[i]).start as int) && is_boundary(
        s,
        es[i].end as int,
    )
    &&& forall|i: int| 0 <= i < es.len() - 1 ==> (#[trigger] es[i]).end <= es[i + 1].start
}

/// A longer prefix is longer in bytes.
proof fn lemma_prefix_bytes_grow(s: Seq<char>, a: int, b: int)
    requires
        0 <= a < b <= s.len(),
    ensures
        utf8_len(s.take(a)) < utf8_len(s.take(b)),
    decreases b - a,
{
    assert(s.take(b).drop_last() =~= s.take(b - 1));
    if a < b - 1 {
        lemma_prefix_bytes_grow(s, a, b - 1);
    }
}

/// The prefix with a given byte length is unique.
proof fn lemma_char_at_byte(s: Seq<char>, k: int)
    requires
        0 <= k <= s.len(),
    ensures
        is_boundary(s, utf8_len(s.take(k)) as int),
        char_at_byte(s, utf8_len(s.take(k)) as int) == k,
{
    let b = utf8_len(s.take(k)) as int;
    let c = char_at_byte(s, b);
    if c < k {
        lemma_prefix_bytes_grow(s, c, k);
    } else if c > k {
        lemma_prefix_bytes_grow(s, k, c);
    }
}

/// Prefixes of `t` and `s` that agree keep the boundaries at or before
/// where they agree.
proof fn lemma_boundary_kept(s: Seq<char>, t: Seq<char>, m: int, b: int)
    requires
        0 <= m <= s.len(),
        m <= t.len(),
        t.take(m) == s.take(m),
        is_boundary(s, b),
        b <= utf8_len(s.take(m)),
    ensures
        is_boundary(t, b),
        char_at_byte(t, b) == char_at_byte(s, b),
        char_at_byte(s, b) <= m,
{
    let k = char_at_byte(s, b);
    if k > m {
        lemma_prefix_bytes_grow(s, m, k);
    }
    assert(t.take(k) =~= t.take(m).take(k));
    assert(s.take(k) =~= s.take(m).take(k));
    lemma_char_at_byte(t, k);
}

/// Splicing `es[i..]` leaves every byte before `es[i]`'s start as it was.
proof fn lemma_applied_prefix(s: Seq<char>, es: Seq<TextEdit>, i: int)
    requires
        edits_fit(s, es),
        0 <= i < es.len(),
    ensures
        char_at_byte(s, es[i].start as int) <= applied(s, es, i).len(),
        applied(s, es, i).take(char_at_byte(s, es[i].start as int)) == s.take(
            char_at_byte(s, es[i].start as int),
        ),
        is_boundary(applied(s, es, i + 1), es[i].start as int),
        is_boundary(applied(s, es, i + 1), es[i].end as int),
        char_at_byte(applied(s, es, i + 1), es[i].start as int) == char_at_byte(s, es[i].start as int),
        char_at_byte(applied(s, es, i + 1), es[i].end as int) == char_at_byte(s, es[i].end as int),
    decreases es.len() - i,
{
    let a = char_at_byte(s, es[i].start as int);
    let z = char_at_byte(s, es[i].end as int);
    assert(is_boundary(s, es[i].start as int) && is_boundary(s, es[i].end as int));
    lemma_char_at_byte(s, a);
    lemma_char_at_byte(s, z);
    if a > z {
        lemma_prefix_bytes_grow(s, z, a);
    }
    let next = applied(s, es, i + 1);
    if i + 1 < es.len() {
        lemma_applied_prefix(s, es, i + 1);
        let m = char_at_byte(s, es[i + 1].start as int);
        assert(is_boundary(s, es[i + 1].start as int));
        lemma_char_at_byte(s, m);
        assert(next.take(m) == s.take(m));
        lemma_boundary_kept(s, next, m, es[i].start as int);
        lemma_boundary_kept(s, next, m, es[i].end as int);
    } else {
        assert(next == s);
    }
    let cur = applied(s, es, i);
    assert(cur == splice_one(next, es[i]));
    assert(cur.take(a) =~= next.take(a));
    if i + 1 < es.len() {
        let m = char_at_byte(s, es[i + 1].start as int);
        assert(next.take(a) =~= next.take(m).take(a));
        assert(s.take(a) =~= s.take(m).take(a));
    }
}

/// `e` inserted into the sorted `sorted`, in place.
fn insert_edit_exec(sorted: &mut Vec<TextEdit>, e: TextEdit)
    ensures
        final(sorted)@ == insert_edit(old(sorted)@, e),
{
    let ghost orig = sorted@;
    let mut pos: usize = sorted.len();
    proof {
        assert(orig.take(pos as int) =~= orig);
        assert(orig.skip(pos as int) =~= Seq::<TextEdit>::empty());
        assert(insert_edit(orig, e) + Seq::<TextEdit>::empty() =~= insert_edit(orig, e));
    }
    while pos > 0 && sorted[pos - 1].start > e.start
        invariant
            pos <= sorted@.len(),
            orig == sorted@,
            insert_edit(orig, e) == insert_edit(orig.take(pos as int), e) + orig.skip(pos as int),
        decreases pos,
    {
        proof {
            let t = orig.take(pos as int);
            assert(t.last() == orig[pos - 1]);
            assert(t.drop_last() =~= orig.take(pos - 1));
            assert(orig.skip(pos - 1) =~= seq![t.last()] + orig.skip(pos as int));
            assert(insert_edit(orig.take(pos - 1), e).push(t.last()) + orig.skip(pos as int)
                =~= insert_edit(orig.take(pos - 1), e) + orig.skip(pos - 1));
        }
        pos -= 1;
    }
    proof {
        let t = orig.take(pos as int);
        if pos > 0 {
            assert(insert_edit(t, e) == t.push(e));
        } else {
            assert(t =~= Seq::<TextEdit>::empty());
        }
    }
    let ghost ev = e;
    sorted.insert(pos, e);
    proof {
        assert(sorted@ =~= orig.take(pos as int).push(ev) + orig.skip(pos as int));
        if pos == 0 {
            assert(orig.take(0).push(ev) =~= seq![ev]);
        }
    }
}

/// The edits ordered by where they start, stably.
pub fn sort_edits_exec(v: Vec<TextEdit>) -> (r: Vec<TextEdit>)
    ensures
        r@ == sort_edits(v@),
{
    let ghost all = v@;
    let mut sorted: Vec<TextEdit> = Vec::new();
    let mut rest = v;
    let total = rest.len();
    let mut i: usize = 0;
    proof {
        assert(all.take(0) =~= Seq::<TextEdit>::empty());
    }
    while rest.len() > 0
        invariant
            i + rest@.len() == all.len(),
            all.len() == total,
            rest@ == all.skip(i as int),
            sorted@ == sort_edits(all.take(i as int)),
        decreases rest@.len(),
    {
        proof {
            assert(all.take(i + 1).drop_last() =~= all.take(i as int));
            assert(rest@[0] == all[i as int]);
        }
        let x = rest.remove(0);
        proof {
            assert(rest@ =~= all.skip(i + 1));
            assert(all.take(i + 1).last() == x);
        }
        insert_edit_exec(&mut sorted, x);
        i += 1;
    }
    proof {
        assert(all.take(i as int) =~= all);
    }
    sorted
}

/// The number of bytes `c` takes in UTF-8.
fn utf8_width_exec(c: char) -> (n: usize)
    ensures
        n == utf8_width(c),
{
    let u = c as u32;
    if u < 0x80 {
        1
    } else if u < 0x800 {
        2
    } else if u < 0x10000 {
        3
    } else {
        4
    }
}

/// The character index where the first `b` bytes of `v` end.
fn char_index_of_byte(v: &Vec<char>, b: usize) -> (k: usize)
    requires
        is_boundary(v@, b as int),
    ensures
        k == char_at_byte(v@, b as int),
        k <= v@.len(),
{
    let ghost target = char_at_byte(v@, b as int);
    proof {
        lemma_char_at_byte(v@, target);
    }
    let mut k: usize = 0;
    let mut bytes: usize = 0;
    let n = v.len();
    proof {
        assert(v@.take(0) =~= Seq::<char>::empty());
    }
    while bytes < b
        invariant
            v@.len() == n,
            0 <= target <= v@.len(),
            utf8_len(v@.take(target)) == b,
            char_at_byte(v@, b as int) == target,
            k <= target,
            bytes == utf8_len(v@.take(k as int)),
        decreases target - k,
    {
        proof {
            if k < target {
                lemma_prefix_bytes_grow(v@, k as int, target);
            }
            assert(v@.take(k + 1).drop_last() =~= v@.take(k as int));
            assert(v@.take(k + 1).last() == v@[k as int]);
            if k + 1 < target {
                lemma_prefix_bytes_grow(v@, k + 1, target);
            }
        }
        let w = utf8_width_exec(v[k]);
        bytes = bytes + w;
        k = k + 1;
    }
    proof {
        if k < target {
            lemma_prefix_bytes_grow(v@, k as int, target);
        }
    }
    k
}

/// `text` with the byte range of `e` replaced.
fn splice_one_exec(text: &str, e: &TextEdit) -> (r: String)
    requires
        is_boundary(text@, e.start as int),
        is_boundary(text@, e.end as int),
        e.start <= e.end,
    ensures
        r@ == splice_one(text@, *e),
{
    let v = chars_of(text);
    let a = char_index_of_byte(&v, e.start);
    let z = char_index_of_byte(&v, e.end);
    proof {
        lemma_char_at_byte(v@, a as int);
        lemma_char_at_byte(v@, z as int);
        if a > z {
            lemma_prefix_bytes_grow(v@, z as int, a as int);
        }
    }
    let mut out = string_of_range(&v, 0, a);
    push_str(&mut out, e.replacement.as_str());
    let tail = string_of_range(&v, z, v.len());
    push_str(&mut out, tail.as_str());
    proof {
        assert(v@.subrange(0, a as int) =~= text@.take(a as int));
        assert(v@.subrange(z as int, v@.len() as int) =~= text@.skip(z as int));
    }
    out
}

/// Whether the first `b` bytes of `v` end at a character boundary.
fn is_boundary_exec(v: &Vec<char>, b: usize) -> (r: bool)
    ensures
        r == is_boundary(v@, b as int),
{
    let n = v.len();
    let mut k: usize = 0;
    let mut bytes: usize = 0;
    proof {
        assert(v@.take(0) =~= Seq::<char>::empty());
    }
    while k < n && bytes < b
        invariant
            n == v@.len(),
            k <= n,
            bytes == utf8_len(v@.take(k as int)),
            bytes <= b,
            forall|j: int| 0 <= j < k ==> utf8_len(#[trigger] v@.take(j)) < b,
        decreases n - k,
    {
        proof {
            assert(v@.take(k + 1).drop_last() =~= v@.take(k as int));
            assert(v@.take(k + 1).last() == v@[k as int]);
        }
        let w = utf8_width_exec(v[k]);
        if w > b - bytes {
            proof {
                assert forall|j: int| 0 <= j <= v@.len() implies utf8_len(#[trigger] v@.take(j)) != b by {
                    if j > k + 1 {
                        lemma_prefix_bytes_grow(v@, k + 1, j);
                    }
                }
            }
            return false;
        }
        bytes = bytes + w;
        k = k + 1;
    }
    if bytes == b {
        return true;
    }
    proof {
        assert forall|j: int| 0 <= j <= v@.len() implies utf8_len(#[trigger] v@.take(j)) != b by {
            if j > k {
                lemma_prefix_bytes_grow(v@, k as int, j);
            }
        }
    }
    false
}

/// Whether the sorted edits can be spliced into `text`, as
/// [`apply_edits`] needs.
pub fn edits_fit_exec(text: &str, es: &Vec<TextEdit>) -> (r: bool)
    ensures
        r == edits_fit(text@, es@),
{
    let v = chars_of(text);
    let mut i: usize = 0;
    while i < es.len()
        invariant
            i <= es@.len(),
            v@ == text@,
            forall|j: int| 0 <= j < i ==> (#[trigger] es@[j]).start <= es@[j].end,
            forall|j: int| 0 <= j < i ==> is_boundary(text@, (#[trigger] es@[j]).start as int) && is_boundary(
                text@,
                es@[j].end as int,
            ),
            forall|j: int| 0 <= j < i && j < es@.len() - 1 ==> (#[trigger] es@[j]).end <= es@[j + 1].start,
        decreases es@.len() - i,
    {
        let e = &es[i];
        if e.start > e.end || !is_boundary_exec(&v, e.start) || !is_boundary_exec(&v, e.end) {
            return false;
        }
        if i + 1 < es.len() && e.end > es[i + 1].start {
            return false;
        }
        i += 1;
    }
    true
}

/// `text` with every edit spliced in: the edits ordered by where they start,
/// then applied from the last to the first so each range still names the
/// bytes it was found at.
pub fn apply_edits(text: &mut String, edits: Vec<TextEdit>)
    requires
        edits_fit(old(text)@, sort_edits(edits@)),
    ensures
        final(text)@ == applied(old(text)@, sort_edits(edits@), 0),
{
    let ghost s = text@;
    let sorted = sort_edits_exec(edits);
    let ghost es = sorted@;
    let mut i: usize = sorted.len();
    while i > 0
        invariant
            i <= es.len(),
            es == sorted@,
            edits_fit(s, es),
            text@ == applied(s, es, i as int),
        decreases i,
    {
        proof {
            lemma_applied_prefix(s, es, i - 1);
        }
        let next = splice_one_exec(text.as_str(), &sorted[i - 1]);
        *text = next;
        i -= 1;
    }
}

} // verus!
