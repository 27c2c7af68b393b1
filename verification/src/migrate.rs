//! `rheo migrate`: the decisions behind bringing an older project up to
//! date — which table a retired spine key lived in, which files a retired
//! `vertebrae` list left out, and where in a file a rewrite lands.

pub mod sites;
pub mod edits;
pub mod links;
pub mod document;

use vstd::prelude::*;
use crate::assets::{strip_prefix, strip_prefix_spec};
use crate::manifest::{semver_after, semver_gt};
use crate::paths::{path_eq, path_eq_exec, to_forward_slash};
use crate::text::{owned, push_str, replace_char, str_eq};
use vstd::string::StringSliceAdditionalSpecFns;

verus! {

/// One `[spine]`/`[<plugin>.spine]` table that still sets the retired
/// `vertebrae` glob list.
pub struct VertebraeSite {
    /// `None` for the global `[spine]` table, the plugin's name for a
    /// per-format `[<plugin>.spine]` table.
    pub plugin: Option<String>,
    pub patterns: Vec<String>,
}

impl VertebraeSite {
    /// The table's name as written between brackets: `spine`, or
    /// `<plugin>.spine`.
    pub fn label(&self) -> (s: String)
        ensures
            s@ == (match self.plugin {
                Some(name) => name@ + ".spine"@,
                None => "spine"@,
            }),
    {
        match &self.plugin {
            Some(name) => {
                let mut s = name.clone();
                push_str(&mut s, ".spine");
                s
            },
            None => owned("spine"),
        }
    }
}

/// The number of line feeds in `bytes`.
pub open spec fn newlines(bytes: Seq<u8>) -> nat
    decreases bytes.len(),
{
    if bytes.len() == 0 {
        0
    } else {
        newlines(bytes.drop_last()) + (if bytes.last() == 10u8 { 1nat } else { 0nat })
    }
}

/// The 1-based line of the byte offset `byte_offset` within `text`; an
/// offset past the end counts as the end. The offset must fall on a
/// character boundary, as slicing the text there requires.
pub fn line_number(text: &str, byte_offset: usize) -> (n: usize)
    requires
        text.spec_bytes().len() < usize::MAX,
        vstd::utf8::is_char_boundary(
            text.spec_bytes(),
            (if byte_offset < text.spec_bytes().len() { byte_offset as int } else { text.spec_bytes().len() as int }),
        ),
    ensures
        n == newlines(text.spec_bytes().take(
            if byte_offset < text.spec_bytes().len() { byte_offset as int } else { text.spec_bytes().len() as int },
        )) + 1,
{
    let bytes = text.as_bytes();
    let end = if byte_offset < bytes.len() { byte_offset } else { bytes.len() };
    let mut count: usize = 0;
    let mut i: usize = 0;
    while i < end
        invariant
            i <= end <= bytes@.len(),
            bytes@ == text.spec_bytes(),
            count == newlines(bytes@.take(i as int)),
            count <= i,
        decreases end - i,
    {
        proof {
            assert(bytes@.take(i + 1).drop_last() =~= bytes@.take(i as int));
        }
        if bytes[i] == 10u8 {
            count += 1;
        }
        i += 1;
    }
    count + 1
}

/// `a` comes strictly before `b` in lexicographic character order, the
/// order std's `String` sorts by.
pub open spec fn lex_lt(a: Seq<char>, b: Seq<char>) -> bool
    decreases a.len(),
{
    if a.len() == 0 {
        b.len() > 0
    } else if b.len() == 0 {
        false
    } else if a[0] != b[0] {
        (a[0] as u32) < (b[0] as u32)
    } else {
        lex_lt(a.drop_first(), b.drop_first())
    }
}

/// `x` placed after every string not greater than it.
pub open spec fn insert_sorted(sorted: Seq<Seq<char>>, x: Seq<char>) -> Seq<Seq<char>>
    decreases sorted.len(),
{
    if sorted.len() == 0 {
        seq![x]
    } else if !lex_lt(x, sorted.last()) {
        sorted.push(x)
    } else {
        insert_sorted(sorted.drop_last(), x).push(sorted.last())
    }
}

/// The strings in lexicographic order.
pub open spec fn sort_strings(s: Seq<Seq<char>>) -> Seq<Seq<char>>
    decreases s.len(),
{
    if s.len() == 0 {
        s
    } else {
        insert_sorted(sort_strings(s.drop_last()), s.last())
    }
}

/// Whether `a` comes strictly before `b`.
fn lex_lt_exec(a: &str, b: &str) -> (r: bool)
    ensures
        r == lex_lt(a@, b@),
{
    let av = crate::text::chars_of(a);
    let bv = crate::text::chars_of(b);
    let mut i: usize = 0;
    proof {
        assert(av@.skip(0) =~= av@);
        assert(bv@.skip(0) =~= bv@);
    }
    while i < av.len() && i < bv.len() && av[i] == bv[i]
        invariant
            i <= av@.len(),
            i <= bv@.len(),
            lex_lt(a@, b@) == lex_lt(av@.skip(i as int), bv@.skip(i as int)),
            av@ == a@,
            bv@ == b@,
        decreases av@.len() - i,
    {
        proof {
            assert(av@.skip(i as int).drop_first() =~= av@.skip(i + 1));
            assert(bv@.skip(i as int).drop_first() =~= bv@.skip(i + 1));
        }
        i += 1;
    }
    if i == av.len() {
        return i < bv.len();
    }
    if i == bv.len() {
        return false;
    }
    proof {
        assert(av@.skip(i as int)[0] == av@[i as int]);
        assert(bv@.skip(i as int)[0] == bv@[i as int]);
    }
    (av[i] as u32) < (bv[i] as u32)
}

/// Inserts `x` after every string not greater than it.
fn insert_sorted_exec(sorted: &mut Vec<String>, x: String)
    ensures
        final(sorted)@.map_values(|s: String| s@) == insert_sorted(old(sorted)@.map_values(|s: String| s@), x@),
{
    let ghost orig = sorted@.map_values(|s: String| s@);
    let mut pos: usize = sorted.len();
    proof {
        assert(orig.take(pos as int) =~= orig);
        assert(orig.skip(pos as int) =~= Seq::<Seq<char>>::empty());
        assert(insert_sorted(orig, x@) + Seq::<Seq<char>>::empty() =~= insert_sorted(orig, x@));
    }
    while pos > 0 && lex_lt_exec(x.as_str(), sorted[pos - 1].as_str())
        invariant
            pos <= sorted@.len(),
            orig == sorted@.map_values(|s: String| s@),
            insert_sorted(orig, x@) == insert_sorted(orig.take(pos as int), x@) + orig.skip(pos as int),
        decreases pos,
    {
        proof {
            let t = orig.take(pos as int);
            assert(orig[pos - 1] == sorted@[pos - 1]@);
            assert(t.last() == orig[pos - 1]);
            assert(t.drop_last() =~= orig.take(pos - 1));
            assert(orig.skip(pos - 1) =~= seq![t.last()] + orig.skip(pos as int));
            assert(insert_sorted(orig.take(pos - 1), x@).push(t.last()) + orig.skip(pos as int)
                =~= insert_sorted(orig.take(pos - 1), x@) + orig.skip(pos - 1));
        }
        pos -= 1;
    }
    proof {
        let t = orig.take(pos as int);
        if pos > 0 {
            assert(orig[pos - 1] == sorted@[pos - 1]@);
            assert(insert_sorted(t, x@) == t.push(x@));
        } else {
            assert(t =~= Seq::<Seq<char>>::empty());
        }
    }
    let ghost xv = x@;
    sorted.insert(pos, x);
    proof {
        assert(sorted@.map_values(|s: String| s@) =~= orig.take(pos as int).push(xv) + orig.skip(pos as int));
        if pos == 0 {
            assert(orig.take(0).push(xv) =~= seq![xv]);
        }
    }
}

/// The strings sorted lexicographically.
pub fn sort_strings_exec(v: Vec<String>) -> (r: Vec<String>)
    ensures
        r@.map_values(|s: String| s@) == sort_strings(v@.map_values(|s: String| s@)),
{
    let ghost all = v@.map_values(|s: String| s@);
    let mut sorted: Vec<String> = Vec::new();
    let mut rest = v;
    let total = rest.len();
    let mut i: usize = 0;
    proof {
        assert(sorted@.map_values(|s: String| s@) =~= Seq::<Seq<char>>::empty());
        assert(all.take(0) =~= Seq::<Seq<char>>::empty());
    }
    while rest.len() > 0
        invariant
            i + rest@.len() == all.len(),
            all.len() == total,
            rest@.map_values(|s: String| s@) == all.skip(i as int),
            sorted@.map_values(|s: String| s@) == sort_strings(all.take(i as int)),
        decreases rest@.len(),
    {
        proof {
            assert(all.take(i + 1).drop_last() =~= all.take(i as int));
            assert(rest@.map_values(|s: String| s@)[0] == all[i as int]);
            assert(rest@.remove(0) =~= rest@.skip(1));
            assert(rest@.skip(1).map_values(|s: String| s@) =~= rest@.map_values(|s: String| s@).skip(1));
            assert(all.skip(i as int).skip(1) =~= all.skip(i + 1));
        }
        let x = rest.remove(0);
        proof {
            assert(all.take(i + 1).last() == x@);
        }
        insert_sorted_exec(&mut sorted, x);
        i += 1;
    }
    proof {
        assert(all.take(i as int) =~= all);
    }
    sorted
}

/// Whether `path` is one of `matched`, compared as paths.
fn among(path: &str, matched: &Vec<String>) -> (b: bool)
    ensures
        b == exists|k: int| 0 <= k < matched@.len() && path_eq(path@, #[trigger] matched@[k]@),
{
    let mut i: usize = 0;
    while i < matched.len()
        invariant
            i <= matched@.len(),
            forall|k: int| 0 <= k < i ==> !path_eq(path@, #[trigger] matched@[k]@),
        decreases matched@.len() - i,
    {
        if path_eq_exec(path, matched[i].as_str()) {
            return true;
        }
        i += 1;
    }
    false
}

/// A scanned file's path relative to the content directory, forward-slashed
/// (the path itself when it is not under the content directory).
pub open spec fn relative_spec(f: Seq<char>, content_dir: Seq<char>) -> Seq<char> {
    replace_char(
        match strip_prefix_spec(f, content_dir) {
            Some(r) => r,
            None => f,
        },
        '\\',
        seq!['/'],
    )
}

/// The scanned files that no `matched` path names, each relative to the
/// content directory, in scan order.
pub open spec fn unmatched_spec(scanned: Seq<Seq<char>>, matched: Seq<Seq<char>>, content_dir: Seq<char>) -> Seq<Seq<char>>
    decreases scanned.len(),
{
    if scanned.len() == 0 {
        Seq::empty()
    } else {
        let before = unmatched_spec(scanned.drop_last(), matched, content_dir);
        let f = scanned.last();
        if exists|k: int| 0 <= k < matched.len() && path_eq(f, #[trigger] matched[k]) {
            before
        } else {
            before.push(relative_spec(f, content_dir))
        }
    }
}

/// Inserting into a list adds that one string and keeps the rest.
proof fn lemma_insert_sorted_contains(sorted: Seq<Seq<char>>, x: Seq<char>)
    ensures
        forall|y: Seq<char>| #[trigger] insert_sorted(sorted, x).contains(y) <==> (sorted.contains(y) || y == x),
    decreases sorted.len(),
{
    if sorted.len() == 0 {
        assert(insert_sorted(sorted, x) =~= seq![x]);
        assert(seq![x][0] == x);
    } else if !lex_lt(x, sorted.last()) {
        let r = sorted.push(x);
        assert forall|y: Seq<char>| #[trigger] r.contains(y) <==> (sorted.contains(y) || y == x) by {
            if r.contains(y) {
                let k = choose|k: int| 0 <= k < r.len() && r[k] == y;
                if k < sorted.len() {
                    assert(sorted[k] == y);
                }
            }
            if sorted.contains(y) {
                let k = choose|k: int| 0 <= k < sorted.len() && sorted[k] == y;
                assert(r[k] == y);
            }
            if y == x {
                assert(r[sorted.len() as int] == x);
            }
        }
    } else {
        let init = sorted.drop_last();
        lemma_insert_sorted_contains(init, x);
        let i2 = insert_sorted(init, x);
        let r = i2.push(sorted.last());
        assert forall|y: Seq<char>| #[trigger] r.contains(y) <==> (sorted.contains(y) || y == x) by {
            if r.contains(y) {
                let k = choose|k: int| 0 <= k < r.len() && r[k] == y;
                if k < i2.len() {
                    assert(i2[k] == y);
                    assert(i2.contains(y));
                    if init.contains(y) {
                        let j = choose|j: int| 0 <= j < init.len() && init[j] == y;
                        assert(sorted[j] == y);
                    }
                } else {
                    assert(sorted[sorted.len() - 1] == y);
                }
            }
            if sorted.contains(y) {
                let k = choose|k: int| 0 <= k < sorted.len() && sorted[k] == y;
                if k < sorted.len() - 1 {
                    assert(init[k] == y);
                    assert(init.contains(y));
                    assert(i2.contains(y));
                    let j = choose|j: int| 0 <= j < i2.len() && i2[j] == y;
                    assert(r[j] == y);
                } else {
                    assert(r[i2.len() as int] == y);
                }
            }
            if y == x {
                assert(i2.contains(x));
                let j = choose|j: int| 0 <= j < i2.len() && i2[j] == x;
                assert(r[j] == x);
            }
        }
    }
}

/// Sorting keeps exactly the strings it was given.
pub proof fn lemma_sort_strings_contains(s: Seq<Seq<char>>)
    ensures
        forall|y: Seq<char>| #[trigger] sort_strings(s).contains(y) <==> s.contains(y),
    decreases s.len(),
{
    if s.len() > 0 {
        let init = s.drop_last();
        lemma_sort_strings_contains(init);
        lemma_insert_sorted_contains(sort_strings(init), s.last());
        assert forall|y: Seq<char>| #[trigger] sort_strings(s).contains(y) <==> s.contains(y) by {
            if init.contains(y) {
                let k = choose|k: int| 0 <= k < init.len() && init[k] == y;
                assert(s[k] == y);
            }
            if s.contains(y) {
                let k = choose|k: int| 0 <= k < s.len() && s[k] == y;
                if k < s.len() - 1 {
                    assert(init[k] == y);
                }
            }
            if y == s.last() {
                assert(s[s.len() - 1] == y);
            }
        }
    }
}

/// Some `matched` path names `f`, compared as paths.
pub open spec fn named_by(f: Seq<char>, matched: Seq<Seq<char>>) -> bool {
    exists|k: int| 0 <= k < matched.len() && path_eq(f, #[trigger] matched[k])
}

/// What the conversion excludes is exactly the scanned files that no
/// `matched` path names, each taken relative to the content directory: a
/// file the list matched is never excluded, and every scanned file it did
/// not match is.
pub proof fn lemma_unmatched_members(scanned: Seq<Seq<char>>, matched: Seq<Seq<char>>, content_dir: Seq<char>)
    ensures
        forall|y: Seq<char>| #[trigger] unmatched_spec(scanned, matched, content_dir).contains(y) <==> exists|i: int|
            0 <= i < scanned.len() && !named_by(#[trigger] scanned[i], matched) && y == relative_spec(
                scanned[i],
                content_dir,
            ),
    decreases scanned.len(),
{
    if scanned.len() > 0 {
        let init = scanned.drop_last();
        let f = scanned.last();
        let n = scanned.len() - 1;
        lemma_unmatched_members(init, matched, content_dir);
        let before = unmatched_spec(init, matched, content_dir);
        let now = unmatched_spec(scanned, matched, content_dir);
        assert forall|i: int| 0 <= i < n implies #[trigger] init[i] == scanned[i] by {}
        assert forall|y: Seq<char>| #[trigger] now.contains(y) <==> exists|i: int|
            0 <= i < scanned.len() && !named_by(#[trigger] scanned[i], matched) && y == relative_spec(
                scanned[i],
                content_dir,
            ) by {
            if named_by(f, matched) {
                assert(now == before);
                if exists|i: int|
                    0 <= i < scanned.len() && !named_by(#[trigger] scanned[i], matched) && y == relative_spec(
                        scanned[i],
                        content_dir,
                    ) {
                    let i = choose|i: int|
                        0 <= i < scanned.len() && !named_by(#[trigger] scanned[i], matched) && y == relative_spec(
                            scanned[i],
                            content_dir,
                        );
                    assert(i < n);
                    assert(init[i] == scanned[i]);
                }
                if before.contains(y) {
                    let i = choose|i: int|
                        0 <= i < init.len() && !named_by(#[trigger] init[i], matched) && y == relative_spec(
                            init[i],
                            content_dir,
                        );
                    assert(scanned[i] == init[i]);
                }
            } else {
                let r = relative_spec(f, content_dir);
                assert(now == before.push(r));
                if now.contains(y) {
                    let k = choose|k: int| 0 <= k < now.len() && now[k] == y;
                    if k < before.len() {
                        assert(before[k] == y);
                        assert(before.contains(y));
                        let i = choose|i: int|
                            0 <= i < init.len() && !named_by(#[trigger] init[i], matched) && y == relative_spec(
                                init[i],
                                content_dir,
                            );
                        assert(scanned[i] == init[i]);
                    } else {
                        assert(y == r);
                        assert(scanned[n] == f);
                    }
                }
                if exists|i: int|
                    0 <= i < scanned.len() && !named_by(#[trigger] scanned[i], matched) && y == relative_spec(
                        scanned[i],
                        content_dir,
                    ) {
                    let i = choose|i: int|
                        0 <= i < scanned.len() && !named_by(#[trigger] scanned[i], matched) && y == relative_spec(
                            scanned[i],
                            content_dir,
                        );
                    if i < n {
                        assert(init[i] == scanned[i]);
                        assert(before.contains(y));
                        let k = choose|k: int| 0 <= k < before.len() && before[k] == y;
                        assert(now[k] == y);
                    } else {
                        assert(now[before.len() as int] == y);
                    }
                }
            }
        }
    }
}

/// The files a retired `vertebrae` list left out of the spine: every file
/// the directory scan finds that none of the list's matches names, relative
/// to the content directory and sorted — what the converted `exclude` must
/// name so those files stay out.
pub fn vertebrae_exclusions(scanned: &Vec<String>, matched: &Vec<String>, content_dir: &str) -> (r: Vec<String>)
    ensures
        r@.map_values(|s: String| s@) == sort_strings(
            unmatched_spec(
                scanned@.map_values(|s: String| s@),
                matched@.map_values(|s: String| s@),
                content_dir@,
            ),
        ),
        forall|y: Seq<char>| #[trigger] crate::config::texts(r@).contains(y) <==> exists|i: int|
            0 <= i < scanned@.len() && !named_by(#[trigger] scanned@[i]@, crate::config::texts(matched@))
                && y == relative_spec(scanned@[i]@, content_dir@),
{
    let ghost sv = scanned@.map_values(|s: String| s@);
    let ghost mv = matched@.map_values(|s: String| s@);
    let mut rel: Vec<String> = Vec::new();
    let mut i: usize = 0;
    while i < scanned.len()
        invariant
            i <= scanned@.len(),
            sv == scanned@.map_values(|s: String| s@),
            mv == matched@.map_values(|s: String| s@),
            rel@.map_values(|s: String| s@) == unmatched_spec(sv.take(i as int), mv, content_dir@),
        decreases scanned@.len() - i,
    {
        proof {
            assert(sv.take(i + 1).drop_last() =~= sv.take(i as int));
            assert(sv.take(i + 1).last() == scanned@[i as int]@);
        }
        let f = scanned[i].as_str();
        let hit = among(f, matched);
        proof {
            if hit {
                let k = choose|k: int| 0 <= k < matched@.len() && path_eq(f@, #[trigger] matched@[k]@);
                assert(mv[k] == matched@[k]@);
            } else {
                assert forall|k: int| 0 <= k < mv.len() implies !path_eq(f@, #[trigger] mv[k]) by {
                    assert(mv[k] == matched@[k]@);
                }
            }
        }
        if !hit {
            let stripped = match strip_prefix(f, content_dir) {
                Some(r) => r,
                None => owned(f),
            };
            let r = to_forward_slash(stripped.as_str());
            let ghost before = rel@;
            rel.push(r);
            proof {
                assert(rel@.map_values(|s: String| s@) =~= before.map_values(|s: String| s@).push(r@));
            }
        }
        i += 1;
    }
    proof {
        assert(sv.take(i as int) =~= sv);
        lemma_unmatched_members(sv, mv, content_dir@);
        lemma_sort_strings_contains(unmatched_spec(sv, mv, content_dir@));
        assert forall|i: int| 0 <= i < scanned@.len() implies #[trigger] sv[i] == scanned@[i]@ by {}
    }
    let out = sort_strings_exec(rel);
    proof {
        let u = unmatched_spec(sv, mv, content_dir@);
        let ov = out@.map_values(|s: String| s@);
        assert(ov == crate::config::texts(out@));
        assert(mv == crate::config::texts(matched@));
        assert forall|y: Seq<char>| #[trigger] ov.contains(y) <==> exists|i: int|
            0 <= i < scanned@.len() && !named_by(#[trigger] scanned@[i]@, mv) && y == relative_spec(
                scanned@[i]@,
                content_dir@,
            ) by {
            assert(ov.contains(y) == u.contains(y));
            if u.contains(y) {
                let i = choose|i: int|
                    0 <= i < sv.len() && !named_by(#[trigger] sv[i], mv) && y == relative_spec(sv[i], content_dir@);
                assert(sv[i] == scanned@[i]@);
            }
            if exists|i: int|
                0 <= i < scanned@.len() && !named_by(#[trigger] scanned@[i]@, mv) && y == relative_spec(
                    scanned@[i]@,
                    content_dir@,
                ) {
                let i = choose|i: int|
                    0 <= i < scanned@.len() && !named_by(#[trigger] scanned@[i]@, mv) && y == relative_spec(
                        scanned@[i]@,
                        content_dir@,
                    );
                assert(sv[i] == scanned@[i]@);
            }
        }
    }
    out
}

/// `existing` with each of `added` appended unless already there, in order.
pub open spec fn merge_exclude_spec(existing: Seq<Seq<char>>, added: Seq<Seq<char>>) -> Seq<Seq<char>>
    decreases added.len(),
{
    if added.len() == 0 {
        existing
    } else {
        let before = merge_exclude_spec(existing, added.drop_last());
        if before.contains(added.last()) {
            before
        } else {
            before.push(added.last())
        }
    }
}

/// An `exclude` list extended with the newly excluded files, each added
/// once and only when not already listed.
pub fn merge_exclude(existing: Vec<String>, added: &Vec<String>) -> (r: Vec<String>)
    ensures
        r@.map_values(|s: String| s@) == merge_exclude_spec(
            existing@.map_values(|s: String| s@),
            added@.map_values(|s: String| s@),
        ),
{
    let ghost ev = existing@.map_values(|s: String| s@);
    let ghost av = added@.map_values(|s: String| s@);
    let mut out = existing;
    let mut i: usize = 0;
    proof {
        assert(av.take(0) =~= Seq::<Seq<char>>::empty());
    }
    while i < added.len()
        invariant
            i <= added@.len(),
            av == added@.map_values(|s: String| s@),
            out@.map_values(|s: String| s@) == merge_exclude_spec(ev, av.take(i as int)),
        decreases added@.len() - i,
    {
        proof {
            assert(av.take(i + 1).drop_last() =~= av.take(i as int));
            assert(av.take(i + 1).last() == added@[i as int]@);
        }
        let ghost ov = out@.map_values(|s: String| s@);
        let mut present = false;
        let mut k: usize = 0;
        while k < out.len()
            invariant
                k <= out@.len(),
                ov == out@.map_values(|s: String| s@),
                i < added@.len(),
                present == exists|j: int| 0 <= j < k && ov[j] == added@[i as int]@,
            decreases out@.len() - k,
        {
            let same = str_eq(out[k].as_str(), added[i].as_str());
            proof {
                assert(ov[k as int] == out@[k as int]@);
                if same {
                    assert(0 <= k < k + 1 && ov[k as int] == added@[i as int]@);
                }
                assert(forall|j: int| 0 <= j < k + 1 && ov[j] == added@[i as int]@ ==> (0 <= j < k && ov[j]
                    == added@[i as int]@) || j == k);
            }
            if same {
                present = true;
            }
            k += 1;
        }
        proof {
            if present {
                let j = choose|j: int| 0 <= j < k && ov[j] == added@[i as int]@;
                assert(ov.contains(added@[i as int]@));
            } else {
                assert(!ov.contains(added@[i as int]@));
            }
        }
        if !present {
            let ghost before = out@;
            out.push(added[i].clone());
            proof {
                assert(out@.map_values(|s: String| s@) =~= before.map_values(|s: String| s@).push(added@[i as int]@));
            }
        }
        i += 1;
    }
    proof {
        assert(av.take(i as int) =~= av);
    }
    out
}

// ─── Which migrations are due ───────────────────────────────────────────────

/// The version at which each migration's change landed, in the order the
/// migrations run: the link rewrite, the `rheo-target` rewrite, the
/// `vertebrae` conversion, the `rheo-context` shim, the removed-feed report.
pub open spec fn migration_versions() -> Seq<Seq<char>> {
    seq!["0.4.0"@, "0.5.0"@, "0.5.0"@, "0.5.1"@, "0.6.0"@]
}

/// The release each migration landed in: the link rewrite in 0.4.0, the
/// `rheo-target` rewrite and the `vertebrae` conversion in 0.5.0, the
/// `rheo-context` shim in 0.5.1 and the removed-feed report in 0.6.0.
pub proof fn lemma_migration_releases()
    ensures
        migration_versions().len() == 5,
        migration_versions()[0] == "0.4.0"@,
        migration_versions()[1] == "0.5.0"@,
        migration_versions()[2] == "0.5.0"@,
        migration_versions()[3] == "0.5.1"@,
        migration_versions()[4] == "0.6.0"@,
{
}

/// A migration is due for a project recorded at `from` exactly when the
/// release it landed in comes after `from`; the due ones are listed once
/// each, in run order.
pub proof fn lemma_due_exactly_when_landed_after(versions: Seq<Seq<char>>, from: Seq<char>)
    ensures
        forall|i: int| 0 <= i < versions.len() ==> (due_from(versions, from).contains(i) <==> semver_gt(
            #[trigger] versions[i],
            from,
        )),
        forall|a: int, b: int| 0 <= a < b < due_from(versions, from).len() ==> due_from(versions, from)[a]
            < due_from(versions, from)[b],
        forall|a: int| 0 <= a < due_from(versions, from).len() ==> 0 <= #[trigger] due_from(versions, from)[a]
            < versions.len(),
    decreases versions.len(),
{
    if versions.len() > 0 {
        let init = versions.drop_last();
        lemma_due_exactly_when_landed_after(init, from);
        let rest = due_from(init, from);
        let n = versions.len() - 1;
        assert forall|i: int| 0 <= i < n implies #[trigger] init[i] == versions[i] by {}
        if semver_gt(versions.last(), from) {
            assert(due_from(versions, from) == rest.push(n));
            assert(rest.push(n)[rest.len() as int] == n);
        } else {
            assert(due_from(versions, from) == rest);
        }
        assert forall|i: int| 0 <= i < versions.len() implies (due_from(versions, from).contains(i) <==> semver_gt(
            #[trigger] versions[i],
            from,
        )) by {
            if i < n {
                assert(init[i] == versions[i]);
                if semver_gt(versions.last(), from) {
                    if rest.contains(i) {
                        let k = choose|k: int| 0 <= k < rest.len() && rest[k] == i;
                        assert(rest.push(n)[k] == i);
                    }
                    if rest.push(n).contains(i) {
                        let k = choose|k: int| 0 <= k < rest.push(n).len() && rest.push(n)[k] == i;
                        assert(k < rest.len());
                        assert(rest[k] == i);
                    }
                }
            } else {
                if !semver_gt(versions.last(), from) {
                    assert(!rest.contains(n));
                }
            }
        }
    }
}

/// The indices of the migrations a project recorded at `from` needs — those
/// that landed after it — in order.
pub open spec fn due_from(versions: Seq<Seq<char>>, from: Seq<char>) -> Seq<int>
    decreases versions.len(),
{
    if versions.len() == 0 {
        Seq::empty()
    } else {
        let rest = due_from(versions.drop_last(), from);
        if semver_gt(versions.last(), from) {
            rest.push(versions.len() - 1)
        } else {
            rest
        }
    }
}

/// The version at which the migration `i` landed.
fn migration_version(i: usize) -> (r: &'static str)
    requires
        i < 5,
    ensures
        r@ == migration_versions()[i as int],
{
    proof {
        reveal_strlit("0.4.0");
        reveal_strlit("0.5.0");
        reveal_strlit("0.5.1");
        reveal_strlit("0.6.0");
    }
    if i == 0 {
        "0.4.0"
    } else if i <= 2 {
        "0.5.0"
    } else if i == 3 {
        "0.5.1"
    } else {
        "0.6.0"
    }
}

/// The migrations due for a project recorded at `from` when migrating to
/// `to`, by index in run order; `None` when the project is already up to
/// date (`to` is not after `from`).
pub fn due_migrations(from: &str, to: &str) -> (r: Option<Vec<usize>>)
    ensures
        !semver_gt(to@, from@) ==> r is None,
        semver_gt(to@, from@) ==> (r matches Some(v) && v@.map_values(|i: usize| i as int) == due_from(
            migration_versions(),
            from@,
        )),
{
    if !semver_after(to, from) {
        return None;
    }
    let ghost vs = migration_versions();
    let mut out: Vec<usize> = Vec::new();
    let mut i: usize = 0;
    proof {
        assert(out@.map_values(|i: usize| i as int) =~= due_from(vs.take(0), from@));
    }
    while i < 5
        invariant
            i <= 5,
            vs == migration_versions(),
            out@.map_values(|k: usize| k as int) == due_from(vs.take(i as int), from@),
        decreases 5 - i,
    {
        proof {
            assert(vs.take(i + 1).drop_last() =~= vs.take(i as int));
            assert(vs.take(i + 1).last() == vs[i as int]);
        }
        if semver_after(migration_version(i), from) {
            let ghost before = out@;
            out.push(i);
            proof {
                assert(out@.map_values(|k: usize| k as int) =~= before.map_values(|k: usize| k as int).push(
                    i as int,
                ));
            }
        }
        i += 1;
    }
    proof {
        assert(vs.take(5) =~= vs);
    }
    Some(out)
}

} // verus!
