//! Path handling over `/`-separated path strings.
//!
//! rheo passes paths around as strings: project roots, content directories,
//! build directories, hrefs. This module states what joining, taking the
//! file name, stem and extension, and resolving relative paths mean over the
//! characters of those strings, following the Unix rules std's `Path` uses.

use vstd::prelude::*;
use crate::error::{Result, RheoError};
use crate::text::{
    chars_of, owned, push_char, push_str, replace_char, replace_char_exec, str_eq, string_of_range,
};

verus! {

// ─── Specifications ─────────────────────────────────────────────────────────

/// A path is absolute when it begins at the root.
pub open spec fn is_absolute(p: Seq<char>) -> bool {
    p.len() > 0 && p[0] == '/'
}

/// `base` joined with `seg`, as `PathBuf::join` does on Unix: an absolute
/// `seg` replaces `base`; otherwise a separator is added unless `base` is
/// empty or already ends in one.
pub open spec fn join(base: Seq<char>, seg: Seq<char>) -> Seq<char> {
    if is_absolute(seg) {
        seg
    } else if base.len() == 0 || base.last() == '/' {
        base + seg
    } else {
        base + seq!['/'] + seg
    }
}

/// A segment that names something: not empty and not `.`.
pub open spec fn keeps(seg: Seq<char>) -> bool {
    seg.len() > 0 && seg != seq!['.']
}

/// Scanning `p` left to right: the finished named segments, and the segment
/// being read.
pub open spec fn scan_segments(p: Seq<char>) -> (Seq<Seq<char>>, Seq<char>)
    decreases p.len(),
{
    if p.len() == 0 {
        (Seq::empty(), Seq::empty())
    } else {
        let (done, cur) = scan_segments(p.drop_last());
        if p.last() == '/' {
            (if keeps(cur) { done.push(cur) } else { done }, Seq::empty())
        } else {
            (done, cur.push(p.last()))
        }
    }
}

/// The named segments of `p`: its `/`-separated pieces, without empty ones
/// and without `.`.
pub open spec fn segments(p: Seq<char>) -> Seq<Seq<char>> {
    let (done, cur) = scan_segments(p);
    if keeps(cur) {
        done.push(cur)
    } else {
        done
    }
}

/// The final component of `p`, unless `p` has none or it is `..`.
pub open spec fn file_name(p: Seq<char>) -> Option<Seq<char>> {
    let segs = segments(p);
    if segs.len() == 0 || segs.last() == seq!['.', '.'] {
        None
    } else {
        Some(segs.last())
    }
}

/// A file name split at its last `.`: the part before and, when there is a
/// `.` not at the start, the part after — std's rule for stem and extension.
pub open spec fn split_ext(name: Seq<char>) -> (Seq<char>, Option<Seq<char>>) {
    match crate::text::last_index_of(name, '.') {
        Some(i) => if i == 0 {
            (name, None)
        } else {
            (name.take(i), Some(name.skip(i + 1)))
        },
        None => (name, None),
    }
}

/// The file name without its extension.
pub open spec fn file_stem(p: Seq<char>) -> Option<Seq<char>> {
    match file_name(p) {
        Some(n) => Some(split_ext(n).0),
        None => None,
    }
}

/// The file name's extension.
pub open spec fn extension(p: Seq<char>) -> Option<Seq<char>> {
    match file_name(p) {
        Some(n) => split_ext(n).1,
        None => None,
    }
}

/// `p` without its leading `/` characters.
pub open spec fn strip_root(p: Seq<char>) -> Seq<char>
    decreases p.len(),
{
    if p.len() > 0 && p[0] == '/' {
        strip_root(p.drop_first())
    } else {
        p
    }
}

/// `path` resolved against `base`: an absolute path stands as it is.
pub open spec fn resolve_path_spec(base: Seq<char>, path: Seq<char>) -> Seq<char> {
    if is_absolute(path) {
        path
    } else {
        join(base, path)
    }
}

/// A link href resolved to a path: `/`-rooted hrefs against the content
/// directory, everything else against the linking file's directory.
pub open spec fn resolve_href_spec(href: Seq<char>, file_dir: Seq<char>, content_dir: Seq<char>) -> Seq<char> {
    if is_absolute(href) {
        join(content_dir, strip_root(href))
    } else {
        join(file_dir, href)
    }
}

/// `p` begins with a `.` component: it is `.` or starts with `./`.
pub open spec fn leading_cur_dir(p: Seq<char>) -> bool {
    p.len() >= 1 && p[0] == '.' && (p.len() == 1 || p[1] == '/')
}

/// The components of `p` as std's `Path::components` yields them: the root
/// (written `/`), or a leading `.`, then the named segments.
pub open spec fn components(p: Seq<char>) -> Seq<Seq<char>> {
    (if is_absolute(p) {
        seq![seq!['/']]
    } else if leading_cur_dir(p) {
        seq![seq!['.']]
    } else {
        Seq::empty()
    }) + segments(p)
}

/// Two paths are the same path, component by component, as `Path`'s `==`
/// decides.
pub open spec fn path_eq(a: Seq<char>, b: Seq<char>) -> bool {
    components(a) == components(b)
}

/// `base`'s components begin `p`'s, as `Path::starts_with` decides.
pub open spec fn path_starts_with(p: Seq<char>, base: Seq<char>) -> bool {
    components(base).len() <= components(p).len() && components(p).take(
        components(base).len() as int,
    ) == components(base)
}

/// Whether a character is alphanumeric as std's `char::is_alphanumeric`
/// decides it.
pub uninterp spec fn char_alphanumeric(c: char) -> bool;

/// `c` kept if it may appear in a Typst label segment, `_` otherwise.
pub open spec fn sanitize_char(c: char) -> char {
    if char_alphanumeric(c) || c == '-' || c == '_' {
        c
    } else {
        '_'
    }
}

/// `s` escaped for Typst square-bracket content: `\`, `[`, `]` and `#` each
/// prefixed with a backslash.
pub open spec fn escape_typst_spec(s: Seq<char>) -> Seq<char> {
    replace_char(
        replace_char(
            replace_char(replace_char(s, '\\', seq!['\\', '\\']), '[', seq!['\\', '[']),
            ']',
            seq!['\\', ']'],
        ),
        '#',
        seq!['\\', '#'],
    )
}

// ─── Trusted items ──────────────────────────────────────────────────────────

/// std's `char::is_alphanumeric`. The result is named; for an ASCII
/// character std answers from `is_ascii_alphanumeric`, which this contract
/// states.
#[verifier::external_body]
pub(crate) fn is_alphanumeric(c: char) -> (b: bool)
    ensures
        b == char_alphanumeric(c),
        (c as u32) < 128 ==> (b == (('a' <= c <= 'z') || ('A' <= c <= 'Z') || ('0' <= c <= '9'))),
{
    c.is_alphanumeric()
}

/// std's `Path::canonicalize`. Whether it succeeds and what it returns
/// depend on the file system; its documentation promises the canonical,
/// absolute form, so a success is stated to be absolute and nothing more.
/// An error is handed back as its message.
#[verifier::external_body]
pub(crate) fn canonicalize_os(p: &str) -> (r: core::result::Result<String, String>)
    ensures
        r matches Ok(c) ==> is_absolute(c@),
{
    match std::path::Path::new(p).canonicalize() {
        Ok(b) => Ok(b.to_string_lossy().into_owned()),
        Err(e) => Err(e.to_string()),
    }
}

/// std's `Path::is_dir`. Whether a directory is there depends on the file
/// system, so nothing is stated of the answer.
#[verifier::external_body]
pub(crate) fn is_dir(p: &str) -> bool {
    std::path::Path::new(p).is_dir()
}

// ─── Lemmas ─────────────────────────────────────────────────────────────────

proof fn lemma_scan_step(p: Seq<char>, i: int)
    requires
        0 <= i < p.len(),
    ensures
        scan_segments(p.take(i + 1)) == ({
            let (done, cur) = scan_segments(p.take(i));
            if p[i] == '/' {
                (if keeps(cur) { done.push(cur) } else { done }, Seq::<char>::empty())
            } else {
                (done, cur.push(p[i]))
            }
        }),
{
    assert(p.take(i + 1).drop_last() =~= p.take(i));
}

// ─── Exec ───────────────────────────────────────────────────────────────────

/// `base` joined with `seg`.
pub fn join_exec(base: &str, seg: &str) -> (r: String)
    ensures
        r@ == join(base@, seg@),
{
    let bv = chars_of(base);
    let sv = chars_of(seg);
    if sv.len() > 0 && sv[0] == '/' {
        return owned(seg);
    }
    let mut r = owned(base);
    if bv.len() > 0 && bv[bv.len() - 1] != '/' {
        push_char(&mut r, '/');
    }
    push_str(&mut r, seg);
    r
}

/// The named segments of `p`.
pub fn segments_exec(p: &str) -> (r: Vec<String>)
    ensures
        r@.map_values(|s: String| s@) == segments(p@),
{
    let pv = chars_of(p);
    let mut done: Vec<String> = Vec::new();
    let mut start: usize = 0;
    let mut i: usize = 0;
    proof {
        assert(pv@.take(0) =~= Seq::<char>::empty());
    }
    while i < pv.len()
        invariant
            pv@ == p@,
            start <= i <= pv@.len(),
            done@.map_values(|s: String| s@) == scan_segments(pv@.take(i as int)).0,
            pv@.subrange(start as int, i as int) == scan_segments(pv@.take(i as int)).1,
        decreases pv@.len() - i,
    {
        proof {
            lemma_scan_step(pv@, i as int);
        }
        if pv[i] == '/' {
            let cur = string_of_range(&pv, start, i);
            let keep = is_kept(&pv, start, i);
            if keep {
                let ghost before = done@;
                done.push(cur);
                proof {
                    assert(done@.map_values(|s: String| s@) =~= before.map_values(|s: String| s@).push(cur@));
                }
            }
            start = i + 1;
            proof {
                assert(pv@.subrange(start as int, i + 1) =~= Seq::<char>::empty());
            }
        } else {
            proof {
                assert(pv@.subrange(start as int, i + 1) =~= pv@.subrange(start as int, i as int).push(pv@[i as int]));
            }
        }
        i += 1;
    }
    proof {
        assert(pv@.take(i as int) =~= pv@);
    }
    let cur = string_of_range(&pv, start, i);
    if is_kept(&pv, start, i) {
        let ghost before = done@;
        done.push(cur);
        proof {
            assert(done@.map_values(|s: String| s@) =~= before.map_values(|s: String| s@).push(cur@));
        }
    }
    done
}

/// The components of `p`.
pub fn components_exec(p: &str) -> (r: Vec<String>)
    ensures
        r@.map_values(|s: String| s@) == components(p@),
{
    let pv = chars_of(p);
    let segs = segments_exec(p);
    let mut out: Vec<String> = Vec::new();
    if pv.len() > 0 && pv[0] == '/' {
        out.push(owned("/"));
    } else if pv.len() >= 1 && pv[0] == '.' && (pv.len() == 1 || pv[1] == '/') {
        out.push(owned("."));
    }
    proof {
        reveal_strlit("/");
        reveal_strlit(".");
        assert("/"@ =~= seq!['/']);
        assert("."@ =~= seq!['.']);
        assert(pv@ == p@);
        let head = if is_absolute(p@) {
            seq![seq!['/']]
        } else if leading_cur_dir(p@) {
            seq![seq!['.']]
        } else {
            Seq::<Seq<char>>::empty()
        };
        assert(out@.map_values(|s: String| s@) =~= head);
    }
    let ghost head = out@.map_values(|s: String| s@);
    let mut i: usize = 0;
    while i < segs.len()
        invariant
            i <= segs@.len(),
            segs@.map_values(|s: String| s@) == segments(p@),
            out@.map_values(|s: String| s@) == head + segments(p@).take(i as int),
        decreases segs@.len() - i,
    {
        let ghost before = out@;
        out.push(segs[i].clone());
        proof {
            assert(segments(p@)[i as int] == segs@[i as int]@);
            assert(out@.map_values(|s: String| s@) =~= before.map_values(|s: String| s@).push(segs@[i as int]@));
            assert(segments(p@).take(i + 1) =~= segments(p@).take(i as int).push(segments(p@)[i as int]));
        }
        i += 1;
    }
    proof {
        assert(segments(p@).take(i as int) =~= segments(p@));
    }
    out
}

/// Whether `a` and `b` are the same path, component by component.
pub fn path_eq_exec(a: &str, b: &str) -> (r: bool)
    ensures
        r == path_eq(a@, b@),
        r == (components(a@) == components(b@)),
{
    let ca = components_exec(a);
    let cb = components_exec(b);
    let ghost va = ca@.map_values(|s: String| s@);
    let ghost vb = cb@.map_values(|s: String| s@);
    if ca.len() != cb.len() {
        proof {
            assert(va.len() != vb.len());
        }
        return false;
    }
    let mut i: usize = 0;
    while i < ca.len()
        invariant
            i <= ca@.len(),
            ca@.len() == cb@.len(),
            va == ca@.map_values(|s: String| s@),
            vb == cb@.map_values(|s: String| s@),
            va == components(a@),
            vb == components(b@),
            forall|k: int| 0 <= k < i ==> va[k] == vb[k],
        decreases ca@.len() - i,
    {
        if !str_eq(ca[i].as_str(), cb[i].as_str()) {
            proof {
                assert(va[i as int] != vb[i as int]);
            }
            return false;
        }
        i += 1;
    }
    proof {
        assert(va =~= vb);
    }
    true
}

/// Two paths are equal exactly when they have the same components, every
/// one of them in the same place: paths that differ in any directory name,
/// or in their depth, are different paths.
pub proof fn lemma_path_eq_components(a: Seq<char>, b: Seq<char>)
    ensures
        path_eq(a, b) <==> components(a) == components(b),
        path_eq(a, b) ==> forall|i: int| 0 <= i < components(a).len() ==> #[trigger] components(a)[i]
            == components(b)[i],
        (components(a).len() == components(b).len() && exists|i: int|
            0 <= i < components(a).len() && #[trigger] components(a)[i] != components(b)[i]) ==> !path_eq(a, b),
{
}

/// Whether `base`'s components begin `p`'s.
pub fn path_starts_with_exec(p: &str, base: &str) -> (r: bool)
    ensures
        r == path_starts_with(p@, base@),
{
    let cp = components_exec(p);
    let cb = components_exec(base);
    let ghost vp = cp@.map_values(|s: String| s@);
    let ghost vb = cb@.map_values(|s: String| s@);
    if cb.len() > cp.len() {
        return false;
    }
    let mut i: usize = 0;
    while i < cb.len()
        invariant
            i <= cb@.len() <= cp@.len(),
            vp == cp@.map_values(|s: String| s@),
            vb == cb@.map_values(|s: String| s@),
            vp == components(p@),
            vb == components(base@),
            forall|k: int| 0 <= k < i ==> vp[k] == vb[k],
        decreases cb@.len() - i,
    {
        if !str_eq(cp[i].as_str(), cb[i].as_str()) {
            proof {
                assert(vp.take(vb.len() as int)[i as int] != vb[i as int]);
            }
            return false;
        }
        i += 1;
    }
    proof {
        assert(vp.take(vb.len() as int) =~= vb);
    }
    true
}

/// Whether `v[start..end]` is a segment that names something.
fn is_kept(v: &Vec<char>, start: usize, end: usize) -> (b: bool)
    requires
        start <= end <= v.len(),
    ensures
        b == keeps(v@.subrange(start as int, end as int)),
{
    if start == end {
        return false;
    }
    if end - start == 1 && v[start] == '.' {
        assert(v@.subrange(start as int, end as int) =~= seq!['.']);
        return false;
    }
    proof {
        if v@.subrange(start as int, end as int) == seq!['.'] {
            assert(v@.subrange(start as int, end as int)[0] == v@[start as int]);
        }
    }
    true
}

/// The final component of `p`, if it has one that is not `..`.
pub fn file_name_of(p: &str) -> (r: Option<String>)
    ensures
        r matches Some(n) ==> file_name(p@) == Some(n@),
        r is None ==> file_name(p@) is None,
{
    let segs = segments_exec(p);
    proof {
        assert(segs@.map_values(|s: String| s@).len() == segs@.len());
    }
    if segs.len() == 0 {
        return None;
    }
    let last = segs[segs.len() - 1].clone();
    let lv = chars_of(last.as_str());
    proof {
        assert(segs@.map_values(|s: String| s@).last() == segs@.last()@);
    }
    if lv.len() == 2 && lv[0] == '.' && lv[1] == '.' {
        assert(lv@ =~= seq!['.', '.']);
        return None;
    }
    proof {
        if last@ == seq!['.', '.'] {
            assert(lv@[0] == '.' && lv@[1] == '.');
        }
    }
    Some(last)
}

/// A file name split into stem and optional extension.
pub(crate) fn split_ext_exec(name: &str) -> (r: (String, Option<String>))
    ensures
        r.0@ == split_ext(name@).0,
        r.1 matches Some(e) ==> split_ext(name@).1 == Some(e@),
        r.1 is None ==> split_ext(name@).1 is None,
{
    let v = chars_of(name);
    match crate::text::last_index_of_exec(&v, '.') {
        Some(i) => {
            if i == 0 {
                (owned(name), None)
            } else {
                (string_of_range(&v, 0, i), Some(string_of_range(&v, i + 1, v.len())))
            }
        },
        None => (owned(name), None),
    }
}

/// Safe path operations that report a missing component as an error rather
/// than as `None`.
pub trait PathExt {
    /// The file name, or an `InvalidPath` error when there is none.
    fn file_name_str(&self) -> Result<String>;

    /// The file stem (name without extension), or an `InvalidPath` error.
    fn file_stem_str(&self) -> Result<String>;

    /// The extension, or an `InvalidPath` error when there is none.
    fn extension_str(&self) -> Result<String>;
}

impl PathExt for str {
    fn file_name_str(&self) -> (r: Result<String>)
        ensures
            r matches Ok(n) ==> file_name(self@) == Some(n@),
            r is Err <==> file_name(self@) is None,
            r matches Err(e) ==> e is InvalidPath && e->InvalidPath_path@ == self@
                && e->InvalidPath_message@ == "path has no file name component"@,
    {
        match file_name_of(self) {
            Some(n) => Ok(n),
            None => Err(RheoError::InvalidPath {
                path: owned(self),
                message: owned("path has no file name component"),
            }),
        }
    }

    fn file_stem_str(&self) -> (r: Result<String>)
        ensures
            r matches Ok(n) ==> file_stem(self@) == Some(n@),
            r is Err <==> file_stem(self@) is None,
            r matches Err(e) ==> e is InvalidPath && e->InvalidPath_path@ == self@
                && e->InvalidPath_message@ == "path has no file stem component"@,
    {
        match file_name_of(self) {
            Some(n) => {
                let (stem, _) = split_ext_exec(n.as_str());
                Ok(stem)
            },
            None => Err(RheoError::InvalidPath {
                path: owned(self),
                message: owned("path has no file stem component"),
            }),
        }
    }

    fn extension_str(&self) -> (r: Result<String>)
        ensures
            r matches Ok(x) ==> extension(self@) == Some(x@),
            r is Err <==> extension(self@) is None,
            r matches Err(e) ==> e is InvalidPath && e->InvalidPath_path@ == self@
                && e->InvalidPath_message@ == "path has no extension"@,
    {
        let missing = RheoError::InvalidPath {
            path: owned(self),
            message: owned("path has no extension"),
        };
        match file_name_of(self) {
            Some(n) => {
                let (_, ext) = split_ext_exec(n.as_str());
                match ext {
                    Some(e) => Ok(e),
                    None => Err(missing),
                }
            },
            None => Err(missing),
        }
    }
}

/// A path as a forward-slash string (backslashes turned into `/`), safe to
/// embed in Typst source on every platform.
pub fn to_forward_slash(p: &str) -> (r: String)
    ensures
        r@ == replace_char(p@, '\\', seq!['/']),
{
    proof {
        reveal_strlit("/");
        assert("/"@ =~= seq!['/']);
    }
    replace_char_exec(p, '\\', "/")
}

/// One label segment made safe for Typst: alphanumerics, `-` and `_` kept,
/// every other character replaced by `_`.
pub fn sanitize_handle_segment(s: &str) -> (r: String)
    ensures
        r@ == s@.map_values(|c: char| sanitize_char(c)),
{
    let v = chars_of(s);
    let mut out = String::new();
    let mut i: usize = 0;
    while i < v.len()
        invariant
            v@ == s@,
            i <= v.len(),
            out@ == v@.take(i as int).map_values(|c: char| sanitize_char(c)),
        decreases v.len() - i,
    {
        let c = v[i];
        let kept = if is_alphanumeric(c) || c == '-' || c == '_' { c } else { '_' };
        push_char(&mut out, kept);
        proof {
            assert(v@.take(i + 1).map_values(|c: char| sanitize_char(c)) =~= v@.take(i as int).map_values(
                |c: char| sanitize_char(c),
            ).push(sanitize_char(c)));
        }
        i += 1;
    }
    proof {
        assert(v@.take(i as int) =~= v@);
    }
    out
}

/// Text escaped for use inside Typst square-bracket content `[…]`:
/// `\`, `[`, `]` and `#` are each escaped with a backslash.
pub fn escape_typst_content(s: &str) -> (r: String)
    ensures
        r@ == escape_typst_spec(s@),
{
    let a = replace_char_exec(s, '\\', "\\\\");
    let b = replace_char_exec(a.as_str(), '[', "\\[");
    let c = replace_char_exec(b.as_str(), ']', "\\]");
    let d = replace_char_exec(c.as_str(), '#', "\\#");
    proof {
        reveal_strlit("\\\\");
        reveal_strlit("\\[");
        reveal_strlit("\\]");
        reveal_strlit("\\#");
        assert("\\\\"@ =~= seq!['\\', '\\']);
        assert("\\["@ =~= seq!['\\', '[']);
        assert("\\]"@ =~= seq!['\\', ']']);
        assert("\\#"@ =~= seq!['\\', '#']);
    }
    d
}

/// The canonical, absolute form of `path`, with every symlink resolved. A
/// failure is reported as an `InvalidPath` naming the path.
pub fn canonicalize_path(path: &str) -> (r: Result<String>)
    ensures
        r matches Ok(c) ==> is_absolute(c@),
        r matches Err(e) ==> e is InvalidPath && e->InvalidPath_path@ == path@
            && crate::text::starts_with(e->InvalidPath_message@, "failed to canonicalize path: "@),
{
    match canonicalize_os(path) {
        Ok(p) => Ok(p),
        Err(e) => {
            let mut message = owned("failed to canonicalize path: ");
            let ghost prefix = message@;
            push_str(&mut message, e.as_str());
            proof {
                assert(message@.take(prefix.len() as int) =~= prefix);
            }
            Err(RheoError::InvalidPath { path: owned(path), message })
        },
    }
}

/// `path` resolved against `base`; an absolute `path` stands as it is.
pub fn resolve_path(base: &str, path: &str) -> (r: String)
    ensures
        r@ == resolve_path_spec(base@, path@),
{
    let pv = chars_of(path);
    if pv.len() > 0 && pv[0] == '/' {
        owned(path)
    } else {
        join_exec(base, path)
    }
}

/// `p` without its leading `/` characters.
fn strip_root_exec(p: &str) -> (r: String)
    ensures
        r@ == strip_root(p@),
{
    let v = chars_of(p);
    let mut i: usize = 0;
    proof {
        assert(v@.skip(0) =~= v@);
    }
    while i < v.len() && v[i] == '/'
        invariant
            v@ == p@,
            i <= v.len(),
            strip_root(p@) == strip_root(v@.skip(i as int)),
        decreases v.len() - i,
    {
        proof {
            assert(v@.skip(i as int).drop_first() =~= v@.skip(i + 1));
        }
        i += 1;
    }
    proof {
        assert(v@.subrange(i as int, v.len() as int) =~= v@.skip(i as int));
    }
    string_of_range(&v, i, v.len())
}

/// A `.typ` link href resolved to a path: `/`-rooted hrefs against the
/// content directory (Typst's root), relative ones (`./` included) against
/// the linking file's directory.
pub fn resolve_href(href: &str, file_dir: &str, content_dir: &str) -> (r: String)
    ensures
        r@ == resolve_href_spec(href@, file_dir@, content_dir@),
{
    let hv = chars_of(href);
    if hv.len() > 0 && hv[0] == '/' {
        let rel = strip_root_exec(href);
        join_exec(content_dir, rel.as_str())
    } else {
        join_exec(file_dir, href)
    }
}

} // verus!
