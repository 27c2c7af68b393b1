//! Copy globs: `copy = ["images/**"]` patterns compiled by globset, which
//! files they pull into an output directory and where each lands, and the
//! watcher's test of whether a changed path is a declared asset.

use vstd::prelude::*;
use crate::manifest::{first_occurrences, lemma_first_occurrences_members};
use crate::assets::{copy_dest_spec, copy_destination, AssetResolver};
use crate::paths::{canonicalize_os, is_absolute, join, join_exec};
use crate::migrate::sort_strings_exec;
use crate::text::{owned, str_eq};

verus! {

// ─── Specifications ─────────────────────────────────────────────────────────

/// Whether globset compiles `pattern` (with `/` matched only literally).
pub uninterp spec fn glob_compiles(pattern: Seq<char>) -> bool;

/// Whether the compiled glob `pattern` matches `path`.
pub uninterp spec fn glob_match(pattern: Seq<char>, path: Seq<char>) -> bool;

/// The indices, ascending, of the patterns among `ps[..n]` that match
/// `path`.
pub open spec fn matching_indices(ps: Seq<Seq<char>>, path: Seq<char>, n: int) -> Seq<int>
    decreases n,
{
    if n <= 0 || n > ps.len() {
        Seq::empty()
    } else if glob_match(ps[n - 1], path) {
        matching_indices(ps, path, n - 1).push(n - 1)
    } else {
        matching_indices(ps, path, n - 1)
    }
}

/// Whether any of the patterns matches `path`.
pub open spec fn any_match(ps: Seq<Seq<char>>, path: Seq<char>) -> bool {
    exists|k: int| 0 <= k < ps.len() && glob_match(#[trigger] ps[k], path)
}

/// The patterns that compile once joined to `base`, as written.
pub open spec fn compiled_patterns(base: Seq<char>, ps: Seq<Seq<char>>) -> Seq<Seq<char>>
    decreases ps.len(),
{
    if ps.len() == 0 {
        Seq::empty()
    } else {
        let prev = compiled_patterns(base, ps.drop_last());
        if glob_compiles(join(base, ps.last())) {
            prev.push(ps.last())
        } else {
            prev
        }
    }
}

/// Each pattern joined to `base`.
pub open spec fn absolute_patterns(base: Seq<char>, ps: Seq<Seq<char>>) -> Seq<Seq<char>> {
    ps.map_values(|p: Seq<char>| join(base, p))
}

/// The copies the globs call for among `files`, in the order given: each
/// matched file with its destination.
pub open spec fn glob_copies(
    files: Seq<Seq<char>>,
    abs: Seq<Seq<char>>,
    source_root: Seq<char>,
    out_dir: Seq<char>,
    dest_prefix: Option<Seq<char>>,
) -> Seq<(Seq<char>, Seq<char>)>
    decreases files.len(),
{
    if files.len() == 0 {
        Seq::empty()
    } else {
        let prev = glob_copies(files.drop_last(), abs, source_root, out_dir, dest_prefix);
        let f = files.last();
        if any_match(abs, f) {
            prev.push((f, copy_dest_spec(f, source_root, out_dir, dest_prefix)))
        } else {
            prev
        }
    }
}

// ─── The outside crate ──────────────────────────────────────────────────────

/// globset's compiled set of globs.
#[verifier::external_type_specification]
#[verifier::external_body]
pub struct ExGlobSet(globset::GlobSet);

/// globset's `GlobBuilder::new(pattern).literal_separator(true).build()`:
/// whether the pattern compiles. The answer is named: it is a function of
/// the pattern alone.
#[verifier::external_body]
fn compiles(pattern: &str) -> (b: bool)
    ensures
        b == glob_compiles(pattern@),
{
    globset::GlobBuilder::new(pattern).literal_separator(true).build().is_ok()
}

/// Whether globset's `GlobSetBuilder` builds a set from these globs. The
/// build compiles the globs into one matcher and fails when that exceeds
/// globset's bounds; the answer depends on the globs alone.
pub uninterp spec fn globset_builds(globs: Seq<Seq<char>>) -> bool;

/// globset's `GlobSetBuilder`, given each pattern compiled as in
/// [`compiles`], and its `build`. Whether the build succeeds is named by
/// [`globset_builds`]; nothing more is promised of it.
#[verifier::external_body]
fn build_set(patterns: &Vec<String>) -> (r: Option<globset::GlobSet>)
    requires
        forall|k: int| 0 <= k < patterns@.len() ==> glob_compiles(#[trigger] patterns@[k]@),
    ensures
        r is Some == globset_builds(patterns@.map_values(|s: String| s@)),
{
    let mut builder = globset::GlobSetBuilder::new();
    for p in patterns {
        builder.add(globset::GlobBuilder::new(p).literal_separator(true).build().unwrap());
    }
    builder.build().ok()
}

/// globset's `GlobSet::matches`: the indices, in ascending order and each
/// once, of the set's globs that match `path`. The set was built from
/// `globs.absolute`, one glob for one pattern in order.
#[verifier::external_body]
fn set_matches(globs: &CopyGlobs, path: &str) -> (r: Vec<usize>)
    ensures
        forall|k: int|
            0 <= k < globs.absolute@.len() ==> (glob_match(#[trigger] globs.absolute@[k]@, path@)
                <==> r@.map_values(|j: usize| j as int).contains(k)),
        r@.map_values(|k: usize| k as int) == matching_indices(
            globs.absolute@.map_values(|s: String| s@),
            path@,
            globs.absolute@.len() as int,
        ),
{
    globs.set.matches(path)
}

// ─── Copy globs ─────────────────────────────────────────────────────────────

/// Compiled copy globs: the patterns that compiled, as written and joined to
/// their base, and the set globset built from them.
pub struct CopyGlobs {
    patterns: Vec<String>,
    absolute: Vec<String>,
    set: globset::GlobSet,
}

impl CopyGlobs {
    /// The patterns that compiled, as written.
    pub closed spec fn patterns_view(&self) -> Seq<Seq<char>> {
        self.patterns@.map_values(|s: String| s@)
    }

    /// The patterns that compiled, joined to their base.
    pub closed spec fn absolute_view(&self) -> Seq<Seq<char>> {
        self.absolute@.map_values(|s: String| s@)
    }

    /// Compiles `patterns`, each joined to `base` (so a relative pattern
    /// matches absolute paths under `base`), with `/` matched only
    /// literally. A pattern that does not compile is skipped; `None` when
    /// none compiled, or when globset could not build the set.
    pub fn compile(base: &str, patterns: &Vec<String>) -> (r: Option<CopyGlobs>)
        ensures
            r is Some <==> compiled_patterns(base@, patterns@.map_values(|s: String| s@)).len() > 0
                && globset_builds(
                absolute_patterns(base@, compiled_patterns(base@, patterns@.map_values(|s: String| s@))),
            ),
            r matches Some(g) ==> g.patterns_view() == compiled_patterns(
                base@,
                patterns@.map_values(|s: String| s@),
            ) && g.absolute_view() == absolute_patterns(base@, g.patterns_view()),
    {
        let ghost pv = patterns@.map_values(|s: String| s@);
        let mut kept: Vec<String> = Vec::new();
        let mut absolute: Vec<String> = Vec::new();
        let mut i: usize = 0;
        proof {
            assert(pv.take(0) =~= Seq::<Seq<char>>::empty());
        }
        while i < patterns.len()
            invariant
                i <= patterns@.len(),
                pv == patterns@.map_values(|s: String| s@),
                kept@.map_values(|s: String| s@) == compiled_patterns(base@, pv.take(i as int)),
                absolute@.map_values(|s: String| s@) == absolute_patterns(
                    base@,
                    kept@.map_values(|s: String| s@),
                ),
                forall|k: int| 0 <= k < absolute@.len() ==> glob_compiles(#[trigger] absolute@[k]@),
            decreases patterns@.len() - i,
        {
            proof {
                assert(pv.take(i + 1).drop_last() =~= pv.take(i as int));
                assert(pv.take(i + 1).last() == pv[i as int]);
            }
            let abs = join_exec(base, patterns[i].as_str());
            if compiles(abs.as_str()) {
                let ghost k0 = kept@;
                let ghost a0 = absolute@;
                kept.push(owned(patterns[i].as_str()));
                absolute.push(abs);
                proof {
                    assert(kept@.map_values(|s: String| s@) =~= k0.map_values(|s: String| s@).push(
                        pv[i as int],
                    ));
                    assert(absolute@.map_values(|s: String| s@) =~= a0.map_values(|s: String| s@).push(
                        abs@,
                    ));
                    assert(absolute_patterns(base@, kept@.map_values(|s: String| s@)) =~= absolute_patterns(
                        base@,
                        k0.map_values(|s: String| s@),
                    ).push(join(base@, pv[i as int])));
                    assert(absolute@.map_values(|s: String| s@) =~= absolute_patterns(
                        base@,
                        kept@.map_values(|s: String| s@),
                    ));
                    assert forall|k: int| 0 <= k < absolute@.len() implies glob_compiles(
                        #[trigger] absolute@[k]@,
                    ) by {
                        if k < a0.len() {
                            assert(absolute@[k] == a0[k]);
                        }
                    }
                }
            }
            i += 1;
        }
        proof {
            assert(pv.take(i as int) =~= pv);
        }
        if kept.len() == 0 {
            return None;
        }
        match build_set(&absolute) {
            Some(set) => Some(CopyGlobs { patterns: kept, absolute, set }),
            None => None,
        }
    }

    /// The indices, ascending, of the compiled patterns that match `path`.
    pub fn matches(&self, path: &str) -> (r: Vec<usize>)
        ensures
            r@.map_values(|k: usize| k as int) == matching_indices(
                self.absolute_view(),
                path@,
                self.absolute_view().len() as int,
            ),
    {
        set_matches(self, path)
    }

    /// Whether any compiled pattern matches `path`.
    pub fn is_match(&self, path: &str) -> (b: bool)
        ensures
            b == any_match(self.absolute_view(), path@),
    {
        let m = self.matches(path);
        proof {
            lemma_matching_indices(self.absolute_view(), path@, self.absolute_view().len() as int);
            if m@.len() > 0 {
                assert(m@.map_values(|k: usize| k as int)[0] == m@[0] as int);
            }
        }
        m.len() > 0
    }
}

/// The matching indices are exactly the matching patterns.
proof fn lemma_matching_indices(ps: Seq<Seq<char>>, path: Seq<char>, n: int)
    requires
        0 <= n <= ps.len(),
    ensures
        forall|j: int| 0 <= j < matching_indices(ps, path, n).len() ==> {
            let k = #[trigger] matching_indices(ps, path, n)[j];
            0 <= k < n && glob_match(ps[k], path)
        },
        (exists|k: int| 0 <= k < n && glob_match(#[trigger] ps[k], path)) ==> matching_indices(
            ps,
            path,
            n,
        ).len() > 0,
    decreases n,
{
    if n > 0 {
        lemma_matching_indices(ps, path, n - 1);
        if !glob_match(ps[n - 1], path) {
            assert forall|k: int| 0 <= k < n && glob_match(#[trigger] ps[k], path) implies k < n - 1 by {}
        }
    }
}

/// The copies `globs` call for among `files` (a walk of `source_root`, in
/// walk order): each matched file with where it lands under
/// `plugin_output_dir`, below `dest_prefix` when given, keeping its path
/// relative to `source_root`.
pub fn plan_glob_copies(
    files: &Vec<String>,
    globs: &CopyGlobs,
    source_root: &str,
    plugin_output_dir: &str,
    dest_prefix: Option<&str>,
) -> (r: Vec<(String, String)>)
    ensures
        r@.map_values(|c: (String, String)| (c.0@, c.1@)) == glob_copies(
            files@.map_values(|s: String| s@),
            globs.absolute_view(),
            source_root@,
            plugin_output_dir@,
            match dest_prefix {
                Some(d) => Some(d@),
                None => None,
            },
        ),
{
    let ghost fv = files@.map_values(|s: String| s@);
    let ghost dp = match dest_prefix {
        Some(d) => Some(d@),
        None => None::<Seq<char>>,
    };
    let mut out: Vec<(String, String)> = Vec::new();
    let mut i: usize = 0;
    proof {
        assert(fv.take(0) =~= Seq::<Seq<char>>::empty());
    }
    while i < files.len()
        invariant
            i <= files@.len(),
            fv == files@.map_values(|s: String| s@),
            dp == (match dest_prefix {
                Some(d) => Some(d@),
                None => None::<Seq<char>>,
            }),
            out@.map_values(|c: (String, String)| (c.0@, c.1@)) == glob_copies(
                fv.take(i as int),
                globs.absolute_view(),
                source_root@,
                plugin_output_dir@,
                dp,
            ),
        decreases files@.len() - i,
    {
        proof {
            assert(fv.take(i + 1).drop_last() =~= fv.take(i as int));
            assert(fv.take(i + 1).last() == fv[i as int]);
        }
        let f = files[i].as_str();
        if globs.is_match(f) {
            let dest = copy_destination(f, source_root, plugin_output_dir, dest_prefix);
            let ghost before = out@;
            out.push((owned(f), dest));
            proof {
                assert(out@.map_values(|c: (String, String)| (c.0@, c.1@)) =~= before.map_values(
                    |c: (String, String)| (c.0@, c.1@),
                ).push((fv[i as int], copy_dest_spec(fv[i as int], source_root@, plugin_output_dir@, dp))));
            }
        }
        i += 1;
    }
    proof {
        assert(fv.take(i as int) =~= fv);
    }
    out
}

// ─── The watcher's asset test ───────────────────────────────────────────────

/// What the watcher treats as an asset: every resolved asset source, every
/// compiled copy glob, and the package roots to watch besides the project.
pub struct WatchAssetSpec {
    asset_paths: Vec<String>,
    copy_globs: Vec<CopyGlobs>,
    package_roots: Vec<String>,
}

impl WatchAssetSpec {
    /// The resolved asset sources.
    pub closed spec fn assets_view(&self) -> Seq<Seq<char>> {
        self.asset_paths@.map_values(|s: String| s@)
    }

    /// The compiled copy globs.
    pub closed spec fn globs_view(&self) -> Seq<CopyGlobs> {
        self.copy_globs@
    }

    /// The package roots, each once, in order.
    pub closed spec fn roots_view(&self) -> Seq<Seq<char>> {
        self.package_roots@.map_values(|s: String| s@)
    }

    /// Whether `path` (or its canonical form, when there is one) is a
    /// resolved asset source or matches a copy glob.
    pub open spec fn watched(&self, path: Seq<char>, canonical: Option<Seq<char>>) -> bool {
        ||| self.assets_view().contains(path)
        ||| (canonical matches Some(c) && self.assets_view().contains(c))
        ||| exists|k: int|
            0 <= k < self.globs_view().len() && (any_match(
                #[trigger] self.globs_view()[k].absolute_view(),
                path,
            ) || (canonical matches Some(c) && any_match(self.globs_view()[k].absolute_view(), c)))
    }

    /// A spec from asset sources, compiled copy globs and package roots.
    /// Each path is canonicalized where the file system can (what that gives
    /// is its answer, so only the count is stated); the package roots are
    /// sorted with duplicates dropped.
    pub fn new(asset_paths: Vec<String>, copy_globs: Vec<CopyGlobs>, package_roots: Vec<String>) -> (r: Self)
        ensures
            r.assets_view().len() == asset_paths@.len(),
            r.globs_view() == copy_globs@,
            forall|i: int, j: int| 0 <= i < j < r.roots_view().len() ==> r.roots_view()[i] != r.roots_view()[j],
    {
        let assets = canonical_each(&asset_paths);
        let roots = canonical_each(&package_roots);
        let sorted = sort_strings_exec(roots);
        let package_roots = dedup_sorted(sorted);
        WatchAssetSpec { asset_paths: assets, copy_globs, package_roots }
    }

    /// The directories outside the project that must also be watched.
    pub fn package_roots(&self) -> (r: &Vec<String>)
        ensures
            r@.map_values(|s: String| s@) == self.roots_view(),
    {
        &self.package_roots
    }

    /// Whether `path` (or `canonical`, its canonical form when there is one)
    /// is a resolved asset source or matches a copy glob.
    pub fn matches(&self, path: &str, canonical: Option<&str>) -> (b: bool)
        ensures
            b == self.watched(
                path@,
                match canonical {
                    Some(c) => Some(c@),
                    None => None,
                },
            ),
    {
        if holds(&self.asset_paths, path) {
            return true;
        }
        match canonical {
            Some(c) => {
                if holds(&self.asset_paths, c) {
                    return true;
                }
            },
            None => {},
        }
        let mut k: usize = 0;
        while k < self.copy_globs.len()
            invariant
                k <= self.copy_globs@.len(),
                !self.assets_view().contains(path@),
                !(canonical matches Some(c) && self.assets_view().contains(c@)),
                forall|j: int|
                    0 <= j < k ==> !(any_match(#[trigger] self.globs_view()[j].absolute_view(), path@)
                        || (canonical matches Some(c) && any_match(
                        self.globs_view()[j].absolute_view(),
                        c@,
                    ))),
            decreases self.copy_globs@.len() - k,
        {
            let g = &self.copy_globs[k];
            let hit = g.is_match(path) || match canonical {
                Some(c) => g.is_match(c),
                None => false,
            };
            if hit {
                return true;
            }
            k += 1;
        }
        false
    }
}

/// Whether `v` holds `s`.
fn holds(v: &Vec<String>, s: &str) -> (b: bool)
    ensures
        b == v@.map_values(|x: String| x@).contains(s@),
{
    let ghost vv = v@.map_values(|x: String| x@);
    let mut i: usize = 0;
    while i < v.len()
        invariant
            i <= v@.len(),
            vv == v@.map_values(|x: String| x@),
            forall|j: int| 0 <= j < i ==> vv[j] != s@,
        decreases v@.len() - i,
    {
        if str_eq(v[i].as_str(), s) {
            proof {
                assert(vv[i as int] == s@);
            }
            return true;
        }
        i += 1;
    }
    false
}

/// Each path canonicalized where the file system can, as given otherwise:
/// each entry is the path given or an absolute one.
fn canonical_each(paths: &Vec<String>) -> (r: Vec<String>)
    ensures
        r@.len() == paths@.len(),
        forall|i: int| 0 <= i < r@.len() ==> #[trigger] r@[i]@ == paths@[i]@ || is_absolute(r@[i]@),
{
    let mut out: Vec<String> = Vec::new();
    let mut i: usize = 0;
    while i < paths.len()
        invariant
            i <= paths@.len(),
            out@.len() == i,
            forall|j: int| 0 <= j < i ==> #[trigger] out@[j]@ == paths@[j]@ || is_absolute(out@[j]@),
        decreases paths@.len() - i,
    {
        let p = match canonicalize_os(paths[i].as_str()) {
            Ok(c) => c,
            Err(_) => owned(paths[i].as_str()),
        };
        out.push(p);
        i += 1;
    }
    out
}

/// A list without its repeats: each string where it first occurs.
fn dedup_sorted(v: Vec<String>) -> (r: Vec<String>)
    ensures
        r@.map_values(|x: String| x@) == first_occurrences(v@.map_values(|x: String| x@)),
        r@.len() <= v@.len(),
        forall|i: int, j: int| 0 <= i < j < r@.len() ==> r@[i]@ != r@[j]@,
{
    let ghost all = v@.map_values(|x: String| x@);
    let mut out: Vec<String> = Vec::new();
    let mut i: usize = 0;
    proof {
        assert(all.take(0) =~= Seq::<Seq<char>>::empty());
        assert(out@.map_values(|x: String| x@) =~= Seq::<Seq<char>>::empty());
    }
    while i < v.len()
        invariant
            i <= v@.len(),
            all == v@.map_values(|x: String| x@),
            out@.len() <= i,
            out@.map_values(|x: String| x@) == first_occurrences(all.take(i as int)),
            forall|a: int, b: int| 0 <= a < b < out@.len() ==> out@[a]@ != out@[b]@,
        decreases v@.len() - i,
    {
        proof {
            assert(all.take(i + 1).drop_last() =~= all.take(i as int));
            assert(all.take(i + 1).last() == v@[i as int]@);
            lemma_first_occurrences_members(all.take(i as int));
        }
        let x = v[i].as_str();
        if !holds(&out, x) {
            let ghost before = out@;
            out.push(owned(x));
            proof {
                assert(out@.map_values(|y: String| y@) =~= before.map_values(|y: String| y@).push(x@));
                assert forall|a: int, b: int| 0 <= a < b < out@.len() implies out@[a]@ != out@[b]@ by {
                    if b == out@.len() - 1 {
                        assert(out@[a] == before[a]);
                        assert(before.map_values(|x: String| x@)[a] == before[a]@);
                    } else {
                        assert(out@[a] == before[a] && out@[b] == before[b]);
                    }
                }
            }
        }
        i += 1;
    }
    proof {
        assert(all.take(i as int) =~= all);
    }
    out
}

impl Default for WatchAssetSpec {
    /// No assets, no globs, no package roots.
    fn default() -> (r: Self)
        ensures
            r.assets_view().len() == 0,
            r.globs_view().len() == 0,
            r.roots_view().len() == 0,
    {
        WatchAssetSpec { asset_paths: Vec::new(), copy_globs: Vec::new(), package_roots: Vec::new() }
    }
}

impl AssetResolver {
    /// The copies the glob `patterns` (relative to `source_root`) call for
    /// among `files`, a walk of `source_root`: each matched file with where
    /// it lands in this resolver's output directory, below `dest_prefix`
    /// when given. Patterns that do not compile are skipped; when none
    /// compiles, or globset cannot build their set, nothing is copied.
    pub fn copy_globs(
        &self,
        files: &Vec<String>,
        patterns: &Vec<String>,
        source_root: &str,
        dest_prefix: Option<&str>,
    ) -> (r: Vec<(String, String)>)
        ensures
            r@.map_values(|c: (String, String)| (c.0@, c.1@)) == if compiled_patterns(
                source_root@,
                patterns@.map_values(|s: String| s@),
            ).len() > 0 && globset_builds(
                absolute_patterns(source_root@, compiled_patterns(source_root@, patterns@.map_values(|s: String| s@))),
            ) {
                glob_copies(
                    files@.map_values(|s: String| s@),
                    absolute_patterns(
                        source_root@,
                        compiled_patterns(source_root@, patterns@.map_values(|s: String| s@)),
                    ),
                    source_root@,
                    self.plugin_output_dir@,
                    match dest_prefix {
                        Some(d) => Some(d@),
                        None => None,
                    },
                )
            } else {
                Seq::empty()
            },
    {
        match CopyGlobs::compile(source_root, patterns) {
            Some(globs) => plan_glob_copies(files, &globs, source_root, self.plugin_output_dir.as_str(), dest_prefix),
            None => {
                let r: Vec<(String, String)> = Vec::new();
                proof {
                    assert(r@.map_values(|c: (String, String)| (c.0@, c.1@)) =~= Seq::<(Seq<char>, Seq<char>)>::empty());
                }
                r
            },
        }
    }
}

} // verus!
