//! The shapes a format plugin works with: the assets it declares, the
//! targets it compiles through, the pages it finishes, and the package
//! specifiers it resolves.

use vstd::prelude::*;
use crate::error::Result;
use crate::paths::{is_dir, join, join_exec};
use crate::text::{chars_of, first_index_of, first_index_of_exec, last_index_of, last_index_of_exec, string_of_range};

verus! {

/// An embedded fallback for an asset: content the plugin ships built in,
/// written into the output directory (under `name`) when no on-disk source
/// resolves, then linked like any copied asset.
#[derive(Debug, Clone, Copy, PartialEq, Eq)]
pub struct EmbeddedDefault {
    /// Output filename (relative to the plugin output dir) to write the content as.
    pub name: &'static str,
    /// The verbatim text to write.
    pub content: &'static str,
}

/// Declares an additional non-Typst input file needed from the project
/// directory.
#[derive(Debug, Clone)]
pub struct AssetConfig {
    /// Key this asset is retrieved by from [`PageAssets::assets`].
    pub name: &'static str,
    /// Default path relative to the project root where the file is expected.
    pub default_path: &'static str,
    /// If true, a missing file is a compile error; if false, it is absent.
    pub required: bool,
    /// Embedded fallback written and linked when no on-disk source resolves.
    pub default_content: Option<EmbeddedDefault>,
}

/// One resolved asset.
#[derive(Debug, Clone)]
pub struct Asset {
    pub config: AssetConfig,
    /// Whether this script must be loaded as an ES module.
    pub module: bool,
    /// Absolute path of the source file this asset was copied from.
    pub source_path: String,
    /// Absolute path of the copied file in the plugin output directory.
    pub resolved_path: String,
    pub built_relative_path: String,
}

/// Template data contributed by a plugin for `rheo init`.
#[derive(Debug, Clone)]
pub struct FormatInitTemplate {
    /// `(relative_path, content)` pairs written verbatim by `rheo init`.
    pub files: Vec<(&'static str, &'static str)>,
    /// TOML snippet embedded under `[<plugin>.*]` in the generated `rheo.toml`.
    pub options_toml: Option<&'static str>,
}

impl Default for FormatInitTemplate {
    /// No files and no options.
    fn default() -> (t: Self)
        ensures
            t.files@.len() == 0,
            t.options_toml is None,
    {
        FormatInitTemplate { files: Vec::new(), options_toml: None }
    }
}

/// Standardized spine options resolved by rheo core before compiling.
#[derive(Debug, Clone)]
pub struct SpineOptions {
    pub title: Option<String>,
    pub vertebrae: Vec<String>,
    /// true = merged output, false = per-file output.
    pub merge: bool,
}

/// Declares an additional non-Typst input file needed from the project
/// directory.
pub struct PluginInput {
    /// Key used to retrieve this input.
    pub name: &'static str,
    /// Path relative to the project root where the file is expected.
    pub path: &'static str,
    /// If true, a missing file is a compile error.
    pub required: bool,
}

/// Typst export target — the format argument passed to
/// `#document(…, format: "…")`.
#[derive(Debug, Clone, Copy, PartialEq, Eq, Structural)]
pub enum TypstFormat {
    Pdf,
    Html,
}

impl TypstFormat {
    /// The target's name as Typst spells it.
    pub fn as_str(self) -> (s: &'static str)
        ensures
            s@ == (match self {
                TypstFormat::Pdf => "pdf"@,
                TypstFormat::Html => "html"@,
            }),
    {
        match self {
            TypstFormat::Pdf => "pdf",
            TypstFormat::Html => "html",
        }
    }
}

/// How a plugin wants the spine laid out for compilation.
#[derive(Debug, Clone, Copy, PartialEq, Eq, Structural)]
pub enum SpineLayoutKind {
    /// One output file per vertebra.
    OnePerVertebra,
    /// All vertebrae in a single output.
    SingleCombined,
}

/// What a format needs to finish one of its pages: the assets core resolved
/// for this build, and the bundle's site-wide `<head>` contribution.
#[derive(Clone, Copy)]
pub struct PageAssets<'a> {
    /// Resolved assets keyed by [`AssetConfig::name`].
    pub assets: &'a std::collections::HashMap<&'static str, Vec<Asset>>,
    /// The site-wide `<head>` fragment, when the bundle minted one.
    pub head_fragment: Option<&'a str>,
}

/// One freshly compiled page, with everything a format needs to finish it.
pub struct ServedPage<'a> {
    /// Output path relative to the plugin's output directory.
    pub path: &'a str,
    /// The compiled page, decoded.
    pub text: &'a str,
    /// Assets core resolved for this build, keyed by [`AssetConfig::name`].
    pub assets: &'a std::collections::HashMap<&'static str, Vec<Asset>>,
    /// Site-wide `<head>` contribution.
    pub head_fragment: Option<&'a str>,
}

impl<'a> PageAssets<'a> {
    /// One compiled page of this build, carrying this build's assets and
    /// head fragment.
    pub fn page(&self, path: &'a str, text: &'a str) -> (p: ServedPage<'a>)
        ensures
            p.path == path,
            p.text == text,
            p.assets == self.assets,
            p.head_fragment == self.head_fragment,
    {
        ServedPage { path, text, assets: self.assets, head_fragment: self.head_fragment }
    }
}

/// Serving a format's pages from memory, for `rheo watch`'s dev server: a
/// format opting in finishes each rebuilt page here.
pub trait LiveReload {
    /// Finish `page`, or return `None` to serve it exactly as compiled.
    fn rewrite_page(&self, page: &ServedPage<'_>) -> Result<Option<String>>;
}

/// A resolved package specifier ready for asset block synthesis.
#[derive(Debug, Clone, PartialEq)]
pub struct ResolvedPackage {
    pub name: String,
    pub source_root: String,
    pub namespace: Option<String>,
    pub version: Option<String>,
}

/// `@namespace/name:version` split into its parts: the namespace runs to the
/// first `/`, the version from the last `:`; each part must be non-empty.
pub open spec fn package_spec_parts(s: Seq<char>) -> Option<(Seq<char>, Seq<char>, Seq<char>)> {
    if s.len() == 0 || s[0] != '@' {
        None
    } else {
        let w = s.drop_first();
        match first_index_of(w, '/') {
            None => None,
            Some(i) => {
                let namespace = w.take(i);
                let rest = w.skip(i + 1);
                match last_index_of(rest, ':') {
                    None => None,
                    Some(j) => {
                        let name = rest.take(j);
                        let version = rest.skip(j + 1);
                        if namespace.len() == 0 || name.len() == 0 || version.len() == 0 {
                            None
                        } else {
                            Some((namespace, name, version))
                        }
                    },
                }
            },
        }
    }
}

/// Parse `@namespace/name:version` into its components; `None` on malformed
/// input.
pub fn parse_package_spec(spec: &str) -> (r: Option<(String, String, String)>)
    ensures
        r matches Some(p) ==> package_spec_parts(spec@) == Some((p.0@, p.1@, p.2@)),
        r is None <==> package_spec_parts(spec@) is None,
{
    let s = chars_of(spec);
    if s.len() == 0 || s[0] != '@' {
        return None;
    }
    let w = string_of_range(&s, 1, s.len());
    let wv = chars_of(w.as_str());
    proof {
        assert(wv@ =~= spec@.drop_first());
    }
    let slash = match first_index_of_exec(&wv, '/') {
        Some(i) => i,
        None => return None,
    };
    let namespace = string_of_range(&wv, 0, slash);
    let rest = string_of_range(&wv, slash + 1, wv.len());
    let rv = chars_of(rest.as_str());
    let colon = match last_index_of_exec(&rv, ':') {
        Some(j) => j,
        None => return None,
    };
    let name = string_of_range(&rv, 0, colon);
    let version = string_of_range(&rv, colon + 1, rv.len());
    proof {
        assert(namespace@ =~= wv@.take(slash as int));
        assert(rest@ =~= wv@.skip(slash + 1));
        assert(name@ =~= rv@.take(colon as int));
        assert(version@ =~= rv@.skip(colon + 1));
    }
    if slash == 0 || colon == 0 || colon + 1 == rv.len() {
        return None;
    }
    Some((namespace, name, version))
}

/// The directory a package lives in under a search directory:
/// `{dir}/{namespace}/{name}/{version}`.
pub open spec fn package_dir(dir: Seq<char>, parts: (Seq<char>, Seq<char>, Seq<char>)) -> Seq<char> {
    join(join(join(dir, parts.0), parts.1), parts.2)
}

/// The first index at which `present` holds.
pub open spec fn first_true(present: Seq<bool>) -> Option<int>
    decreases present.len(),
{
    if present.len() == 0 {
        None
    } else if present[0] {
        Some(0)
    } else {
        match first_true(present.drop_first()) {
            Some(j) => Some(j + 1),
            None => None,
        }
    }
}

/// Whether `r` is what `spec` resolves to among `dirs`, given for each
/// search directory whether the package's directory is present under it:
/// the package under the first directory that holds it; nothing when no
/// directory holds it or the spec is malformed.
pub open spec fn resolves_to(
    r: Option<ResolvedPackage>,
    spec: Seq<char>,
    dirs: Seq<Seq<char>>,
    present: Seq<bool>,
) -> bool {
    match (package_spec_parts(spec), first_true(present)) {
        (Some(parts), Some(i)) => r matches Some(p) && {
            &&& p.name@ == parts.1
            &&& p.namespace matches Some(ns) && ns@ == parts.0
            &&& p.version matches Some(v) && v@ == parts.2
            &&& p.source_root@ == package_dir(dirs[i], parts)
        },
        _ => r is None,
    }
}

proof fn lemma_first_true_prefix(present: Seq<bool>, i: int)
    requires
        0 <= i < present.len(),
        present[i],
        forall|j: int| 0 <= j < i ==> !present[j],
    ensures
        first_true(present) == Some(i),
    decreases i,
{
    if i > 0 {
        lemma_first_true_prefix(present.drop_first(), i - 1);
    }
}

proof fn lemma_first_true_none(present: Seq<bool>)
    requires
        forall|j: int| 0 <= j < present.len() ==> !present[j],
    ensures
        first_true(present) is None,
    decreases present.len(),
{
    if present.len() > 0 {
        lemma_first_true_none(present.drop_first());
    }
}

/// The package `spec` names, resolved among `search_dirs` given whether its
/// directory is present under each: the first directory that holds it.
pub fn find_package_given(spec: &str, search_dirs: &Vec<String>, present: &Vec<bool>) -> (r: Option<ResolvedPackage>)
    requires
        present@.len() == search_dirs@.len(),
    ensures
        resolves_to(r, spec@, crate::config::texts(search_dirs@), present@),
{
    let ghost dv = crate::config::texts(search_dirs@);
    let (namespace, name, version) = match parse_package_spec(spec) {
        Some(p) => p,
        None => return None,
    };
    let mut i: usize = 0;
    while i < search_dirs.len()
        invariant
            i <= search_dirs@.len(),
            present@.len() == search_dirs@.len(),
            dv == crate::config::texts(search_dirs@),
            package_spec_parts(spec@) == Some((namespace@, name@, version@)),
            forall|j: int| 0 <= j < i ==> !present@[j],
        decreases search_dirs@.len() - i,
    {
        if present[i] {
            let a = join_exec(search_dirs[i].as_str(), namespace.as_str());
            let b = join_exec(a.as_str(), name.as_str());
            let candidate = join_exec(b.as_str(), version.as_str());
            proof {
                lemma_first_true_prefix(present@, i as int);
                assert(dv[i as int] == search_dirs@[i as int]@);
            }
            return Some(
                ResolvedPackage {
                    name,
                    source_root: candidate,
                    namespace: Some(namespace),
                    version: Some(version),
                },
            );
        }
        i += 1;
    }
    proof {
        lemma_first_true_none(present@);
    }
    None
}

/// Probe `search_dirs` in order for `{namespace}/{name}/{version}/` — the
/// path `package_dir(search_dirs[i], parts)` — and resolve the package to
/// the first that is a directory, as [`find_package_given`] does with the
/// answers. Which directories exist is the file system's answer: probing
/// stops at the first hit, and whatever the answers were, the result is
/// [`find_package_given`]'s for one answer per search directory. A
/// malformed spec resolves to nothing.
pub fn find_package_in_dirs(spec: &str, search_dirs: &Vec<String>) -> (r: Option<ResolvedPackage>)
    ensures
        package_spec_parts(spec@) is None ==> r is None,
        exists|present: Seq<bool>| present.len() == search_dirs@.len() && #[trigger] resolves_to(
            r,
            spec@,
            crate::config::texts(search_dirs@),
            present,
        ),
{
    let (namespace, name, version) = match parse_package_spec(spec) {
        Some(p) => p,
        None => {
            let present: Vec<bool> = vec_of_false(search_dirs.len());
            return find_package_given(spec, search_dirs, &present);
        },
    };
    let mut present: Vec<bool> = Vec::new();
    let mut i: usize = 0;
    while i < search_dirs.len()
        invariant
            i <= search_dirs@.len(),
            present@.len() == i,
        decreases search_dirs@.len() - i,
    {
        let a = join_exec(search_dirs[i].as_str(), namespace.as_str());
        let b = join_exec(a.as_str(), name.as_str());
        let candidate = join_exec(b.as_str(), version.as_str());
        let hit = is_dir(candidate.as_str());
        present.push(hit);
        i += 1;
        if hit {
            break;
        }
    }
    while i < search_dirs.len()
        invariant
            i <= search_dirs@.len(),
            present@.len() == i,
        decreases search_dirs@.len() - i,
    {
        present.push(false);
        i += 1;
    }
    find_package_given(spec, search_dirs, &present)
}

/// `n` times `false`.
fn vec_of_false(n: usize) -> (v: Vec<bool>)
    ensures
        v@ == Seq::new(n as nat, |j: int| false),
{
    let mut v: Vec<bool> = Vec::new();
    let mut i: usize = 0;
    while i < n
        invariant
            i <= n,
            v@ == Seq::new(i as nat, |j: int| false),
        decreases n - i,
    {
        v.push(false);
        i += 1;
    }
    v
}

// ─── Typst's package directories ────────────────────────────────────────────

/// `dirs::data_dir`, as text. It reads the environment, so nothing is
/// stated of the answer.
#[verifier::external_body]
fn user_data_dir() -> Option<String> {
    dirs::data_dir().map(|d| d.to_string_lossy().into_owned())
}

/// `dirs::cache_dir`, as text. It reads the environment, so nothing is
/// stated of the answer.
#[verifier::external_body]
fn user_cache_dir() -> Option<String> {
    dirs::cache_dir().map(|d| d.to_string_lossy().into_owned())
}

/// Typst's package directories under the user's data and cache directories
/// (each only when known), then `extra`.
pub open spec fn search_dirs_spec(
    data: Option<Seq<char>>,
    cache: Option<Seq<char>>,
    extra: Option<Seq<char>>,
) -> Seq<Seq<char>> {
    let a = match data {
        Some(d) => seq![join(d, "typst/packages"@)],
        None => Seq::empty(),
    };
    let b = match cache {
        Some(c) => seq![join(c, "typst/packages"@)],
        None => Seq::empty(),
    };
    let e = match extra {
        Some(x) => seq![x],
        None => Seq::empty(),
    };
    a + b + e
}

/// The package search directories for the given data and cache
/// directories and an optional extra one.
pub fn package_search_dirs(data: Option<String>, cache: Option<String>, extra: Option<&str>) -> (r: Vec<String>)
    ensures
        r@.map_values(|s: String| s@) == search_dirs_spec(
            crate::config::packages::opt_view(data),
            crate::config::packages::opt_view(cache),
            crate::watch::str_opt(extra),
        ),
{
    let ghost dv = crate::config::packages::opt_view(data);
    let ghost cv = crate::config::packages::opt_view(cache);
    let mut r: Vec<String> = Vec::new();
    match data {
        Some(d) => r.push(join_exec(d.as_str(), "typst/packages")),
        None => {},
    }
    match cache {
        Some(c) => r.push(join_exec(c.as_str(), "typst/packages")),
        None => {},
    }
    match extra {
        Some(x) => r.push(crate::text::owned(x)),
        None => {},
    }
    assert(r@.map_values(|s: String| s@) =~= search_dirs_spec(dv, cv, crate::watch::str_opt(extra)));
    r
}

/// Typst's package search directories: `typst/packages` under the user's
/// data directory and under the cache directory, then `extra`. Which of the
/// user's directories are known depends on the environment; whatever they
/// are, the list ends with `extra` when one is given.
pub fn typst_package_search_dirs(extra: Option<&str>) -> (r: Vec<String>)
    ensures
        exists|d: Option<Seq<char>>, c: Option<Seq<char>>| r@.map_values(|s: String| s@) == search_dirs_spec(
            d,
            c,
            crate::watch::str_opt(extra),
        ),
{
    let data = user_data_dir();
    let cache = user_cache_dir();
    let ghost dv = crate::config::packages::opt_view(data);
    let ghost cv = crate::config::packages::opt_view(cache);
    let r = package_search_dirs(data, cache, extra);
    assert(r@.map_values(|s: String| s@) == search_dirs_spec(dv, cv, crate::watch::str_opt(extra)));
    r
}

} // verus!
