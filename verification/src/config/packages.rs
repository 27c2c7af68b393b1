//! `[packages.<namespace>]` — where a Typst package namespace resolves from.
//!
//! Without this table `@rheo` resolves from its built-in releases host and every
//! other namespace goes to Typst universe. A table entry replaces that for one
//! namespace: a repository checked out at a ref, a different releases host, or
//! a directory on disk. An entry may further name the `packages` it applies to;
//! every other package in that namespace keeps resolving as if the table were
//! absent.

use vstd::prelude::*;
use crate::config::texts;
use crate::error::{Result, RheoError};
use crate::ident::{is_ident, is_ident_spec};
use crate::paths::{resolve_path, resolve_path_spec, segments, segments_exec};
use crate::text::{
    chars_of, contains_seq, find_seq, first_index_of, first_index_of_exec, owned, push_str,
    replace_all, replace_all_exec, str_eq, string_of_range,
};

verus! {

/// The GitHub download base a bare `<owner>/<repo>` shorthand expands to.
pub const GITHUB_RELEASES: &'static str = "https://github.com";

// ─── Types ──────────────────────────────────────────────────────────────────

/// Which ref a repository-backed namespace is checked out at.
///
/// Ordered by the precedence a config states them in: an explicit commit beats a
/// tag, which beats a branch.
#[derive(Debug, Clone, PartialEq, Eq)]
pub enum GitRef {
    /// An exact commit sha, pinning absolutely.
    Rev(String),
    /// A tag — immutable in practice, which is what a stable consumer wants.
    Tag(String),
    /// A branch head, re-resolved on every build.
    Branch(String),
}

/// A namespace served from a repository checked out at a ref.
#[derive(Debug, Clone, PartialEq, Eq)]
pub struct RepoSource {
    /// Any URL the `git` binary accepts: https, ssh, or a local path.
    pub url: String,
    pub git_ref: GitRef,
    /// Path prefix inside the repository — a package `@<ns>/<name>:<version>`
    /// lives at `<subdir>/<name>/<version>/`. Empty when packages sit at the root.
    pub subdir: String,
}

/// A namespace served from release tarballs named `<name>-<version>.tar.gz`.
#[derive(Debug, Clone, PartialEq, Eq)]
pub enum ReleasesSource {
    /// A host root, from the `<owner>/<repo>` shorthand or a scheme-carrying URL
    /// with no placeholders. GitHub's asset path is appended to it.
    Base(String),
    /// A URL template carrying `{name}` and `{version}`, substituted verbatim —
    /// the form that keeps a non-GitHub forge usable.
    Template(String),
}

/// A namespace served from a directory on disk — a package's own working
/// tree, read in place. No ref, because there is nothing to check out.
#[derive(Debug, Clone, PartialEq, Eq)]
pub struct PathSource {
    /// The directory holding `<name>/<version>/` package trees.
    pub root: String,
    /// Path prefix inside it, the same meaning `RepoSource::subdir` has.
    pub subdir: String,
}

/// Where one namespace resolves from. Exactly one variant per namespace: moving
/// a project between a release and a branch is an explicit edit, not a
/// precedence rule.
#[derive(Debug, Clone, PartialEq, Eq)]
pub enum NamespaceSource {
    Repo(RepoSource),
    Releases(ReleasesSource),
    Path(PathSource),
}

/// A `[packages.<ns>]` table: its source, and optionally which packages in the
/// namespace it applies to.
#[derive(Debug, Clone, PartialEq, Eq)]
pub struct NamespaceEntry {
    pub source: NamespaceSource,
    /// `None` applies the source to every package in the namespace. `Some`
    /// limits it to these names; every other package in the namespace
    /// resolves as if the table were absent.
    pub only: Option<Vec<String>>,
}

/// The `[packages.<ns>]` keys as written, before the one-of and ref-precedence
/// rules are applied.
#[derive(Debug, Clone, Default)]
pub struct NamespaceSourceRaw {
    pub repo: Option<String>,
    pub releases: Option<String>,
    pub path: Option<String>,
    pub branch: Option<String>,
    pub tag: Option<String>,
    pub rev: Option<String>,
    pub subdir: Option<String>,
    pub packages: Option<Vec<String>>,
}

// ─── Views ──────────────────────────────────────────────────────────────────

/// A [`GitRef`] as text.
pub enum GitRefView {
    Rev(Seq<char>),
    Tag(Seq<char>),
    Branch(Seq<char>),
}

/// A [`NamespaceSource`] as text.
pub enum SourceView {
    Repo { url: Seq<char>, git_ref: GitRefView, subdir: Seq<char> },
    ReleasesBase(Seq<char>),
    ReleasesTemplate(Seq<char>),
    Path { root: Seq<char>, subdir: Seq<char> },
}

/// A [`NamespaceEntry`] as text.
pub struct EntryView {
    pub source: SourceView,
    pub only: Option<Seq<Seq<char>>>,
}

/// The characters of each string in `v`.
pub open spec fn strings_view(v: Seq<String>) -> Seq<Seq<char>> {
    v.map_values(|s: String| s@)
}

/// The characters of an optional string.
pub open spec fn opt_view(o: Option<String>) -> Option<Seq<char>> {
    match o {
        Some(s) => Some(s@),
        None => None,
    }
}

impl View for GitRef {
    type V = GitRefView;

    open spec fn view(&self) -> GitRefView {
        match self {
            GitRef::Rev(s) => GitRefView::Rev(s@),
            GitRef::Tag(s) => GitRefView::Tag(s@),
            GitRef::Branch(s) => GitRefView::Branch(s@),
        }
    }
}

impl View for NamespaceSource {
    type V = SourceView;

    open spec fn view(&self) -> SourceView {
        match self {
            NamespaceSource::Repo(r) => SourceView::Repo {
                url: r.url@,
                git_ref: r.git_ref@,
                subdir: r.subdir@,
            },
            NamespaceSource::Releases(ReleasesSource::Base(b)) => SourceView::ReleasesBase(b@),
            NamespaceSource::Releases(ReleasesSource::Template(t)) => SourceView::ReleasesTemplate(
                t@,
            ),
            NamespaceSource::Path(p) => SourceView::Path { root: p.root@, subdir: p.subdir@ },
        }
    }
}

impl View for NamespaceEntry {
    type V = EntryView;

    open spec fn view(&self) -> EntryView {
        EntryView {
            source: self.source@,
            only: match self.only {
                Some(v) => Some(strings_view(v@)),
                None => None,
            },
        }
    }
}

// ─── Specifications ─────────────────────────────────────────────────────────

/// The text of a ref, whichever key it came from.
pub open spec fn ref_text(g: GitRefView) -> Seq<char> {
    match g {
        GitRefView::Rev(s) => s,
        GitRefView::Tag(s) => s,
        GitRefView::Branch(s) => s,
    }
}

/// The config key a ref came from.
pub open spec fn ref_kind(g: GitRefView) -> Seq<char> {
    match g {
        GitRefView::Rev(_) => "rev"@,
        GitRefView::Tag(_) => "tag"@,
        GitRefView::Branch(_) => "branch"@,
    }
}

/// The tarball URL for package `name` at `version` from a releases source.
pub open spec fn url_for_spec(src: ReleasesSource, name: Seq<char>, version: Seq<char>) -> Seq<char> {
    match src {
        ReleasesSource::Base(base) => base@ + "/"@ + name + "-"@ + version + "/"@ + name + "-"@
            + version + ".tar.gz"@,
        ReleasesSource::Template(t) => replace_all(
            replace_all(t@, "{name}"@, name),
            "{version}"@,
            version,
        ),
    }
}

/// A rejected table's message: the table named, then what is wrong.
pub open spec fn reject_text(namespace: Seq<char>, message: Seq<char>) -> Seq<char> {
    "[packages."@ + namespace + "]: "@ + message
}

pub open spec fn msg_bad_namespace(ns: Seq<char>) -> Seq<char> {
    "`"@ + ns + "` is not a valid package namespace. It appears in every import spec as `@"@ + ns
        + "/name:1.0.0`, so it must be a Typst identifier: letters, digits, `_` and `-`, not starting with a digit"@
}

pub open spec fn msg_empty_packages() -> Seq<char> {
    "`packages` lists which packages this table applies to; an empty list applies it to none — remove the table instead"@
}

pub open spec fn msg_bad_package(name: Seq<char>) -> Seq<char> {
    "`packages` names `"@ + name
        + "`, which is not a valid package name: letters, digits, `_` and `-`, not starting with a digit"@
}

pub open spec fn msg_repeated_package(name: Seq<char>) -> Seq<char> {
    "`packages` names `"@ + name + "` more than once"@
}

pub open spec fn msg_exactly_one() -> Seq<char> {
    "set exactly one of `repo` (a repository at a ref), `releases` (a releases host) or `path` (a directory on disk). Switching a project between a release, a branch and a local directory is an explicit edit, not a precedence rule"@
}

pub open spec fn msg_set_one() -> Seq<char> {
    "set one of `repo` (a repository at a ref), `releases` (a releases host) or `path` (a directory on disk)"@
}

pub open spec fn msg_ref_with_releases(key: Seq<char>) -> Seq<char> {
    "`"@ + key
        + "` selects a ref inside a repository and is meaningless alongside `releases`; use `repo` instead"@
}

pub open spec fn msg_ref_with_path(key: Seq<char>) -> Seq<char> {
    "`"@ + key
        + "` selects a ref inside a repository, and `path` reads a directory in place, so there is no ref to select. Use `repo = \"<path>\"` with `"@
        + key + "` if you want a local repository AT a ref."@
}

pub open spec fn msg_not_shorthand_nor_url(v: Seq<char>) -> Seq<char> {
    "`releases = \""@ + v
        + "\"` is neither an `<owner>/<repo>` shorthand nor a URL. Write `owner/repo`, or a full URL template containing `{name}` and `{version}`"@
}

pub open spec fn msg_not_shorthand(v: Seq<char>) -> Seq<char> {
    "`releases = \""@ + v + "\"` is not an `<owner>/<repo>` shorthand"@
}

pub open spec fn msg_template_missing(v: Seq<char>, missing: Seq<char>) -> Seq<char> {
    "`releases = \""@ + v + "\"` is a URL template but is missing "@ + missing
        + ". A template must carry both `{name}` and `{version}` so each package resolves to its own asset"@
}

pub open spec fn msg_subdir_absolute(s: Seq<char>) -> Seq<char> {
    "`subdir = \""@ + s + "\"` must be relative to the repository root"@
}

pub open spec fn msg_subdir_parent(s: Seq<char>) -> Seq<char> {
    "`subdir = \""@ + s
        + "\"` may not contain `..`: it names a path inside the repository, not one outside it"@
}

/// Scanning `names` left to right, the complaint about the first name that
/// is not an identifier or repeats an earlier one.
pub open spec fn names_problem(names: Seq<Seq<char>>) -> Option<Seq<char>>
    decreases names.len(),
{
    if names.len() == 0 {
        None
    } else {
        match names_problem(names.drop_last()) {
            Some(m) => Some(m),
            None => {
                let n = names.last();
                if !is_ident_spec(n) {
                    Some(msg_bad_package(n))
                } else if names.drop_last().contains(n) {
                    Some(msg_repeated_package(n))
                } else {
                    None
                }
            },
        }
    }
}

/// What the `packages` key turns into: no limit, a limit, or a complaint.
pub open spec fn only_outcome(packages: Option<Seq<Seq<char>>>) -> core::result::Result<
    Option<Seq<Seq<char>>>,
    Seq<char>,
> {
    match packages {
        None => Ok(None),
        Some(names) => if names.len() == 0 {
            Err(msg_empty_packages())
        } else {
            match names_problem(names) {
                Some(m) => Err(m),
                None => Ok(Some(names)),
            }
        },
    }
}

/// The ref chosen from the keys given: `rev`, else `tag`, else `branch`, else
/// the branch `main`.
pub open spec fn chosen_ref(
    branch: Option<Seq<char>>,
    tag: Option<Seq<char>>,
    rev: Option<Seq<char>>,
) -> GitRefView {
    match (rev, tag, branch) {
        (Some(r), _, _) => GitRefView::Rev(r),
        (None, Some(t), _) => GitRefView::Tag(t),
        (None, None, Some(b)) => GitRefView::Branch(b),
        (None, None, None) => GitRefView::Branch("main"@),
    }
}

/// What a `subdir` key turns into: the prefix, empty when absent, or a
/// complaint when it is absolute or climbs out with `..`.
pub open spec fn subdir_outcome(subdir: Option<Seq<char>>) -> core::result::Result<
    Seq<char>,
    Seq<char>,
> {
    match subdir {
        None => Ok(Seq::empty()),
        Some(s) => if s.len() > 0 && s[0] == '/' {
            Err(msg_subdir_absolute(s))
        } else if segments(s).contains(seq!['.', '.']) {
            Err(msg_subdir_parent(s))
        } else {
            Ok(s)
        },
    }
}

/// The placeholders a releases URL template lacks, joined with " and ".
pub open spec fn missing_placeholders(v: Seq<char>) -> Seq<char> {
    let n = !contains_seq(v, "{name}"@);
    let ver = !contains_seq(v, "{version}"@);
    if n && ver {
        "{name}"@ + " and "@ + "{version}"@
    } else if n {
        "{name}"@
    } else if ver {
        "{version}"@
    } else {
        Seq::empty()
    }
}

/// What a `releases` value turns into. No `://` means the `<owner>/<repo>`
/// shorthand, expanded to GitHub's download root; a URL with neither
/// placeholder is a host root kept as it is; a URL with one placeholder must
/// carry the other too, and is then kept as a template.
pub open spec fn releases_outcome(v: Seq<char>) -> core::result::Result<SourceView, Seq<char>> {
    if !contains_seq(v, "://"@) {
        match first_index_of(v, '/') {
            None => Err(msg_not_shorthand_nor_url(v)),
            Some(i) => {
                let owner = v.take(i);
                let repo = v.skip(i + 1);
                if owner.len() == 0 || repo.len() == 0 || repo.contains('/') {
                    Err(msg_not_shorthand(v))
                } else {
                    Ok(
                        SourceView::ReleasesBase(
                            GITHUB_RELEASES@ + "/"@ + owner + "/"@ + repo + "/releases/download"@,
                        ),
                    )
                }
            },
        }
    } else if !contains_seq(v, "{name}"@) && !contains_seq(v, "{version}"@) {
        Ok(SourceView::ReleasesBase(v))
    } else if missing_placeholders(v).len() > 0 {
        Err(msg_template_missing(v, missing_placeholders(v)))
    } else {
        Ok(SourceView::ReleasesTemplate(v))
    }
}

/// The first ref key set alongside `releases`, checked in the order
/// `branch`, `tag`, `rev`, `subdir`.
pub open spec fn releases_ref_key(raw: NamespaceSourceRaw) -> Option<Seq<char>> {
    if raw.branch is Some {
        Some("branch"@)
    } else if raw.tag is Some {
        Some("tag"@)
    } else if raw.rev is Some {
        Some("rev"@)
    } else if raw.subdir is Some {
        Some("subdir"@)
    } else {
        None
    }
}

/// The first ref key set alongside `path`, checked in the order `branch`,
/// `tag`, `rev`.
pub open spec fn path_ref_key(raw: NamespaceSourceRaw) -> Option<Seq<char>> {
    if raw.branch is Some {
        Some("branch"@)
    } else if raw.tag is Some {
        Some("tag"@)
    } else if raw.rev is Some {
        Some("rev"@)
    } else {
        None
    }
}

/// How many of `repo`, `releases` and `path` are set.
pub open spec fn sources_set(raw: NamespaceSourceRaw) -> int {
    (if raw.repo is Some { 1int } else { 0 }) + (if raw.releases is Some { 1int } else { 0 }) + (
    if raw.path is Some { 1int } else { 0 })
}

/// The source a table's keys select, or the complaint about them.
pub open spec fn source_outcome(raw: NamespaceSourceRaw) -> core::result::Result<
    SourceView,
    Seq<char>,
> {
    if sources_set(raw) >= 2 {
        Err(msg_exactly_one())
    } else if sources_set(raw) == 0 {
        Err(msg_set_one())
    } else {
        match (raw.releases, raw.repo) {
            (Some(v), _) => match releases_ref_key(raw) {
                Some(k) => Err(msg_ref_with_releases(k)),
                None => releases_outcome(v@),
            },
            (None, Some(url)) => match subdir_outcome(opt_view(raw.subdir)) {
                Err(m) => Err(m),
                Ok(sd) => Ok(
                    SourceView::Repo {
                        url: url@,
                        git_ref: chosen_ref(
                            opt_view(raw.branch),
                            opt_view(raw.tag),
                            opt_view(raw.rev),
                        ),
                        subdir: sd,
                    },
                ),
            },
            (None, None) => match path_ref_key(raw) {
                Some(k) => Err(msg_ref_with_path(k)),
                None => match subdir_outcome(opt_view(raw.subdir)) {
                    Err(m) => Err(m),
                    Ok(sd) => Ok(SourceView::Path { root: opt_view(raw.path)->Some_0, subdir: sd }),
                },
            },
        }
    }
}

/// What a `[packages.<namespace>]` table turns into: its entry, or the
/// complaint (without the table's name) that rejects it. The namespace is
/// checked first, then the `packages` key, then the source keys.
#[verifier::opaque]
pub open spec fn entry_outcome(namespace: Seq<char>, raw: NamespaceSourceRaw) -> core::result::Result<
    EntryView,
    Seq<char>,
> {
    if !is_ident_spec(namespace) {
        Err(msg_bad_namespace(namespace))
    } else {
        match only_outcome(
            match raw.packages {
                Some(v) => Some(strings_view(v@)),
                None => None,
            },
        ) {
            Err(m) => Err(m),
            Ok(only) => match source_outcome(raw) {
                Err(m) => Err(m),
                Ok(source) => Ok(EntryView { source, only }),
            },
        }
    }
}

/// `r` is the config error for `namespace` carrying `message`.
pub open spec fn is_rejection(r: RheoError, namespace: Seq<char>, message: Seq<char>) -> bool {
    r matches RheoError::ProjectConfig { message: m } && m@ == reject_text(namespace, message)
}

/// `e` rejects the tables: some table breaks a rule, every table before it
/// passes, and `e` is that table's complaint.
pub open spec fn first_rejection(tables: Seq<(String, NamespaceSourceRaw)>, e: RheoError) -> bool {
    exists|k: int|
        #![trigger tables[k]]
        {
            &&& 0 <= k < tables.len()
            &&& forall|i: int|
                0 <= i < k ==> #[trigger] entry_outcome(tables[i].0@, tables[i].1) is Ok
            &&& entry_outcome(tables[k].0@, tables[k].1) matches Err(m)
            &&& is_rejection(e, tables[k].0@, m)
        }
}

// ─── Operations ─────────────────────────────────────────────────────────────

impl Default for GitRef {
    /// The branch `main`.
    fn default() -> (r: Self)
        ensures
            r@ == GitRefView::Branch("main"@),
    {
        GitRef::Branch(owned("main"))
    }
}

impl GitRef {
    /// The ref itself, as git would be given it.
    pub fn as_str(&self) -> (r: &str)
        ensures
            r@ == ref_text(self@),
    {
        match self {
            GitRef::Rev(s) => s.as_str(),
            GitRef::Tag(s) => s.as_str(),
            GitRef::Branch(s) => s.as_str(),
        }
    }

    /// The config key this ref came from, for error and log messages.
    pub fn kind(&self) -> (r: &'static str)
        ensures
            r@ == ref_kind(self@),
    {
        match self {
            GitRef::Rev(_) => "rev",
            GitRef::Tag(_) => "tag",
            GitRef::Branch(_) => "branch",
        }
    }

    /// `kind` and the ref, as `Display` renders them: `branch main`.
    pub fn to_string(&self) -> (r: String)
        ensures
            r@ == ref_kind(self@) + " "@ + ref_text(self@),
    {
        let mut out = owned(self.kind());
        push_str(&mut out, " ");
        push_str(&mut out, self.as_str());
        out
    }
}

impl ReleasesSource {
    /// The tarball URL for one package.
    ///
    /// A `Base` gets GitHub's asset path appended: the tag and the asset share
    /// the `<name>-<version>` name. A `Template` is substituted verbatim,
    /// `{name}` first and `{version}` after, since another forge shapes its
    /// URLs differently.
    pub fn url_for(&self, name: &str, version: &str) -> (r: String)
        ensures
            r@ == url_for_spec(*self, name@, version@),
    {
        match self {
            ReleasesSource::Base(base) => {
                let mut out = base.clone();
                push_str(&mut out, "/");
                push_str(&mut out, name);
                push_str(&mut out, "-");
                push_str(&mut out, version);
                push_str(&mut out, "/");
                push_str(&mut out, name);
                push_str(&mut out, "-");
                push_str(&mut out, version);
                push_str(&mut out, ".tar.gz");
                out
            },
            ReleasesSource::Template(template) => {
                proof {
                    reveal_strlit("{name}");
                    reveal_strlit("{version}");
                }
                let named = replace_all_exec(template.as_str(), "{name}", name);
                replace_all_exec(named.as_str(), "{version}", version)
            },
        }
    }

    /// The value identifying this source, for keying its cache directory.
    pub fn source_key(&self) -> (r: &str)
        ensures
            r@ == (match *self {
                ReleasesSource::Base(b) => b@,
                ReleasesSource::Template(t) => t@,
            }),
    {
        match self {
            ReleasesSource::Base(base) => base.as_str(),
            ReleasesSource::Template(template) => template.as_str(),
        }
    }
}

impl PathSource {
    /// Anchor a relative root against `base_dir` — the config file's own
    /// directory, so `path = "../pkgs"` means the same thing however rheo was
    /// invoked. An absolute root is already anchored.
    pub fn anchor_to(&mut self, base_dir: &str)
        ensures
            final(self).root@ == resolve_path_spec(base_dir@, old(self).root@),
            final(self).subdir == old(self).subdir,
    {
        self.root = resolve_path(base_dir, self.root.as_str());
    }
}

impl NamespaceEntry {
    /// Build an entry directly, for a caller that already holds a table's
    /// parsed shape.
    pub fn new(source: NamespaceSource, only: Option<Vec<String>>) -> (e: Self)
        ensures
            e.source == source,
            e.only == only,
    {
        NamespaceEntry { source, only }
    }

    /// Whether `name` resolves through this entry's source rather than falling
    /// through to the namespace's default: always without a `packages` key,
    /// else exactly for the names it lists.
    pub fn applies_to(&self, name: &str) -> (b: bool)
        ensures
            b == (match self.only {
                None => true,
                Some(names) => strings_view(names@).contains(name@),
            }),
    {
        match &self.only {
            None => true,
            Some(names) => {
                let mut i: usize = 0;
                while i < names.len()
                    invariant
                        i <= names.len(),
                        self.only == Some(*names),
                        forall|k: int| 0 <= k < i ==> names@[k]@ != name@,
                    decreases names.len() - i,
                {
                    if str_eq(names[i].as_str(), name) {
                        assert(strings_view(names@)[i as int] == name@);
                        assert(strings_view(names@).contains(name@));
                        return true;
                    }
                    i += 1;
                }
                proof {
                    if strings_view(names@).contains(name@) {
                        let k = choose|k: int| 0 <= k < names@.len() && strings_view(names@)[k] == name@;
                        assert(names@[k]@ == name@);
                    }
                }
                false
            },
        }
    }

    /// The `packages` key this entry was given, if any.
    pub fn only(&self) -> (r: Option<&Vec<String>>)
        ensures
            r matches Some(v) ==> self.only == Some(*v),
            r is None <==> self.only is None,
    {
        match &self.only {
            Some(v) => Some(v),
            None => None,
        }
    }

    /// Anchor whatever part of this entry's source is a relative path against
    /// the config file's own directory. Only a [`PathSource`] has one.
    pub fn anchor_to(&mut self, base_dir: &str)
        ensures
            final(self).only == old(self).only,
            old(self).source matches NamespaceSource::Path(p) ==> final(self).source matches NamespaceSource::Path(q)
                && q.root@ == resolve_path_spec(base_dir@, p.root@) && q.subdir == p.subdir,
            !(old(self).source is Path) ==> final(self).source == old(self).source,
    {
        self.source.anchor_to(base_dir);
    }
}

/// A complaint found in a prefix of the names is the complaint for all of them.
proof fn lemma_names_problem_prefix(names: Seq<Seq<char>>, n: int)
    requires
        0 <= n <= names.len(),
        names_problem(names.take(n)) is Some,
    ensures
        names_problem(names) == names_problem(names.take(n)),
    decreases names.len() - n,
{
    if n < names.len() {
        assert(names.take(n + 1).drop_last() =~= names.take(n));
        lemma_names_problem_prefix(names, n + 1);
    } else {
        assert(names.take(n) =~= names);
    }
}

/// The config error for `namespace` with `message`.
fn reject(namespace: &str, message: String) -> (r: RheoError)
    ensures
        is_rejection(r, namespace@, message@),
{
    let mut text = owned("[packages.");
    push_str(&mut text, namespace);
    push_str(&mut text, "]: ");
    push_str(&mut text, message.as_str());
    RheoError::ProjectConfig { message: text }
}

/// `s` between backticks-and-text pieces: `a`, `s`, `b`.
fn framed(a: &str, s: &str, b: &str) -> (r: String)
    ensures
        r@ == a@ + s@ + b@,
{
    let mut out = owned(a);
    push_str(&mut out, s);
    push_str(&mut out, b);
    out
}

impl NamespaceSource {
    /// Anchor whatever part of this source is a relative path against the
    /// config file's own directory. Only a [`PathSource`] has one.
    pub fn anchor_to(&mut self, base_dir: &str)
        ensures
            *old(self) matches NamespaceSource::Path(p) ==> *final(self) matches NamespaceSource::Path(q)
                && q.root@ == resolve_path_spec(base_dir@, p.root@) && q.subdir == p.subdir,
            !(*old(self) is Path) ==> *final(self) == *old(self),
    {
        if let NamespaceSource::Path(path) = self {
            path.anchor_to(base_dir);
        }
    }

    /// Validate the `packages` key: the names this table's source is limited
    /// to, or `None` when the key is absent.
    fn only(namespace: &str, packages: Option<Vec<String>>) -> (r: Result<Option<Vec<String>>>)
        ensures
            ({
                let want = only_outcome(
                    match packages {
                        Some(v) => Some(strings_view(v@)),
                        None => None,
                    },
                );
                match r {
                    Ok(o) => want == Ok::<Option<Seq<Seq<char>>>, Seq<char>>(
                        match o {
                            Some(v) => Some(strings_view(v@)),
                            None => None,
                        },
                    ),
                    Err(e) => want matches Err(m) && is_rejection(e, namespace@, m),
                }
            }),
    {
        let list = match packages {
            None => return Ok(None),
            Some(p) => p,
        };
        if list.len() == 0 {
            return Err(reject(namespace, owned(
                "`packages` lists which packages this table applies to; an empty list applies it to none — remove the table instead",
            )));
        }
        let ghost names = strings_view(list@);
        let mut i: usize = 0;
        while i < list.len()
            invariant
                i <= list.len(),
                packages == Some(list),
                names == strings_view(list@),
                names_problem(names.take(i as int)) is None,
            decreases list.len() - i,
        {
            proof {
                assert(names.take(i + 1).drop_last() =~= names.take(i as int));
                assert(names.take(i + 1).last() == list@[i as int]@);
            }
            let name = list[i].as_str();
            proof {
                assert(names[i as int] == list@[i as int]@);
            }
            if !is_ident(name) {
                proof {
                    lemma_names_problem_prefix(names, i as int + 1);
                }
                return Err(reject(namespace, framed(
                    "`packages` names `",
                    name,
                    "`, which is not a valid package name: letters, digits, `_` and `-`, not starting with a digit",
                )));
            }
            let mut j: usize = 0;
            while j < i
                invariant
                    j <= i < list.len(),
                    packages == Some(list),
                    name@ == list@[i as int]@,
                    is_ident_spec(name@),
                    names == strings_view(list@),
                    names_problem(names.take(i as int)) is None,
                    forall|k: int| 0 <= k < j ==> names[k] != names[i as int],
                decreases i - j,
            {
                proof {
                    assert(names[j as int] == list@[j as int]@);
                    assert(names[i as int] == list@[i as int]@);
                }
                if str_eq(list[j].as_str(), name) {
                    proof {
                        assert(names.take(i + 1).drop_last() =~= names.take(i as int));
                        assert(names.take(i + 1).last() == names[i as int]);
                        assert(names.take(i as int)[j as int] == names[i as int]);
                        assert(names.take(i + 1).drop_last().contains(names[i as int]));
                        lemma_names_problem_prefix(names, i as int + 1);
                    }
                    return Err(reject(namespace, framed("`packages` names `", name, "` more than once")));
                }
                j += 1;
            }
            proof {
                assert(!names.take(i as int).contains(names[i as int])) by {
                    if names.take(i as int).contains(names[i as int]) {
                        let k = choose|k: int| 0 <= k < i && names.take(i as int)[k] == names[i as int];
                        assert(names[k] != names[i as int]);
                    }
                }
            }
            i += 1;
        }
        proof {
            assert(names.take(i as int) =~= names);
        }
        Ok(Some(list))
    }

    /// Read a `releases` value. No `://` means the `<owner>/<repo>`
    /// shorthand, so a value like `foo/bar` can never be read as a URL; a URL
    /// must say where the name and version go, or every package would
    /// download the same asset.
    fn releases(namespace: &str, value: String) -> (r: Result<ReleasesSource>)
        ensures
            match r {
                Ok(src) => releases_outcome(value@) == Ok::<SourceView, Seq<char>>(
                    NamespaceSource::Releases(src)@,
                ),
                Err(e) => releases_outcome(value@) matches Err(m) && is_rejection(e, namespace@, m),
            },
    {
        let cs = chars_of(value.as_str());
        let scheme = chars_of("://");
        if find_seq(&cs, &scheme).is_none() {
            match first_index_of_exec(&cs, '/') {
                None => {
                    return Err(reject(namespace, framed(
                        "`releases = \"",
                        value.as_str(),
                        "\"` is neither an `<owner>/<repo>` shorthand nor a URL. Write `owner/repo`, or a full URL template containing `{name}` and `{version}`",
                    )));
                },
                Some(i) => {
                    let owner = string_of_range(&cs, 0, i);
                    let repo = string_of_range(&cs, i + 1, cs.len());
                    let rc = chars_of(repo.as_str());
                    proof {
                        assert(owner@ =~= value@.take(i as int));
                        assert(repo@ =~= value@.skip(i + 1));
                    }
                    if i == 0 || i + 1 == cs.len() || first_index_of_exec(&rc, '/').is_some() {
                        return Err(reject(namespace, framed(
                            "`releases = \"",
                            value.as_str(),
                            "\"` is not an `<owner>/<repo>` shorthand",
                        )));
                    }
                    let mut base = owned(GITHUB_RELEASES);
                    push_str(&mut base, "/");
                    push_str(&mut base, owner.as_str());
                    push_str(&mut base, "/");
                    push_str(&mut base, repo.as_str());
                    push_str(&mut base, "/releases/download");
                    return Ok(ReleasesSource::Base(base));
                },
            }
        }
        let name_missing = find_seq(&cs, &chars_of("{name}")).is_none();
        let version_missing = find_seq(&cs, &chars_of("{version}")).is_none();
        if name_missing && version_missing {
            return Ok(ReleasesSource::Base(value));
        }
        if name_missing || version_missing {
            let missing = if name_missing && version_missing {
                framed("{name}", " and ", "{version}")
            } else if name_missing {
                owned("{name}")
            } else {
                owned("{version}")
            };
            let mut message = framed("`releases = \"", value.as_str(), "\"` is a URL template but is missing ");
            push_str(&mut message, missing.as_str());
            push_str(
                &mut message,
                ". A template must carry both `{name}` and `{version}` so each package resolves to its own asset",
            );
            proof {
                reveal_strlit("{name}");
                reveal_strlit("{version}");
                assert(missing_placeholders(value@).len() > 0);
            }
            return Err(reject(namespace, message));
        }
        proof {
            assert(missing_placeholders(value@) =~= Seq::<char>::empty());
        }
        Ok(ReleasesSource::Template(value))
    }

    /// Validate one `[packages.<namespace>]` table: the namespace must be an
    /// identifier, the `packages` key a list of distinct identifiers, and
    /// exactly one of `repo`, `releases` and `path` set, with ref keys only
    /// where they mean something.
    pub fn from_raw(namespace: &str, raw: NamespaceSourceRaw, warnings: &mut Vec<String>) -> (r: Result<
        NamespaceEntry,
    >)
        ensures
            texts(final(warnings)@) == texts(old(warnings)@) + warning_list(ref_warning_due(namespace@, raw)),
            match r {
                Ok(e) => entry_outcome(namespace@, raw) == Ok::<EntryView, Seq<char>>(e@),
                Err(err) => entry_outcome(namespace@, raw) matches Err(m) && is_rejection(
                    err,
                    namespace@,
                    m,
                ),
            },
    {
        reveal(entry_outcome);
        proof {
            assert(texts(old(warnings)@) + Seq::<Seq<char>>::empty() =~= texts(old(warnings)@));
        }
        if !is_ident(namespace) {
            let mut message = framed("`", namespace, "` is not a valid package namespace. It appears in every import spec as `@");
            push_str(&mut message, namespace);
            push_str(
                &mut message,
                "/name:1.0.0`, so it must be a Typst identifier: letters, digits, `_` and `-`, not starting with a digit",
            );
            return Err(reject(namespace, message));
        }
        let warning = ref_conflict_warning(namespace, &raw);
        let ghost raw0 = raw;
        let NamespaceSourceRaw { repo, releases, path, branch, tag, rev, subdir, packages } = raw;
        let only = match Self::only(namespace, packages) {
            Ok(o) => o,
            Err(e) => {
                proof {
                    assert(texts(warnings@) =~= texts(old(warnings)@) + warning_list(ref_warning_due(namespace@, raw0)));
                }
                return Err(e);
            },
        };
        let set = (if repo.is_some() { 1u8 } else { 0 }) + (if releases.is_some() { 1u8 } else { 0 }) + (
        if path.is_some() { 1u8 } else { 0 });
        if set >= 2 {
            return Err(reject(namespace, owned(
                "set exactly one of `repo` (a repository at a ref), `releases` (a releases host) or `path` (a directory on disk). Switching a project between a release, a branch and a local directory is an explicit edit, not a precedence rule",
            )));
        }
        if set == 0 {
            return Err(reject(namespace, owned(
                "set one of `repo` (a repository at a ref), `releases` (a releases host) or `path` (a directory on disk)",
            )));
        }
        let source = match (releases, repo, path) {
            (Some(value), _, _) => {
                let key = if branch.is_some() {
                    Some("branch")
                } else if tag.is_some() {
                    Some("tag")
                } else if rev.is_some() {
                    Some("rev")
                } else if subdir.is_some() {
                    Some("subdir")
                } else {
                    None
                };
                if let Some(k) = key {
                    return Err(reject(namespace, framed(
                        "`",
                        k,
                        "` selects a ref inside a repository and is meaningless alongside `releases`; use `repo` instead",
                    )));
                }
                match Self::releases(namespace, value) {
                    Ok(src) => NamespaceSource::Releases(src),
                    Err(e) => return Err(e),
                }
            },
            (None, Some(url), _) => {
                match warning {
                    Some(w) => {
                        warnings.push(w);
                    },
                    None => {},
                }
                proof {
                    assert(texts(warnings@) =~= texts(old(warnings)@) + warning_list(ref_warning_due(namespace@, raw0)));
                }
                let git_ref = Self::git_ref(branch, tag, rev);
                let sd = match Self::subdir(namespace, subdir) {
                    Ok(s) => s,
                    Err(e) => return Err(e),
                };
                NamespaceSource::Repo(RepoSource { url, git_ref, subdir: sd })
            },
            (None, None, Some(root)) => {
                let key = if branch.is_some() {
                    Some("branch")
                } else if tag.is_some() {
                    Some("tag")
                } else if rev.is_some() {
                    Some("rev")
                } else {
                    None
                };
                if let Some(k) = key {
                    let mut message = framed(
                        "`",
                        k,
                        "` selects a ref inside a repository, and `path` reads a directory in place, so there is no ref to select. Use `repo = \"<path>\"` with `",
                    );
                    push_str(&mut message, k);
                    push_str(&mut message, "` if you want a local repository AT a ref.");
                    return Err(reject(namespace, message));
                }
                let sd = match Self::subdir(namespace, subdir) {
                    Ok(s) => s,
                    Err(e) => return Err(e),
                };
                NamespaceSource::Path(PathSource { root, subdir: sd })
            },
            (None, None, None) => {
                return Err(reject(namespace, owned(
                    "set one of `repo` (a repository at a ref), `releases` (a releases host) or `path` (a directory on disk)",
                )));
            },
        };
        Ok(NamespaceEntry { source, only })
    }

    /// Validate every `[packages.<namespace>]` table, in the order given. The
    /// result keeps that order; the first table that breaks a rule rejects
    /// the whole `[packages]` table with its complaint.
    pub fn parse_table(tables: Vec<(String, NamespaceSourceRaw)>, warnings: &mut Vec<String>) -> (r: Result<
        Vec<(String, NamespaceEntry)>,
    >)
        ensures
            texts(final(warnings)@) == texts(old(warnings)@) + table_warnings(tables@),
            r matches Ok(entries) ==> entries.len() == tables.len(),
            r matches Ok(entries) ==> forall|i: int|
                0 <= i < tables.len() ==> #[trigger] entries@[i].0@ == tables@[i].0@ && entry_outcome(
                    tables@[i].0@,
                    tables@[i].1,
                ) == Ok::<EntryView, Seq<char>>(entries@[i].1@),
            r matches Err(e) ==> first_rejection(tables@, e),
    {
        let ghost input = tables@;
        let ghost w0 = texts(warnings@);
        let mut out: Vec<(String, NamespaceEntry)> = Vec::new();
        let mut rest = tables;
        proof {
            assert(input.skip(0) =~= input);
            assert(texts(warnings@) + table_warnings(input) =~= w0 + table_warnings(input));
        }
        while rest.len() > 0
            invariant
                out.len() + rest.len() == input.len(),
                input == tables@,
                rest@ == input.skip(out.len() as int),
                forall|i: int|
                    0 <= i < out.len() ==> #[trigger] out@[i].0@ == input[i].0@ && entry_outcome(
                        input[i].0@,
                        input[i].1,
                    ) == Ok::<EntryView, Seq<char>>(out@[i].1@),
                texts(warnings@) + table_warnings(rest@) == w0 + table_warnings(input),
                w0 == texts(old(warnings)@),
            decreases rest.len(),
        {
            let k = out.len();
            let ghost before = rest@;
            let ghost wb = texts(warnings@);
            let (namespace, raw) = rest.remove(0);
            proof {
                assert(input[k as int] == (namespace, raw));
                assert(before[0] == (namespace, raw));
                assert(input.skip(k + 1) =~= input.skip(k as int).remove(0));
                assert(rest@ =~= before.drop_first());
            }
            match Self::from_raw(namespace.as_str(), raw, warnings) {
                Ok(entry) => {
                    proof {
                        assert(texts(warnings@) + table_warnings(rest@) =~= wb + table_warnings(before));
                    }
                    out.push((namespace, entry));
                },
                Err(e) => {
                    proof {
                        assert(table_warnings(before) == warning_list(ref_warning_due(namespace@, raw)));
                        assert(texts(warnings@) =~= wb + table_warnings(before));
                        assert forall|i: int| 0 <= i < k implies #[trigger] entry_outcome(
                            input[i].0@,
                            input[i].1,
                        ) is Ok by {
                            assert(out@[i].0@ == input[i].0@);
                        }
                        assert(input[k as int].0@ == namespace@);
                        assert(entry_outcome(input[k as int].0@, input[k as int].1) matches Err(m)
                            && is_rejection(e, input[k as int].0@, m));
                        assert(first_rejection(input, e));
                    }
                    return Err(e);
                },
            }
        }
        proof {
            assert(table_warnings(rest@) =~= Seq::<Seq<char>>::empty());
            assert(texts(warnings@) =~= texts(warnings@) + Seq::<Seq<char>>::empty());
        }
        Ok(out)
    }

    /// Pick the ref by precedence: `rev`, then `tag`, then `branch`, then the
    /// branch `main`.
    fn git_ref(branch: Option<String>, tag: Option<String>, rev: Option<String>) -> (g: GitRef)
        ensures
            g@ == chosen_ref(opt_view(branch), opt_view(tag), opt_view(rev)),
    {
        match (rev, tag, branch) {
            (Some(r), _, _) => GitRef::Rev(r),
            (None, Some(t), _) => GitRef::Tag(t),
            (None, None, Some(b)) => GitRef::Branch(b),
            (None, None, None) => GitRef::default(),
        }
    }

    /// Validate a `subdir` key: a relative prefix that stays inside the
    /// repository, empty when absent.
    fn subdir(namespace: &str, subdir: Option<String>) -> (r: Result<String>)
        ensures
            match r {
                Ok(s) => subdir_outcome(opt_view(subdir)) == Ok::<Seq<char>, Seq<char>>(s@),
                Err(e) => subdir_outcome(opt_view(subdir)) matches Err(m) && is_rejection(
                    e,
                    namespace@,
                    m,
                ),
            },
    {
        let sd = match subdir {
            None => return Ok(String::new()),
            Some(s) => s,
        };
        let cs = chars_of(sd.as_str());
        if cs.len() > 0 && cs[0] == '/' {
            return Err(reject(namespace, framed(
                "`subdir = \"",
                sd.as_str(),
                "\"` must be relative to the repository root",
            )));
        }
        let segs = segments_exec(sd.as_str());
        let mut i: usize = 0;
        while i < segs.len()
            invariant
                i <= segs.len(),
                subdir == Some(sd),
                !(sd@.len() > 0 && sd@[0] == '/'),
                strings_view(segs@) == segments(sd@),
                forall|k: int| 0 <= k < i ==> segments(sd@)[k] != seq!['.', '.'],
            decreases segs.len() - i,
        {
            let parent = str_eq(segs[i].as_str(), "..");
            proof {
                reveal_strlit("..");
                assert(segs@[i as int]@ == strings_view(segs@)[i as int]);
                assert(".."@ =~= seq!['.', '.']);
            }
            if parent {
                proof {
                    assert(segments(sd@).contains(seq!['.', '.']));
                }
                return Err(reject(namespace, framed(
                    "`subdir = \"",
                    sd.as_str(),
                    "\"` may not contain `..`: it names a path inside the repository, not one outside it",
                )));
            }
            i += 1;
        }
        proof {
            if segments(sd@).contains(seq!['.', '.']) {
                let k = choose|k: int| 0 <= k < segments(sd@).len() && segments(sd@)[k] == seq!['.', '.'];
                assert(segments(sd@)[k] != seq!['.', '.']);
            }
        }
        Ok(sd)
    }
}


// ─── Refs that lose ─────────────────────────────────────────────────────────

/// The ref keys a table sets, in precedence order: `rev`, `tag`, `branch`.
pub open spec fn given_ref_keys(raw: NamespaceSourceRaw) -> Seq<Seq<char>> {
    (if raw.rev is Some { seq!["rev"@] } else { Seq::empty() }) + (if raw.tag is Some {
        seq!["tag"@]
    } else {
        Seq::empty()
    }) + (if raw.branch is Some { seq!["branch"@] } else { Seq::empty() })
}

/// The warning for a repository table that sets more than one ref key: the
/// keys given, and the one that is used.
pub open spec fn ref_warning_spec(namespace: Seq<char>, raw: NamespaceSourceRaw) -> Option<Seq<char>> {
    if raw.repo is Some && given_ref_keys(raw).len() > 1 {
        Some("[packages."@ + namespace + "] sets "@ + crate::text::join(given_ref_keys(raw), ", "@)
            + "; only `"@ + given_ref_keys(raw)[0] + "` is used (rev, then tag, then branch)"@)
    } else {
        None
    }
}

/// The warning a table earns as its source is chosen: a valid namespace
/// and `packages` key, and `repo` as its only source, with more than one
/// ref key set. It is owed whether or not the `subdir` key then passes.
pub open spec fn ref_warning_due(namespace: Seq<char>, raw: NamespaceSourceRaw) -> Option<Seq<char>> {
    if is_ident_spec(namespace) && only_outcome(
        match raw.packages {
            Some(v) => Some(strings_view(v@)),
            None => None,
        },
    ) is Ok && sources_set(raw) == 1 {
        ref_warning_spec(namespace, raw)
    } else {
        None
    }
}

/// A warning as a list of none or one.
pub open spec fn warning_list(w: Option<Seq<char>>) -> Seq<Seq<char>> {
    match w {
        Some(x) => seq![x],
        None => Seq::empty(),
    }
}

/// The warnings validating `tables` in order gives: each table's, up to and
/// including the first table that is rejected.
pub open spec fn table_warnings(tables: Seq<(String, NamespaceSourceRaw)>) -> Seq<Seq<char>>
    decreases tables.len(),
{
    if tables.len() == 0 {
        Seq::empty()
    } else {
        let w = warning_list(ref_warning_due(tables[0].0@, tables[0].1));
        if entry_outcome(tables[0].0@, tables[0].1) is Err {
            w
        } else {
            w + table_warnings(tables.drop_first())
        }
    }
}

/// The warning owed when a repository table sets more than one of `rev`,
/// `tag` and `branch`, so the keys that lost are not dropped silently.
pub fn ref_conflict_warning(namespace: &str, raw: &NamespaceSourceRaw) -> (r: Option<String>)
    ensures
        opt_view(r) == ref_warning_spec(namespace@, *raw),
{
    let mut keys: Vec<String> = Vec::new();
    if raw.rev.is_some() {
        keys.push(owned("rev"));
    }
    if raw.tag.is_some() {
        keys.push(owned("tag"));
    }
    if raw.branch.is_some() {
        keys.push(owned("branch"));
    }
    proof {
        assert(keys@.map_values(|k: String| k@) =~= given_ref_keys(*raw));
    }
    if raw.repo.is_none() || keys.len() < 2 {
        return None;
    }
    let mut message = owned("[packages.");
    push_str(&mut message, namespace);
    push_str(&mut message, "] sets ");
    let joined = crate::text::join_exec(&keys, ", ");
    push_str(&mut message, joined.as_str());
    push_str(&mut message, "; only `");
    push_str(&mut message, keys[0].as_str());
    push_str(&mut message, "` is used (rev, then tag, then branch)");
    proof {
        assert(keys@[0]@ == given_ref_keys(*raw)[0]);
    }
    Some(message)
}

} // verus!
