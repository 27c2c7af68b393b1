//! A package's `typst.toml` as rheo reads it: the asset blocks under
//! `[tool.rheo.<format>]` (and `[tool.rheo.source.<format>]` for a package
//! served from a repository ref), the scripts those blocks declare, and the
//! `min_version` floor a package sets for rheo.

use vstd::prelude::*;
use crate::config::decode::{bool_under, last_under, parse_toml, toml_parse};
use crate::config::opt_text;
use crate::config::project::{PluginAssets, TomlValue};
use crate::error::RheoError;
use crate::migrate::{sort_strings, sort_strings_exec};
use crate::paths::{join, join_exec};
use crate::plugins::ResolvedPackage;
use crate::text::{join as join_lines, join_exec as join_lines_exec, owned, push_str, str_eq};

verus! {

// ─── semver ─────────────────────────────────────────────────────────────────

/// The version semver reads `s` as, in semver's own display; `None` when
/// `s` is not a version.
pub uninterp spec fn semver_text(s: Seq<char>) -> Option<Seq<char>>;

/// Whether semver orders the version `a` after the version `b` (false when
/// either is not a version).
pub uninterp spec fn semver_gt(a: Seq<char>, b: Seq<char>) -> bool;

/// `semver::Version::parse`, the parsed version displayed.
#[verifier::external_body]
fn parse_semver(s: &str) -> (r: Option<String>)
    ensures
        opt_text(r) == semver_text(s@),
{
    semver::Version::parse(s).ok().map(|v| v.to_string())
}

/// `>` on two versions parsed by `semver::Version::parse`.
#[verifier::external_body]
pub(crate) fn semver_after(a: &str, b: &str) -> (r: bool)
    ensures
        r == semver_gt(a@, b@),
{
    match (semver::Version::parse(a), semver::Version::parse(b)) {
        (Ok(x), Ok(y)) => x > y,
        _ => false,
    }
}

// ─── Values, copied ─────────────────────────────────────────────────────────

/// Whether `b` is a copy of `a`: the same kind of value holding the same
/// text, number or flag, and copies of its items and entries.
pub open spec fn same_value(a: TomlValue, b: TomlValue) -> bool
    decreases a, 1int,
{
    match a {
        TomlValue::Str(x) => (b matches TomlValue::Str(y) && x@ == y@),
        TomlValue::Int(x) => b == TomlValue::Int(x),
        TomlValue::Float(x) => (b matches TomlValue::Float(y) && x@ == y@),
        TomlValue::Bool(x) => b == TomlValue::Bool(x),
        TomlValue::Datetime(x) => (b matches TomlValue::Datetime(y) && x@ == y@),
        TomlValue::Array(x) => (b matches TomlValue::Array(y) && same_values(x@, y@)),
        TomlValue::Table(x) => (b matches TomlValue::Table(y) && same_entries(x@, y@)),
    }
}

/// [`same_value`], place by place.
pub open spec fn same_values(xs: Seq<TomlValue>, ys: Seq<TomlValue>) -> bool
    decreases xs, 0int,
{
    xs.len() == ys.len() && (xs.len() == 0 || (same_values(xs.drop_last(), ys.drop_last())
        && same_value(xs[xs.len() - 1], ys[ys.len() - 1])))
}

/// Copies of the entries `xs`, place by place: the same keys, copied
/// values.
pub open spec fn same_entries(xs: Seq<(String, TomlValue)>, ys: Seq<(String, TomlValue)>) -> bool
    decreases xs, 0int,
{
    xs.len() == ys.len() && (xs.len() == 0 || (same_entries(xs.drop_last(), ys.drop_last())
        && xs[xs.len() - 1].0@ == ys[ys.len() - 1].0@ && same_value(
        xs[xs.len() - 1].1,
        ys[ys.len() - 1].1,
    )))
}

/// A copy of `v`.
pub fn copy_value(v: &TomlValue) -> (r: TomlValue)
    ensures
        same_value(*v, r),
    decreases *v, 1int,
{
    match v {
        TomlValue::Str(s) => TomlValue::Str(owned(s.as_str())),
        TomlValue::Int(i) => TomlValue::Int(*i),
        TomlValue::Float(s) => TomlValue::Float(owned(s.as_str())),
        TomlValue::Bool(b) => TomlValue::Bool(*b),
        TomlValue::Datetime(s) => TomlValue::Datetime(owned(s.as_str())),
        TomlValue::Array(a) => TomlValue::Array(copy_values(a)),
        TomlValue::Table(t) => TomlValue::Table(copy_entries(t)),
    }
}

/// Copies of `xs`.
fn copy_values(xs: &Vec<TomlValue>) -> (r: Vec<TomlValue>)
    ensures
        same_values(xs@, r@),
    decreases *xs, 0int,
{
    let mut out: Vec<TomlValue> = Vec::new();
    let mut i: usize = 0;
    while i < xs.len()
        invariant
            i <= xs@.len(),
            same_values(xs@.take(i as int), out@),
        decreases xs@.len() - i,
    {
        proof {
            assert(decreases_to!(*xs => xs@));
            assert(decreases_to!(xs@ => xs@[i as int]));
        }
        let c = copy_value(&xs[i]);
        let ghost before = out@;
        out.push(c);
        proof {
            assert(xs@.take(i + 1).drop_last() =~= xs@.take(i as int));
            assert(out@.drop_last() =~= before);
            assert(xs@.take(i + 1)[i as int] == xs@[i as int]);
        }
        i += 1;
    }
    proof {
        assert(xs@.take(i as int) =~= xs@);
    }
    out
}

/// Copies of the entries `t`.
fn copy_entries(t: &Vec<(String, TomlValue)>) -> (r: Vec<(String, TomlValue)>)
    ensures
        same_entries(t@, r@),
    decreases *t, 0int,
{
    let mut out: Vec<(String, TomlValue)> = Vec::new();
    let mut i: usize = 0;
    while i < t.len()
        invariant
            i <= t@.len(),
            same_entries(t@.take(i as int), out@),
        decreases t@.len() - i,
    {
        proof {
            assert(decreases_to!(*t => t@));
            assert(decreases_to!(t@ => t@[i as int]));
            assert(decreases_to!(t@[i as int] => t@[i as int].1));
        }
        let c = copy_value(&t[i].1);
        let ghost before = out@;
        out.push((owned(t[i].0.as_str()), c));
        proof {
            assert(t@.take(i + 1).drop_last() =~= t@.take(i as int));
            assert(out@.drop_last() =~= before);
            assert(t@.take(i + 1)[i as int] == t@[i as int]);
        }
        i += 1;
    }
    proof {
        assert(t@.take(i as int) =~= t@);
    }
    out
}


// ─── typst.toml ─────────────────────────────────────────────────────────────

/// The entries of `v` if it is a table.
pub open spec fn table_value(v: TomlValue) -> Option<Seq<(String, TomlValue)>> {
    match v {
        TomlValue::Table(t) => Some(t@),
        _ => None,
    }
}

/// The table under `key`, if the entry there is one.
pub open spec fn table_under(t: Seq<(String, TomlValue)>, key: Seq<char>) -> Option<Seq<(String, TomlValue)>> {
    match last_under(t, key) {
        Some(v) => table_value(v),
        None => None,
    }
}

/// The `[tool.rheo]` table of a manifest.
pub open spec fn rheo_table(t: Seq<(String, TomlValue)>) -> Option<Seq<(String, TomlValue)>> {
    match table_under(t, "tool"@) {
        Some(tool) => table_under(tool, "rheo"@),
        None => None,
    }
}

/// The asset block for `format`: `[tool.rheo.source.<format>]` when
/// `source`, else `[tool.rheo.<format>]`; none when absent or empty.
pub open spec fn block_of(t: Seq<(String, TomlValue)>, format: Seq<char>, source: bool) -> Option<
    Seq<(String, TomlValue)>,
> {
    match rheo_table(t) {
        Some(rheo) => {
            let inner = if source {
                match table_under(rheo, "source"@) {
                    Some(src) => table_under(src, format),
                    None => None,
                }
            } else {
                table_under(rheo, format)
            };
            match inner {
                Some(b) => if b.len() == 0 {
                    None
                } else {
                    Some(b)
                },
                None => None,
            }
        },
        None => None,
    }
}

/// The strings among `a`, in order; other values are skipped.
pub open spec fn str_items(a: Seq<TomlValue>) -> Seq<Seq<char>>
    decreases a.len(),
{
    if a.len() == 0 {
        Seq::empty()
    } else {
        match a.last() {
            TomlValue::Str(s) => str_items(a.drop_last()).push(s@),
            _ => str_items(a.drop_last()),
        }
    }
}

/// A value read as a list of strings: a bare string is a one-item list, an
/// array gives its strings, anything else gives none.
pub open spec fn toml_strings_spec(v: TomlValue) -> Seq<Seq<char>> {
    match v {
        TomlValue::Str(s) => seq![s@],
        TomlValue::Array(a) => str_items(a@),
        _ => Seq::empty(),
    }
}

/// The `copy` globs of a block: the strings of its `copy` array.
pub open spec fn block_copy(b: Seq<(String, TomlValue)>) -> Seq<Seq<char>> {
    match last_under(b, "copy"@) {
        Some(TomlValue::Array(a)) => str_items(a@),
        _ => Seq::empty(),
    }
}

/// Where a package's assets go: `<namespace>/<name>`, or `<name>` for a
/// package without a namespace.
pub open spec fn package_dest(p: ResolvedPackage) -> Seq<char> {
    let ns = match p.namespace {
        Some(n) => n@,
        None => Seq::empty(),
    };
    if ns.len() == 0 {
        p.name@
    } else {
        ns + "/"@ + p.name@
    }
}

/// Whether `a` is the package's asset block `b`, resolved: its `copy`
/// globs, the package's destination, the whole block as overrides, the
/// package's root, and whether its scripts load as modules.
pub open spec fn assets_from_block(a: PackageAssets, b: Seq<(String, TomlValue)>, p: ResolvedPackage) -> bool {
    &&& crate::config::texts(a.assets.copy@) == block_copy(b)
    &&& opt_text(a.assets.dest) == Some(package_dest(p))
    &&& same_entries(b, a.assets.extra@)
    &&& a.source_root@ == p.source_root@
    &&& a.js_module == (bool_under(b, "js_module"@) == Some(true))
}

/// The scripts every `[tool.rheo.<format>]` block of `rheo` declares under
/// `js_scripts`, block by block; the `source` table is not a format.
pub open spec fn declared_scripts(rheo: Seq<(String, TomlValue)>) -> Seq<Seq<char>>
    decreases rheo.len(),
{
    if rheo.len() == 0 {
        Seq::empty()
    } else {
        let rest = declared_scripts(rheo.drop_last());
        let e = rheo.last();
        if e.0@ == "source"@ {
            rest
        } else {
            match table_value(e.1) {
                Some(section) => match last_under(section, "js_scripts"@) {
                    Some(v) => rest + toml_strings_spec(v),
                    None => rest,
                },
                None => rest,
            }
        }
    }
}

/// `s` without the repeats that follow one another.
pub open spec fn dedup_adjacent(s: Seq<Seq<char>>) -> Seq<Seq<char>>
    decreases s.len(),
{
    if s.len() == 0 {
        s
    } else {
        let rest = dedup_adjacent(s.drop_last());
        if rest.len() > 0 && rest.last() == s.last() {
            rest
        } else {
            rest.push(s.last())
        }
    }
}


/// The block a package's assets come from: the source-mode block when the
/// package is served from a ref and declares one, else the ordinary block.
pub open spec fn chosen_block(t: Seq<(String, TomlValue)>, format: Seq<char>, source_mode: bool) -> Option<
    Seq<(String, TomlValue)>,
> {
    if source_mode && block_of(t, format, true) is Some {
        block_of(t, format, true)
    } else {
        block_of(t, format, false)
    }
}

/// The `[tool.rheo] min_version` a manifest declares, as semver reads it.
pub open spec fn min_version_spec(t: Seq<(String, TomlValue)>) -> Option<Seq<char>> {
    match rheo_table(t) {
        Some(rheo) => match last_under(rheo, "min_version"@) {
            Some(TomlValue::Str(s)) => semver_text(s@),
            _ => None,
        },
        None => None,
    }
}

/// A package's asset block, resolved against the package.
#[derive(Debug, PartialEq)]
pub struct PackageAssets {
    pub assets: PluginAssets,
    /// The package's root directory.
    pub source_root: String,
    /// Whether the block's scripts load as ES modules.
    pub js_module: bool,
}

/// A resolved package's parsed `typst.toml`.
pub struct PackageManifest {
    pkg: ResolvedPackage,
    table: Vec<(String, TomlValue)>,
}

/// A value read as a list of strings, accepting a bare string as a
/// one-item list.
pub fn toml_strings(v: &TomlValue) -> (r: Vec<String>)
    ensures
        crate::config::texts(r@) == toml_strings_spec(*v),
{
    match v {
        TomlValue::Str(s) => {
            let r = vec![owned(s.as_str())];
            proof {
                assert(crate::config::texts(r@) =~= seq![s@]);
            }
            r
        },
        TomlValue::Array(a) => str_items_exec(a),
        _ => {
            let r: Vec<String> = Vec::new();
            proof {
                assert(crate::config::texts(r@) =~= Seq::<Seq<char>>::empty());
            }
            r
        },
    }
}

/// The strings among `a`, copied, in order.
fn str_items_exec(a: &Vec<TomlValue>) -> (r: Vec<String>)
    ensures
        crate::config::texts(r@) == str_items(a@),
{
    let mut out: Vec<String> = Vec::new();
    let mut i: usize = 0;
    while i < a.len()
        invariant
            i <= a@.len(),
            crate::config::texts(out@) == str_items(a@.take(i as int)),
        decreases a@.len() - i,
    {
        proof {
            assert(a@.take(i + 1).drop_last() =~= a@.take(i as int));
            assert(a@.take(i + 1).last() == a@[i as int]);
        }
        match &a[i] {
            TomlValue::Str(s) => {
                let ghost before = out@;
                out.push(owned(s.as_str()));
                proof {
                    assert(crate::config::texts(out@) =~= crate::config::texts(before).push(s@));
                }
            },
            _ => {},
        }
        i += 1;
    }
    proof {
        assert(a@.take(i as int) =~= a@);
    }
    out
}

/// The last entry of `t` under `key`, by reference.
fn last_under_exec<'a>(t: &'a Vec<(String, TomlValue)>, key: &str) -> (r: Option<&'a TomlValue>)
    ensures
        match last_under(t@, key@) {
            Some(v) => r == Some(&v),
            None => r is None,
        },
{
    let mut i: usize = t.len();
    proof {
        assert(t@.take(i as int) =~= t@);
    }
    while i > 0
        invariant
            i <= t@.len(),
            last_under(t@, key@) == last_under(t@.take(i as int), key@),
        decreases i,
    {
        proof {
            assert(t@.take(i as int).drop_last() =~= t@.take(i - 1));
            assert(t@.take(i as int).last() == t@[i - 1]);
        }
        if str_eq(t[i - 1].0.as_str(), key) {
            return Some(&t[i - 1].1);
        }
        i -= 1;
    }
    None
}

/// The table under `key`, by reference.
fn table_under_exec<'a>(t: &'a Vec<(String, TomlValue)>, key: &str) -> (r: Option<&'a Vec<(String, TomlValue)>>)
    ensures
        match table_under(t@, key@) {
            Some(x) => r matches Some(y) && y@ == x,
            None => r is None,
        },
{
    match last_under_exec(t, key) {
        Some(TomlValue::Table(x)) => Some(x),
        _ => None,
    }
}

/// The `[tool.rheo]` table, by reference.
fn rheo_table_exec(t: &Vec<(String, TomlValue)>) -> (r: Option<&Vec<(String, TomlValue)>>)
    ensures
        match rheo_table(t@) {
            Some(x) => r matches Some(y) && y@ == x,
            None => r is None,
        },
{
    match table_under_exec(t, "tool") {
        Some(tool) => table_under_exec(tool, "rheo"),
        None => None,
    }
}

impl PackageManifest {
    /// The manifest's entries.
    pub closed spec fn entries(self) -> Seq<(String, TomlValue)> {
        self.table@
    }

    /// The package the manifest belongs to.
    pub closed spec fn package(self) -> ResolvedPackage {
        self.pkg
    }

    /// `pkg`'s manifest from the text of its `typst.toml`; `None` when toml
    /// cannot parse it, for a malformed manifest in someone else's package
    /// must never break a build.
    pub fn parse(pkg: ResolvedPackage, text: &str) -> (r: Option<PackageManifest>)
        ensures
            match toml_parse(text@) {
                Ok(t) => r matches Some(m) && m.entries() == t && m.package() == pkg,
                Err(_) => r is None,
            },
    {
        match parse_toml(text) {
            Ok(table) => Some(PackageManifest { pkg, table }),
            Err(_) => None,
        }
    }

    /// The asset block for `format`, resolved: the source-mode block when
    /// `source`, else the ordinary one; none when absent or empty.
    fn assets_block(&self, format: &str, source: bool) -> (r: Option<PackageAssets>)
        ensures
            match block_of(self.entries(), format@, source) {
                Some(b) => r matches Some(a) && assets_from_block(a, b, self.package()),
                None => r is None,
            },
    {
        let rheo = match rheo_table_exec(&self.table) {
            Some(x) => x,
            None => return None,
        };
        let section = if source {
            match table_under_exec(rheo, "source") {
                Some(src) => match table_under_exec(src, format) {
                    Some(x) => x,
                    None => return None,
                },
                None => return None,
            }
        } else {
            match table_under_exec(rheo, format) {
                Some(x) => x,
                None => return None,
            }
        };
        if section.len() == 0 {
            return None;
        }
        let js_module = match last_under_exec(section, "js_module") {
            Some(TomlValue::Bool(b)) => *b,
            _ => false,
        };
        let copy = match last_under_exec(section, "copy") {
            Some(TomlValue::Array(a)) => str_items_exec(a),
            _ => {
                let r: Vec<String> = Vec::new();
                proof {
                    assert(crate::config::texts(r@) =~= Seq::<Seq<char>>::empty());
                }
                r
            },
        };
        let extra = copy_entries(section);
        proof {
            reveal_strlit("");
        }
        let dest = match &self.pkg.namespace {
            Some(ns) => if str_eq(ns.as_str(), "") {
                let d = owned(self.pkg.name.as_str());
                proof {
                    assert(ns@.len() == 0);
                    assert(d@ == package_dest(self.pkg));
                }
                d
            } else {
                let mut d = owned(ns.as_str());
                push_str(&mut d, "/");
                push_str(&mut d, self.pkg.name.as_str());
                proof {
                    reveal_strlit("");
                    assert(""@.len() == 0);
                    if ns@.len() == 0 {
                        assert(ns@ =~= ""@);
                    }
                    assert(ns@.len() != 0);
                    assert(d@ == package_dest(self.pkg));
                }
                d
            },
            None => owned(self.pkg.name.as_str()),
        };
        proof {
            assert(""@.len() == 0);
            assert(dest@ == package_dest(self.pkg));
            assert(self.package() == self.pkg);
        }
        Some(
            PackageAssets {
                assets: PluginAssets { copy, dest: Some(dest), extra },
                source_root: owned(self.pkg.source_root.as_str()),
                js_module,
            },
        )
    }

    /// The `[tool.rheo.<format>]` block, resolved, if present and not empty.
    pub fn package_assets(&self, format: &str) -> (r: Option<PackageAssets>)
        ensures
            match block_of(self.entries(), format@, false) {
                Some(b) => r matches Some(a) && assets_from_block(a, b, self.package()),
                None => r is None,
            },
    {
        self.assets_block(format, false)
    }

    /// The block for `format`, preferring the source-mode block when the
    /// package came from a repository ref, and falling back to the ordinary
    /// one when it declares none.
    pub fn assets_for(&self, format: &str, source_mode: bool) -> (r: Option<PackageAssets>)
        ensures
            match chosen_block(self.entries(), format@, source_mode) {
                Some(b) => r matches Some(a) && assets_from_block(a, b, self.package()),
                None => r is None,
            },
    {
        if source_mode {
            match self.assets_block(format, true) {
                Some(b) => return Some(b),
                None => {},
            }
        }
        self.assets_block(format, false)
    }

    /// Whether the package declares a non-empty `[tool.rheo.source]` table.
    pub fn has_source_block(&self) -> (b: bool)
        ensures
            b == (match rheo_table(self.entries()) {
                Some(rheo) => match table_under(rheo, "source"@) {
                    Some(src) => src.len() > 0,
                    None => false,
                },
                None => false,
            }),
    {
        match rheo_table_exec(&self.table) {
            Some(rheo) => match table_under_exec(rheo, "source") {
                Some(src) => src.len() > 0,
                None => false,
            },
            None => false,
        }
    }

    /// Every script the format blocks declare under `js_scripts`, in
    /// declaration order.
    pub fn declared_scripts(&self) -> (r: Vec<String>)
        ensures
            crate::config::texts(r@) == match rheo_table(self.entries()) {
                Some(rheo) => declared_scripts(rheo),
                None => Seq::empty(),
            },
    {
        let rheo = match rheo_table_exec(&self.table) {
            Some(x) => x,
            None => {
                let r: Vec<String> = Vec::new();
                proof {
                    assert(crate::config::texts(r@) =~= Seq::<Seq<char>>::empty());
                }
                return r;
            },
        };
        let mut out: Vec<String> = Vec::new();
        let mut i: usize = 0;
        proof {
            assert(crate::config::texts(out@) =~= Seq::<Seq<char>>::empty());
        }
        while i < rheo.len()
            invariant
                i <= rheo@.len(),
                crate::config::texts(out@) == declared_scripts(rheo@.take(i as int)),
            decreases rheo@.len() - i,
        {
            proof {
                assert(rheo@.take(i + 1).drop_last() =~= rheo@.take(i as int));
                assert(rheo@.take(i + 1).last() == rheo@[i as int]);
            }
            if !str_eq(rheo[i].0.as_str(), "source") {
                match &rheo[i].1 {
                    TomlValue::Table(section) => match last_under_exec(section, "js_scripts") {
                        Some(v) => {
                            let more = toml_strings(v);
                            let ghost before = out@;
                            let mut j: usize = 0;
                            while j < more.len()
                                invariant
                                    j <= more@.len(),
                                    crate::config::texts(out@) == crate::config::texts(before)
                                        + crate::config::texts(more@.take(j as int)),
                                decreases more@.len() - j,
                            {
                                let ghost prev = out@;
                                out.push(owned(more[j].as_str()));
                                proof {
                                    assert(more@.take(j + 1) =~= more@.take(j as int).push(more@[j as int]));
                                    assert(crate::config::texts(out@) =~= crate::config::texts(prev).push(more@[j as int]@));
                                    assert(crate::config::texts(more@.take(j + 1)) =~= crate::config::texts(
                                        more@.take(j as int),
                                    ).push(more@[j as int]@));
                                }
                                j += 1;
                            }
                            proof {
                                assert(more@.take(j as int) =~= more@);
                            }
                        },
                        None => {},
                    },
                    _ => {},
                }
            }
            i += 1;
        }
        proof {
            assert(rheo@.take(i as int) =~= rheo@);
        }
        out
    }
}


impl PackageManifest {
    /// The package's declared `[tool.rheo] min_version` floor, displayed as
    /// semver reads it; `None` when absent or not a version.
    pub fn min_version(&self) -> (r: Option<String>)
        ensures
            opt_text(r) == min_version_spec(self.entries()),
    {
        match rheo_table_exec(&self.table) {
            Some(rheo) => match last_under_exec(rheo, "min_version") {
                Some(TomlValue::Str(raw)) => parse_semver(raw.as_str()),
                _ => None,
            },
            None => None,
        }
    }

    /// Where each declared script must be found: the package root joined
    /// with the script's path, in declaration order.
    pub fn script_probe_paths(&self) -> (r: Vec<String>)
        ensures
            crate::config::texts(r@) == script_paths(*self),
    {
        let declared = self.declared_scripts();
        let ghost d = crate::config::texts(declared@);
        let mut out: Vec<String> = Vec::new();
        let mut i: usize = 0;
        while i < declared.len()
            invariant
                i <= declared@.len(),
                d == crate::config::texts(declared@),
                d == declared_of(*self),
                out@.len() == i,
                forall|k: int| 0 <= k < i ==> (#[trigger] out@[k])@ == join(self.pkg.source_root@, d[k]),
            decreases declared@.len() - i,
        {
            out.push(join_exec(self.pkg.source_root.as_str(), declared[i].as_str()));
            i += 1;
        }
        proof {
            assert(crate::config::texts(out@) =~= script_paths(*self));
        }
        out
    }

    /// The declared scripts that are missing, given for each declared script
    /// whether it is present: sorted, without repeats.
    pub fn missing_scripts_given(&self, present: &Vec<bool>) -> (r: Vec<String>)
        requires
            present@.len() == declared_of(*self).len(),
        ensures
            crate::config::texts(r@) == missing_spec(declared_of(*self), present@),
    {
        let declared = self.declared_scripts();
        let ghost d = crate::config::texts(declared@);
        let mut missing: Vec<String> = Vec::new();
        let mut i: usize = 0;
        proof {
            assert(crate::config::texts(missing@) =~= absent(d.take(0), present@.take(0)));
        }
        while i < declared.len()
            invariant
                i <= declared@.len(),
                d == crate::config::texts(declared@),
                present@.len() == d.len(),
                crate::config::texts(missing@) == absent(d.take(i as int), present@.take(i as int)),
            decreases declared@.len() - i,
        {
            proof {
                assert(d.take(i + 1).drop_last() =~= d.take(i as int));
                assert(present@.take(i + 1).drop_last() =~= present@.take(i as int));
                assert(d.take(i + 1).last() == declared@[i as int]@);
            }
            if !present[i] {
                let ghost prev = missing@;
                missing.push(owned(declared[i].as_str()));
                proof {
                    assert(crate::config::texts(missing@) =~= crate::config::texts(prev).push(declared@[i as int]@));
                }
            }
            i += 1;
        }
        proof {
            assert(d.take(i as int) =~= d);
            assert(present@.take(i as int) =~= present@);
        }
        let sorted = sort_strings_exec(missing);
        dedup_adjacent_exec(sorted)
    }

    /// The declared scripts that are not present under the package root,
    /// sorted, without repeats: each path of [`Self::script_probe_paths`]
    /// is probed in order, and the answers go to
    /// [`Self::missing_scripts_given`]. Which files exist is the file
    /// system's answer; whatever it is, the result is the given function's
    /// for some answer per declared script.
    pub fn missing_declared_scripts(&self) -> (r: Vec<String>)
        ensures
            exists|present: Seq<bool>| present.len() == declared_of(*self).len()
                && crate::config::texts(r@) == #[trigger] missing_spec(declared_of(*self), present),
    {
        let paths = self.script_probe_paths();
        proof {
            assert(crate::config::texts(paths@).len() == paths@.len());
        }
        let mut present: Vec<bool> = Vec::new();
        let mut i: usize = 0;
        while i < paths.len()
            invariant
                i <= paths@.len(),
                paths@.len() == declared_of(*self).len(),
                present@.len() == i,
            decreases paths@.len() - i,
        {
            present.push(crate::packages::path_exists(paths[i].as_str()));
            i += 1;
        }
        self.missing_scripts_given(&present)
    }
}

/// Every script a manifest's format blocks declare, in declaration order.
pub open spec fn declared_of(m: PackageManifest) -> Seq<Seq<char>> {
    match rheo_table(m.entries()) {
        Some(rheo) => declared_scripts(rheo),
        None => Seq::empty(),
    }
}

/// Where a manifest's declared scripts must be found: each joined onto the
/// package root.
pub open spec fn script_paths(m: PackageManifest) -> Seq<Seq<char>> {
    declared_of(m).map_values(|s: Seq<char>| join(m.package().source_root@, s))
}

/// The scripts of `declared` whose answer in `present` is `false`, in order.
pub open spec fn absent(declared: Seq<Seq<char>>, present: Seq<bool>) -> Seq<Seq<char>>
    decreases declared.len(),
{
    if declared.len() == 0 {
        Seq::empty()
    } else {
        let rest = absent(declared.drop_last(), present.drop_last());
        if present.last() {
            rest
        } else {
            rest.push(declared.last())
        }
    }
}

/// The missing scripts given an answer per declared script: sorted,
/// without repeats.
pub open spec fn missing_spec(declared: Seq<Seq<char>>, present: Seq<bool>) -> Seq<Seq<char>> {
    dedup_adjacent(sort_strings(absent(declared, present)))
}

/// `v` without the repeats that follow one another.
fn dedup_adjacent_exec(v: Vec<String>) -> (r: Vec<String>)
    ensures
        crate::config::texts(r@) == dedup_adjacent(crate::config::texts(v@)),
{
    let ghost tv = crate::config::texts(v@);
    let mut out: Vec<String> = Vec::new();
    let mut i: usize = 0;
    proof {
        assert(tv.take(0) =~= Seq::<Seq<char>>::empty());
        assert(crate::config::texts(out@) =~= Seq::<Seq<char>>::empty());
    }
    while i < v.len()
        invariant
            i <= v@.len(),
            tv == crate::config::texts(v@),
            crate::config::texts(out@) == dedup_adjacent(tv.take(i as int)),
        decreases v@.len() - i,
    {
        proof {
            assert(tv.take(i + 1).drop_last() =~= tv.take(i as int));
            assert(tv.take(i + 1).last() == v@[i as int]@);
        }
        let n = out.len();
        if n > 0 && str_eq(out[n - 1].as_str(), v[i].as_str()) {
            proof {
                assert(crate::config::texts(out@).last() == out@[n - 1]@);
            }
        } else {
            let ghost prev = out@;
            out.push(owned(v[i].as_str()));
            proof {
                assert(crate::config::texts(out@) =~= crate::config::texts(prev).push(v@[i as int]@));
                if n > 0 {
                    assert(crate::config::texts(prev).last() == prev[n - 1]@);
                }
            }
        }
        i += 1;
    }
    proof {
        assert(tv.take(i as int) =~= tv);
    }
    out
}

// ─── The packages a project imports ─────────────────────────────────────────

/// One import spec, resolved.
pub struct IndexEntry {
    /// The import spec as written, named in errors.
    pub spec: String,
    pub pkg: ResolvedPackage,
    /// The package's manifest, when it ships one toml can parse.
    pub manifest: Option<PackageManifest>,
    /// Resolved from a repository ref, so a build's output is absent and the
    /// source-mode asset block applies.
    pub source_mode: bool,
}

/// The imported packages that resolved, in import order, each manifest read
/// once.
pub struct PackageIndex {
    resolved: Vec<IndexEntry>,
}

/// The blocks the index's packages contribute for `format`, in import
/// order, each with its package.
pub open spec fn chosen_blocks(entries: Seq<IndexEntry>, format: Seq<char>) -> Seq<
    (Seq<(String, TomlValue)>, ResolvedPackage),
>
    decreases entries.len(),
{
    if entries.len() == 0 {
        Seq::empty()
    } else {
        let rest = chosen_blocks(entries.drop_last(), format);
        let e = entries.last();
        match e.manifest {
            Some(m) => match chosen_block(m.entries(), format, e.source_mode) {
                Some(b) => rest.push((b, m.package())),
                None => rest,
            },
            None => rest,
        }
    }
}

/// The line naming a package whose declared floor is above this rheo.
pub open spec fn floor_line(spec: Seq<char>, floor: Seq<char>, current: Seq<char>) -> Seq<char> {
    spec + " needs rheo >= "@ + floor + ", but this is rheo "@ + current
}

/// One line per package whose `min_version` is above `current`, in import
/// order.
pub open spec fn floor_lines(entries: Seq<IndexEntry>, current: Seq<char>) -> Seq<Seq<char>>
    decreases entries.len(),
{
    if entries.len() == 0 {
        Seq::empty()
    } else {
        let rest = floor_lines(entries.drop_last(), current);
        let e = entries.last();
        match e.manifest {
            Some(m) => match min_version_spec(m.entries()) {
                Some(v) => if semver_gt(v, current) {
                    rest.push(floor_line(e.spec@, v, current))
                } else {
                    rest
                },
                None => rest,
            },
            None => rest,
        }
    }
}

/// The line that closes an error about stale packages.
pub open spec fn upgrade_line() -> Seq<char> {
    "Upgrade rheo: https://rheo.ohrg.org"@
}

/// The line naming a script a ref does not carry.
pub open spec fn unavailable_line(spec: Seq<char>, script: Seq<char>) -> Seq<char> {
    spec + " declares `js_scripts = \""@ + script
        + "\"`, which this ref does not carry: the package is built, and a repository ref has no build output. Add a `[tool.rheo.source.<format>]` block naming its `src/` scripts, or consume the package from a release instead"@
}

/// Whether an entry's declared scripts must be present in its checkout: it
/// came from a ref, ships a manifest, and declares no source-mode block.
pub open spec fn needs_checking(e: IndexEntry) -> bool {
    e.source_mode && e.manifest is Some && !(match rheo_table(e.manifest->Some_0.entries()) {
        Some(rheo) => match table_under(rheo, "source"@) {
            Some(src) => src.len() > 0,
            None => false,
        },
        None => false,
    })
}

impl PackageIndex {
    /// The resolved entries, in import order.
    pub closed spec fn entries(self) -> Seq<IndexEntry> {
        self.resolved@
    }

    /// The index of already-resolved imports, in import order.
    pub fn from_entries(resolved: Vec<IndexEntry>) -> (r: PackageIndex)
        ensures
            r.entries() == resolved@,
    {
        PackageIndex { resolved }
    }

    /// Each package's asset block for `format`, in import order: the
    /// source-mode block for a package served from a ref that declares one.
    pub fn manifest_assets(&self, format: &str) -> (r: Vec<PackageAssets>)
        ensures
            r@.len() == chosen_blocks(self.entries(), format@).len(),
            forall|i: int| 0 <= i < r@.len() ==> assets_from_block(
                #[trigger] r@[i],
                chosen_blocks(self.entries(), format@)[i].0,
                chosen_blocks(self.entries(), format@)[i].1,
            ),
    {
        let mut out: Vec<PackageAssets> = Vec::new();
        let mut i: usize = 0;
        while i < self.resolved.len()
            invariant
                i <= self.resolved@.len(),
                out@.len() == chosen_blocks(self.resolved@.take(i as int), format@).len(),
                forall|k: int| 0 <= k < out@.len() ==> assets_from_block(
                    #[trigger] out@[k],
                    chosen_blocks(self.resolved@.take(i as int), format@)[k].0,
                    chosen_blocks(self.resolved@.take(i as int), format@)[k].1,
                ),
            decreases self.resolved@.len() - i,
        {
            proof {
                assert(self.resolved@.take(i + 1).drop_last() =~= self.resolved@.take(i as int));
                assert(self.resolved@.take(i + 1).last() == self.resolved@[i as int]);
            }
            let entry = &self.resolved[i];
            match &entry.manifest {
                Some(m) => match m.assets_for(format, entry.source_mode) {
                    Some(a) => {
                        let ghost prev = out@;
                        out.push(a);
                        proof {
                            assert forall|k: int| 0 <= k < out@.len() implies assets_from_block(
                                #[trigger] out@[k],
                                chosen_blocks(self.resolved@.take(i + 1), format@)[k].0,
                                chosen_blocks(self.resolved@.take(i + 1), format@)[k].1,
                            ) by {
                                if k < prev.len() {
                                    assert(out@[k] == prev[k]);
                                }
                            }
                        }
                    },
                    None => {},
                },
                None => {},
            }
            i += 1;
        }
        proof {
            assert(self.resolved@.take(i as int) =~= self.resolved@);
        }
        out
    }

    /// Every package whose declared `min_version` is above `current`, one
    /// line each, so a project importing several stale packages learns of
    /// all of them from one build.
    pub fn check_min_versions(&self, current: &str) -> (r: Result<(), RheoError>)
        ensures
            floor_lines(self.entries(), current@).len() == 0 ==> r is Ok,
            floor_lines(self.entries(), current@).len() > 0 ==> (r matches Err(RheoError::InvalidData { message })
                && message@ == join_lines(floor_lines(self.entries(), current@).push(upgrade_line()), "\n"@)),
    {
        let mut lines: Vec<String> = Vec::new();
        let mut i: usize = 0;
        while i < self.resolved.len()
            invariant
                i <= self.resolved@.len(),
                crate::config::texts(lines@) == floor_lines(self.resolved@.take(i as int), current@),
            decreases self.resolved@.len() - i,
        {
            proof {
                assert(self.resolved@.take(i + 1).drop_last() =~= self.resolved@.take(i as int));
                assert(self.resolved@.take(i + 1).last() == self.resolved@[i as int]);
            }
            let entry = &self.resolved[i];
            match &entry.manifest {
                Some(m) => match m.min_version() {
                    Some(v) => if semver_after(v.as_str(), current) {
                        let mut line = owned(entry.spec.as_str());
                        push_str(&mut line, " needs rheo >= ");
                        push_str(&mut line, v.as_str());
                        push_str(&mut line, ", but this is rheo ");
                        push_str(&mut line, current);
                        let ghost prev = lines@;
                        lines.push(line);
                        proof {
                            assert(crate::config::texts(lines@) =~= crate::config::texts(prev).push(line@));
                        }
                    },
                    None => {},
                },
                None => {},
            }
            i += 1;
        }
        proof {
            assert(self.resolved@.take(i as int) =~= self.resolved@);
        }
        if lines.len() == 0 {
            return Ok(());
        }
        let ghost prev = lines@;
        lines.push(owned("Upgrade rheo: https://rheo.ohrg.org"));
        proof {
            assert(crate::config::texts(lines@) =~= crate::config::texts(prev).push(upgrade_line()));
        }
        let message = join_lines_exec(&lines, "\n");
        Err(RheoError::InvalidData { message })
    }

    /// The answer of the availability check, given for each entry the
    /// scripts missing from its checkout: one line per missing script of each
    /// entry that must carry its scripts, and `Ok` when there is none.
    pub fn source_availability_given(&self, missing: &Vec<Vec<String>>) -> (r: Result<(), RheoError>)
        requires
            missing@.len() == self.entries().len(),
        ensures
            availability_result(r, availability_lines(self.entries(), missing_texts(missing@))),
    {
        let ghost mm = missing_texts(missing@);
        let mut lines: Vec<String> = Vec::new();
        let mut i: usize = 0;
        proof {
            assert(crate::config::texts(lines@) =~= availability_lines(
                self.resolved@.take(0),
                mm.take(0),
            ));
        }
        while i < self.resolved.len()
            invariant
                i <= self.resolved@.len(),
                missing@.len() == self.resolved@.len(),
                mm == missing_texts(missing@),
                crate::config::texts(lines@) == availability_lines(
                    self.resolved@.take(i as int),
                    mm.take(i as int),
                ),
            decreases self.resolved@.len() - i,
        {
            proof {
                assert(self.resolved@.take(i + 1).drop_last() =~= self.resolved@.take(i as int));
                assert(mm.take(i + 1).drop_last() =~= mm.take(i as int));
                assert(self.resolved@.take(i + 1).last() == self.resolved@[i as int]);
                assert(mm.take(i + 1).last() == mm[i as int]);
            }
            let entry = &self.resolved[i];
            let check = match &entry.manifest {
                Some(m) => entry.source_mode && !m.has_source_block(),
                None => false,
            };
            proof {
                assert(check == needs_checking(self.resolved@[i as int]));
            }
            if check {
                let ghost before = crate::config::texts(lines@);
                let ghost spec = entry.spec@;
                let scripts = &missing[i];
                let mut j: usize = 0;
                proof {
                    assert(crate::config::texts(scripts@) == mm[i as int]);
                    assert(crate::config::texts(lines@) =~= before + crate::config::texts(scripts@).take(0).map_values(
                        |s: Seq<char>| unavailable_line(spec, s),
                    ));
                }
                while j < scripts.len()
                    invariant
                        j <= scripts@.len(),
                        spec == entry.spec@,
                        crate::config::texts(lines@) == before + crate::config::texts(scripts@).take(
                            j as int,
                        ).map_values(|s: Seq<char>| unavailable_line(spec, s)),
                    decreases scripts@.len() - j,
                {
                    let ghost prev = crate::config::texts(lines@);
                    lines.push(unavailable_line_exec(entry.spec.as_str(), scripts[j].as_str()));
                    proof {
                        let ts = crate::config::texts(scripts@);
                        assert(ts.take(j + 1).map_values(|s: Seq<char>| unavailable_line(spec, s)) =~= ts.take(
                            j as int,
                        ).map_values(|s: Seq<char>| unavailable_line(spec, s)).push(
                            unavailable_line(spec, scripts@[j as int]@),
                        ));
                        assert(crate::config::texts(lines@) =~= prev.push(
                            unavailable_line(spec, scripts@[j as int]@),
                        ));
                    }
                    j += 1;
                }
                proof {
                    assert(crate::config::texts(scripts@).take(j as int) =~= crate::config::texts(scripts@));
                }
            }
            i += 1;
        }
        proof {
            assert(self.resolved@.take(i as int) =~= self.resolved@);
            assert(mm.take(i as int) =~= mm);
        }
        if lines.len() == 0 {
            return Ok(());
        }
        let message = join_lines_exec(&lines, "\n");
        Err(RheoError::ProjectConfig { message })
    }

    /// Reject a package served from a ref that declares no source-mode block
    /// and whose declared scripts are missing from the checkout, naming each
    /// missing script. For each such entry the scripts are probed as
    /// [`PackageManifest::missing_declared_scripts`] does, and the answers go
    /// to [`Self::source_availability_given`]; entries that need no check
    /// are not probed. Which scripts exist is the file system's answer;
    /// nothing is checked, and the answer is `Ok`, when no entry needs it.
    pub fn check_source_availability(&self) -> (r: Result<(), RheoError>)
        ensures
            (forall|i: int| 0 <= i < self.entries().len() ==> !needs_checking(#[trigger] self.entries()[i]))
                ==> r is Ok,
            exists|missing: Seq<Seq<Seq<char>>>| ({
                &&& missing.len() == self.entries().len()
                &&& forall|i: int| 0 <= i < missing.len() ==> #[trigger] probed_answer(self.entries()[i], missing[i])
                &&& availability_result(r, availability_lines(self.entries(), missing))
            }),
    {
        let mut all: Vec<Vec<String>> = Vec::new();
        let mut i: usize = 0;
        while i < self.resolved.len()
            invariant
                i <= self.resolved@.len(),
                all@.len() == i,
                forall|k: int| 0 <= k < i ==> #[trigger] probed_answer(
                    self.resolved@[k],
                    missing_texts(all@)[k],
                ),
                (forall|k: int| 0 <= k < i ==> !needs_checking(#[trigger] self.resolved@[k])) ==> forall|k: int|
                    0 <= k < i ==> (#[trigger] all@[k])@.len() == 0,
            decreases self.resolved@.len() - i,
        {
            let entry = &self.resolved[i];
            let found: Vec<String> = match &entry.manifest {
                Some(m) => if entry.source_mode && !m.has_source_block() {
                    m.missing_declared_scripts()
                } else {
                    Vec::new()
                },
                None => Vec::new(),
            };
            let ghost prev = all@;
            all.push(found);
            proof {
                assert forall|k: int| 0 <= k < i + 1 implies #[trigger] probed_answer(
                    self.resolved@[k],
                    missing_texts(all@)[k],
                ) by {
                    if k < i {
                        assert(all@[k] == prev[k]);
                        assert(missing_texts(all@)[k] == missing_texts(prev)[k]);
                    } else {
                        assert(missing_texts(all@)[k] == crate::config::texts(found@));
                        if !needs_checking(self.resolved@[k]) {
                            assert(crate::config::texts(found@) =~= Seq::<Seq<char>>::empty());
                        }
                    }
                }
                if forall|k: int| 0 <= k < i + 1 ==> !needs_checking(#[trigger] self.resolved@[k]) {
                    assert(!needs_checking(self.resolved@[i as int]));
                    assert forall|k: int| 0 <= k < i + 1 implies (#[trigger] all@[k])@.len() == 0 by {
                        if k < i {
                            assert(all@[k] == prev[k]);
                        }
                    }
                }
            }
            i += 1;
        }
        let r = self.source_availability_given(&all);
        proof {
            let ms = missing_texts(all@);
            if forall|k: int| 0 <= k < self.entries().len() ==> !needs_checking(#[trigger] self.entries()[k]) {
                lemma_no_lines(self.entries(), ms);
            }
        }
        r
    }
}

/// Each entry's missing scripts, as text.
pub open spec fn missing_texts(missing: Seq<Vec<String>>) -> Seq<Seq<Seq<char>>> {
    missing.map_values(|v: Vec<String>| crate::config::texts(v@))
}

/// Whether `missing` is what probing `e`'s checkout can answer: for an entry
/// that must carry its scripts, the missing list for some answer per
/// declared script; for any other, nothing.
pub open spec fn probed_answer(e: IndexEntry, missing: Seq<Seq<char>>) -> bool {
    if needs_checking(e) {
        exists|present: Seq<bool>| present.len() == declared_of(e.manifest->Some_0).len()
            && missing == #[trigger] missing_spec(declared_of(e.manifest->Some_0), present)
    } else {
        missing.len() == 0
    }
}

/// The lines of the availability check, entry by entry: one per missing
/// script of each entry that must carry its scripts.
pub open spec fn availability_lines(entries: Seq<IndexEntry>, missing: Seq<Seq<Seq<char>>>) -> Seq<Seq<char>>
    decreases entries.len(),
{
    if entries.len() == 0 {
        Seq::empty()
    } else {
        let rest = availability_lines(entries.drop_last(), missing.drop_last());
        let e = entries.last();
        if needs_checking(e) {
            rest + missing.last().map_values(|s: Seq<char>| unavailable_line(e.spec@, s))
        } else {
            rest
        }
    }
}

/// `Ok` when there are no lines; else the project-config error that joins
/// them, one per line.
pub open spec fn availability_result(r: Result<(), RheoError>, lines: Seq<Seq<char>>) -> bool {
    if lines.len() == 0 {
        r is Ok
    } else {
        r matches Err(RheoError::ProjectConfig { message }) && message@ == join_lines(lines, "\n"@)
    }
}

proof fn lemma_no_lines(entries: Seq<IndexEntry>, missing: Seq<Seq<Seq<char>>>)
    requires
        forall|k: int| 0 <= k < entries.len() ==> !needs_checking(#[trigger] entries[k]),
    ensures
        availability_lines(entries, missing).len() == 0,
    decreases entries.len(),
{
    if entries.len() > 0 {
        assert(!needs_checking(entries[entries.len() - 1]));
        lemma_no_lines(entries.drop_last(), missing.drop_last());
    }
}

/// The line naming a script a ref does not carry.
fn unavailable_line_exec(spec: &str, script: &str) -> (r: String)
    ensures
        r@ == unavailable_line(spec@, script@),
{
    let mut line = owned(spec);
    push_str(&mut line, " declares `js_scripts = \"");
    push_str(&mut line, script);
    push_str(
        &mut line,
        "\"`, which this ref does not carry: the package is built, and a repository ref has no build output. Add a `[tool.rheo.source.<format>]` block naming its `src/` scripts, or consume the package from a release instead",
    );
    line
}


// ─── Imports across files ───────────────────────────────────────────────────

/// `s` keeping each string's first occurrence only, in order.
pub open spec fn first_occurrences(s: Seq<Seq<char>>) -> Seq<Seq<char>>
    decreases s.len(),
{
    if s.len() == 0 {
        s
    } else if s.drop_last().contains(s.last()) {
        first_occurrences(s.drop_last())
    } else {
        first_occurrences(s.drop_last()).push(s.last())
    }
}

pub(crate) proof fn lemma_first_occurrences_members(s: Seq<Seq<char>>)
    ensures
        forall|x: Seq<char>| #[trigger] first_occurrences(s).contains(x) <==> s.contains(x),
    decreases s.len(),
{
    if s.len() > 0 {
        let d = s.drop_last();
        let l = s.last();
        lemma_first_occurrences_members(d);
        let f = first_occurrences(d);
        assert forall|x: Seq<char>| #[trigger] first_occurrences(s).contains(x) <==> s.contains(x) by {
            let in_s = s.contains(x);
            let in_d = d.contains(x);
            if in_s {
                let i = choose|i: int| 0 <= i < s.len() && s[i] == x;
                if i < s.len() - 1 {
                    assert(d[i] == x);
                }
            }
            if in_d {
                let i = choose|i: int| 0 <= i < d.len() && d[i] == x;
                assert(s[i] == x);
            }
            if x == l {
                assert(s[s.len() - 1] == x);
            }
            assert(in_s <==> (in_d || x == l));
            assert(f.contains(x) <==> in_d);
            if d.contains(l) {
                assert(first_occurrences(s) == f);
                if x == l {
                    assert(in_d);
                }
            } else {
                assert(first_occurrences(s) == f.push(l));
                if f.push(l).contains(x) {
                    let i = choose|i: int| 0 <= i < f.push(l).len() && f.push(l)[i] == x;
                    if i < f.len() {
                        assert(f[i] == x);
                    }
                }
                if f.contains(x) {
                    let i = choose|i: int| 0 <= i < f.len() && f[i] == x;
                    assert(f.push(l)[i] == x);
                }
                if x == l {
                    assert(f.push(l)[f.len() as int] == x);
                }
            }
        }
    }
}

/// The package imports of a project's files, each listed once, in the order
/// first met.
pub fn unique_imports(paths: Vec<String>) -> (r: Vec<String>)
    ensures
        crate::config::texts(r@) == first_occurrences(crate::config::texts(paths@)),
{
    let ghost all = crate::config::texts(paths@);
    let mut out: Vec<String> = Vec::new();
    let mut i: usize = 0;
    proof {
        assert(all.take(0) =~= Seq::<Seq<char>>::empty());
        assert(crate::config::texts(out@) =~= Seq::<Seq<char>>::empty());
    }
    while i < paths.len()
        invariant
            i <= paths@.len(),
            all == crate::config::texts(paths@),
            crate::config::texts(out@) == first_occurrences(all.take(i as int)),
        decreases paths@.len() - i,
    {
        proof {
            assert(all.take(i + 1).drop_last() =~= all.take(i as int));
            assert(all.take(i + 1).last() == paths@[i as int]@);
            lemma_first_occurrences_members(all.take(i as int));
        }
        let mut seen = false;
        let mut j: usize = 0;
        while j < out.len()
            invariant
                i < paths@.len(),
                j <= out@.len(),
                seen == exists|k: int| 0 <= k < j && out@[k]@ == paths@[i as int]@,
            decreases out@.len() - j,
        {
            if str_eq(out[j].as_str(), paths[i].as_str()) {
                seen = true;
            }
            j += 1;
        }
        proof {
            let o = crate::config::texts(out@);
            if seen {
                let k = choose|k: int| 0 <= k < j && out@[k]@ == paths@[i as int]@;
                assert(o[k] == paths@[i as int]@);
                assert(o.contains(paths@[i as int]@));
            } else {
                if o.contains(paths@[i as int]@) {
                    let k = choose|k: int| 0 <= k < o.len() && o[k] == paths@[i as int]@;
                    assert(out@[k]@ == o[k]);
                }
            }
        }
        if !seen {
            let ghost prev = out@;
            out.push(owned(paths[i].as_str()));
            proof {
                assert(crate::config::texts(out@) =~= crate::config::texts(prev).push(paths@[i as int]@));
            }
        }
        i += 1;
    }
    proof {
        assert(all.take(i as int) =~= all);
    }
    out
}

} // verus!
