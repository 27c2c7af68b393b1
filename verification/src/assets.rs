//! Where a plugin's declared assets come from, and how the candidates are
//! grouped for copying into the build output.

use vstd::prelude::*;
use crate::paths::{components, join, join_exec, path_eq, path_eq_exec, path_starts_with, path_starts_with_exec, components_exec};
use crate::error::RheoError;
use crate::text::{join as join_text, join_exec as join_text_exec, owned, push_str, str_eq};

verus! {

/// Resolves plugin assets and copies source files into the build output
/// directory.
pub struct AssetResolver {
    pub project_root: String,
    pub plugin_output_dir: String,
}

impl AssetResolver {
    /// A resolver for the given project root and plugin output directory.
    pub fn new(project_root: &str, plugin_output_dir: &str) -> (r: Self)
        ensures
            r.project_root@ == project_root@,
            r.plugin_output_dir@ == plugin_output_dir@,
    {
        AssetResolver { project_root: owned(project_root), plugin_output_dir: owned(plugin_output_dir) }
    }
}

/// Where an asset override candidate came from.
#[derive(Debug)]
pub enum AssetSource {
    /// A project-authored `[[plugin.assets]]` override.
    User,
    /// Contributed by a package block, resolved against the package's own
    /// directory.
    Package { source_root: String, module: bool },
    /// The project-root filename convention, used only when the project
    /// declared no override of its own.
    ProjectDefault,
}

/// The directory a candidate is resolved against: a package's own root, or
/// the project root.
pub open spec fn source_root_of(s: AssetSource, project_root: Seq<char>) -> Seq<char> {
    match s {
        AssetSource::Package { source_root, .. } => source_root@,
        _ => project_root,
    }
}

impl AssetSource {
    /// The directory this candidate is resolved against. A package entry goes
    /// to its own directory, so it can never collide with — or stand in for
    /// — a project source.
    pub fn root<'c>(&'c self, project_root: &'c str) -> (r: &'c str)
        ensures
            r@ == source_root_of(*self, project_root@),
    {
        match self {
            AssetSource::Package { source_root, .. } => source_root.as_str(),
            _ => project_root,
        }
    }

    /// Whether the candidate's scripts are ES modules: only a package block
    /// that says so.
    pub fn module(&self) -> (b: bool)
        ensures
            b == (*self matches AssetSource::Package { module: true, .. }),
    {
        match self {
            AssetSource::Package { module, .. } => *module,
            _ => false,
        }
    }

    /// A package-declared file that's missing stays silent; only a
    /// project-owned entry (user override or the root convention) warns.
    pub fn warns_on_missing(&self) -> (b: bool)
        ensures
            b == !(*self is Package),
    {
        match self {
            AssetSource::Package { .. } => false,
            _ => true,
        }
    }
}

/// One candidate source for a declared asset.
#[derive(Debug)]
pub struct AssetEntry {
    pub dest: Option<String>,
    pub path: String,
    pub source: AssetSource,
}

/// One package block's contribution for an asset: its `dest`, the paths it
/// names, its root and whether its scripts are modules.
pub struct PackageContribution {
    pub dest: Option<String>,
    pub paths: Vec<String>,
    pub source_root: String,
    pub module: bool,
}

/// The text of an optional string.
pub open spec fn opt_text(o: Option<String>) -> Option<Seq<char>> {
    match o {
        Some(s) => Some(s@),
        None => None,
    }
}

/// Entries sharing an output directory and resolution root, copied together.
#[derive(Debug)]
pub struct AssetGroup {
    pub dest: Option<String>,
    pub root: String,
    pub entries: Vec<AssetEntry>,
}

/// Two grouping keys are the same: the same `dest`, and roots that are the
/// same path.
pub open spec fn same_key(d1: Option<Seq<char>>, r1: Seq<char>, d2: Option<Seq<char>>, r2: Seq<char>) -> bool {
    d1 == d2 && path_eq(r1, r2)
}

/// A group as `(dest, root, entries)`.
pub type GroupView = (Option<Seq<char>>, Seq<char>, Seq<AssetEntry>);

/// The first group with the key `(dest, root)`, if any.
pub open spec fn find_group(groups: Seq<GroupView>, dest: Option<Seq<char>>, root: Seq<char>) -> Option<int>
    decreases groups.len(),
{
    if groups.len() == 0 {
        None
    } else {
        match find_group(groups.drop_last(), dest, root) {
            Some(i) => Some(i),
            None => if same_key(groups.last().0, groups.last().1, dest, root) {
                Some(groups.len() - 1)
            } else {
                None
            },
        }
    }
}

/// Entries grouped by `(dest, resolution root)`, groups in first-seen order,
/// each group's entries in their original order.
pub open spec fn group_spec(entries: Seq<AssetEntry>, project_root: Seq<char>) -> Seq<GroupView>
    decreases entries.len(),
{
    if entries.len() == 0 {
        Seq::empty()
    } else {
        let groups = group_spec(entries.drop_last(), project_root);
        let e = entries.last();
        let dest = opt_text(e.dest);
        let root = source_root_of(e.source, project_root);
        match find_group(groups, dest, root) {
            Some(i) => groups.update(i, (groups[i].0, groups[i].1, groups[i].2.push(e))),
            None => groups.push((dest, root, seq![e])),
        }
    }
}

/// The groups as `(dest, root, entries)`.
pub open spec fn groups_view(groups: Seq<AssetGroup>) -> Seq<GroupView> {
    groups.map_values(|g: AssetGroup| (opt_text(g.dest), g.root@, g.entries@))
}

/// Every candidate for one declared asset: the project's own overrides, then
/// each package's contribution, then — only when the project declared no
/// override of its own — the project-root convention at `default_path`.
pub open spec fn gather_spec(
    default_path: Seq<char>,
    user: Seq<(Option<Seq<char>>, Seq<char>)>,
    packages: Seq<(Option<Seq<char>>, Seq<Seq<char>>, Seq<char>, bool)>,
) -> Seq<(Option<Seq<char>>, Seq<char>, int, Seq<char>, bool)>
    decreases packages.len(),
{
    if packages.len() == 0 {
        let users = Seq::new(
            user.len(),
            |i: int| (user[i].0, user[i].1, 0int, Seq::<char>::empty(), false),
        );
        if user.len() == 0 {
            users.push((None, default_path, 2int, Seq::<char>::empty(), false))
        } else {
            users
        }
    } else {
        let before = gather_spec(default_path, user, packages.drop_last());
        let p = packages.last();
        let added = Seq::new(p.1.len(), |i: int| (p.0, p.1[i], 1int, p.2, p.3));
        if user.len() == 0 {
            before.drop_last() + added + seq![before.last()]
        } else {
            before + added
        }
    }
}

/// An entry as `(dest, path, kind, package root, module)`, kind 0 for a
/// user override, 1 for a package, 2 for the project convention.
pub open spec fn entry_view(e: AssetEntry) -> (Option<Seq<char>>, Seq<char>, int, Seq<char>, bool) {
    match e.source {
        AssetSource::User => (opt_text(e.dest), e.path@, 0, Seq::empty(), false),
        AssetSource::Package { source_root, module } => (opt_text(e.dest), e.path@, 1, source_root@, module),
        AssetSource::ProjectDefault => (opt_text(e.dest), e.path@, 2, Seq::empty(), false),
    }
}

/// Gather every candidate source for an asset. `user` holds the project's
/// override blocks as `(dest, path)`; a package's contribution is additive
/// and never counts as a project override.
pub fn gather_entries(
    default_path: &str,
    user: Vec<(Option<String>, String)>,
    packages: Vec<PackageContribution>,
) -> (r: Vec<AssetEntry>)
    ensures
        r@.map_values(|e: AssetEntry| entry_view(e)) == gather_spec(
            default_path@,
            user@.map_values(|u: (Option<String>, String)| (opt_text(u.0), u.1@)),
            packages@.map_values(
                |p: PackageContribution| (opt_text(p.dest), p.paths@.map_values(|s: String| s@), p.source_root@, p.module),
            ),
        ),
{
    let ghost uv = user@.map_values(|u: (Option<String>, String)| (opt_text(u.0), u.1@));
    let ghost pv = packages@.map_values(
        |p: PackageContribution| (opt_text(p.dest), p.paths@.map_values(|s: String| s@), p.source_root@, p.module),
    );
    let had_user = user.len() > 0;
    let mut out: Vec<AssetEntry> = Vec::new();
    let mut rest_user = user;
    let user_total = rest_user.len();
    let mut i: usize = 0;
    while rest_user.len() > 0
        invariant
            i + rest_user@.len() == uv.len(),
            uv.len() == user_total,
            rest_user@.map_values(|u: (Option<String>, String)| (opt_text(u.0), u.1@)) == uv.skip(i as int),
            out@.len() == i,
            forall|k: int|
                0 <= k < i ==> entry_view(#[trigger] out@[k]) == (uv[k].0, uv[k].1, 0int, Seq::<char>::empty(), false),
        decreases rest_user@.len(),
    {
        proof {
            assert(rest_user@.map_values(|u: (Option<String>, String)| (opt_text(u.0), u.1@))[0] == uv[i as int]);
            assert(rest_user@.remove(0) =~= rest_user@.skip(1));
            assert(rest_user@.skip(1).map_values(|u: (Option<String>, String)| (opt_text(u.0), u.1@))
                =~= rest_user@.map_values(|u: (Option<String>, String)| (opt_text(u.0), u.1@)).skip(1));
            assert(uv.skip(i as int).skip(1) =~= uv.skip(i + 1));
        }
        let (dest, path) = rest_user.remove(0);
        out.push(AssetEntry { dest, path, source: AssetSource::User });
        i += 1;
    }
    let ghost users = Seq::new(uv.len(), |k: int| (uv[k].0, uv[k].1, 0int, Seq::<char>::empty(), false));
    proof {
        assert(out@.map_values(|e: AssetEntry| entry_view(e)) =~= users);
    }
    let mut rest_pkg = packages;
    let pkg_total = rest_pkg.len();
    let mut j: usize = 0;
    while rest_pkg.len() > 0
        invariant
            j + rest_pkg@.len() == pv.len(),
            pv.len() == pkg_total,
            rest_pkg@.map_values(
                |p: PackageContribution| (opt_text(p.dest), p.paths@.map_values(|s: String| s@), p.source_root@, p.module),
            ) == pv.skip(j as int),
            uv.len() == user_total,
            had_user == (user_total > 0),
            users == Seq::new(uv.len(), |k: int| (uv[k].0, uv[k].1, 0int, Seq::<char>::empty(), false)),
            out@.map_values(|e: AssetEntry| entry_view(e)) + (if had_user {
                Seq::empty()
            } else {
                seq![(None::<Seq<char>>, default_path@, 2int, Seq::<char>::empty(), false)]
            }) == gather_spec(default_path@, uv, pv.take(j as int)),
        decreases rest_pkg@.len(),
    {
        let ghost first = rest_pkg@[0];
        proof {
            assert(pv.take(j + 1).drop_last() =~= pv.take(j as int));
            assert(rest_pkg@.map_values(
                |p: PackageContribution| (opt_text(p.dest), p.paths@.map_values(|s: String| s@), p.source_root@, p.module),
            )[0] == pv[j as int]);
            assert(rest_pkg@.remove(0) =~= rest_pkg@.skip(1));
            assert(rest_pkg@.skip(1).map_values(
                |p: PackageContribution| (opt_text(p.dest), p.paths@.map_values(|s: String| s@), p.source_root@, p.module),
            ) =~= rest_pkg@.map_values(
                |p: PackageContribution| (opt_text(p.dest), p.paths@.map_values(|s: String| s@), p.source_root@, p.module),
            ).skip(1));
            assert(pv.skip(j as int).skip(1) =~= pv.skip(j + 1));
        }
        let p = rest_pkg.remove(0);
        let ghost pk = pv[j as int];
        proof {
            assert(p == first);
            assert(pv.take(j + 1).last() == pk);
            assert(pk == (opt_text(p.dest), p.paths@.map_values(|s: String| s@), p.source_root@, p.module));
        }
        let ghost o0 = out@.map_values(|e: AssetEntry| entry_view(e));
        let mut k: usize = 0;
        while k < p.paths.len()
            invariant
                k <= p.paths@.len(),
                out@.map_values(|e: AssetEntry| entry_view(e)) == o0 + Seq::new(
                    k as nat,
                    |m: int| (opt_text(p.dest), p.paths@[m]@, 1int, p.source_root@, p.module),
                ),
            decreases p.paths@.len() - k,
        {
            let dest = match &p.dest {
                Some(d) => Some(d.clone()),
                None => None,
            };
            let ghost before = out@;
            out.push(
                AssetEntry {
                    dest,
                    path: p.paths[k].clone(),
                    source: AssetSource::Package { source_root: p.source_root.clone(), module: p.module },
                },
            );
            proof {
                assert(out@.map_values(|e: AssetEntry| entry_view(e)) =~= before.map_values(
                    |e: AssetEntry| entry_view(e),
                ).push((opt_text(p.dest), p.paths@[k as int]@, 1int, p.source_root@, p.module)));
                assert(Seq::new(
                    (k + 1) as nat,
                    |m: int| (opt_text(p.dest), p.paths@[m]@, 1int, p.source_root@, p.module),
                ) =~= Seq::new(
                    k as nat,
                    |m: int| (opt_text(p.dest), p.paths@[m]@, 1int, p.source_root@, p.module),
                ).push((opt_text(p.dest), p.paths@[k as int]@, 1int, p.source_root@, p.module)));
            }
            k += 1;
        }
        proof {
            let added = Seq::new(pk.1.len(), |m: int| (pk.0, pk.1[m], 1int, pk.2, pk.3));
            assert(added =~= Seq::new(
                k as nat,
                |m: int| (opt_text(p.dest), p.paths@[m]@, 1int, p.source_root@, p.module),
            ));
            let before = gather_spec(default_path@, uv, pv.take(j as int));
            if had_user {
                assert(o0 + Seq::<(Option<Seq<char>>, Seq<char>, int, Seq<char>, bool)>::empty() =~= o0);
                assert(out@.map_values(|e: AssetEntry| entry_view(e)) + Seq::empty() =~= before + added);
            } else {
                let tail = seq![(None::<Seq<char>>, default_path@, 2int, Seq::<char>::empty(), false)];
                assert(before == o0 + tail);
                assert(before.drop_last() =~= o0);
                assert(before.last() == tail[0]);
                assert(out@.map_values(|e: AssetEntry| entry_view(e)) + tail =~= before.drop_last() + added
                    + seq![before.last()]);
            }
        }
        j += 1;
    }
    proof {
        assert(pv.take(j as int) =~= pv);
        assert(pv.take(0) =~= Seq::<(Option<Seq<char>>, Seq<Seq<char>>, Seq<char>, bool)>::empty());
    }
    if !had_user {
        let ghost before = out@;
        out.push(AssetEntry { dest: None, path: owned(default_path), source: AssetSource::ProjectDefault });
        proof {
            assert(out@.map_values(|e: AssetEntry| entry_view(e)) =~= before.map_values(
                |e: AssetEntry| entry_view(e),
            ) + seq![(None::<Seq<char>>, default_path@, 2int, Seq::<char>::empty(), false)]);
        }
    } else {
        proof {
            assert(out@.map_values(|e: AssetEntry| entry_view(e)) + Seq::empty() =~= out@.map_values(
                |e: AssetEntry| entry_view(e),
            ));
        }
    }
    out
}

/// Group entries by `(dest, resolution root)`, groups in first-seen order,
/// each group's entries in their original order.
pub fn group_entries(entries: Vec<AssetEntry>, project_root: &str) -> (r: Vec<AssetGroup>)
    ensures
        groups_view(r@) == group_spec(entries@, project_root@),
{
    let ghost all = entries@;
    let mut groups: Vec<AssetGroup> = Vec::new();
    let mut rest = entries;
    let total = rest.len();
    let mut i: usize = 0;
    proof {
        assert(groups_view(groups@) =~= Seq::<GroupView>::empty());
        assert(all.take(0) =~= Seq::<AssetEntry>::empty());
    }
    while rest.len() > 0
        invariant
            i + rest@.len() == all.len(),
            all.len() == total,
            rest@ == all.skip(i as int),
            groups_view(groups@) == group_spec(all.take(i as int), project_root@),
        decreases rest@.len(),
    {
        proof {
            assert(all.take(i + 1).drop_last() =~= all.take(i as int));
            assert(rest@.remove(0) =~= all.skip(i + 1));
        }
        let entry = rest.remove(0);
        proof {
            assert(all.take(i + 1).last() == entry);
        }
        let root = owned(entry.source.root(project_root));
        let ghost gv = groups_view(groups@);
        let mut g: usize = 0;
        let mut found: Option<usize> = None;
        proof {
            assert(gv.take(groups@.len() as int) =~= gv);
        }
        while g < groups.len()
            invariant_except_break
                found is None,
                find_group(gv.take(g as int), opt_text(entry.dest), root@) is None,
            invariant
                g <= groups@.len(),
                gv == groups_view(groups@),
                gv.take(groups@.len() as int) == gv,
            ensures
                found matches Some(idx) ==> idx < groups@.len() && find_group(
                    gv,
                    opt_text(entry.dest),
                    root@,
                ) == Some(idx as int),
                found is None ==> find_group(gv, opt_text(entry.dest), root@) is None,
            decreases groups@.len() - g,
        {
            proof {
                assert(gv.take(g + 1).drop_last() =~= gv.take(g as int));
                assert(gv.take(g + 1).last() == gv[g as int]);
            }
            let same_dest = match (&groups[g].dest, &entry.dest) {
                (Some(a), Some(b)) => str_eq(a.as_str(), b.as_str()),
                (None, None) => true,
                _ => false,
            };
            if same_dest && path_eq_exec(groups[g].root.as_str(), root.as_str()) {
                proof {
                    assert(find_group(gv.take(g + 1), opt_text(entry.dest), root@) == Some(g as int));
                    lemma_find_group_prefix(gv, opt_text(entry.dest), root@, g as int + 1);
                }
                found = Some(g);
                break;
            }
            g += 1;
        }
        match found {
            Some(idx) => {
                let mut group = groups.remove(idx);
                group.entries.push(entry);
                groups.insert(idx, group);
                proof {
                    assert(groups_view(groups@) =~= gv.update(
                        idx as int,
                        (gv[idx as int].0, gv[idx as int].1, gv[idx as int].2.push(entry)),
                    ));
                }
            },
            None => {
                let dest = match &entry.dest {
                    Some(d) => Some(d.clone()),
                    None => None,
                };
                let ghost ev = entry;
                let group = AssetGroup { dest, root, entries: vec![entry] };
                proof {
                    assert(group.entries@ =~= seq![ev]);
                    assert(opt_text(group.dest) == opt_text(ev.dest));
                }
                groups.push(group);
                proof {
                    assert(groups_view(groups@) =~= gv.push((opt_text(ev.dest), root@, seq![ev])));
                }
            },
        }
        i += 1;
    }
    proof {
        assert(all.take(i as int) =~= all);
    }
    groups
}

/// Once a prefix holds the key, the whole list's first match is the
/// prefix's.
proof fn lemma_find_group_prefix(groups: Seq<GroupView>, dest: Option<Seq<char>>, root: Seq<char>, n: int)
    requires
        0 <= n <= groups.len(),
        find_group(groups.take(n), dest, root) is Some,
    ensures
        find_group(groups, dest, root) == find_group(groups.take(n), dest, root),
    decreases groups.len() - n,
{
    if n < groups.len() {
        assert(groups.take(n + 1).drop_last() =~= groups.take(n));
        lemma_find_group_prefix(groups, dest, root, n + 1);
    } else {
        assert(groups.take(n) =~= groups);
    }
}

// ─── Copy destinations ──────────────────────────────────────────────────────

/// `p` relative to `base`, as `Path::strip_prefix` gives it (its remaining
/// components, joined by `/`), or `None` when `base` does not begin `p`.
pub open spec fn strip_prefix_spec(p: Seq<char>, base: Seq<char>) -> Option<Seq<char>> {
    if path_starts_with(p, base) {
        Some(join_text(components(p).skip(components(base).len() as int), "/"@))
    } else {
        None
    }
}

/// Where a file matched by a copy glob goes: its path relative to the source
/// root (the path itself when it is not under it), under the plugin output
/// directory and the optional `dest` prefix.
pub open spec fn copy_dest_spec(
    path: Seq<char>,
    source_root: Seq<char>,
    plugin_output_dir: Seq<char>,
    dest_prefix: Option<Seq<char>>,
) -> Seq<char> {
    let rel = match strip_prefix_spec(path, source_root) {
        Some(r) => r,
        None => path,
    };
    match dest_prefix {
        Some(d) => join(join(plugin_output_dir, d), rel),
        None => join(plugin_output_dir, rel),
    }
}

/// `p` relative to `base`, or `None` when `base` does not begin `p`.
pub fn strip_prefix(p: &str, base: &str) -> (r: Option<String>)
    ensures
        r matches Some(s) ==> strip_prefix_spec(p@, base@) == Some(s@),
        r is None <==> strip_prefix_spec(p@, base@) is None,
{
    if !path_starts_with_exec(p, base) {
        return None;
    }
    let cp = components_exec(p);
    let cb = components_exec(base);
    let mut rest: Vec<String> = Vec::new();
    let mut i: usize = cb.len();
    let ghost vp = cp@.map_values(|s: String| s@);
    proof {
        assert(cb@.map_values(|s: String| s@).len() == cb@.len());
        assert(vp.len() == cp@.len());
    }
    while i < cp.len()
        invariant
            cb@.len() <= i <= cp@.len(),
            vp == cp@.map_values(|s: String| s@),
            vp == components(p@),
            cb@.len() == components(base@).len(),
            rest@.map_values(|s: String| s@) == vp.subrange(cb@.len() as int, i as int),
        decreases cp@.len() - i,
    {
        let ghost before = rest@;
        rest.push(cp[i].clone());
        proof {
            assert(rest@.map_values(|s: String| s@) =~= before.map_values(|s: String| s@).push(vp[i as int]));
            assert(vp.subrange(cb@.len() as int, i + 1) =~= vp.subrange(cb@.len() as int, i as int).push(
                vp[i as int],
            ));
        }
        i += 1;
    }
    proof {
        assert(vp.subrange(cb@.len() as int, i as int) =~= components(p@).skip(components(base@).len() as int));
    }
    Some(join_text_exec(&rest, "/"))
}

/// Where a file matched by a copy glob is copied to.
pub fn copy_destination(
    path: &str,
    source_root: &str,
    plugin_output_dir: &str,
    dest_prefix: Option<&str>,
) -> (d: String)
    ensures
        d@ == copy_dest_spec(
            path@,
            source_root@,
            plugin_output_dir@,
            match dest_prefix {
                Some(x) => Some(x@),
                None => None,
            },
        ),
{
    let rel = match strip_prefix(path, source_root) {
        Some(r) => r,
        None => owned(path),
    };
    match dest_prefix {
        Some(dp) => {
            let base = join_exec(plugin_output_dir, dp);
            join_exec(base.as_str(), rel.as_str())
        },
        None => join_exec(plugin_output_dir, rel.as_str()),
    }
}


// ─── Outputs already written ────────────────────────────────────────────────

/// The `(output, source)` pairs as text.
pub open spec fn seen_view(v: Seq<(String, String)>) -> Seq<(Seq<char>, Seq<char>)> {
    v.map_values(|e: (String, String)| (e.0@, e.1@))
}

/// The source that already wrote the build-relative output `rel`, if any.
pub open spec fn seen_source(v: Seq<(Seq<char>, Seq<char>)>, rel: Seq<char>) -> Option<Seq<char>>
    decreases v.len(),
{
    if v.len() == 0 {
        None
    } else {
        match seen_source(v.drop_last(), rel) {
            Some(s) => Some(s),
            None => if v.last().0 == rel {
                Some(v.last().1)
            } else {
                None
            },
        }
    }
}

/// The error for an output two sources would write.
pub open spec fn collision_message(rel: Seq<char>, prev: Seq<char>, source: Seq<char>) -> Seq<char> {
    "asset path collision: output '"@ + rel + "' would be written by both '"@ + prev + "' and '"@ + source
        + "'"@
}

/// The error for an embedded default whose output a copied source already
/// wrote.
pub open spec fn embedded_collision_message(rel: Seq<char>, prev: Seq<char>, asset: Seq<char>) -> Seq<char> {
    "asset path collision: output '"@ + rel + "' would be written by both '"@ + prev
        + "' and the embedded default for '"@ + asset + "'"@
}

/// The source recorded for `rel` in `seen`.
fn seen_source_exec(seen: &Vec<(String, String)>, rel: &str) -> (r: Option<String>)
    ensures
        match seen_source(seen_view(seen@), rel@) {
            Some(s) => r matches Some(x) && x@ == s,
            None => r is None,
        },
{
    let ghost v = seen_view(seen@);
    let mut i: usize = 0;
    while i < seen.len()
        invariant
            i <= seen@.len(),
            v == seen_view(seen@),
            seen_source(v.take(i as int), rel@) is None,
        decreases seen@.len() - i,
    {
        proof {
            assert(v.take(i + 1).drop_last() =~= v.take(i as int));
            assert(v.take(i + 1).last() == v[i as int]);
        }
        if str_eq(seen[i].0.as_str(), rel) {
            proof {
                lemma_seen_prefix(v, rel@, i + 1);
            }
            return Some(owned(seen[i].1.as_str()));
        }
        i += 1;
    }
    proof {
        assert(v.take(i as int) =~= v);
    }
    None
}

proof fn lemma_seen_prefix(v: Seq<(Seq<char>, Seq<char>)>, rel: Seq<char>, n: int)
    requires
        0 <= n <= v.len(),
        seen_source(v.take(n), rel) is Some,
    ensures
        seen_source(v, rel) == seen_source(v.take(n), rel),
    decreases v.len() - n,
{
    if n < v.len() {
        assert(v.take(n + 1).drop_last() =~= v.take(n));
        lemma_seen_prefix(v, rel, n + 1);
    } else {
        assert(v.take(n) =~= v);
    }
}

/// Record that `source` is copied to the build-relative output `rel`; an
/// output some earlier source already wrote is an error naming both, and
/// records nothing.
pub fn register_output(seen: &mut Vec<(String, String)>, rel: &str, source: &str) -> (r: Result<(), RheoError>)
    ensures
        match seen_source(seen_view(old(seen)@), rel@) {
            Some(prev) => (r matches Err(RheoError::ProjectConfig { message })
                && message@ == collision_message(rel@, prev, source@))
                && seen_view(final(seen)@) == seen_view(old(seen)@),
            None => r is Ok && seen_view(final(seen)@) == seen_view(old(seen)@).push((rel@, source@)),
        },
{
    match seen_source_exec(seen, rel) {
        Some(prev) => {
            let mut message = owned("asset path collision: output '");
            push_str(&mut message, rel);
            push_str(&mut message, "' would be written by both '");
            push_str(&mut message, prev.as_str());
            push_str(&mut message, "' and '");
            push_str(&mut message, source);
            push_str(&mut message, "'");
            Err(RheoError::ProjectConfig { message })
        },
        None => {
            let ghost before = seen@;
            seen.push((owned(rel), owned(source)));
            proof {
                assert(seen_view(seen@) =~= seen_view(before).push((rel@, source@)));
            }
            Ok(())
        },
    }
}

/// Record that the embedded default for `asset` is written to `rel` (its
/// source is the written file `dest`); an output a copied source already
/// wrote is an error, and records nothing.
pub fn register_embedded(seen: &mut Vec<(String, String)>, rel: &str, asset: &str, dest: &str) -> (r: Result<(), RheoError>)
    ensures
        match seen_source(seen_view(old(seen)@), rel@) {
            Some(prev) => (r matches Err(RheoError::ProjectConfig { message })
                && message@ == embedded_collision_message(rel@, prev, asset@))
                && seen_view(final(seen)@) == seen_view(old(seen)@),
            None => r is Ok && seen_view(final(seen)@) == seen_view(old(seen)@).push((rel@, dest@)),
        },
{
    match seen_source_exec(seen, rel) {
        Some(prev) => {
            let mut message = owned("asset path collision: output '");
            push_str(&mut message, rel);
            push_str(&mut message, "' would be written by both '");
            push_str(&mut message, prev.as_str());
            push_str(&mut message, "' and the embedded default for '");
            push_str(&mut message, asset);
            push_str(&mut message, "'");
            Err(RheoError::ProjectConfig { message })
        },
        None => {
            let ghost before = seen@;
            seen.push((owned(rel), owned(dest)));
            proof {
                assert(seen_view(seen@) =~= seen_view(before).push((rel@, dest@)));
            }
            Ok(())
        },
    }
}

/// The error for a required asset with no source at all.
pub open spec fn missing_asset_message(plugin: Seq<char>, asset: Seq<char>, tried: Seq<Seq<char>>) -> Seq<char> {
    "plugin '"@ + plugin + "' requires input '"@ + asset + "' but no source was found (tried: "@ + join_text(
        tried,
        ", "@,
    ) + ")"@
}

/// What one declared asset resolves to once its groups are copied: the
/// copied assets when any; otherwise an error for a required asset, naming
/// every path tried; otherwise nothing copied (the embedded default, if any,
/// comes next).
pub fn asset_outcome(copied: usize, required: bool, plugin: &str, asset: &str, tried: &Vec<String>) -> (r: Result<bool, RheoError>)
    ensures
        copied > 0 ==> r == Ok::<bool, RheoError>(true),
        copied == 0 && !required ==> r == Ok::<bool, RheoError>(false),
        copied == 0 && required ==> (r matches Err(RheoError::ProjectConfig { message })
            && message@ == missing_asset_message(plugin@, asset@, tried@.map_values(|t: String| t@))),
{
    if copied > 0 {
        return Ok(true);
    }
    if !required {
        return Ok(false);
    }
    let mut message = owned("plugin '");
    push_str(&mut message, plugin);
    push_str(&mut message, "' requires input '");
    push_str(&mut message, asset);
    push_str(&mut message, "' but no source was found (tried: ");
    let joined = join_text_exec(tried, ", ");
    push_str(&mut message, joined.as_str());
    push_str(&mut message, ")");
    Err(RheoError::ProjectConfig { message })
}

} // verus!
