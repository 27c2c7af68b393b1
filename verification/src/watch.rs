//! What the project watcher decides: which changed paths matter, and when a
//! batch of changes becomes one rebuild.
//!
//! The watcher itself — the file-system notifications, the clock, the
//! callback — belongs to the caller. It hands each relevant change and each
//! poll to a [`Debounce`], which answers with the event to act on, if any.
//!
//! Changes are debounced on TWO deadlines: a rebuild fires once the file
//! system has been quiet for [`DEBOUNCE_QUIET_MS`], or once
//! [`DEBOUNCE_MAX_MS`] has passed since the first change of the batch,
//! whichever comes first. The quiet window coalesces the several events one
//! editor save produces; the ceiling keeps a steady stream of writes from
//! postponing the rebuild forever.

use vstd::prelude::*;
use crate::paths::{components, is_absolute, join, join_exec, 
    canonicalize_os, extension, file_name, file_name_of, path_eq, path_eq_exec,
    path_starts_with, path_starts_with_exec, PathExt,
};
use crate::error::RheoError;
use crate::text::str_eq;
use crate::globs::WatchAssetSpec;

verus! {

/// How long, in milliseconds, the file system must stay quiet before a
/// batch of changes rebuilds.
pub const DEBOUNCE_QUIET_MS: u64 = 150;

/// The most, in milliseconds, a batch of changes may postpone its own
/// rebuild, measured from its first change.
pub const DEBOUNCE_MAX_MS: u64 = 750;

/// How often, in milliseconds, the watch loop wakes to re-check its two
/// deadlines. Well under the quiet window, or that window is really this
/// interval rounded up.
pub const DEBOUNCE_POLL_MS: u64 = 50;

/// What a batch of changes asks the caller to do.
#[derive(Debug, Clone, Copy, PartialEq, Eq, Structural)]
pub enum WatchEvent {
    /// Source files or assets changed: recompile.
    FilesChanged,
    /// The config file changed: reload the project, which recompiles it too.
    ConfigChanged,
}

/// The debounce state: whether the pending batch touched the config, when
/// the latest change came, and when the batch's first change came (`None`
/// when nothing is pending). Times are milliseconds on the caller's clock.
pub struct Debounce {
    pub config_changed: bool,
    pub last_event: u64,
    pub first_event: Option<u64>,
}

/// The state after a relevant change at `now`.
pub open spec fn record_spec(d: Debounce, now: u64, config: bool) -> Debounce {
    Debounce {
        config_changed: d.config_changed || config,
        last_event: now,
        first_event: match d.first_event {
            Some(f) => Some(f),
            None => Some(now),
        },
    }
}

/// `now - then`, or 0 when the clock reads earlier.
pub open spec fn elapsed(now: u64, then: u64) -> int {
    if now >= then { now - then } else { 0 }
}

/// Whether a poll at `now` fires the pending batch.
pub open spec fn due(d: Debounce, now: u64) -> bool {
    d.first_event matches Some(f) && (elapsed(now, d.last_event) >= DEBOUNCE_QUIET_MS
        || elapsed(now, f) >= DEBOUNCE_MAX_MS)
}

/// The event a due batch fires: a config change subsumes a file change.
pub open spec fn batch_event(d: Debounce) -> WatchEvent {
    if d.config_changed {
        WatchEvent::ConfigChanged
    } else {
        WatchEvent::FilesChanged
    }
}

impl Debounce {
    /// Nothing pending, with the clock at `now`.
    pub fn new(now: u64) -> (d: Self)
        ensures
            d.first_event is None,
            !d.config_changed,
            d.last_event == now,
    {
        Debounce { config_changed: false, last_event: now, first_event: None }
    }

    /// Whether a batch of changes is waiting to fire.
    pub fn pending(&self) -> (b: bool)
        ensures
            b == self.first_event is Some,
    {
        self.first_event.is_some()
    }

    /// Notes a relevant change at `now`; `config` says whether it touched the
    /// config file.
    pub fn record(&mut self, now: u64, config: bool)
        ensures
            *final(self) == record_spec(*old(self), now, config),
    {
        self.last_event = now;
        if self.first_event.is_none() {
            self.first_event = Some(now);
        }
        if config {
            self.config_changed = true;
        }
    }

    /// Checks the two deadlines at `now`. When the pending batch is due it
    /// fires as one event and the state resets; otherwise nothing changes.
    pub fn poll(&mut self, now: u64) -> (e: Option<WatchEvent>)
        ensures
            due(*old(self), now) ==> e == Some(batch_event(*old(self))) && final(self).first_event is None
                && !final(self).config_changed && final(self).last_event == old(self).last_event,
            !due(*old(self), now) ==> e is None && *final(self) == *old(self),
    {
        match self.first_event {
            Some(first) => {
                let quiet = if now >= self.last_event { now - self.last_event } else { 0 };
                let since_first = if now >= first { now - first } else { 0 };
                if quiet >= DEBOUNCE_QUIET_MS || since_first >= DEBOUNCE_MAX_MS {
                    let event = if self.config_changed {
                        WatchEvent::ConfigChanged
                    } else {
                        WatchEvent::FilesChanged
                    };
                    self.config_changed = false;
                    self.first_event = None;
                    Some(event)
                } else {
                    None
                }
            },
            None => None,
        }
    }
}

/// A pending batch fires no later than [`DEBOUNCE_MAX_MS`] after its first
/// change, however steadily changes keep arriving.
pub proof fn lemma_fires_by_ceiling(d: Debounce, now: u64)
    requires
        d.first_event matches Some(f) && now >= f + DEBOUNCE_MAX_MS,
    ensures
        due(d, now),
{
}

/// Once the file system has been quiet for [`DEBOUNCE_QUIET_MS`] since the
/// latest change, the pending batch fires.
pub proof fn lemma_fires_when_quiet(d: Debounce, now: u64)
    requires
        d.first_event is Some,
        now >= d.last_event + DEBOUNCE_QUIET_MS,
    ensures
        due(d, now),
{
}

/// Nothing fires while nothing is pending: a poll with no change recorded
/// since the last firing answers nothing.
pub proof fn lemma_quiet_without_changes(d: Debounce, now: u64)
    requires
        d.first_event is None,
    ensures
        !due(d, now),
{
}

/// One batch is one event: a batch that touched the config fires as a
/// config reload, whatever else changed alongside it, and a batch that did
/// not fires as a recompile.
pub proof fn lemma_config_subsumes(d: Debounce, t: u64, config: bool)
    ensures
        batch_event(record_spec(d, t, config)) == (if d.config_changed || config {
            WatchEvent::ConfigChanged
        } else {
            WatchEvent::FilesChanged
        }),
        record_spec(d, t, config).first_event is Some,
{
}

/// A change only starts a batch; it never moves the batch's start, so the
/// ceiling is measured from the first change.
pub proof fn lemma_first_change_kept(d: Debounce, t: u64, config: bool)
    requires
        d.first_event is Some,
    ensures
        record_spec(d, t, config).first_event == d.first_event,
{
}

// ─── Which paths matter ─────────────────────────────────────────────────────

/// Two paths name the same file: equal as written, or equal once both are
/// canonicalized (`ca`, `cb` are their canonical forms where that worked).
pub open spec fn same_file_spec(a: Seq<char>, b: Seq<char>, ca: Option<Seq<char>>, cb: Option<Seq<char>>) -> bool {
    path_eq(a, b) || (ca matches Some(x) && cb matches Some(y) && path_eq(x, y))
}

/// [`same_file_spec`] on strings, given each path's canonical form if it
/// has one.
pub fn same_file_given(a: &str, b: &str, ca: Option<String>, cb: Option<String>) -> (r: bool)
    ensures
        r == same_file_spec(
            a@,
            b@,
            match ca {
                Some(x) => Some(x@),
                None => None,
            },
            match cb {
                Some(y) => Some(y@),
                None => None,
            },
        ),
{
    if path_eq_exec(a, b) {
        return true;
    }
    match (ca, cb) {
        (Some(x), Some(y)) => path_eq_exec(x.as_str(), y.as_str()),
        _ => false,
    }
}

/// Whether `a` and `b` name the same file, tolerating non-canonical forms
/// (a relative `--config` argument against an absolute event path). What the
/// file system says of the canonical forms is not stated beyond their being
/// absolute: equal paths always answer `true`, and otherwise the answer is
/// whether the canonical forms, where both exist, are equal.
pub fn same_file(a: &str, b: &str) -> (r: bool)
    ensures
        path_eq(a@, b@) ==> r,
        exists|x: Option<Seq<char>>, y: Option<Seq<char>>| ({
            &&& (x matches Some(v) ==> is_absolute(v))
            &&& (y matches Some(v) ==> is_absolute(v))
            &&& r == same_file_spec(a@, b@, x, y)
        }),
{
    if path_eq_exec(a, b) {
        proof {
            assert(same_file_spec(a@, b@, None, None));
        }
        return true;
    }
    let ca = match canonicalize_os(a) {
        Ok(c) => Some(c),
        Err(_) => None,
    };
    let cb = match canonicalize_os(b) {
        Ok(c) => Some(c),
        Err(_) => None,
    };
    let ghost xv = crate::config::packages::opt_view(ca);
    let ghost yv = crate::config::packages::opt_view(cb);
    let r = same_file_given(a, b, ca, cb);
    proof {
        assert(xv matches Some(v) ==> is_absolute(v));
        assert(yv matches Some(v) ==> is_absolute(v));
        assert(r == same_file_spec(a@, b@, xv, yv));
    }
    r
}

/// `path`'s file name is `rheo.toml`.
pub open spec fn named_rheo_toml(path: Seq<char>) -> bool {
    file_name(path) == Some("rheo.toml"@)
}

/// Whether `path` is the project's configuration file: the config actually
/// loaded (so a custom-named or relocated `--config` is detected), or any
/// file named `rheo.toml` (so creating a config where none existed still
/// reloads). The loaded config is compared with [`same_file`].
pub fn is_config_path(path: &str, config_path: Option<&str>) -> (r: bool)
    ensures
        (config_path matches Some(c) && path_eq(path@, c@)) || named_rheo_toml(path@) ==> r,
        r ==> config_path is Some || named_rheo_toml(path@),
{
    if let Some(cfg) = config_path {
        if same_file(path, cfg) {
            return true;
        }
    }
    match file_name_of(path) {
        Some(n) => str_eq(n.as_str(), "rheo.toml"),
        None => false,
    }
}

/// The font file extensions a directory project rebuilds on.
pub open spec fn is_font_extension(e: Seq<char>) -> bool {
    e == "ttf"@ || e == "otf"@ || e == "woff"@ || e == "woff2"@
}

/// Whether a changed path should trigger a rebuild. Nothing under the build
/// directory does (the canonical form is compared when there is one, the
/// path as given otherwise), or every rebuild would trigger the next. The
/// config file and every declared asset or copy-glob match do. Beyond that, a
/// single-file project rebuilds only for its own file, and a directory
/// project for any `.typ` or font file.
pub open spec fn is_relevant_spec(
    path: Seq<char>,
    canonical: Option<Seq<char>>,
    build_dir: Seq<char>,
    is_config: bool,
    asset_match: bool,
    single_target: Option<Seq<char>>,
) -> bool {
    let under_build = match canonical {
        Some(c) => path_starts_with(c, build_dir),
        None => path_starts_with(path, build_dir),
    };
    if under_build {
        false
    } else if is_config || asset_match {
        true
    } else {
        match single_target {
            Some(t) => path_eq(path, t),
            None => match extension(path) {
                Some(e) => e == "typ"@ || is_font_extension(e),
                None => false,
            },
        }
    }
}

/// [`is_relevant_spec`], given the path's canonical form (if canonicalizing
/// it worked), whether it is the config file ([`is_config_path`]), whether it
/// is a declared asset or matches a copy glob, and the single file a
/// single-file project watches (`None` for a directory project).
pub fn is_relevant_given(
    path: &str,
    canonical: Option<String>,
    build_dir: &str,
    is_config: bool,
    asset_match: bool,
    single_target: Option<&str>,
) -> (r: bool)
    ensures
        r == is_relevant_spec(
            path@,
            match canonical {
                Some(c) => Some(c@),
                None => None,
            },
            build_dir@,
            is_config,
            asset_match,
            match single_target {
                Some(t) => Some(t@),
                None => None,
            },
        ),
{
    let under_build = match &canonical {
        Some(c) => path_starts_with_exec(c.as_str(), build_dir),
        None => path_starts_with_exec(path, build_dir),
    };
    if under_build {
        return false;
    }
    if is_config || asset_match {
        return true;
    }
    match single_target {
        Some(t) => path_eq_exec(path, t),
        None => match path.extension_str() {
            Ok(e) => {
                let s = e.as_str();
                str_eq(s, "typ") || str_eq(s, "ttf") || str_eq(s, "otf") || str_eq(s, "woff") || str_eq(
                    s,
                    "woff2",
                )
            },
            Err(_) => false,
        },
    }
}

/// An optional string's characters.
pub open spec fn str_opt(o: Option<&str>) -> Option<Seq<char>> {
    match o {
        Some(t) => Some(t@),
        None => None,
    }
}

/// Whether a changed path should trigger a rebuild ([`is_relevant_spec`]):
/// the path is canonicalized where the file system can, compared with the
/// loaded config ([`is_config_path`]) and tested against the watched assets.
/// What the file system answers is not stated; whatever it answers, nothing
/// under the build directory as given is relevant, and otherwise the config
/// named `rheo.toml`, a declared asset as given, a `.typ` file of a directory
/// project, or a single-file project's own file is.
pub fn is_relevant_path(
    path: &str,
    build_dir: &str,
    config_path: Option<&str>,
    spec: &WatchAssetSpec,
    single_target: Option<&str>,
) -> (r: bool)
    ensures
        exists|canonical: Option<Seq<char>>, is_config: bool|
            {
                &&& ((config_path matches Some(c) && path_eq(path@, c@)) || named_rheo_toml(path@)
                    ==> is_config)
                &&& (is_config ==> config_path is Some || named_rheo_toml(path@))
                &&& r == #[trigger] is_relevant_spec(
                    path@,
                    canonical,
                    build_dir@,
                    is_config,
                    spec.watched(path@, canonical),
                    str_opt(single_target),
                )
            },
{
    let canonical = match canonicalize_os(path) {
        Ok(c) => Some(c),
        Err(_) => None,
    };
    let is_config = is_config_path(path, config_path);
    let asset_match = match &canonical {
        Some(c) => spec.matches(path, Some(c.as_str())),
        None => spec.matches(path, None),
    };
    let ghost cv = match &canonical {
        Some(c) => Some(c@),
        None => None::<Seq<char>>,
    };
    let r = is_relevant_given(path, canonical, build_dir, is_config, asset_match, single_target);
    proof {
        assert(asset_match == spec.watched(path@, cv));
        assert(r == is_relevant_spec(
            path@,
            cv,
            build_dir@,
            is_config,
            spec.watched(path@, cv),
            str_opt(single_target),
        ));
    }
    r
}

// ─── What to watch ──────────────────────────────────────────────────────────

/// A directory to watch: its path, whether everything under it is watched
/// too, and whether failing to watch it fails the whole watch.
#[derive(Debug)]
pub struct WatchDir {
    pub path: String,
    pub recursive: bool,
    pub required: bool,
}

/// A directory to watch as plain values.
pub open spec fn watch_dir_view(w: WatchDir) -> (Seq<char>, bool, bool) {
    (w.path@, w.recursive, w.required)
}

/// A path written from its components: the first as it is, each later one
/// joined on.
pub open spec fn path_of(cs: Seq<Seq<char>>) -> Seq<char>
    decreases cs.len(),
{
    if cs.len() == 0 {
        Seq::empty()
    } else if cs.len() == 1 {
        cs[0]
    } else {
        join(path_of(cs.drop_last()), cs.last())
    }
}

/// The parent of `p`, as `Path::parent` finds it: `p` without its last
/// component, written with single separators; none for the root or a path
/// with no components.
pub open spec fn parent_spec(p: Seq<char>) -> Option<Seq<char>> {
    let cs = components(p);
    if cs.len() == 0 || cs.last() == seq!['/'] {
        None
    } else {
        Some(path_of(cs.drop_last()))
    }
}

/// What a project's watch covers, in order: the single file's directory
/// (not recursively) or the project root (recursively); each package root
/// (recursively, its failure not fatal); the config file's directory (not
/// recursively, its failure not fatal) when the first does not already hold
/// it. A single file without a parent directory is an error.
pub open spec fn watch_plan_spec(
    single_file: Option<Seq<char>>,
    root: Seq<char>,
    package_roots: Seq<Seq<char>>,
    config_path: Option<Seq<char>>,
) -> Option<Seq<(Seq<char>, bool, bool)>> {
    let primary = match single_file {
        Some(f) => match parent_spec(f) {
            Some(d) => Some((d, false, true)),
            None => None,
        },
        None => Some((root, true, true)),
    };
    match primary {
        None => None,
        Some(first) => {
            let roots = package_roots.map_values(|r: Seq<char>| (r, true, false));
            let config = match config_path {
                Some(c) => match parent_spec(c) {
                    Some(cp) => if path_starts_with(cp, first.0) {
                        Seq::empty()
                    } else {
                        seq![(cp, false, false)]
                    },
                    None => Seq::empty(),
                },
                None => Seq::empty(),
            };
            Some(seq![first] + roots + config)
        },
    }
}

/// The parent of `p`; see [`parent_spec`].
pub fn parent_of(p: &str) -> (r: Option<String>)
    ensures
        opt_str(r) == parent_spec(p@),
{
    let cs = crate::paths::components_exec(p);
    let ghost cv = cs@.map_values(|s: String| s@);
    let n = cs.len();
    if n == 0 || crate::text::str_eq(cs[n - 1].as_str(), "/") {
        proof {
            reveal_strlit("/");
            if n > 0 {
                assert(cv.last() == cs@[n - 1]@);
                assert("/"@ =~= seq!['/']);
            }
        }
        return None;
    }
    proof {
        reveal_strlit("/");
        assert(cv.last() == cs@[n - 1]@);
        assert("/"@ =~= seq!['/']);
    }
    let mut out = crate::text::owned("");
    let mut i: usize = 0;
    proof {
        reveal_strlit("");
        assert(cv.drop_last().take(0) =~= Seq::<Seq<char>>::empty());
    }
    while i + 1 < n
        invariant
            n == cs@.len(),
            n >= 1,
            i + 1 <= n,
            cv == cs@.map_values(|s: String| s@),
            out@ == path_of(cv.drop_last().take(i as int)),
        decreases n - i,
    {
        proof {
            let d = cv.drop_last();
            assert(d.take(i + 1).drop_last() =~= d.take(i as int));
            assert(d.take(i + 1).last() == cs@[i as int]@);
        }
        if i == 0 {
            out = crate::text::owned(cs[0].as_str());
            proof {
                assert(cv.drop_last().take(1) =~= seq![cs@[0]@]);
            }
        } else {
            out = join_exec(out.as_str(), cs[i].as_str());
        }
        i += 1;
    }
    proof {
        assert(cv.drop_last().take(i as int) =~= cv.drop_last());
    }
    Some(out)
}

/// The characters of an optional string.
pub open spec fn opt_str(o: Option<String>) -> Option<Seq<char>> {
    match o {
        Some(s) => Some(s@),
        None => None,
    }
}

/// What a project's watch covers; see [`watch_plan_spec`].
pub fn watch_plan(
    single_file: Option<&str>,
    root: &str,
    package_roots: &Vec<String>,
    config_path: Option<&str>,
) -> (r: Result<Vec<WatchDir>, RheoError>)
    ensures
        match watch_plan_spec(
            match single_file {
                Some(f) => Some(f@),
                None => None,
            },
            root@,
            crate::config::texts(package_roots@),
            match config_path {
                Some(c) => Some(c@),
                None => None,
            },
        ) {
            Some(plan) => r matches Ok(v) && v@.map_values(|w: WatchDir| watch_dir_view(w)) == plan,
            None => r matches Err(RheoError::ProjectConfig { message }) && message@
                == "file has no parent directory"@,
        },
{
    let first = match single_file {
        Some(f) => match parent_of(f) {
            Some(d) => WatchDir { path: d, recursive: false, required: true },
            None => {
                return Err(RheoError::ProjectConfig { message: crate::text::owned("file has no parent directory") });
            },
        },
        None => WatchDir { path: crate::text::owned(root), recursive: true, required: true },
    };
    let ghost fv = watch_dir_view(first);
    let mut out: Vec<WatchDir> = Vec::new();
    let primary = crate::text::owned(first.path.as_str());
    out.push(first);
    let ghost rv = crate::config::texts(package_roots@);
    let mut i: usize = 0;
    proof {
        assert(out@.map_values(|w: WatchDir| watch_dir_view(w)) =~= seq![fv] + rv.take(0).map_values(
            |r: Seq<char>| (r, true, false),
        ));
    }
    while i < package_roots.len()
        invariant
            i <= package_roots@.len(),
            rv == crate::config::texts(package_roots@),
            out@.map_values(|w: WatchDir| watch_dir_view(w)) == seq![fv] + rv.take(i as int).map_values(
                |r: Seq<char>| (r, true, false),
            ),
        decreases package_roots@.len() - i,
    {
        let ghost before = out@;
        out.push(WatchDir { path: crate::text::owned(package_roots[i].as_str()), recursive: true, required: false });
        proof {
            assert(rv.take(i + 1).map_values(|r: Seq<char>| (r, true, false)) =~= rv.take(i as int).map_values(
                |r: Seq<char>| (r, true, false),
            ).push((package_roots@[i as int]@, true, false)));
            assert(out@.map_values(|w: WatchDir| watch_dir_view(w)) =~= before.map_values(
                |w: WatchDir| watch_dir_view(w),
            ).push((package_roots@[i as int]@, true, false)));
        }
        i += 1;
    }
    proof {
        assert(rv.take(i as int) =~= rv);
    }
    match config_path {
        Some(c) => match parent_of(c) {
            Some(cp) => {
                if !crate::paths::path_starts_with_exec(cp.as_str(), primary.as_str()) {
                    let ghost before = out@;
                    out.push(WatchDir { path: cp, recursive: false, required: false });
                    proof {
                        assert(out@.map_values(|w: WatchDir| watch_dir_view(w)) =~= before.map_values(
                            |w: WatchDir| watch_dir_view(w),
                        ) + seq![(cp@, false, false)]);
                    }
                } else {
                    proof {
                        assert(out@.map_values(|w: WatchDir| watch_dir_view(w)) =~= out@.map_values(
                            |w: WatchDir| watch_dir_view(w),
                        ) + Seq::<(Seq<char>, bool, bool)>::empty());
                    }
                }
            },
            None => {
                proof {
                    assert(out@.map_values(|w: WatchDir| watch_dir_view(w)) =~= out@.map_values(
                        |w: WatchDir| watch_dir_view(w),
                    ) + Seq::<(Seq<char>, bool, bool)>::empty());
                }
            },
        },
        None => {
            proof {
                assert(out@.map_values(|w: WatchDir| watch_dir_view(w)) =~= out@.map_values(
                    |w: WatchDir| watch_dir_view(w),
                ) + Seq::<(Seq<char>, bool, bool)>::empty());
            }
        },
    }
    Ok(out)
}

} // verus!
