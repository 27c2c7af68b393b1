//! Where packages of a configured namespace are read from: a directory on
//! disk read in place, or a repository checkout cached under a slug of its
//! URL.

use vstd::prelude::*;
use std::collections::hash_map::DefaultHasher;
use std::hash::Hasher;
use vstd::std_specs::hash::DefaultHasherAdditionalSpecFns;
use crate::config::packages::{NamespaceSource, PathSource};
use crate::paths::{join, join_exec};
use crate::text::{owned, push_char, push_str};

verus! {

/// The built-in releases host the `@rheo` namespace resolves from.
pub const REGISTRY_URL: &'static str = "https://github.com/freecomputinglab/rheo-packages/releases/download";

// ─── Directory-backed namespaces ────────────────────────────────────────────

/// Serves a namespace from a directory on disk — a package's own working
/// tree, read in place. No caching and no sha: the tree IS the source, so an
/// edit shows up on the next build.
pub struct PathPackages {
    pub namespace: String,
    pub source: PathSource,
    /// Whether where the namespace resolves from has been announced yet.
    pub announced: bool,
}

/// The directory for `name` at `version` under a path source: the root, the
/// subdir when there is one, then `name/version`.
pub open spec fn path_package_dir(root: Seq<char>, subdir: Seq<char>, name: Seq<char>, version: Seq<char>) -> Seq<char> {
    let base = if subdir.len() > 0 { join(root, subdir) } else { root };
    join(join(base, name), version)
}

/// std's `Path::exists`. Whether something is there depends on the file
/// system, so nothing is stated of the answer.
#[verifier::external_body]
pub(crate) fn path_exists(p: &str) -> bool {
    std::path::Path::new(p).exists()
}

impl PathPackages {
    /// Packages of `namespace` read from `source`, not yet announced.
    pub fn new(namespace: &str, source: PathSource) -> (p: Self)
        ensures
            p.namespace@ == namespace@,
            p.source == source,
            !p.announced,
    {
        PathPackages { namespace: owned(namespace), source, announced: false }
    }

    /// The line announcing where this namespace resolves from — the first
    /// time only; every later call answers `None`.
    pub fn announcement(&mut self) -> (r: Option<String>)
        ensures
            final(self).announced,
            final(self).namespace == old(self).namespace,
            final(self).source == old(self).source,
            old(self).announced ==> r is None,
            !old(self).announced ==> (r matches Some(s) && s@ == "@"@ + old(self).namespace@
                + " resolves from "@ + old(self).source.root@ + " (a directory on disk)"@),
    {
        if self.announced {
            return None;
        }
        self.announced = true;
        let mut line = owned("@");
        push_str(&mut line, self.namespace.as_str());
        push_str(&mut line, " resolves from ");
        push_str(&mut line, self.source.root.as_str());
        push_str(&mut line, " (a directory on disk)");
        Some(line)
    }

    /// The directory for `@<ns>/<name>:<version>` inside the configured root.
    pub fn package_dir(&self, name: &str, version: &str) -> (d: String)
        ensures
            d@ == path_package_dir(self.source.root@, self.source.subdir@, name@, version@),
    {
        let base = if !self.source.subdir.as_str().is_empty() {
            join_exec(self.source.root.as_str(), self.source.subdir.as_str())
        } else {
            self.source.root.clone()
        };
        let with_name = join_exec(base.as_str(), name);
        join_exec(with_name.as_str(), version)
    }

    /// The package's directory when something is there; otherwise the
    /// complaint naming the package and the directory it was expected at.
    /// Whether the directory exists is the file system's answer.
    pub fn obtain(&self, name: &str, version: &str) -> (r: core::result::Result<String, String>)
        ensures
            r matches Ok(d) ==> d@ == path_package_dir(self.source.root@, self.source.subdir@, name@, version@),
            r matches Err(m) ==> m@ == "@"@ + self.namespace@ + "/"@ + name@ + ":"@ + version@
                + " not found at "@ + path_package_dir(
                self.source.root@,
                self.source.subdir@,
                name@,
                version@,
            ),
    {
        let dir = self.package_dir(name, version);
        if path_exists(dir.as_str()) {
            return Ok(dir);
        }
        let mut m = owned("@");
        push_str(&mut m, self.namespace.as_str());
        push_str(&mut m, "/");
        push_str(&mut m, name);
        push_str(&mut m, ":");
        push_str(&mut m, version);
        push_str(&mut m, " not found at ");
        push_str(&mut m, dir.as_str());
        Err(m)
    }
}

// ─── Checkout slugs ─────────────────────────────────────────────────────────

/// What std's `Hash` impl for `str` writes into a hasher for `s`, as the
/// hasher's record of writes sees it.
pub uninterp spec fn str_hash_writes(s: Seq<char>) -> Seq<Seq<u8>>;

/// std's `Hash::hash` of the string `s` into `hasher`: the writes it makes
/// depend on `s` alone, by name.
#[verifier::external_body]
fn hash_str_into(s: &str, hasher: &mut DefaultHasher)
    ensures
        final(hasher)@ == old(hasher)@ + str_hash_writes(s@),
{
    std::hash::Hash::hash(s, hasher)
}

/// The `u64` std's `DefaultHasher` finishes with after hashing the string
/// `s` through its `Hash` impl, starting fresh.
pub open spec fn default_str_hash(s: Seq<char>) -> u64 {
    DefaultHasher::spec_finish(str_hash_writes(s))
}

/// `s` hashed as std hashes a `&str` with a fresh `DefaultHasher`, which is
/// keyed identically in every process.
fn hash_str(s: &str) -> (h: u64)
    ensures
        h == default_str_hash(s@),
{
    let mut hasher = DefaultHasher::new();
    hash_str_into(s, &mut hasher);
    proof {
        assert(Seq::<Seq<u8>>::empty() + str_hash_writes(s@) =~= str_hash_writes(s@));
    }
    hasher.finish()
}

/// The lowercase hex digit for `d`.
pub open spec fn hex_digit(d: nat) -> char {
    if d < 10 {
        (('0' as nat) + d) as char
    } else {
        (('a' as nat) + (d - 10)) as char
    }
}

/// `n` as exactly `width` lowercase hex digits, most significant first,
/// zero-padded (higher digits dropped).
pub open spec fn hex_fixed(n: nat, width: nat) -> Seq<char>
    decreases width,
{
    if width == 0 {
        Seq::empty()
    } else {
        hex_fixed(n / 16, (width - 1) as nat).push(hex_digit(n % 16))
    }
}

fn hex_digit_exec(d: u64) -> (c: char)
    requires
        d < 16,
    ensures
        c == hex_digit(d as nat),
{
    if d < 10 {
        proof {
            assert((('0' as nat) + d) as char == ('0' as u32 + d as u32) as char);
        }
        match d {
            0 => '0',
            1 => '1',
            2 => '2',
            3 => '3',
            4 => '4',
            5 => '5',
            6 => '6',
            7 => '7',
            8 => '8',
            _ => '9',
        }
    } else {
        match d {
            10 => 'a',
            11 => 'b',
            12 => 'c',
            13 => 'd',
            14 => 'e',
            _ => 'f',
        }
    }
}

/// `n` as 16 zero-padded lowercase hex digits, `format!("{:016x}", n)`.
pub fn hex16(n: u64) -> (s: String)
    ensures
        s@ == hex_fixed(n as nat, 16),
{
    let mut digits: Vec<char> = Vec::new();
    let mut rest = n;
    let mut k: usize = 0;
    proof {
        assert(pow16(0) == 1);
        assert(digits@.reverse() =~= Seq::<char>::empty());
        assert(hex_fixed(n as nat, 16) + Seq::<char>::empty() =~= hex_fixed(n as nat, 16));
    }
    while k < 16
        invariant
            k <= 16,
            digits@.len() == k,
            rest as nat == n as nat / pow16(k as nat),
            hex_fixed(n as nat, 16) == hex_fixed(rest as nat, (16 - k) as nat) + digits@.reverse(),
        decreases 16 - k,
    {
        let d = rest % 16;
        let c = hex_digit_exec(d);
        proof {
            lemma_pow16_step(n as nat, k as nat);
            assert(hex_fixed(rest as nat, (16 - k) as nat) == hex_fixed(rest as nat / 16, (16 - k - 1) as nat).push(
                hex_digit(rest as nat % 16),
            ));
            assert(digits@.push(c).reverse() =~= seq![c] + digits@.reverse());
            assert(hex_fixed(rest as nat / 16, (16 - k - 1) as nat).push(hex_digit(rest as nat % 16))
                + digits@.reverse() =~= hex_fixed(rest as nat / 16, (16 - k - 1) as nat) + (seq![c]
                + digits@.reverse()));
        }
        digits.push(c);
        rest = rest / 16;
        k += 1;
    }
    let mut out = String::new();
    let mut i: usize = 16;
    while i > 0
        invariant
            i <= 16,
            digits@.len() == 16,
            out@ == digits@.reverse().take(16 - i),
        decreases i,
    {
        push_char(&mut out, digits[i - 1]);
        proof {
            assert(digits@.reverse().take(16 - i + 1) =~= digits@.reverse().take(16 - i).push(digits@[i - 1]));
        }
        i -= 1;
    }
    proof {
        assert(hex_fixed(rest as nat, 0) =~= Seq::<char>::empty());
        assert(digits@.reverse().take(16) =~= digits@.reverse());
        assert(Seq::<char>::empty() + digits@.reverse() =~= digits@.reverse());
    }
    out
}

/// `16` to the power `k`.
pub open spec fn pow16(k: nat) -> nat
    decreases k,
{
    if k == 0 {
        1
    } else {
        16 * pow16((k - 1) as nat)
    }
}

proof fn lemma_pow16_step(n: nat, k: nat)
    ensures
        n / pow16(k) / 16 == n / pow16(k + 1),
        pow16(k) > 0,
    decreases k,
{
    if k > 0 {
        lemma_pow16_step(n, (k - 1) as nat);
    }
    assert(pow16(k + 1) == 16 * pow16(k));
    vstd::arithmetic::div_mod::lemma_div_denominator(n as int, pow16(k) as int, 16);
    assert(pow16(k) * 16 == 16 * pow16(k)) by (nonlinear_arith);
}

/// The directory name a repository's checkouts are cached under: its URL's
/// hash as 16 hex digits, so any URL maps to a fixed-length safe name.
pub fn slug(url: &str) -> (s: String)
    ensures
        s@ == hex_fixed(default_str_hash(url@) as nat, 16),
{
    hex16(hash_str(url))
}


// ─── Routing a namespace ────────────────────────────────────────────────────

/// Where a package's namespace is served from.
#[derive(Debug, Clone, Copy, PartialEq, Eq, Structural)]
pub enum PackageRoute {
    /// A configured repository, checked out at a ref.
    Repo,
    /// Configured release tarballs.
    Releases,
    /// A configured directory on disk.
    Path,
    /// The built-in `@rheo` releases.
    Rheo,
    /// Typst's own package universe.
    Universe,
}

/// The source configured for `namespace` (the first table naming it).
pub open spec fn configured_source(v: Seq<(String, NamespaceSource)>, namespace: Seq<char>) -> Option<NamespaceSource>
    decreases v.len(),
{
    if v.len() == 0 {
        None
    } else if v[0].0@ == namespace {
        Some(v[0].1)
    } else {
        configured_source(v.drop_first(), namespace)
    }
}

/// Routes a package spec to the backend serving its namespace. A configured
/// namespace is consulted first, so `[packages.rheo]` overrides the built-in
/// `@rheo`.
pub struct PackageResolver {
    configured: Vec<(String, NamespaceSource)>,
}

impl PackageResolver {
    /// The configured namespaces and their sources.
    pub closed spec fn configured(self) -> Seq<(String, NamespaceSource)> {
        self.configured@
    }

    /// A resolver for the configured namespaces.
    pub fn new(configured: Vec<(String, NamespaceSource)>) -> (r: Self)
        ensures
            r.configured() == configured@,
    {
        PackageResolver { configured }
    }

    /// The index of `namespace`'s configured source.
    fn lookup(&self, namespace: &str) -> (r: Option<usize>)
        ensures
            match configured_source(self.configured@, namespace@) {
                Some(src) => r matches Some(i) && i < self.configured@.len() && self.configured@[i as int].1 == src,
                None => r is None,
            },
    {
        let mut i: usize = 0;
        proof {
            assert(self.configured@.skip(0) =~= self.configured@);
        }
        while i < self.configured.len()
            invariant
                i <= self.configured@.len(),
                configured_source(self.configured@, namespace@) == configured_source(
                    self.configured@.skip(i as int),
                    namespace@,
                ),
            decreases self.configured@.len() - i,
        {
            proof {
                assert(self.configured@.skip(i as int)[0] == self.configured@[i as int]);
                assert(self.configured@.skip(i as int).drop_first() =~= self.configured@.skip(i + 1));
            }
            if crate::text::str_eq(self.configured[i].0.as_str(), namespace) {
                return Some(i);
            }
            i += 1;
        }
        None
    }

    /// Where packages of `namespace` come from.
    pub fn route(&self, namespace: &str) -> (r: PackageRoute)
        ensures
            r == match configured_source(self.configured(), namespace@) {
                Some(NamespaceSource::Repo(_)) => PackageRoute::Repo,
                Some(NamespaceSource::Releases(_)) => PackageRoute::Releases,
                Some(NamespaceSource::Path(_)) => PackageRoute::Path,
                None => if namespace@ == "rheo"@ {
                    PackageRoute::Rheo
                } else {
                    PackageRoute::Universe
                },
            },
    {
        match self.lookup(namespace) {
            Some(i) => match &self.configured[i].1 {
                NamespaceSource::Repo(_) => PackageRoute::Repo,
                NamespaceSource::Releases(_) => PackageRoute::Releases,
                NamespaceSource::Path(_) => PackageRoute::Path,
            },
            None => if crate::text::str_eq(namespace, "rheo") {
                PackageRoute::Rheo
            } else {
                PackageRoute::Universe
            },
        }
    }

    /// Whether `namespace` has a `[packages.<ns>]` table.
    pub fn is_configured(&self, namespace: &str) -> (b: bool)
        ensures
            b == configured_source(self.configured(), namespace@) is Some,
    {
        self.lookup(namespace).is_some()
    }

    /// Whether `namespace` is served from a repository ref, whose packages
    /// carry no build output and so use their source-mode asset block.
    pub fn is_repo_backed(&self, namespace: &str) -> (b: bool)
        ensures
            b == (configured_source(self.configured(), namespace@) matches Some(NamespaceSource::Repo(_))),
    {
        match self.lookup(namespace) {
            Some(i) => match &self.configured[i].1 {
                NamespaceSource::Repo(_) => true,
                _ => false,
            },
            None => false,
        }
    }

    /// Whether rheo can fetch `namespace` ahead of the asset scan: a
    /// configured namespace, `@preview` or `@rheo`.
    pub fn is_prewarmable(&self, namespace: &str) -> (b: bool)
        ensures
            b == (configured_source(self.configured(), namespace@) is Some || namespace@ == "preview"@
                || namespace@ == "rheo"@),
    {
        self.is_configured(namespace) || crate::text::str_eq(namespace, "preview") || crate::text::str_eq(
            namespace,
            "rheo",
        )
    }
}

} // verus!
