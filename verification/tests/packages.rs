use std::hash::{Hash, Hasher};
use rheo::config::packages::{GitRef, NamespaceSource, PathSource, ReleasesSource, RepoSource};
use rheo::packages::{hex16, slug, PackageResolver, PackageRoute, PathPackages, REGISTRY_URL};

/// The built-in base is unchanged, so a project configuring nothing requests
/// exactly the URL it always did.
#[test]
fn default_base_builds_the_rheo_packages_url() {
    let source = ReleasesSource::Base(REGISTRY_URL.to_string());
    assert_eq!(
        source.url_for("feeds", "0.1.1"),
        "https://github.com/freecomputinglab/rheo-packages/releases/download/feeds-0.1.1/feeds-0.1.1.tar.gz",
    );
}

#[test]
fn template_substitutes_every_placeholder() {
    let source = ReleasesSource::Template(
        "https://git.example.org/pkgs/{name}/-/releases/{version}/{name}.tar.gz".to_string(),
    );
    assert_eq!(
        source.url_for("core", "0.1.0"),
        "https://git.example.org/pkgs/core/-/releases/0.1.0/core.tar.gz",
    );
}

/// `/proc/self/fd` is a directory on every Linux system, so it stands in
/// for a package unpacked under a root; its sibling `nosuch` never exists.
#[test]
fn obtain_returns_the_directory_when_present() {
    let packages = PathPackages::new(
        "demo",
        PathSource { root: "/proc".to_string(), subdir: String::new() },
    );
    assert_eq!(packages.obtain("self", "fd"), Ok("/proc/self/fd".to_string()));
    assert_eq!(
        packages.obtain("self", "nosuch"),
        Err("@demo/self:nosuch not found at /proc/self/nosuch".to_string())
    );
}

#[test]
fn subdir_is_applied() {
    let packages = PathPackages::new(
        "demo",
        PathSource { root: "/pkgs".to_string(), subdir: "packages".to_string() },
    );
    assert_eq!(packages.package_dir("demo", "0.1.0"), "/pkgs/packages/demo/0.1.0");
    let bare = PathPackages::new("demo", PathSource { root: "/pkgs".to_string(), subdir: String::new() });
    assert_eq!(bare.package_dir("demo", "0.1.0"), "/pkgs/demo/0.1.0");
}

#[test]
fn a_namespace_is_announced_once() {
    let mut packages = PathPackages::new(
        "demo",
        PathSource { root: "/pkgs".to_string(), subdir: String::new() },
    );
    assert_eq!(
        packages.announcement().as_deref(),
        Some("@demo resolves from /pkgs (a directory on disk)")
    );
    assert_eq!(packages.announcement(), None);
}

#[test]
fn slugs_are_sixteen_hex_digits_of_the_url_hash() {
    let url = "https://github.com/freecomputinglab/rheo-packages";
    let mut hasher = std::collections::hash_map::DefaultHasher::new();
    url.hash(&mut hasher);
    assert_eq!(slug(url), format!("{:016x}", hasher.finish()));
    assert_eq!(slug(url).len(), 16);
    assert_ne!(slug(url), slug("https://example.org/other"));
}

#[test]
fn hex_is_zero_padded_lowercase() {
    assert_eq!(hex16(0), "0000000000000000");
    assert_eq!(hex16(255), "00000000000000ff");
    assert_eq!(hex16(u64::MAX), "ffffffffffffffff");
    assert_eq!(hex16(0x0123_4567_89ab_cdef), "0123456789abcdef");
}

#[test]
fn prewarm_does_not_skip_a_configured_namespace() {
    let resolver = PackageResolver::new(vec![(
        "rookery".to_string(),
        NamespaceSource::Repo(RepoSource {
            url: "https://example.invalid/rookery".to_string(),
            git_ref: GitRef::Branch("main".to_string()),
            subdir: String::new(),
        }),
    )]);
    assert!(resolver.is_prewarmable("rookery"), "a configured namespace must be warmed");
    assert!(resolver.is_prewarmable("preview"));
    assert!(resolver.is_prewarmable("rheo"));
    assert!(!resolver.is_prewarmable("local"));
}

#[test]
fn configured_namespaces_route_before_the_builtins() {
    let resolver = PackageResolver::new(vec![(
        "rheo".to_string(),
        NamespaceSource::Releases(ReleasesSource::Base("https://example.invalid".to_string())),
    )]);
    assert_eq!(resolver.route("rheo"), PackageRoute::Releases);
    assert!(resolver.is_configured("rheo"));
    assert!(!resolver.is_repo_backed("rheo"));
    assert_eq!(resolver.route("preview"), PackageRoute::Universe);
    assert_eq!(PackageResolver::new(Vec::new()).route("rheo"), PackageRoute::Rheo);
}

#[test]
fn a_configured_rheo_namespace_overrides_the_built_in() {
    let resolver = PackageResolver::new(vec![(
        "rheo".to_string(),
        NamespaceSource::Releases(ReleasesSource::Base("https://example.invalid".to_string())),
    )]);
    assert!(resolver.is_configured("rheo"));
    assert!(resolver.is_prewarmable("rheo"));
}
