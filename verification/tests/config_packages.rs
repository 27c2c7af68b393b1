use rheo::config::packages::{
    ref_conflict_warning,
    GitRef, NamespaceEntry, NamespaceSource, NamespaceSourceRaw, PathSource, ReleasesSource,
    RepoSource,
};
use rheo::RheoError;

fn strings(value: Option<&toml::Value>) -> Option<Vec<String>> {
    value.and_then(|v| v.as_array()).map(|items| {
        items
            .iter()
            .map(|item| item.as_str().expect("string").to_string())
            .collect()
    })
}

fn string(table: &toml::Table, key: &str) -> Option<String> {
    table.get(key).map(|v| v.as_str().expect("string").to_string())
}

/// The `[packages.*]` tables of a rheo.toml fragment, in the order written.
fn tables(rest: &str) -> Vec<(String, NamespaceSourceRaw)> {
    let doc: toml::Table = rest.parse().expect("toml parse failed");
    let Some(packages) = doc.get("packages").and_then(|v| v.as_table()) else {
        return Vec::new();
    };
    packages
        .iter()
        .map(|(namespace, value)| {
            let t = value.as_table().expect("table");
            let raw = NamespaceSourceRaw {
                repo: string(t, "repo"),
                releases: string(t, "releases"),
                path: string(t, "path"),
                branch: string(t, "branch"),
                tag: string(t, "tag"),
                rev: string(t, "rev"),
                subdir: string(t, "subdir"),
                packages: strings(t.get("packages")),
            };
            (namespace.clone(), raw)
        })
        .collect()
}

fn parse(rest: &str) -> Result<Vec<(String, NamespaceEntry)>, RheoError> {
    NamespaceSource::parse_table(tables(rest), &mut Vec::new())
}

fn entry(rest: &str, namespace: &str) -> NamespaceEntry {
    parse(rest)
        .expect("parse failed")
        .into_iter()
        .find(|(ns, _)| ns == namespace)
        .expect("namespace absent")
        .1
}

fn source(rest: &str, namespace: &str) -> NamespaceSource {
    entry(rest, namespace).source
}

fn error(rest: &str) -> String {
    match parse(rest).expect_err("expected a config error") {
        RheoError::ProjectConfig { message } => message,
        other => panic!("expected a config error, got {other:?}"),
    }
}

/// The two-variant example from the docs, both namespaces at once.
#[test]
fn both_variants_parse() {
    let toml = r#"
    [packages.rookery]
    releases = "freecomputinglab/rookery"

    [packages.rheo]
    repo = "https://github.com/freecomputinglab/rheo-packages"
    branch = "feat-x"
    "#;
    assert_eq!(
        source(toml, "rookery"),
        NamespaceSource::Releases(ReleasesSource::Base(
            "https://github.com/freecomputinglab/rookery/releases/download".to_string()
        )),
    );
    assert_eq!(
        source(toml, "rheo"),
        NamespaceSource::Repo(RepoSource {
            url: "https://github.com/freecomputinglab/rheo-packages".to_string(),
            git_ref: GitRef::Branch("feat-x".to_string()),
            subdir: String::new(),
        }),
    );
}

#[test]
fn absent_table_yields_no_sources() {
    assert!(parse("").expect("parse failed").is_empty());
}

#[test]
fn branch_defaults_to_main_and_subdir_to_empty() {
    let NamespaceSource::Repo(repo) = source("[packages.ns]\nrepo = \"git@host:o/r.git\"", "ns")
    else {
        panic!("expected a repo source");
    };
    assert_eq!(repo.git_ref, GitRef::Branch("main".to_string()));
    assert_eq!(repo.subdir, "");
}

#[test]
fn ref_precedence_selects_rev() {
    let NamespaceSource::Repo(repo) = source(
        "[packages.ns]\nrepo = \"u\"\nrev = \"abc123\"\ntag = \"v1\"\nbranch = \"b\"",
        "ns",
    ) else {
        panic!("expected a repo source");
    };
    assert_eq!(repo.git_ref, GitRef::Rev("abc123".to_string()));
}

#[test]
fn tag_beats_branch() {
    let NamespaceSource::Repo(repo) = source(
        "[packages.ns]\nrepo = \"u\"\ntag = \"core-0.1.0\"\nbranch = \"b\"",
        "ns",
    ) else {
        panic!("expected a repo source");
    };
    assert_eq!(repo.git_ref, GitRef::Tag("core-0.1.0".to_string()));
}

#[test]
fn subdir_is_kept() {
    let NamespaceSource::Repo(repo) =
        source("[packages.ns]\nrepo = \"u\"\nsubdir = \"packages\"", "ns")
    else {
        panic!("expected a repo source");
    };
    assert_eq!(repo.subdir, "packages");
}

#[test]
fn releases_template_is_kept_verbatim() {
    assert_eq!(
        source(
            "[packages.ns]\nreleases = \"https://x/{name}/{version}/pkg.tar.gz\"",
            "ns",
        ),
        NamespaceSource::Releases(ReleasesSource::Template(
            "https://x/{name}/{version}/pkg.tar.gz".to_string()
        )),
    );
}

#[test]
fn invalid_namespace_key_is_rejected() {
    for key in ["bad/ns", "my pkgs", "9lives"] {
        let msg = error(&format!("[packages.\"{key}\"]\nreleases = \"a/b\""));
        assert!(
            msg.contains(key) && msg.contains("namespace"),
            "error should name the namespace, got: {msg}",
        );
    }
}

#[test]
fn repo_and_releases_together_are_rejected() {
    let msg = error("[packages.ns]\nrepo = \"u\"\nreleases = \"a/b\"");
    assert!(
        msg.contains("[packages.ns]") && msg.contains("exactly one"),
        "{msg}"
    );
}

#[test]
fn neither_repo_nor_releases_is_rejected() {
    let msg = error("[packages.ns]\nbranch = \"b\"");
    assert!(
        msg.contains("[packages.ns]") && msg.contains("set one of"),
        "{msg}"
    );
}

#[test]
fn ref_keys_alongside_releases_are_rejected() {
    for key in [
        "branch = \"b\"",
        "tag = \"t\"",
        "rev = \"r\"",
        "subdir = \"s\"",
    ] {
        let msg = error(&format!("[packages.ns]\nreleases = \"a/b\"\n{key}"));
        assert!(
            msg.contains("[packages.ns]") && msg.contains("`releases`"),
            "{msg}"
        );
    }
}

#[test]
fn escaping_subdir_is_rejected() {
    let msg = error("[packages.ns]\nrepo = \"u\"\nsubdir = \"../etc\"");
    assert!(msg.contains("[packages.ns]") && msg.contains(".."), "{msg}");

    let msg = error("[packages.ns]\nrepo = \"u\"\nsubdir = \"/etc\"");
    assert!(
        msg.contains("[packages.ns]") && msg.contains("relative"),
        "{msg}"
    );
}

#[test]
fn path_alone_parses() {
    let NamespaceSource::Path(path) = source("[packages.ns]\npath = \"../pkgs\"", "ns") else {
        panic!("expected a path source");
    };
    assert_eq!(std::path::PathBuf::from(path.root), std::path::PathBuf::from("../pkgs"));
    assert_eq!(path.subdir, "");
}

#[test]
fn path_and_repo_together_are_rejected() {
    let msg = error("[packages.ns]\npath = \"../pkgs\"\nrepo = \"u\"");
    assert!(
        msg.contains("[packages.ns]") && msg.contains("exactly one"),
        "{msg}"
    );
}

#[test]
fn path_and_branch_together_are_rejected() {
    let msg = error("[packages.ns]\npath = \"../pkgs\"\nbranch = \"b\"");
    assert!(
        msg.contains("[packages.ns]") && msg.contains("branch") && msg.contains("repo"),
        "{msg}"
    );
}

#[test]
fn path_keeps_subdir() {
    let NamespaceSource::Path(path) = source(
        "[packages.ns]\npath = \"../pkgs\"\nsubdir = \"packages\"",
        "ns",
    ) else {
        panic!("expected a path source");
    };
    assert_eq!(path.subdir, "packages");
}

#[test]
fn releases_template_missing_a_placeholder_is_rejected() {
    let msg = error("[packages.ns]\nreleases = \"https://x/{name}.tar.gz\"");
    assert!(
        msg.contains("[packages.ns]") && msg.contains("{version}"),
        "error should name the missing placeholder, got: {msg}",
    );
}

/// The worked example from the docs: a `packages` key limits the table's
/// source to the named packages, and every other package in the namespace
/// is untouched.
#[test]
fn packages_key_limits_which_names_apply() {
    let e = entry(
        "[packages.rheo]\nrepo = \"u\"\npackages = [\"contents-panel\"]",
        "rheo",
    );
    assert!(e.applies_to("contents-panel"));
    assert!(!e.applies_to("justify"));
}

#[test]
fn no_packages_key_applies_to_every_name() {
    let e = entry("[packages.ns]\nrepo = \"u\"", "ns");
    assert!(e.applies_to("anything"));
    assert!(e.applies_to("something-else"));
}

#[test]
fn empty_packages_list_is_rejected() {
    let msg = error("[packages.ns]\nrepo = \"u\"\npackages = []");
    assert!(
        msg.contains("[packages.ns]") && msg.contains("`packages`"),
        "{msg}"
    );
}

#[test]
fn duplicate_package_name_is_rejected() {
    let msg = error("[packages.ns]\nrepo = \"u\"\npackages = [\"a\", \"a\"]");
    assert!(
        msg.contains("[packages.ns]") && msg.contains("more than once"),
        "{msg}"
    );
}

#[test]
fn invalid_package_name_is_rejected() {
    let msg = error("[packages.ns]\nrepo = \"u\"\npackages = [\"bad name\"]");
    assert!(
        msg.contains("[packages.ns]") && msg.contains("not a valid package name"),
        "{msg}"
    );
}

// ─── Further cases ──────────────────────────────────────────────────────────

#[test]
fn releases_messages_are_exact() {
    assert_eq!(
        error("[packages.ns]\nreleases = \"nope\""),
        "[packages.ns]: `releases = \"nope\"` is neither an `<owner>/<repo>` shorthand nor a URL. \
         Write `owner/repo`, or a full URL template containing `{name}` and `{version}`"
    );
    assert_eq!(
        error("[packages.ns]\nreleases = \"a/b/c\""),
        "[packages.ns]: `releases = \"a/b/c\"` is not an `<owner>/<repo>` shorthand"
    );
    assert_eq!(
        error("[packages.ns]\nreleases = \"/b\""),
        "[packages.ns]: `releases = \"/b\"` is not an `<owner>/<repo>` shorthand"
    );
    assert_eq!(
        error("[packages.ns]\nreleases = \"https://x/{version}.tar.gz\""),
        "[packages.ns]: `releases = \"https://x/{version}.tar.gz\"` is a URL template but is missing \
         {name}. A template must carry both `{name}` and `{version}` so each \
         package resolves to its own asset"
    );
    assert_eq!(
        source("[packages.ns]\nreleases = \"https://dl.example.org/pkgs\"", "ns"),
        NamespaceSource::Releases(ReleasesSource::Base("https://dl.example.org/pkgs".to_string()))
    );
}

#[test]
fn subdir_with_parent_in_the_middle_is_rejected() {
    assert_eq!(
        error("[packages.ns]\nrepo = \"u\"\nsubdir = \"a/../b\""),
        "[packages.ns]: `subdir = \"a/../b\"` may not contain `..`: it names a path inside the \
         repository, not one outside it"
    );
    let NamespaceSource::Repo(repo) = source("[packages.ns]\nrepo = \"u\"\nsubdir = \"a/..b\"", "ns")
    else {
        panic!("expected a repo source");
    };
    assert_eq!(repo.subdir, "a/..b");
}

#[test]
fn path_with_rev_names_the_key_twice() {
    assert_eq!(
        error("[packages.ns]\npath = \"p\"\nrev = \"r\""),
        "[packages.ns]: `rev` selects a ref inside a repository, and `path` reads a directory in \
         place, so there is no ref to select. Use `repo = \"<path>\"` with `rev` if you want a \
         local repository AT a ref."
    );
}

#[test]
fn url_for_base_and_template() {
    let base = ReleasesSource::Base("https://h/o/r/releases/download".to_string());
    assert_eq!(
        base.url_for("pkg", "1.2.0"),
        "https://h/o/r/releases/download/pkg-1.2.0/pkg-1.2.0.tar.gz"
    );
    assert_eq!(base.source_key(), "https://h/o/r/releases/download");
    let template = ReleasesSource::Template("https://x/{name}/v{version}/{name}.tgz".to_string());
    assert_eq!(template.url_for("pkg", "2.0.1"), "https://x/pkg/v2.0.1/pkg.tgz");
    assert_eq!(template.source_key(), "https://x/{name}/v{version}/{name}.tgz");
}

#[test]
fn git_ref_kind_and_text() {
    let r = GitRef::Tag("v1".to_string());
    assert_eq!(r.kind(), "tag");
    assert_eq!(r.as_str(), "v1");
    assert_eq!(r.to_string(), "tag v1");
    assert_eq!(GitRef::default(), GitRef::Branch("main".to_string()));
}

#[test]
fn anchoring_only_moves_relative_paths() {
    let mut rel = PathSource { root: "../pkgs".to_string(), subdir: String::new() };
    rel.anchor_to("/proj");
    assert_eq!(rel.root, "/proj/../pkgs");
    let mut abs = PathSource { root: "/opt/pkgs".to_string(), subdir: String::new() };
    abs.anchor_to("/proj");
    assert_eq!(abs.root, "/opt/pkgs");

    let mut entry = NamespaceEntry::new(
        NamespaceSource::Repo(RepoSource {
            url: "u".to_string(),
            git_ref: GitRef::default(),
            subdir: String::new(),
        }),
        Some(vec!["a".to_string()]),
    );
    let before = entry.clone();
    entry.anchor_to("/proj");
    assert_eq!(entry, before);
    assert_eq!(entry.only(), Some(&vec!["a".to_string()]));
}

#[test]
fn first_bad_table_rejects_the_whole_table() {
    let tables = vec![
        ("good".to_string(), NamespaceSourceRaw { repo: Some("u".to_string()), ..Default::default() }),
        ("bad".to_string(), NamespaceSourceRaw::default()),
    ];
    match NamespaceSource::parse_table(tables, &mut Vec::new()) {
        Err(RheoError::ProjectConfig { message }) => assert!(message.starts_with("[packages.bad]: set one of")),
        other => panic!("unexpected {other:?}"),
    }
}

fn raw_repo(rev: Option<&str>, tag: Option<&str>, branch: Option<&str>) -> NamespaceSourceRaw {
    NamespaceSourceRaw {
        repo: Some("u".to_string()),
        releases: None,
        path: None,
        branch: branch.map(|s| s.to_string()),
        tag: tag.map(|s| s.to_string()),
        rev: rev.map(|s| s.to_string()),
        subdir: None,
        packages: None,
    }
}

#[test]
fn two_ref_keys_earn_a_warning_naming_the_winner() {
    assert_eq!(
        ref_conflict_warning("ns", &raw_repo(Some("abc123"), Some("v1"), Some("b"))),
        Some("[packages.ns] sets rev, tag, branch; only `rev` is used (rev, then tag, then branch)".to_string())
    );
    assert_eq!(
        ref_conflict_warning("ns", &raw_repo(None, Some("v1"), Some("b"))),
        Some("[packages.ns] sets tag, branch; only `tag` is used (rev, then tag, then branch)".to_string())
    );
    assert_eq!(ref_conflict_warning("ns", &raw_repo(None, Some("v1"), None)), None);
}

#[test]
fn namespace_identifiers_follow_the_ascii_rule() {
    assert!(rheo::ident::is_ident("ns"));
    assert!(rheo::ident::is_ident("_a-b1"));
    assert!(!rheo::ident::is_ident("1ns"));
    assert!(!rheo::ident::is_ident("-ns"));
    assert!(!rheo::ident::is_ident(""));
}

#[test]
fn validating_tables_warns_of_refs_that_lose() {
    let mut warnings = Vec::new();
    let parsed = NamespaceSource::parse_table(
        vec![
            ("a".to_string(), raw_repo(Some("abc123"), Some("v1"), Some("b"))),
            ("b".to_string(), raw_repo(None, Some("v1"), None)),
        ],
        &mut warnings,
    )
    .unwrap();
    assert_eq!(parsed[0].1.source, NamespaceSource::Repo(RepoSource {
        url: "u".to_string(),
        git_ref: GitRef::Rev("abc123".to_string()),
        subdir: String::new(),
    }));
    assert_eq!(
        warnings,
        vec!["[packages.a] sets rev, tag, branch; only `rev` is used (rev, then tag, then branch)".to_string()]
    );
}
