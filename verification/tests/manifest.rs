use rheo::config::project::TomlValue;
use rheo::manifest::{toml_strings, IndexEntry, PackageIndex, PackageManifest};
use rheo::plugins::ResolvedPackage;
use rheo::RheoError;

fn make_resolved(root: &str, ns: &str, name: &str, version: &str) -> ResolvedPackage {
    ResolvedPackage {
        name: name.to_string(),
        source_root: root.to_string(),
        namespace: Some(ns.to_string()),
        version: Some(version.to_string()),
    }
}

fn manifest(text: &str) -> PackageManifest {
    PackageManifest::parse(make_resolved("/nonexistent/ns/pkg/1.0", "ns", "pkg", "1.0"), text).unwrap()
}

fn extra_str<'a>(entries: &'a [(String, TomlValue)], key: &str) -> Option<&'a str> {
    entries.iter().find(|(k, _)| k == key).and_then(|(_, v)| v.as_str())
}

fn entry(spec: &str, ns: &str, name: &str, text: &str) -> IndexEntry {
    let pkg = make_resolved("/nonexistent/pkg", ns, name, "1.0");
    IndexEntry {
        spec: spec.to_string(),
        pkg: pkg.clone(),
        manifest: PackageManifest::parse(pkg, text),
        source_mode: false,
    }
}

fn invalid_data(e: RheoError) -> String {
    match e {
        RheoError::InvalidData { message } => message,
        other => panic!("unexpected error {:?}", other),
    }
}

#[test]
fn manifest_reads_tool_rheo_section() {
    let m = PackageManifest::parse(
        make_resolved("/pkgs/testns/testpkg/0.1.0", "testns", "testpkg", "0.1.0"),
        "[tool.rheo.html]\ncss_stylesheet = \"style.css\"\n",
    )
    .unwrap();
    let result = m.package_assets("html").unwrap();
    assert_eq!(result.assets.dest.as_deref(), Some("testns/testpkg"));
    assert_eq!(extra_str(&result.assets.extra, "css_stylesheet"), Some("style.css"));
    assert!(result.assets.copy.is_empty());
    assert_eq!(result.source_root, "/pkgs/testns/testpkg/0.1.0");
}

#[test]
fn manifest_extracts_copy_patterns() {
    let m = manifest("[tool.rheo.html]\ncopy = [\"**/*.css\", \"fonts/*\"]\ncss_stylesheet = \"style.css\"\n");
    let result = m.package_assets("html").unwrap();
    assert_eq!(result.assets.copy, vec!["**/*.css".to_string(), "fonts/*".to_string()]);
}

#[test]
fn manifest_copy_absent_defaults_empty() {
    let m = manifest("[tool.rheo.html]\ncss_stylesheet = \"style.css\"\n");
    assert!(m.package_assets("html").unwrap().assets.copy.is_empty());
}

#[test]
fn manifest_no_tool_rheo_returns_none() {
    let m = manifest("[package]\nname = \"pkg\"\n");
    assert_eq!(m.package_assets("html"), None);
}

#[test]
fn manifest_empty_section_returns_none() {
    let m = manifest("[tool.rheo.html]\n");
    assert_eq!(m.package_assets("html"), None);
}

#[test]
fn manifest_malformed_toml_returns_none() {
    let pkg = make_resolved("/nonexistent", "ns", "pkg", "1.0");
    assert!(PackageManifest::parse(pkg, "{{invalid toml!!").is_none());
}

#[test]
fn different_namespaces_no_dest_collision() {
    let index = PackageIndex::from_entries(vec![
        entry("@ns_a/slides:1.0", "ns_a", "slides", "[tool.rheo.html]\ncss_stylesheet = \"a.css\"\n"),
        entry("@ns_b/slides:1.0", "ns_b", "slides", "[tool.rheo.html]\ncss_stylesheet = \"b.css\"\n"),
    ]);
    let results = index.manifest_assets("html");
    assert_eq!(results.len(), 2);
    assert_eq!(results[0].assets.dest.as_deref(), Some("ns_a/slides"));
    assert_eq!(results[1].assets.dest.as_deref(), Some("ns_b/slides"));
}

#[test]
fn min_version_absent_returns_none() {
    assert_eq!(manifest("[tool.rheo.html]\n").min_version(), None);
}

#[test]
fn min_version_invalid_returns_none() {
    assert_eq!(manifest("[tool.rheo]\nmin_version = \"not-semver\"\n").min_version(), None);
}

#[test]
fn min_version_alongside_format_subtable() {
    let m = manifest(
        "[tool.rheo]\nmin_version = \"0.5.0\"\n\n[tool.rheo.html]\ncss_stylesheet = \"a.css\"\n\
         js_scripts = \"dist/lib.js\"\n\n[tool.rheo.source.html]\n\
         js_scripts = [\"src/a.js\", \"src/b.js\"]\njs_module = true\n",
    );
    assert_eq!(m.min_version(), Some("0.5.0".to_string()));
    assert!(m.package_assets("html").is_some());
    assert!(m.has_source_block());

    let release = m.assets_for("html", false).unwrap();
    assert!(!release.js_module);
    assert_eq!(extra_str(&release.assets.extra, "js_scripts"), Some("dist/lib.js"));

    let source = m.assets_for("html", true).unwrap();
    assert!(source.js_module);
    let scripts = source
        .assets
        .extra
        .iter()
        .find(|(k, _)| k == "js_scripts")
        .and_then(|(_, v)| v.as_array())
        .map(Vec::len);
    assert_eq!(scripts, Some(2));
}

#[test]
fn source_mode_falls_back_to_the_ordinary_block() {
    let m = manifest("[tool.rheo.html]\ncss_stylesheet = \"src/a.css\"\n");
    assert!(!m.has_source_block());
    assert!(m.assets_for("html", true).is_some());
    assert!(m.missing_declared_scripts().is_empty());
}

#[test]
fn missing_declared_scripts_names_the_absent_bundle() {
    let m = manifest("[tool.rheo.html]\njs_scripts = \"dist/lib.js\"\n");
    assert_eq!(m.missing_declared_scripts(), vec!["dist/lib.js"]);
}

#[test]
fn check_min_versions_rejects_package_above_floor() {
    let index = PackageIndex::from_entries(vec![entry("@ns/pkg:1.0", "ns", "pkg", "[tool.rheo]\nmin_version = \"99.0.0\"\n")]);
    let message = invalid_data(index.check_min_versions("0.3.0").unwrap_err());
    assert!(message.contains("99.0.0"));
    assert!(message.contains("0.3.0"));
}

#[test]
fn check_min_versions_accepts_package_below_floor() {
    let index = PackageIndex::from_entries(vec![entry("@ns/pkg:1.0", "ns", "pkg", "[tool.rheo]\nmin_version = \"0.1.0\"\n")]);
    assert!(index.check_min_versions("0.3.0").is_ok());
}

#[test]
fn check_min_versions_accepts_package_with_no_floor() {
    let index = PackageIndex::from_entries(vec![entry("@ns/pkg:1.0", "ns", "pkg", "[package]\nname = \"pkg\"\n")]);
    assert!(index.check_min_versions("0.3.0").is_ok());
}

#[test]
fn check_min_versions_names_all_offenders() {
    let index = PackageIndex::from_entries(vec![
        entry("@ns/a:1.0", "ns", "a", "[tool.rheo]\nmin_version = \"99.0.0\"\n"),
        entry("@ns/b:1.0", "ns", "b", "[tool.rheo]\nmin_version = \"98.0.0\"\n"),
    ]);
    let message = invalid_data(index.check_min_versions("0.3.0").unwrap_err());
    assert!(message.contains("@ns/a:1.0"));
    assert!(message.contains("@ns/b:1.0"));
    assert!(message.contains("99.0.0"));
    assert!(message.contains("98.0.0"));
    assert_eq!(
        message,
        "@ns/a:1.0 needs rheo >= 99.0.0, but this is rheo 0.3.0\n\
         @ns/b:1.0 needs rheo >= 98.0.0, but this is rheo 0.3.0\n\
         Upgrade rheo: https://rheo.ohrg.org"
    );
}

#[test]
fn ref_without_source_block_names_each_missing_script() {
    let mut e = entry("@ns/pkg:1.0", "ns", "pkg", "[tool.rheo.html]\njs_scripts = [\"dist/b.js\", \"dist/a.js\", \"dist/a.js\"]\n");
    e.source_mode = true;
    let index = PackageIndex::from_entries(vec![e]);
    match index.check_source_availability().unwrap_err() {
        RheoError::ProjectConfig { message } => {
            let lines: Vec<&str> = message.lines().collect();
            assert_eq!(lines.len(), 2);
            assert!(lines[0].starts_with("@ns/pkg:1.0 declares `js_scripts = \"dist/a.js\"`"));
            assert!(lines[1].starts_with("@ns/pkg:1.0 declares `js_scripts = \"dist/b.js\"`"));
        },
        other => panic!("unexpected error {:?}", other),
    }
}

#[test]
fn release_packages_are_not_checked_for_sources() {
    let index = PackageIndex::from_entries(vec![entry("@ns/pkg:1.0", "ns", "pkg", "[tool.rheo.html]\njs_scripts = \"dist/lib.js\"\n")]);
    assert!(index.check_source_availability().is_ok());
}

#[test]
fn bare_string_reads_as_one_item_list() {
    assert_eq!(toml_strings(&TomlValue::Str("a.js".to_string())), vec!["a.js"]);
    assert_eq!(
        toml_strings(&TomlValue::Array(vec![TomlValue::Str("a".to_string()), TomlValue::Int(3), TomlValue::Str("b".to_string())])),
        vec!["a", "b"]
    );
    assert!(toml_strings(&TomlValue::Bool(true)).is_empty());
}

#[test]
fn package_without_namespace_lands_under_its_name() {
    let pkg = ResolvedPackage { name: "local".to_string(), source_root: "/x".to_string(), namespace: None, version: None };
    let m = PackageManifest::parse(pkg, "[tool.rheo.html]\ncss_stylesheet = \"a.css\"\n").unwrap();
    assert_eq!(m.package_assets("html").unwrap().assets.dest.as_deref(), Some("local"));
}

#[test]
fn imports_across_files_are_listed_once_in_first_seen_order() {
    let a = rheo::parser::vars::extract_package_imports("#import \"@preview/tablex:0.0.6\": tablex");
    let b = rheo::parser::vars::extract_package_imports(
        "#import \"@rheo/slides:0.1.0\": slide\n#import \"@preview/tablex:0.0.6\": *\n#import \"./utils.typ\": *",
    );
    let mut all = a;
    all.extend(b);
    assert_eq!(
        rheo::manifest::unique_imports(all),
        vec!["@preview/tablex:0.0.6".to_string(), "@rheo/slides:0.1.0".to_string()]
    );
}

#[test]
fn search_dirs_are_data_then_cache_then_extra() {
    let dirs = rheo::plugins::package_search_dirs(
        Some("/home/u/.local/share".to_string()),
        None,
        Some("/tmp/extra"),
    );
    assert_eq!(dirs, vec!["/home/u/.local/share/typst/packages".to_string(), "/tmp/extra".to_string()]);
    let found = rheo::plugins::typst_package_search_dirs(Some("/tmp/extra"));
    assert_eq!(found.last().map(String::as_str), Some("/tmp/extra"));
}

#[test]
fn scripts_are_probed_under_the_package_root() {
    let m = manifest("[tool.rheo.html]\njs_scripts = [\"dist/b.js\", \"dist/a.js\"]\n");
    assert_eq!(
        m.script_probe_paths(),
        vec!["/nonexistent/ns/pkg/1.0/dist/b.js".to_string(), "/nonexistent/ns/pkg/1.0/dist/a.js".to_string()]
    );
}

#[test]
fn missing_scripts_follow_the_answers_given() {
    let m = manifest("[tool.rheo.html]\njs_scripts = [\"dist/b.js\", \"dist/a.js\"]\n[tool.rheo.pdf]\njs_scripts = \"dist/b.js\"\n");
    assert_eq!(m.missing_scripts_given(&vec![false, true, false]), vec!["dist/b.js".to_string()]);
    assert_eq!(
        m.missing_scripts_given(&vec![false, false, true]),
        vec!["dist/a.js".to_string(), "dist/b.js".to_string()]
    );
    assert!(m.missing_scripts_given(&vec![true, true, true]).is_empty());
}

#[test]
fn availability_lines_name_each_missing_script_of_a_checked_entry() {
    let mut e = entry("@ns/pkg:1.0", "ns", "pkg", "[tool.rheo.html]\njs_scripts = \"dist/lib.js\"\n");
    e.source_mode = true;
    let other = entry("@ns/rel:1.0", "ns", "rel", "[tool.rheo.html]\njs_scripts = \"dist/x.js\"\n");
    let index = PackageIndex::from_entries(vec![e, other]);
    assert!(index.source_availability_given(&vec![Vec::new(), vec!["dist/x.js".to_string()]]).is_ok());
    match index.source_availability_given(&vec![vec!["dist/lib.js".to_string()], Vec::new()]) {
        Err(RheoError::ProjectConfig { message }) => assert_eq!(
            message,
            "@ns/pkg:1.0 declares `js_scripts = \"dist/lib.js\"`, which this ref does not carry: the package is \
             built, and a repository ref has no build output. Add a `[tool.rheo.source.<format>]` block naming \
             its `src/` scripts, or consume the package from a release instead"
        ),
        other => panic!("unexpected {:?}", other),
    }
}
