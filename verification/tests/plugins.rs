use rheo::plugins::{find_package_in_dirs, parse_package_spec, find_package_given, SpineLayoutKind, TypstFormat, FormatInitTemplate};

fn parts(a: &str, b: &str, c: &str) -> Option<(String, String, String)> {
    Some((a.to_string(), b.to_string(), c.to_string()))
}

#[test]
fn parse_package_spec_valid() {
    assert_eq!(
        parse_package_spec("@rheo/slides:0.1.0"),
        parts("rheo", "slides", "0.1.0")
    );
}

#[test]
fn parse_package_spec_malformed() {
    assert_eq!(parse_package_spec("no-at-sign"), None);
    assert_eq!(parse_package_spec("@noslash:1.0"), None);
    assert_eq!(parse_package_spec("@ns/ncolon"), None);
    assert_eq!(parse_package_spec("@//:"), None);
}

#[test]
fn the_version_runs_from_the_last_colon() {
    assert_eq!(parse_package_spec("@ns/a:b:1.0"), parts("ns", "a:b", "1.0"));
    assert_eq!(parse_package_spec("@ns/sub/pkg:2"), parts("ns", "sub/pkg", "2"));
    assert_eq!(parse_package_spec("@ns/pkg:"), None);
    assert_eq!(parse_package_spec(""), None);
}

/// `/proc/self/fd` exists on every Linux system: probing a missing
/// directory first and then `/` finds it as `@proc/self:fd`.
#[test]
fn find_package_in_dirs_returns_first_match() {
    let search = vec!["/no/such/dir".to_string(), "/".to_string(), "/proc/..".to_string()];
    let r = find_package_in_dirs("@proc/self:fd", &search).expect("resolved");
    assert_eq!(r.name, "self");
    assert_eq!(r.namespace.as_deref(), Some("proc"));
    assert_eq!(r.version.as_deref(), Some("fd"));
    assert_eq!(r.source_root, "/proc/self/fd");
    assert!(find_package_in_dirs("@proc/self:nosuch", &search).is_none());
    assert!(find_package_in_dirs("malformed", &search).is_none());
}

#[test]
fn formats_and_layouts() {
    assert_eq!(TypstFormat::Pdf.as_str(), "pdf");
    assert_eq!(TypstFormat::Html.as_str(), "html");
    assert_ne!(SpineLayoutKind::OnePerVertebra, SpineLayoutKind::SingleCombined);
    let t = FormatInitTemplate::default();
    assert!(t.files.is_empty());
    assert!(t.options_toml.is_none());
}

#[test]
fn find_package_given_takes_the_first_present_directory() {
    let dirs = vec!["/a".to_string(), "/b".to_string(), "/c".to_string()];
    let r = find_package_given("@ns/pkg:1.0.0", &dirs, &vec![false, true, true]).unwrap();
    assert_eq!(r.source_root, "/b/ns/pkg/1.0.0");
    assert_eq!(r.name, "pkg");
    assert_eq!(r.namespace.as_deref(), Some("ns"));
    assert_eq!(r.version.as_deref(), Some("1.0.0"));
    assert!(find_package_given("@ns/pkg:1.0.0", &dirs, &vec![false, false, false]).is_none());
    assert!(find_package_given("not-a-spec", &dirs, &vec![true, true, true]).is_none());
}
