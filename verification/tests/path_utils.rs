use rheo::paths::{
    canonicalize_path, escape_typst_content, resolve_href, resolve_path, sanitize_handle_segment,
    to_forward_slash, PathExt,
};
use std::path::PathBuf;

#[test]
fn test_file_name_str_success() {
    let path = "/path/to/file.txt";
    assert_eq!(path.file_name_str().unwrap(), "file.txt");
}

#[test]
fn test_file_name_str_no_filename() {
    let path = "/";
    assert!(path.file_name_str().is_err());
}

#[test]
fn test_file_stem_str_success() {
    let path = "/path/to/file.txt";
    assert_eq!(path.file_stem_str().unwrap(), "file");
}

#[test]
fn test_file_stem_str_no_stem() {
    let path = "/";
    assert!(path.file_stem_str().is_err());
}

#[test]
fn test_extension_str_success() {
    let path = "/path/to/file.txt";
    assert_eq!(path.extension_str().unwrap(), "txt");
}

#[test]
fn test_extension_str_no_extension() {
    let path = "/path/to/file";
    assert!(path.extension_str().is_err());
}

#[test]
fn resolve_href_relative_and_rooted() {
    let file_dir = "/proj/content/ch1";
    let content_dir = "/proj/content";

    // Relative to the linking file's directory.
    let rel = resolve_href("./sibling.typ", file_dir, content_dir);
    assert_eq!(PathBuf::from(rel), PathBuf::from("/proj/content/ch1/sibling.typ"));

    // Rooted at the content directory.
    let root = resolve_href("/intro.typ", file_dir, content_dir);
    assert_eq!(PathBuf::from(root), PathBuf::from("/proj/content/intro.typ"));
}

// ─── Further cases ──────────────────────────────────────────────────────────

#[test]
fn names_stems_and_extensions_follow_std() {
    for p in ["/a/b.tar.gz", "archive", ".hidden", "dir/", "a/..", "x.", "/a/./b.c/"] {
        let std_path = std::path::Path::new(p);
        assert_eq!(
            p.file_name_str().ok(),
            std_path.file_name().map(|n| n.to_string_lossy().into_owned()),
            "file name of {p}"
        );
        assert_eq!(
            p.file_stem_str().ok(),
            std_path.file_stem().map(|n| n.to_string_lossy().into_owned()),
            "stem of {p}"
        );
        assert_eq!(
            p.extension_str().ok(),
            std_path.extension().map(|n| n.to_string_lossy().into_owned()),
            "extension of {p}"
        );
    }
}

#[test]
fn errors_name_the_path() {
    match "/".file_name_str() {
        Err(rheo::RheoError::InvalidPath { path, message }) => {
            assert_eq!(path, "/");
            assert_eq!(message, "path has no file name component");
        }
        other => panic!("unexpected {other:?}"),
    }
}

#[test]
fn forward_slashes_and_segments() {
    assert_eq!(to_forward_slash("a\\b\\c.typ"), "a/b/c.typ");
    assert_eq!(sanitize_handle_segment("my file.typ"), "my_file_typ");
    assert_eq!(sanitize_handle_segment("ok-name_1"), "ok-name_1");
}

#[test]
fn typst_content_is_escaped() {
    assert_eq!(escape_typst_content("a[b]#c\\d"), "a\\[b\\]\\#c\\\\d");
    assert_eq!(escape_typst_content("plain"), "plain");
}

#[test]
fn resolve_path_keeps_absolute_paths() {
    assert_eq!(resolve_path("/base", "/abs/x"), "/abs/x");
    assert_eq!(resolve_path("/base", "rel/x"), "/base/rel/x");
}

#[test]
fn canonicalizing_a_missing_path_fails_naming_it() {
    match canonicalize_path("/definitely/not/here/rheo") {
        Err(rheo::RheoError::InvalidPath { path, message }) => {
            assert_eq!(path, "/definitely/not/here/rheo");
            assert!(message.starts_with("failed to canonicalize path: "));
        }
        other => panic!("unexpected {other:?}"),
    }
    assert_eq!(canonicalize_path("/").unwrap(), "/");
}

#[test]
fn a_canonical_path_is_absolute() {
    let c = canonicalize_path(".").unwrap();
    assert!(c.starts_with('/'));
    assert!(canonicalize_path("/nonexistent/definitely/not/here").is_err());
}
