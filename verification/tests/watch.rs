use rheo::globs::{plan_glob_copies, CopyGlobs, WatchAssetSpec};
use rheo::watch::{
    is_config_path, is_relevant_given, is_relevant_path, parent_of, watch_plan, Debounce, WatchEvent, DEBOUNCE_MAX_MS,
    DEBOUNCE_POLL_MS, DEBOUNCE_QUIET_MS,
};

// Paths below are never created: canonicalizing them fails, so each is
// compared as written.
const ROOT: &str = "/nonexistent/rheo-watch/project";
const BUILD: &str = "/nonexistent/rheo-watch/project/build";

fn at(rel: &str) -> String {
    format!("{ROOT}/{rel}")
}

fn empty_spec() -> WatchAssetSpec {
    WatchAssetSpec::default()
}

#[test]
fn test_declared_asset_with_any_extension_is_relevant() {
    let scss = at("styles/theme.scss");
    let spec = WatchAssetSpec::new(vec![scss.clone()], vec![], vec![]);
    assert!(is_relevant_path(&scss, BUILD, None, &spec, None));
    let other = at("styles/other.scss");
    assert!(!is_relevant_path(&other, BUILD, None, &spec, None));
}

#[test]
fn test_copy_glob_match_is_relevant() {
    let globs = CopyGlobs::compile(ROOT, &vec!["images/**".to_string()]).expect("compiles");
    let spec = WatchAssetSpec::new(vec![], vec![globs], vec![]);
    assert!(is_relevant_path(&at("images/logo.png"), BUILD, None, &spec, None));
    assert!(!is_relevant_path(&at("docs/notes.md"), BUILD, None, &spec, None));
}

#[test]
fn test_package_asset_path_is_relevant() {
    let pkg_root = "/nonexistent/rheo-watch/pkg".to_string();
    let pkg_css = format!("{pkg_root}/assets/pkg.css");
    let spec = WatchAssetSpec::new(vec![pkg_css.clone()], vec![], vec![pkg_root.clone()]);
    assert!(is_relevant_path(&pkg_css, BUILD, None, &spec, None));
    assert_eq!(spec.package_roots().len(), 1);
    let stray = format!("{pkg_root}/assets/readme.bin");
    assert!(!is_relevant_path(&stray, BUILD, None, &spec, None));
}

#[test]
fn test_typ_file_still_relevant() {
    assert!(is_relevant_path(&at("chapters/intro.typ"), BUILD, None, &empty_spec(), None));
}

#[test]
fn test_asset_under_build_dir_is_excluded() {
    let generated = format!("{BUILD}/style.css");
    let spec = WatchAssetSpec::new(vec![generated.clone()], vec![], vec![]);
    assert!(!is_relevant_path(&generated, BUILD, None, &spec, None));
}

#[test]
fn test_config_file_relevant_in_single_file_mode() {
    let config = at("rheo.toml");
    let target = at("document.typ");
    assert!(is_relevant_path(&config, BUILD, Some(&config), &empty_spec(), Some(&target)));
    assert!(is_config_path(&config, Some(&config)));
}

#[test]
fn test_custom_named_config_is_relevant() {
    let config = at("prod.toml");
    let target = at("document.typ");
    assert!(is_relevant_path(&config, BUILD, Some(&config), &empty_spec(), Some(&target)));
    assert!(is_config_path(&config, Some(&config)));
    let other = at("other.toml");
    assert!(!is_relevant_path(&other, BUILD, Some(&config), &empty_spec(), Some(&target)));
}

#[test]
fn test_sibling_rheo_toml_relevant_in_directory_mode() {
    assert!(is_relevant_path(&at("rheo.toml"), BUILD, None, &empty_spec(), None));
}

#[test]
fn test_single_file_target_and_asset_relevant_others_not() {
    let target = at("document.typ");
    let css = at("custom.css");
    let spec = WatchAssetSpec::new(vec![css.clone()], vec![], vec![]);
    assert!(is_relevant_path(&target, BUILD, None, &spec, Some(&target)));
    assert!(is_relevant_path(&css, BUILD, None, &spec, Some(&target)));
    assert!(!is_relevant_path(&at("other.typ"), BUILD, None, &spec, Some(&target)));
}

#[test]
fn fonts_and_only_fonts_rebuild_a_directory_project() {
    for f in ["a.ttf", "b.otf", "c.woff", "d.woff2"] {
        assert!(is_relevant_given(&at(f), None, BUILD, false, false, None), "{f}");
    }
    assert!(!is_relevant_given(&at("e.png"), None, BUILD, false, false, None));
    // The canonical form decides whether a path is under the build directory.
    assert!(!is_relevant_given(&at("x.typ"), Some(format!("{BUILD}/x.typ")), BUILD, true, true, None));
}

#[test]
fn copy_globs_skip_what_does_not_compile_and_keep_separators_literal() {
    let globs = CopyGlobs::compile(ROOT, &vec!["a/{b".to_string(), "img/*.png".to_string()]).expect("one compiles");
    assert_eq!(globs.matches(&at("img/x.png")), vec![0]);
    assert!(!globs.is_match(&at("img/sub/x.png")));
    assert!(CopyGlobs::compile(ROOT, &vec!["a/{b".to_string()]).is_none());
}

#[test]
fn glob_copies_keep_the_relative_path_under_the_prefix() {
    let globs = CopyGlobs::compile(ROOT, &vec!["images/**".to_string()]).unwrap();
    let files = vec![at("images/logo.png"), at("docs/a.md"), at("images/icons/x.svg")];
    let plan = plan_glob_copies(&files, &globs, ROOT, "/out/html", Some("static"));
    assert_eq!(
        plan,
        vec![
            (at("images/logo.png"), "/out/html/static/images/logo.png".to_string()),
            (at("images/icons/x.svg"), "/out/html/static/images/icons/x.svg".to_string()),
        ]
    );
    let plain = plan_glob_copies(&files, &globs, ROOT, "/out/pdf", None);
    assert_eq!(plain[0].1, "/out/pdf/images/logo.png");
}

// ─── Debounce ───────────────────────────────────────────────────────────────

#[test]
fn the_poll_interval_is_well_under_the_quiet_window() {
    assert!(DEBOUNCE_POLL_MS < DEBOUNCE_QUIET_MS);
    assert!(DEBOUNCE_QUIET_MS < DEBOUNCE_MAX_MS);
}

#[test]
fn a_batch_fires_once_quiet() {
    let mut d = Debounce::new(0);
    assert_eq!(d.poll(1000), None);
    d.record(100, false);
    d.record(140, false);
    assert!(d.pending());
    assert_eq!(d.poll(200), None);
    assert_eq!(d.poll(290), Some(WatchEvent::FilesChanged));
    assert!(!d.pending());
    assert_eq!(d.poll(5000), None);
}

#[test]
fn a_steady_stream_fires_by_the_ceiling() {
    let mut d = Debounce::new(0);
    let mut t = 0;
    let mut fired_at = None;
    while t <= 2000 {
        d.record(t, false);
        if let Some(e) = d.poll(t) {
            assert_eq!(e, WatchEvent::FilesChanged);
            fired_at = Some(t);
            break;
        }
        t += 40;
    }
    assert_eq!(fired_at, Some(760));
}

#[test]
fn a_config_change_subsumes_file_changes() {
    let mut d = Debounce::new(0);
    d.record(10, false);
    d.record(20, true);
    d.record(30, false);
    assert_eq!(d.poll(180), Some(WatchEvent::ConfigChanged));
    d.record(300, false);
    assert_eq!(d.poll(450), Some(WatchEvent::FilesChanged));
}

#[test]
fn a_glob_set_that_builds_is_used_and_none_compiled_copies_nothing() {
    let globs = CopyGlobs::compile("/p", &vec!["*.css".to_string()]);
    assert!(globs.is_some());
    assert!(CopyGlobs::compile("/p", &vec!["[".to_string()]).is_none());
}

#[test]
fn parents_follow_path_components() {
    assert_eq!(parent_of("/p/content/a.typ"), Some("/p/content".to_string()));
    assert_eq!(parent_of("a.typ"), Some(String::new()));
    assert_eq!(parent_of("./a"), Some(".".to_string()));
    assert_eq!(parent_of("a//b/"), Some("a".to_string()));
    assert_eq!(parent_of("/a"), Some("/".to_string()));
    assert_eq!(parent_of("/"), None);
    assert_eq!(parent_of(""), None);
}

#[test]
fn the_watch_covers_the_project_packages_and_an_outside_config() {
    let view = |dirs: Vec<rheo::watch::WatchDir>| -> Vec<(String, bool, bool)> {
        dirs.into_iter().map(|w| (w.path, w.recursive, w.required)).collect()
    };
    let single = watch_plan(Some("/p/doc.typ"), "/p", &vec!["/cache/pkg".to_string()], Some("/home/rheo.toml")).unwrap();
    assert_eq!(
        view(single),
        vec![
            ("/p".to_string(), false, true),
            ("/cache/pkg".to_string(), true, false),
            ("/home".to_string(), false, false),
        ]
    );
    let dir = watch_plan(None, "/p", &Vec::new(), Some("/p/rheo.toml")).unwrap();
    assert_eq!(view(dir), vec![("/p".to_string(), true, true)]);
    match watch_plan(Some("/"), "/p", &Vec::new(), None) {
        Err(rheo::RheoError::ProjectConfig { message }) => assert_eq!(message, "file has no parent directory"),
        other => panic!("unexpected {:?}", other.map(view)),
    }
}
