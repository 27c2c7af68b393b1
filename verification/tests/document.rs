use rheo::migrate::document::migrate_manifest;
use rheo::RheoError;

fn migrated(text: &str, sites: Vec<(Option<String>, Vec<String>)>) -> String {
    migrate_manifest("rheo.toml", text, "0.4.0", &sites).unwrap().to_string()
}

#[test]
fn bump_version_preserves_formatting() {
    let original = "# a leading comment\nversion = \"0.3.0\"\ncontent_dir = \"pages\"\n\n[pdf.spine]\nvertebrae = [\"a.typ\"]\ntitle = \"Book\"\n";
    let updated = migrated(original, Vec::new());
    assert!(updated.starts_with("# a leading comment\n"));
    assert!(updated.contains("content_dir = \"pages\""));
    assert!(updated.contains("title = \"Book\""));
    assert!(updated.contains("version = \"0.4.0\""));
    assert!(!updated.contains("0.3.0"));
}

#[test]
fn vertebrae_migration_excludes_files_the_old_list_never_named() {
    let updated = migrated(
        "version = \"0.3.0\"\ncontent_dir = \"content\"\n\n[epub.spine]\ntitle = \"Book\"\nvertebrae = [\"main.typ\"]\n",
        vec![(Some("epub".to_string()), vec!["lib/helper.typ".to_string()])],
    );
    assert!(!updated.contains("vertebrae"), "{updated}");
    assert!(updated.contains("exclude"), "{updated}");
    assert!(updated.contains("lib/helper.typ"), "{updated}");
    assert!(updated.contains("title = \"Book\""), "{updated}");
}

#[test]
fn vertebrae_migration_drops_key_with_no_exclude_when_nothing_new_included() {
    let updated = migrated(
        "version = \"0.3.0\"\ncontent_dir = \"content\"\n\n[pdf.spine]\nvertebrae = [\"*.typ\"]\n",
        vec![(Some("pdf".to_string()), Vec::new())],
    );
    assert!(!updated.contains("vertebrae"), "{updated}");
    assert!(!updated.contains("exclude"), "{updated}");
}

#[test]
fn an_existing_exclude_gains_only_new_files() {
    let updated = migrated(
        "version = \"0.3.0\"\n\n[spine]\nvertebrae = [\"a.typ\"]\nexclude = [\"b.typ\"]\n",
        vec![(None, vec!["b.typ".to_string(), "c.typ".to_string(), "c.typ".to_string()])],
    );
    let doc: toml::Table = updated.parse().unwrap();
    let spine = doc["spine"].as_table().unwrap();
    assert!(spine.get("vertebrae").is_none());
    let exclude: Vec<&str> = spine["exclude"].as_array().unwrap().iter().map(|v| v.as_str().unwrap()).collect();
    assert_eq!(exclude, vec!["b.typ", "c.typ"]);
    assert_eq!(doc["version"].as_str(), Some("0.4.0"));
}

#[test]
fn a_site_without_its_table_changes_nothing_but_the_version() {
    let updated = migrated("version = \"0.3.0\"\ntitle = \"x\"\n", vec![(Some("pdf".to_string()), vec!["a.typ".to_string()])]);
    assert_eq!(updated, "version = \"0.4.0\"\ntitle = \"x\"\n");
}

#[test]
fn an_unparseable_manifest_names_its_path() {
    match migrate_manifest("proj/rheo.toml", "version = ", "0.4.0", &Vec::new()) {
        Err(RheoError::ProjectConfig { message }) => assert!(message.starts_with("failed to parse proj/rheo.toml: "), "{message}"),
        Err(other) => panic!("unexpected {:?}", other),
        Ok(_) => panic!("expected a parse error"),
    }
}
