use rheo::config::decode::decode_section;
use rheo::config::project::{PluginSection, RheoConfig, TomlValue};
use rheo::config::{Spine, ValidateConfig};
use rheo::RheoError;

fn versioned_toml(rest: &str) -> String {
    format!("version = \"0.1.0\"\n{}", rest)
}

fn parse(toml: &str) -> RheoConfig {
    RheoConfig::from_toml_str(toml, "rheo.toml").expect("parse failed")
}

fn message(e: RheoError) -> String {
    match e {
        RheoError::ProjectConfig { message } => message,
        other => panic!("unexpected error {:?}", other),
    }
}

fn section<'a>(config: &'a RheoConfig, name: &str) -> Option<&'a PluginSection> {
    config.plugin_section_ref(name)
}

fn extra_str<'a>(entries: &'a [(String, TomlValue)], key: &str) -> Option<&'a str> {
    entries.iter().find(|(k, _)| k == key).and_then(|(_, v)| v.as_str())
}

fn extra_array<'a>(entries: &'a [(String, TomlValue)], key: &str) -> Option<&'a Vec<TomlValue>> {
    entries.iter().find(|(k, _)| k == key).and_then(|(_, v)| v.as_array())
}

#[test]
fn test_config_missing_version_field() {
    let toml = r#"
        content_dir = "content"
        formats = ["pdf"]
        "#;
    let result = RheoConfig::from_toml_str(toml, "rheo.toml");
    assert!(result.is_err());
    let err_msg = message(result.unwrap_err());
    assert!(err_msg.contains("missing field") || err_msg.contains("version"));
}

#[test]
fn test_formats_from_config() {
    let config = parse(&versioned_toml(r#"formats = ["pdf"]"#));
    assert_eq!(config.formats, vec!["pdf"]);
}

#[test]
fn test_reset_footnotes_defaults_true_and_honors_false_per_format() {
    let config = parse(&versioned_toml(r#"formats = ["html"]"#));
    assert!(section(&config, "html").is_none());
    assert!(PluginSection::default().reset_footnotes());

    let config = parse(&versioned_toml("[html]\nreset_footnotes = false\n[epub]\n"));
    assert!(!section(&config, "html").unwrap().reset_footnotes());
    assert!(section(&config, "epub").unwrap().reset_footnotes());

    let config = parse(&versioned_toml("[html]\nreset_footnotes = true\n"));
    assert!(section(&config, "html").unwrap().reset_footnotes());
}

#[test]
fn test_marrow_prologue_defaults_false_and_honors_true() {
    let config = parse(&versioned_toml(""));
    assert!(!config.marrow_prologue());

    let config = parse(&versioned_toml("marrow_prologue = true"));
    assert!(config.marrow_prologue());

    let config = parse(&versioned_toml("marrow_prologue = false"));
    assert!(!config.marrow_prologue());
}

#[test]
fn test_formats_defaults_when_not_specified() {
    let config = parse(&versioned_toml(""));
    assert!(config.formats.is_empty());
}

#[test]
fn test_formats_multiple_values() {
    let config = parse(&versioned_toml(r#"formats = ["html", "epub"]"#));
    assert_eq!(config.formats, vec!["html", "epub"]);
}

#[test]
fn test_formats_stored_as_given() {
    let config = parse(&versioned_toml(r#"formats = ["pdf", "html", "epub"]"#));
    assert_eq!(config.formats, vec!["pdf", "html", "epub"]);
}

#[test]
fn test_load_from_path_invalid_toml() {
    let result = RheoConfig::from_toml_str("[this is not valid toml", "config file");
    assert!(result.is_err());
    let err_msg = message(result.unwrap_err());
    assert!(err_msg.contains("invalid config file"));
}

#[test]
fn test_html_section_defaults() {
    let config = RheoConfig::defaults("0.1.0");
    assert!(section(&config, "html").is_none());
    let s = PluginSection::default();
    assert!(s.spine.is_none());
    assert!(s.assets.is_none());
    assert!(s.extra.is_empty());
}

#[test]
fn test_html_section_custom_stylesheets() {
    let config = parse(&versioned_toml("[html]\nstylesheets = [\"custom.css\", \"theme.css\"]"));
    let s = section(&config, "html").unwrap();
    let sheets = extra_array(&s.extra, "stylesheets").unwrap();
    assert_eq!(sheets.len(), 2);
    assert_eq!(sheets[0].as_str().unwrap(), "custom.css");
    assert_eq!(sheets[1].as_str().unwrap(), "theme.css");
}

#[test]
fn test_html_section_custom_fonts() {
    let config = parse(&versioned_toml("[html]\nfonts = [\"https://example.com/font.css\"]"));
    let s = section(&config, "html").unwrap();
    let fonts = extra_array(&s.extra, "fonts").unwrap();
    assert_eq!(fonts[0].as_str().unwrap(), "https://example.com/font.css");
}

#[test]
fn test_pdf_spine_parses_title() {
    let config = parse(&versioned_toml("[pdf.spine]\ntitle = \"My Book\"\nmerge = true"));
    let spine = config.spine_for_plugin("pdf").unwrap();
    assert_eq!(spine.title.as_ref().unwrap(), "My Book");
}

#[test]
fn test_epub_spine() {
    let config = parse(&versioned_toml("[epub.spine]\ntitle = \"My EPUB\""));
    let spine = config.spine_for_plugin("epub").unwrap();
    assert_eq!(spine.title.as_deref().unwrap(), "My EPUB");
}

#[test]
fn test_html_spine() {
    let config = parse(&versioned_toml("[html.spine]\ntitle = \"My Website\""));
    let spine = config.spine_for_plugin("html").unwrap();
    assert_eq!(spine.title.as_ref().unwrap(), "My Website");
}

#[test]
fn test_has_format() {
    let config = parse(&versioned_toml(r#"formats = ["html", "pdf"]"#));
    assert!(config.has_format("html"));
    assert!(config.has_format("pdf"));
    assert!(!config.has_format("epub"));
}

#[test]
fn test_epub_identifier_and_date() {
    let config = parse(&versioned_toml("[epub]\nidentifier = \"urn:uuid:12345\"\ndate = 2025-01-15T00:00:00Z"));
    let s = section(&config, "epub").unwrap();
    assert_eq!(extra_str(&s.extra, "identifier"), Some("urn:uuid:12345"));
    assert!(s.extra.iter().any(|(k, _)| k == "date"));
}

#[test]
fn test_global_copy_parses() {
    let config = parse(&versioned_toml(r#"copy = ["*.txt", "assets/**/*.png"]"#));
    assert_eq!(config.copy, vec!["*.txt", "assets/**/*.png"]);
}

#[test]
fn test_global_copy_defaults_empty() {
    let config = parse(&versioned_toml(""));
    assert!(config.copy.is_empty());
}

#[test]
fn test_plugin_copy_parses() {
    let config = parse(&versioned_toml("[html.assets]\ncopy = [\"assets/logo.png\", \"fonts/**\"]"));
    let s = section(&config, "html").unwrap();
    assert_eq!(s.asset_blocks()[0].copy, vec!["assets/logo.png", "fonts/**"]);
}

#[test]
fn test_plugin_copy_not_in_extra() {
    let config = parse(&versioned_toml("[html.assets]\ncopy = [\"assets/logo.png\"]"));
    let s = section(&config, "html").unwrap();
    assert!(!s.asset_blocks()[0].extra.iter().any(|(k, _)| k == "copy"));
}

#[test]
fn test_plugin_copy_defaults_empty() {
    let config = parse(&versioned_toml("[html]\nstylesheets = [\"style.css\"]"));
    let s = section(&config, "html").unwrap();
    assert!(s.assets.is_none());
}

#[test]
fn test_get_string_returns_string_value() {
    let config = parse(&versioned_toml("[html.assets]\ncss_stylesheet = \"custom.css\""));
    let s = section(&config, "html").unwrap();
    assert_eq!(s.get_string("css_stylesheet"), Some("custom.css"));
}

#[test]
fn test_get_string_returns_none_for_missing_key() {
    let config = parse(&versioned_toml("[html]"));
    let s = section(&config, "html").unwrap();
    assert_eq!(s.get_string("nonexistent"), None);
}

#[test]
fn test_get_string_returns_none_for_non_string_value() {
    let config = parse(&versioned_toml("[html.assets]\ncss_stylesheet = [\"a\", \"b\"]"));
    let s = section(&config, "html").unwrap();
    assert_eq!(s.get_string("css_stylesheet"), None);
}

#[test]
fn test_font_dirs_parses() {
    let config = parse(&versioned_toml(r#"font_dirs = ["fonts", "custom/typefaces"]"#));
    assert_eq!(config.font_dirs, vec!["fonts", "custom/typefaces"]);
}

#[test]
fn test_font_dirs_defaults_empty() {
    let config = parse(&versioned_toml(""));
    assert!(config.font_dirs.is_empty());
}

#[test]
fn test_resolve_font_dirs_resolves_relative() {
    let config = parse(&versioned_toml(r#"font_dirs = ["fonts"]"#));
    let resolved = config.resolve_font_dirs("/project");
    assert_eq!(resolved, vec!["/project/fonts".to_string()]);
}

#[test]
fn test_assets_array_of_tables_parses() {
    let config = parse(&versioned_toml(
        "[[html.assets]]\njs_scripts = \"one.js\"\n[[html.assets]]\njs_scripts = \"two.js\"",
    ));
    let s = section(&config, "html").unwrap();
    assert_eq!(s.asset_blocks().len(), 2);
    assert_eq!(s.get_strings("js_scripts"), vec!["one.js", "two.js"]);
}

#[test]
fn test_assets_single_table_still_parses() {
    let config = parse(&versioned_toml("[html.assets]\njs_scripts = \"one.js\""));
    let s = section(&config, "html").unwrap();
    assert_eq!(s.asset_blocks().len(), 1);
    assert_eq!(s.get_string("js_scripts"), Some("one.js"));
}

#[test]
fn test_get_strings_collects_across_blocks() {
    let config = parse(&versioned_toml(
        "[[html.assets]]\ncss_stylesheet = \"a.css\"\n[[html.assets]]\ncss_stylesheet = \"b.css\"",
    ));
    let s = section(&config, "html").unwrap();
    assert_eq!(s.get_strings("css_stylesheet"), vec!["a.css", "b.css"]);
}

#[test]
fn test_get_string_returns_first_match_across_blocks() {
    let config = parse(&versioned_toml(
        "[[html.assets]]\ncss_stylesheet = \"first.css\"\n[[html.assets]]\ncss_stylesheet = \"second.css\"",
    ));
    let s = section(&config, "html").unwrap();
    assert_eq!(s.get_string("css_stylesheet"), Some("first.css"));
}

#[test]
fn test_asset_blocks_empty_when_no_assets_field() {
    let config = parse(&versioned_toml("[html]\nstylesheets = [\"style.css\"]"));
    let s = section(&config, "html").unwrap();
    assert!(s.asset_blocks().is_empty());
}

#[test]
fn test_dest_field_parses() {
    let config = parse(&versioned_toml("[html.assets]\ndest = \"allassets\"\ncss_stylesheet = \"custom.css\""));
    let s = section(&config, "html").unwrap();
    let blocks = s.asset_blocks();
    assert_eq!(blocks.len(), 1);
    assert_eq!(blocks[0].dest.as_deref(), Some("allassets"));
}

#[test]
fn test_dest_defaults_to_none() {
    let config = parse(&versioned_toml("[html.assets]\ncss_stylesheet = \"custom.css\""));
    let s = section(&config, "html").unwrap();
    assert!(s.asset_blocks()[0].dest.is_none());
}

#[test]
fn test_get_strings_with_block_returns_pairs() {
    let config = parse(&versioned_toml(
        "[[html.assets]]\njs_scripts = \"one.js\"\ndest = \"subdir\"\n[[html.assets]]\njs_scripts = \"two.js\"",
    ));
    let s = section(&config, "html").unwrap();
    let pairs = s.get_strings_with_block("js_scripts");
    assert_eq!(pairs.len(), 2);
    assert_eq!(pairs[0].1, "one.js");
    assert_eq!(pairs[0].0.dest.as_deref(), Some("subdir"));
    assert_eq!(pairs[1].1, "two.js");
    assert!(pairs[1].0.dest.is_none());
}

#[test]
fn test_global_spine_exclude_and_nested_sections() {
    let config = parse(&versioned_toml(
        r#"
        [spine]
        exclude = ["drafts/**", "*.tmp.typ"]

        [[spine.section]]
        name = "guides"

        [[spine.section.section]]
        name = "advanced"
        "#,
    ));
    let spine = config.spine.as_ref().unwrap();
    assert_eq!(spine.exclude.clone().unwrap(), vec!["drafts/**", "*.tmp.typ"]);
    let sections = spine.section.as_ref().unwrap();
    assert_eq!(sections.len(), 1);
    assert_eq!(sections[0].name, "guides");
    assert_eq!(sections[0].section.len(), 1);
    assert_eq!(sections[0].section[0].name, "advanced");
    assert!(section(&config, "spine").is_none());
}

#[test]
fn test_pdf_spine_exclude_and_section() {
    let config = parse(&versioned_toml(
        r#"
        [pdf.spine]
        exclude = ["scratch/**"]

        [[pdf.spine.section]]
        name = "appendix"
        include = ["appendix/*.typ"]
        "#,
    ));
    let spine = config.spine_for_plugin("pdf").unwrap();
    assert_eq!(spine.exclude.clone().unwrap(), vec!["scratch/**"]);
    let sections = spine.section.as_ref().unwrap();
    assert_eq!(sections.len(), 1);
    assert_eq!(sections[0].name, "appendix");
    assert_eq!(sections[0].include_globs, vec!["appendix/*.typ"]);
}

#[test]
fn test_legacy_vertebrae_only_config_still_parses() {
    let config = parse(&versioned_toml("[pdf.spine]\nvertebrae = [\"cover.typ\", \"chapters/*.typ\"]"));
    let spine = config.spine_for_plugin("pdf").unwrap();
    assert!(spine.extra_keys.contains(&"vertebrae".to_string()));
    assert!(spine.exclude.is_none());
    assert!(spine.section.is_none());
}

#[test]
fn test_spine_section_title_defaults_to_none() {
    let table = TomlValue::Table(vec![
        ("name".to_string(), TomlValue::Str("guides".to_string())),
        ("include".to_string(), TomlValue::Array(vec![TomlValue::Str("guides/*.typ".to_string())])),
    ]);
    let s = decode_section(table).expect("parse failed");
    assert_eq!(s.name, "guides");
    assert!(s.title.is_none());
    assert!(s.include_globs.len() == 1);
    assert!(s.section.is_empty());
}

#[test]
fn spine_section_without_a_name_is_rejected() {
    let table = TomlValue::Table(vec![("title".to_string(), TomlValue::Str("Guides".to_string()))]);
    assert!(decode_section(table).is_none());
}

#[test]
fn wrongly_typed_key_names_the_key() {
    let err = message(RheoConfig::from_toml_str(&versioned_toml("content_dir = 3"), "rheo.toml").unwrap_err());
    assert_eq!(err, "invalid rheo.toml: wrong type or shape for `content_dir`");
    let err = message(RheoConfig::from_toml_str(&versioned_toml("[html]\nreset_footnotes = \"no\""), "rheo.toml").unwrap_err());
    assert_eq!(err, "invalid rheo.toml: wrong type or shape for `html`");
}

#[test]
fn missing_version_is_named_exactly() {
    let err = message(RheoConfig::from_toml_str("formats = [\"pdf\"]", "rheo.toml").unwrap_err());
    assert_eq!(err, "invalid rheo.toml: missing field `version`");
}

#[test]
fn scalar_under_unknown_key_is_ignored() {
    let config = parse(&versioned_toml("unknown = 3"));
    assert!(config.plugin_sections.is_empty());
}

#[test]
fn spine_setting_both_orders_fails_validation() {
    let err = message(
        RheoConfig::from_toml_str(
            &versioned_toml("[spine]\ninclude = [\"a.typ\"]\n[[spine.section]]\nname = \"s\""),
            "rheo.toml",
        )
        .unwrap_err(),
    );
    assert!(err.starts_with("[spine]: "));
    let ok = parse(&versioned_toml("[spine]\ninclude = [\"a.typ\"]"));
    assert!(ok.validate().is_ok());
    assert!(Spine::default().validate().is_ok());
}
