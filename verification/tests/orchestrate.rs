use rheo::assets::{asset_outcome, register_embedded, register_output};
use rheo::orchestrate::{compilation_outcome, output_target, plan_plugin_inputs, require_sources, resolve_build_dir};
use rheo::plugins::PluginInput;
use rheo::results::CompilationResults;
use rheo::RheoError;

fn config_message(e: RheoError) -> String {
    match e {
        RheoError::ProjectConfig { message } => message,
        other => panic!("unexpected error {:?}", other),
    }
}

#[test]
fn cli_build_dir_wins_over_the_configured_one() {
    let configured = Some("out".to_string());
    assert_eq!(resolve_build_dir("/proj", &configured, Some("cli"), "/cwd"), Some("/cwd/cli".to_string()));
    assert_eq!(resolve_build_dir("/proj", &configured, Some("/abs"), "/cwd"), Some("/abs".to_string()));
    assert_eq!(resolve_build_dir("/proj", &configured, None, "/cwd"), Some("/proj/out".to_string()));
    assert_eq!(resolve_build_dir("/proj", &None, None, "/cwd"), None);
}

#[test]
fn all_formats_succeeding_is_ok() {
    let mut results = CompilationResults::new();
    results.record_success("html");
    results.record_success("pdf");
    assert!(compilation_outcome(&results, &["html", "pdf"]).is_ok());
}

#[test]
fn a_partial_failure_is_named_as_such() {
    let mut results = CompilationResults::new();
    results.record_success("html");
    results.record_failure("pdf");
    let message = config_message(compilation_outcome(&results, &["html", "pdf"]).unwrap_err());
    assert_eq!(message, "some formats failed to compile");
}

#[test]
fn a_total_failure_is_named_as_such() {
    let mut results = CompilationResults::new();
    results.record_failure("html");
    let message = config_message(compilation_outcome(&results, &["html"]).unwrap_err());
    assert_eq!(message, "all formats failed or no files were compiled");
}

#[test]
fn present_inputs_are_copied_and_a_missing_required_one_fails() {
    let inputs = [
        PluginInput { name: "cover", path: "cover.png", required: false },
        PluginInput { name: "meta", path: "meta.xml", required: true },
        PluginInput { name: "extra", path: "extra.css", required: false },
    ];
    assert_eq!(plan_plugin_inputs("epub", &inputs, &[true, true, false]).unwrap(), vec![0, 1]);
    let message = config_message(plan_plugin_inputs("epub", &inputs, &[true, false, true]).unwrap_err());
    assert_eq!(message, "plugin 'epub' requires input 'meta' at 'meta.xml' but it was not found");
}

#[test]
fn a_second_writer_of_one_output_collides() {
    let mut seen: Vec<(String, String)> = Vec::new();
    assert!(register_output(&mut seen, "style.css", "/p/a/style.css").is_ok());
    let message = config_message(register_output(&mut seen, "style.css", "/p/b/style.css").unwrap_err());
    assert_eq!(message, "asset path collision: output 'style.css' would be written by both '/p/a/style.css' and '/p/b/style.css'");
    assert_eq!(seen.len(), 1);
    let message = config_message(register_embedded(&mut seen, "style.css", "css_stylesheet", "/out/style.css").unwrap_err());
    assert_eq!(message, "asset path collision: output 'style.css' would be written by both '/p/a/style.css' and the embedded default for 'css_stylesheet'");
    assert!(register_embedded(&mut seen, "tooltip.js", "js_scripts", "/out/tooltip.js").is_ok());
    assert_eq!(seen.len(), 2);
}

#[test]
fn a_required_asset_with_no_source_names_what_was_tried() {
    let tried = vec!["style.css".to_string(), "theme/style.css".to_string()];
    assert_eq!(asset_outcome(2, true, "html", "css_stylesheet", &tried).unwrap(), true);
    assert_eq!(asset_outcome(0, false, "html", "css_stylesheet", &tried).unwrap(), false);
    let message = config_message(asset_outcome(0, true, "html", "css_stylesheet", &tried).unwrap_err());
    assert_eq!(message, "plugin 'html' requires input 'css_stylesheet' but no source was found (tried: style.css, theme/style.css)");
}

#[test]
fn a_project_without_sources_is_refused() {
    assert_eq!(config_message(require_sources(0).unwrap_err()), "no .typ files found in project");
    assert!(require_sources(3).is_ok());
}

#[test]
fn a_merged_spine_writes_one_file_named_after_the_project() {
    assert_eq!(output_target("/build/pdf", "book", "pdf", true), "/build/pdf/book.pdf");
    assert_eq!(output_target("/build/pdf", "v1.2", "pdf", true), "/build/pdf/v1.pdf");
    assert_eq!(output_target("/build/html", "book", "html", false), "/build/html");
}
