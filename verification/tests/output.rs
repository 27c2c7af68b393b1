use rheo::output::OutputConfig;
use std::path::PathBuf;

#[test]
fn test_output_config_new() {
    let project_root = "/home/user/my-book";
    let config = OutputConfig::new(project_root, None);

    assert_eq!(PathBuf::from(&config.base), PathBuf::from("/home/user/my-book/build"));
    assert_eq!(
        PathBuf::from(config.dir_for_plugin("pdf")),
        PathBuf::from("/home/user/my-book/build/pdf")
    );
    assert_eq!(
        PathBuf::from(config.dir_for_plugin("html")),
        PathBuf::from("/home/user/my-book/build/html")
    );
    assert_eq!(
        PathBuf::from(config.dir_for_plugin("epub")),
        PathBuf::from("/home/user/my-book/build/epub")
    );
}

#[test]
fn test_output_config_custom_build_dir() {
    let project_root = "/home/user/my-book";
    let custom_build = "/tmp/rheo-output".to_string();
    let config = OutputConfig::new(project_root, Some(custom_build));

    assert_eq!(PathBuf::from(&config.base), PathBuf::from("/tmp/rheo-output"));
    assert_eq!(
        PathBuf::from(config.dir_for_plugin("pdf")),
        PathBuf::from("/tmp/rheo-output/pdf")
    );
    assert_eq!(
        PathBuf::from(config.dir_for_plugin("html")),
        PathBuf::from("/tmp/rheo-output/html")
    );
    assert_eq!(
        PathBuf::from(config.dir_for_plugin("epub")),
        PathBuf::from("/tmp/rheo-output/epub")
    );
}

#[test]
fn a_trailing_slash_root_gets_no_double_separator() {
    let config = OutputConfig::new("/proj/", None);
    assert_eq!(config.base, "/proj/build");
    assert_eq!(config.dir_for_plugin("html"), "/proj/build/html");
}
