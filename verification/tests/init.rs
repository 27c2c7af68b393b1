use rheo::init::{check_init_target, prefix_toml_headers};
use rheo::RheoError;

#[test]
fn an_indented_header_is_left_alone() {
    assert_eq!(prefix_toml_headers("  [spine]", "html"), "  [spine]");
    assert_eq!(prefix_toml_headers("[spine]\n\t[[items]]", "html"), "[html.spine]\n\t[[items]]");
}

#[test]
fn bare_headers_are_nested_once() {
    let once = prefix_toml_headers("[spine]\n[[pages]]\nkey = 1", "epub");
    assert_eq!(once, "[epub.spine]\n[[epub.pages]]\nkey = 1");
    assert_eq!(prefix_toml_headers(&once, "epub"), once);
}

#[test]
fn init_refuses_an_existing_directory() {
    assert!(check_init_target("book", false).is_ok());
    match check_init_target("book", true) {
        Err(RheoError::ProjectConfig { message }) => assert_eq!(message, "directory 'book' already exists"),
        other => panic!("unexpected {:?}", other),
    }
}
