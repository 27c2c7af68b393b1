use rheo::html::{inject_head_links, inject_inline_styles, is_void_element, Element, HtmlDom, HtmlNode};

#[test]
fn test_inject_inline_styles_basic() {
    let html = "<!DOCTYPE html><html><head></head><body></body></html>";
    let result = inject_inline_styles(html, &["body { color: red; }"]).unwrap();
    assert!(result.contains("<style>body { color: red; }</style>"));
}

#[test]
fn test_inject_inline_styles_empty() {
    let html = "<!DOCTYPE html><html><head></head><body></body></html>";
    let result = inject_inline_styles(html, &[]).unwrap();
    assert_eq!(result, html);
}

#[test]
fn test_inject_inline_styles_no_head() {
    let html = "<html><body></body></html>";
    let result = inject_inline_styles(html, &["body {}"]);
    assert!(result.is_err());
}

#[test]
fn test_inject_head_links_basic() {
    let html = "<!DOCTYPE html><html><head><title>Test</title></head><body></body></html>";
    let result = inject_head_links(html, &[], &["style.css"], &[]).unwrap();

    assert!(result.contains("<head>"));
    assert!(result.contains("<title>Test</title>"));
    assert!(result.contains(r#"<link rel="stylesheet" href="style.css">"#));

    let head_pos = result.find("<head>").unwrap();
    let link_pos = result
        .find(r#"<link rel="stylesheet" href="style.css">"#)
        .unwrap();
    assert!(link_pos > head_pos);
}

#[test]
fn test_inject_head_links_multiple_stylesheets() {
    let html = "<!DOCTYPE html><html><head><title>Test</title></head><body></body></html>";
    let result = inject_head_links(html, &[], &["style.css", "custom.css"], &[]).unwrap();

    assert!(result.contains(r#"<link rel="stylesheet" href="style.css">"#));
    assert!(result.contains(r#"<link rel="stylesheet" href="custom.css">"#));

    let style_pos = result.find(r#"href="style.css"#).unwrap();
    let custom_pos = result.find(r#"href="custom.css"#).unwrap();
    assert!(style_pos < custom_pos);
}

#[test]
fn test_inject_head_links_with_fonts() {
    let html = "<!DOCTYPE html><html><head><title>Test</title></head><body></body></html>";
    let fonts = &["https://fonts.googleapis.com/css2?family=Inter"];
    let result = inject_head_links(html, fonts, &["style.css"], &[]).unwrap();

    assert!(result.contains(r#"<link rel="stylesheet" href="style.css">"#));
    assert!(result.contains(
        r#"<link rel="stylesheet" href="https://fonts.googleapis.com/css2?family=Inter">"#
    ));

    let font_pos = result.find(r#"fonts.googleapis.com"#).unwrap();
    let style_pos = result.find(r#"href="style.css"#).unwrap();
    assert!(font_pos < style_pos);
}

#[test]
fn test_inject_head_links_preserves_existing_content() {
    let html = r#"<!DOCTYPE html>
<html>
<head>
<title>Test</title>
<meta charset="UTF-8">
<meta name="viewport" content="width=device-width, initial-scale=1.0">
</head>
<body></body>
</html>"#;
    let result = inject_head_links(html, &[], &["style.css"], &[]).unwrap();

    assert!(result.contains("<title>Test</title>"));
    assert!(result.contains(r#"<meta charset="UTF-8">"#));
    assert!(result.contains(r#"<meta name="viewport""#));
    assert!(result.contains(r#"<link rel="stylesheet" href="style.css">"#));

    let last_meta_pos = result.find(r#"<meta name="viewport""#).unwrap();
    let link_pos = result.find(r#"<link rel="stylesheet" href="style.css">"#).unwrap();
    assert!(link_pos > last_meta_pos, "link should appear after meta tags");
}

#[test]
fn test_inject_head_links_no_head_element() {
    // html5ever automatically creates a <head> element per HTML5 spec
    let html = "<!DOCTYPE html><html><body></body></html>";
    let result = inject_head_links(html, &[], &["style.css"], &[]);

    assert!(result.is_ok());
    let html_output = result.unwrap();
    assert!(html_output.contains(r#"<link rel="stylesheet" href="style.css">"#));
}

#[test]
fn test_inject_head_links_empty_lists() {
    let html = "<!DOCTYPE html><html><head><title>Test</title></head><body></body></html>";
    let result = inject_head_links(html, &[], &[], &[]).unwrap();

    assert!(result.contains("<title>Test</title>"));
    assert!(!result.contains(r#"<link rel="stylesheet""#));
}

#[test]
fn test_inject_head_links_with_scripts() {
    let html = "<!DOCTYPE html><html><head><title>Test</title></head><body></body></html>";
    let result = inject_head_links(html, &[], &[], &["index.js"]).unwrap();

    assert!(result.contains(r#"src="index.js""#));
    assert!(result.contains("defer"));
}

#[test]
fn test_inject_head_links_scripts_with_stylesheets() {
    let html = "<!DOCTYPE html><html><head><title>Test</title></head><body></body></html>";
    let result = inject_head_links(html, &[], &["style.css"], &["index.js"]).unwrap();

    assert!(result.contains(r#"src="index.js""#));
    assert!(result.contains("defer"));
    assert!(result.contains(r#"<link rel="stylesheet" href="style.css">"#));
}

#[test]
fn test_inject_head_links_no_scripts() {
    let html = "<!DOCTYPE html><html><head><title>Test</title></head><body></body></html>";
    let result = inject_head_links(html, &[], &["style.css"], &[]).unwrap();

    assert!(!result.contains("<script"));
}

// ─── Further cases ──────────────────────────────────────────────────────────

#[test]
fn test_parse_html() {
    let html = "<!DOCTYPE html><html><head></head><body><p>Hello</p></body></html>";
    let dom = HtmlDom::parse(html);
    assert!(dom.is_ok());
}

#[test]
fn test_find_element() {
    let html = "<!DOCTYPE html><html><head><title>Test</title></head><body></body></html>";
    let dom = HtmlDom::parse(html).unwrap();
    assert!(dom.find_element("head").is_some());
    assert!(dom.find_element("title").is_some());
}

#[test]
fn test_find_element_not_found() {
    let html = "<!DOCTYPE html><html><head></head><body></body></html>";
    let dom = HtmlDom::parse(html).unwrap();
    assert!(dom.find_element("nonexistent").is_none());
}

#[test]
fn test_serialize_html() {
    let html = "<!DOCTYPE html><html><head></head><body><p>Hello</p></body></html>";
    let dom = HtmlDom::parse(html).unwrap();
    let serialized = dom.serialize().unwrap();
    assert!(serialized.contains("<html>"));
    assert!(serialized.contains("<p>Hello</p>"));
}

#[test]
fn test_create_link_element() {
    let link = Element::create_link("stylesheet", "style.css");
    assert_eq!(link.tag_name(), "link");
    assert_eq!(link.serialize(), r#"<link rel="stylesheet" href="style.css">"#);
}

#[test]
fn script_elements_are_deferred() {
    let script = Element::create_script("app.js");
    assert_eq!(script.tag_name(), "script");
    assert_eq!(script.serialize(), r#"<script src="app.js" defer=""></script>"#);
}

#[test]
fn void_elements_have_no_closing_tag() {
    for tag in ["area", "base", "br", "col", "embed", "hr", "img", "input", "link", "meta", "source", "track", "wbr"] {
        assert!(is_void_element(tag), "{tag}");
    }
    assert!(!is_void_element("div"));
    assert!(!is_void_element("script"));
}

#[test]
fn text_is_escaped_and_attributes_written_verbatim() {
    let tree = HtmlNode::Document {
        children: vec![HtmlNode::Element {
            name: "p".to_string(),
            attrs: vec![("title".to_string(), "a\"b&c".to_string())],
            children: vec![HtmlNode::Text { contents: "1 < 2 & 3 > 2".to_string() }],
        }],
    };
    let dom = HtmlDom::from_tree(tree);
    assert_eq!(
        dom.serialize().unwrap(),
        "<p title=\"a\"b&c\">1 &lt; 2 &amp; 3 &gt; 2</p>"
    );
}

#[test]
fn links_land_after_the_last_meta_in_order() {
    let html = "<!DOCTYPE html><html><head><meta charset=\"UTF-8\"><title>T</title></head><body></body></html>";
    let out = inject_head_links(html, &["f.css"], &["s.css"], &["a.js"]).unwrap();
    assert_eq!(
        out,
        "<!DOCTYPE html><html><head><meta charset=\"UTF-8\"><link rel=\"stylesheet\" href=\"f.css\"><link rel=\"stylesheet\" href=\"s.css\"><script src=\"a.js\" defer=\"\"></script><title>T</title></head><body></body></html>"
    );
}

#[test]
fn several_style_blocks_go_in_order_before_the_head_closes() {
    let html = "<html><head><title>x</title></head><body></body></html>";
    let out = inject_inline_styles(html, &["a{}", "b{}"]).unwrap();
    assert_eq!(
        out,
        "<html><head><title>x</title><style>a{}</style><style>b{}</style></head><body></body></html>"
    );
}
