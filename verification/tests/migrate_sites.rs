use rheo::migrate::sites::{
    context_shimmed, migrate_context_references, migrate_target_references, rewrite_target_references,
    LinkTarget, MigrationSource, RemovedBindingSite,
};
use rheo::reporter::Reporter;

fn source(path: &str, text: &str) -> MigrationSource {
    MigrationSource { path: path.to_string(), text: text.to_string(), dirty: false }
}

#[test]
fn rewrite_replaces_target_references() {
    let mut sources = vec![source(
        "content/page.typ",
        "#let fmt = rheo-target()\n\
         #if \"rheo-target\" in sys.inputs { sys.inputs.rheo-target }\n\
         = Unrelated Title\n",
    )];
    let (mut reporter, capture) = Reporter::capture();
    migrate_target_references(&mut sources, &mut reporter);
    let out = &sources[0].text;
    assert!(sources[0].dirty);
    assert!(out.contains("#let fmt = target()"));
    assert!(out.contains("\"rheo-context\" in sys.inputs and \"target\" in sys.inputs.rheo-context"));
    assert!(out.contains("{ sys.inputs.rheo-context.target }"));
    assert!(!out.contains("rheo-target"));
    assert!(out.contains("= Unrelated Title"));
    assert_eq!(
        capture.text(&reporter),
        "content/page.typ:1: rheo-target()  ->  target()\n\
         content/page.typ:2: \"rheo-target\" in sys.inputs  ->  \"rheo-context\" in sys.inputs and \"target\" in sys.inputs.rheo-context\n\
         content/page.typ:2: sys.inputs.rheo-target  ->  sys.inputs.rheo-context.target\n"
    );
}

#[test]
fn the_at_form_keeps_its_default() {
    let (text, sites) = rewrite_target_references(
        "#let a = sys.inputs.at(\"rheo-target\")\n#let b = sys.inputs.at(\"rheo-target\", default: \"html\")\n",
    );
    assert_eq!(
        text,
        "#let a = sys.inputs.rheo-context.at(\"target\")\n#let b = sys.inputs.rheo-context.at(\"target\", default: \"html\")\n"
    );
    assert_eq!(sites.len(), 2);
    assert_eq!(sites[1].old, "sys.inputs.at(\"rheo-target\", default: \"html\")");
    assert_eq!(sites[1].line, 2);
}

#[test]
fn unsupported_at_arguments_are_left_for_hand_fixing() {
    let src = "#let a = sys.inputs.at(\"rheo-target\", \"pdf\")\n";
    let (text, sites) = rewrite_target_references(src);
    assert_eq!(text, src);
    assert!(sites.is_empty());
}

#[test]
fn a_file_without_the_old_surface_is_not_marked_dirty() {
    let mut sources = vec![source("a.typ", "= Title\n#let x = target()\n")];
    let (mut reporter, capture) = Reporter::capture();
    migrate_target_references(&mut sources, &mut reporter);
    assert!(!sources[0].dirty);
    assert_eq!(sources[0].text, "= Title\n#let x = target()\n");
    assert_eq!(capture.text(&reporter), "");
}

#[test]
fn shims_files_that_read_the_context_binding() {
    let page = "#show: t.with(ctx: rheo-context)\n\
         This is #rheo-context.handle of #rheo-context.spine-flat.len() pages.\n\
         #if \"rheo-context\" in sys.inputs { sys.inputs.rheo-context.spine }\n\
         See #link(<rheo-context>)[the page], @rheo-context, and `rheo-context.target`.\n\
         = Unrelated Title\n";
    let link_only = "See #link(<rheo-context>)[the context page]; sys.inputs.rheo-context.spine.\n";
    let mut sources = vec![source("content/page.typ", page), source("content/link_only.typ", link_only)];
    let (mut reporter, capture) = Reporter::capture();
    migrate_context_references(&mut sources, &mut reporter);

    let out = &sources[0].text;
    assert!(out.starts_with("#let rheo-context = rheo-context()\n"));
    assert_eq!(out.matches("#let rheo-context = rheo-context()").count(), 1);
    assert!(out.contains("#show: t.with(ctx: rheo-context)\n"));
    assert!(out.contains("#rheo-context.handle of #rheo-context.spine-flat.len()"));
    assert!(out.contains("\"rheo-context\" in sys.inputs"));
    assert!(out.contains("sys.inputs.rheo-context.spine"));
    assert!(out.contains("#link(<rheo-context>)"));
    assert!(out.contains("@rheo-context,"));
    assert!(out.contains("`rheo-context.target`"));
    assert!(out.contains("= Unrelated Title"));
    assert!(sources[0].dirty);

    assert_eq!(sources[1].text, link_only);
    assert!(!sources[1].dirty);
    assert_eq!(
        capture.text(&reporter),
        "content/page.typ: prepend `#let rheo-context = rheo-context()` compatibility shim\n"
    );
}

#[test]
fn an_already_shimmed_file_is_left_alone() {
    let text = "#let rheo-context = rheo-context()\n#rheo-context.handle\n";
    assert_eq!(context_shimmed(text), None);
}

#[test]
fn link_targets_are_typ_string_arguments_of_link() {
    let src = "See #link(\"./intro.typ\")[intro], #link(\"https://x.org\")[web]\n// #link(\"c.typ\")\n";
    let links = LinkTarget::collect(src);
    assert_eq!(links.len(), 1);
    assert_eq!(links[0].href, "./intro.typ");
    assert_eq!(&src[links[0].start..links[0].end], "\"./intro.typ\"");
    assert_eq!(&src[links[0].call_start..links[0].call_start + 5], "link(");
}

#[test]
fn retired_bindings_are_found_through_patterns() {
    let src = "#let rheo-feed-title = \"T\"\n#let (a, rheo-author) = (1, 2)\n#let rheo-feed-updated() = 1\n#let other = 3\n";
    let sites = RemovedBindingSite::collect(src);
    let found: Vec<(&str, usize)> = sites.iter().map(|s| (s.name.as_str(), s.line)).collect();
    assert_eq!(found, vec![("rheo-feed-title", 1), ("rheo-author", 2), ("rheo-feed-updated", 3)]);
    assert_eq!(sites[1].replacement, "use `#set document(author: \"...\")` instead");
}

#[test]
fn removed_feed_surface_is_reported_not_rewritten() {
    let config = rheo::config::project::RheoConfig::from_toml_str(
        "version = \"0.1.0\"\n[html]\nfeed_title = \"Blog\"\nstylesheets = []\n",
        "rheo.toml",
    )
    .unwrap();
    let sources = vec![MigrationSource {
        path: "post.typ".to_string(),
        text: "= Post\n#let rheo-author = \"me\"\n".to_string(),
        dirty: false,
    }];
    let (mut reporter, capture) = Reporter::capture();
    rheo::migrate::sites::report_removed_feed_surface(config.plugin_section_ref("html"), &sources, &mut reporter);
    let text = capture.text(&reporter);
    assert_eq!(
        text,
        "rheo.toml [html]: `feed_title` \u{2014} set via @rheo/feeds instead \u{2014} see https://rheo.ohrg.org/feeds\n\
         post.typ:2: `rheo-author` \u{2014} use `#set document(author: \"...\")` instead\n"
    );
    assert_eq!(sources[0].text, "= Post\n#let rheo-author = \"me\"\n");
}
