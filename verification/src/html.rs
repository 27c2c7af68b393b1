//! HTML utilities: a DOM tree, its serialization, and head injection.
//!
//! An HTML document is parsed by html5ever into rheo's own [`HtmlNode`]
//! tree; everything after the parse — finding elements, inserting `<link>`
//! and `<script>` nodes into `<head>`, writing the tree back out — is
//! stated and proved here.

use vstd::prelude::*;
use html5ever::tendril::TendrilSink;
use markup5ever_rcdom::Handle;
use markup5ever_rcdom::NodeData::{
    Comment, Doctype, Document, Element as ElementData, ProcessingInstruction, Text,
};
use crate::error::{Result, RheoError};
use crate::text::{
    chars_of, find_seq, first_occurrence, owned, push_str, replace_char, replace_char_exec,
    str_eq, string_of_range,
};

verus! {

/// One node of an HTML document tree.
#[derive(Debug)]
pub enum HtmlNode {
    /// The document itself, the root of every parsed tree.
    Document { children: Vec<HtmlNode> },
    /// A `<!DOCTYPE name>` declaration.
    Doctype { name: String },
    /// A run of text.
    Text { contents: String },
    /// A comment.
    Comment { contents: String },
    /// An element: its local name, its attributes (local name and value) in
    /// order, and its children.
    Element { name: String, attrs: Vec<(String, String)>, children: Vec<HtmlNode> },
    /// A processing instruction.
    ProcessingInstruction { target: String, contents: String },
}

// ─── Specifications ─────────────────────────────────────────────────────────

/// The tree html5ever builds from `html`, or `None` when reading the input
/// failed.
pub uninterp spec fn html5ever_parse(html: Seq<char>) -> Option<HtmlNode>;

/// HTML elements that never have children or a closing tag.
pub open spec fn is_void_spec(tag: Seq<char>) -> bool {
    tag == "area"@ || tag == "base"@ || tag == "br"@ || tag == "col"@ || tag == "embed"@
        || tag == "hr"@ || tag == "img"@ || tag == "input"@ || tag == "link"@ || tag == "meta"@
        || tag == "param"@ || tag == "source"@ || tag == "track"@ || tag == "wbr"@
}

/// Text escaped for HTML: `&`, `<` and `>` as entities.
pub open spec fn escape_text(s: Seq<char>) -> Seq<char> {
    replace_char(replace_char(replace_char(s, '&', "&amp;"@), '<', "&lt;"@), '>', "&gt;"@)
}

/// ` name="value"` for each attribute, in order.
pub open spec fn attrs_text(attrs: Seq<(String, String)>) -> Seq<char>
    decreases attrs.len(),
{
    if attrs.len() == 0 {
        Seq::empty()
    } else {
        attrs_text(attrs.drop_last()) + " "@ + attrs.last().0@ + "=\""@ + attrs.last().1@ + "\""@
    }
}

/// The HTML text of a node.
pub open spec fn serialize_spec(n: HtmlNode) -> Seq<char>
    decreases n,
{
    match n {
        HtmlNode::Document { children } => serialize_list(children@),
        HtmlNode::Doctype { name } => "<!DOCTYPE "@ + name@ + ">"@,
        HtmlNode::Text { contents } => escape_text(contents@),
        HtmlNode::Comment { contents } => "<!--"@ + contents@ + "-->"@,
        HtmlNode::Element { name, attrs, children } => {
            let open = "<"@ + name@ + attrs_text(attrs@) + ">"@;
            if is_void_spec(name@) {
                open
            } else {
                open + serialize_list(children@) + "</"@ + name@ + ">"@
            }
        },
        HtmlNode::ProcessingInstruction { target, contents } => "<?"@ + target@ + " "@ + contents@ + "?>"@,
    }
}

/// The HTML text of a list of sibling nodes.
pub open spec fn serialize_list(cs: Seq<HtmlNode>) -> Seq<char>
    decreases cs,
{
    if cs.len() == 0 {
        Seq::empty()
    } else {
        serialize_list(cs.drop_last()) + serialize_spec(cs.last())
    }
}

/// A node's children (none for a leaf).
pub open spec fn children_of(n: HtmlNode) -> Seq<HtmlNode> {
    match n {
        HtmlNode::Document { children } => children@,
        HtmlNode::Element { children, .. } => children@,
        _ => Seq::empty(),
    }
}

/// Whether `n` is an element named `tag`.
pub open spec fn is_element_named(n: HtmlNode, tag: Seq<char>) -> bool {
    match n {
        HtmlNode::Element { name, .. } => name@ == tag,
        _ => false,
    }
}

/// The path (child indices from `n`) of the first element named `tag` in a
/// depth-first, document-order search.
pub open spec fn find_path(n: HtmlNode, tag: Seq<char>) -> Option<Seq<int>>
    decreases n, 1int,
{
    if is_element_named(n, tag) {
        Some(Seq::empty())
    } else {
        match n {
            HtmlNode::Document { children } => find_in_list(children@, tag, 0),
            HtmlNode::Element { children, .. } => find_in_list(children@, tag, 0),
            _ => None,
        }
    }
}

/// The path of the first element named `tag` under `cs[i..]`.
pub open spec fn find_in_list(cs: Seq<HtmlNode>, tag: Seq<char>, i: int) -> Option<Seq<int>>
    decreases cs, cs.len() - i,
{
    if i < 0 || i >= cs.len() {
        None
    } else {
        match find_path(cs[i], tag) {
            Some(p) => Some(seq![i] + p),
            None => find_in_list(cs, tag, i + 1),
        }
    }
}

/// The node at `path` under `n`.
pub open spec fn node_at(n: HtmlNode, path: Seq<int>) -> HtmlNode
    decreases path.len(),
{
    if path.len() == 0 {
        n
    } else {
        let cs = children_of(n);
        if 0 <= path[0] < cs.len() {
            node_at(cs[path[0]], path.drop_first())
        } else {
            n
        }
    }
}

/// Whether `n` is an element named `meta`.
pub open spec fn is_meta(n: HtmlNode) -> bool {
    is_element_named(n, "meta"@)
}

/// The index of the last `<meta>` among `cs`, if any.
pub open spec fn last_meta_index(cs: Seq<HtmlNode>) -> Option<int>
    decreases cs.len(),
{
    if cs.len() == 0 {
        None
    } else if is_meta(cs.last()) {
        Some(cs.len() - 1)
    } else {
        last_meta_index(cs.drop_last())
    }
}

/// Where injected head nodes go: just after the last `<meta>`, or first.
pub open spec fn insert_pos(cs: Seq<HtmlNode>) -> int {
    match last_meta_index(cs) {
        Some(i) => i + 1,
        None => 0,
    }
}

/// The serialization of a `<link>` element.
pub open spec fn link_text(rel: Seq<char>, href: Seq<char>) -> Seq<char> {
    "<link rel=\""@ + rel + "\" href=\""@ + href + "\">"@
}

/// The serialization of a deferred `<script>` element.
pub open spec fn script_text(src: Seq<char>) -> Seq<char> {
    "<script src=\""@ + src + "\" defer=\"\"></script>"@
}

/// The serialized nodes injected into `<head>`: a stylesheet link per font,
/// then per stylesheet, then a deferred script per script.
pub open spec fn injected_text(fonts: Seq<Seq<char>>, stylesheets: Seq<Seq<char>>, scripts: Seq<Seq<char>>) -> Seq<char> {
    links_text(fonts) + links_text(stylesheets) + scripts_text(scripts)
}

/// Stylesheet links for each href.
pub open spec fn links_text(hrefs: Seq<Seq<char>>) -> Seq<char>
    decreases hrefs.len(),
{
    if hrefs.len() == 0 {
        Seq::empty()
    } else {
        links_text(hrefs.drop_last()) + link_text("stylesheet"@, hrefs.last())
    }
}

/// Deferred scripts for each src.
pub open spec fn scripts_text(srcs: Seq<Seq<char>>) -> Seq<char>
    decreases srcs.len(),
{
    if srcs.len() == 0 {
        Seq::empty()
    } else {
        scripts_text(srcs.drop_last()) + script_text(srcs.last())
    }
}

/// The HTML text of `n` after injecting `injected` (already serialized)
/// among the children of the node at `path`, at `insert_pos` of those
/// children.
pub open spec fn serialize_injected(n: HtmlNode, path: Seq<int>, injected: Seq<char>) -> Seq<char>
    decreases n, path.len(),
{
    if path.len() == 0 {
        match n {
            HtmlNode::Document { children } => {
                let p = insert_pos(children@);
                serialize_list(children@.take(p)) + injected + serialize_list(children@.skip(p))
            },
            HtmlNode::Element { name, attrs, children } => {
                let p = insert_pos(children@);
                let open = "<"@ + name@ + attrs_text(attrs@) + ">"@;
                if is_void_spec(name@) {
                    open
                } else {
                    open + serialize_list(children@.take(p)) + injected + serialize_list(children@.skip(p))
                        + "</"@ + name@ + ">"@
                }
            },
            _ => serialize_spec(n),
        }
    } else {
        match n {
            HtmlNode::Document { children } => if 0 <= path[0] < children@.len() {
                serialize_list(children@.take(path[0])) + serialize_injected(
                    children@[path[0]],
                    path.drop_first(),
                    injected,
                ) + serialize_list(children@.skip(path[0] + 1))
            } else {
                serialize_spec(n)
            },
            HtmlNode::Element { name, attrs, children } => {
                let open = "<"@ + name@ + attrs_text(attrs@) + ">"@;
                if is_void_spec(name@) {
                    open
                } else if 0 <= path[0] < children@.len() {
                    open + serialize_list(children@.take(path[0])) + serialize_injected(
                        children@[path[0]],
                        path.drop_first(),
                        injected,
                    ) + serialize_list(children@.skip(path[0] + 1)) + "</"@ + name@ + ">"@
                } else {
                    serialize_spec(n)
                }
            },
            _ => serialize_spec(n),
        }
    }
}

/// The HTML `inject_head_links` produces from a parsed tree: the tree
/// serialized with the injected nodes placed in its first `<head>`, or an
/// error when there is no `<head>`.
pub open spec fn inject_head_spec(
    tree: HtmlNode,
    fonts: Seq<Seq<char>>,
    stylesheets: Seq<Seq<char>>,
    scripts: Seq<Seq<char>>,
) -> Option<Seq<char>> {
    match find_path(tree, "head"@) {
        Some(path) => Some(serialize_injected(tree, path, injected_text(fonts, stylesheets, scripts))),
        None => None,
    }
}

/// `<style>css</style>` for each block, in order.
pub open spec fn styles_text(css: Seq<Seq<char>>) -> Seq<char>
    decreases css.len(),
{
    if css.len() == 0 {
        Seq::empty()
    } else {
        styles_text(css.drop_last()) + "<style>"@ + css.last() + "</style>"@
    }
}

// ─── Trusted items ──────────────────────────────────────────────────────────

/// markup5ever_rcdom's DOM node, carried opaquely into the conversion below.
#[verifier::external_type_specification]
#[verifier::external_body]
pub struct ExRcdomNode(markup5ever_rcdom::Node);

/// html5ever's `parse_document`, run over `html` with default options into
/// an `RcDom`, and converted node for node into an [`HtmlNode`] tree. The
/// resulting tree is named: it is a function of `html` alone.
#[verifier::external_body]
fn parse_html_tree(html: &str) -> (r: core::result::Result<HtmlNode, String>)
    ensures
        r is Ok <==> html5ever_parse(html@) is Some,
        r matches Ok(n) ==> html5ever_parse(html@) == Some(n),
{
    match html5ever::parse_document(markup5ever_rcdom::RcDom::default(), html5ever::ParseOpts::default())
        .from_utf8()
        .read_from(&mut html.as_bytes())
    {
        Ok(dom) => Ok(node_from_rcdom(&dom.document)),
        Err(e) => Err(e.to_string()),
    }
}

/// Converts one markup5ever_rcdom node and its children into an
/// [`HtmlNode`], one node for one node, keeping local names only.
#[verifier::external_body]
fn node_from_rcdom(h: &Handle) -> HtmlNode {
    let children = h.children.borrow().iter().map(node_from_rcdom).collect();
    match &h.data {
        Document => HtmlNode::Document { children },
        Doctype { name, .. } => HtmlNode::Doctype { name: name.to_string() },
        Text { contents } => HtmlNode::Text { contents: contents.borrow().to_string() },
        Comment { contents } => HtmlNode::Comment { contents: contents.to_string() },
        ElementData { name, attrs, .. } => HtmlNode::Element {
            name: name.local.to_string(),
            attrs: attrs.borrow().iter().map(|a| (a.name.local.to_string(), a.value.to_string())).collect(),
            children,
        },
        ProcessingInstruction { target, contents } =>
            HtmlNode::ProcessingInstruction { target: target.to_string(), contents: contents.to_string() },
    }
}

// ─── Exec ───────────────────────────────────────────────────────────────────

/// Whether `tag_name` is a void element (no children, no closing tag).
pub fn is_void_element(tag_name: &str) -> (b: bool)
    ensures
        b == is_void_spec(tag_name@),
{
    str_eq(tag_name, "area") || str_eq(tag_name, "base") || str_eq(tag_name, "br") || str_eq(tag_name, "col")
        || str_eq(tag_name, "embed") || str_eq(tag_name, "hr") || str_eq(tag_name, "img") || str_eq(
        tag_name,
        "input",
    ) || str_eq(tag_name, "link") || str_eq(tag_name, "meta") || str_eq(tag_name, "param") || str_eq(
        tag_name,
        "source",
    ) || str_eq(tag_name, "track") || str_eq(tag_name, "wbr")
}

/// Appends `s` escaped for HTML text.
fn push_escaped_text(out: &mut String, s: &str)
    ensures
        final(out)@ == old(out)@ + escape_text(s@),
{
    let a = replace_char_exec(s, '&', "&amp;");
    let b = replace_char_exec(a.as_str(), '<', "&lt;");
    let c = replace_char_exec(b.as_str(), '>', "&gt;");
    push_str(out, c.as_str());
}

/// Appends the attributes of an element.
fn push_attrs(out: &mut String, attrs: &Vec<(String, String)>)
    ensures
        final(out)@ == old(out)@ + attrs_text(attrs@),
{
    let mut i: usize = 0;
    while i < attrs.len()
        invariant
            i <= attrs@.len(),
            out@ == old(out)@ + attrs_text(attrs@.take(i as int)),
        decreases attrs@.len() - i,
    {
        push_str(out, " ");
        push_str(out, attrs[i].0.as_str());
        push_str(out, "=\"");
        push_str(out, attrs[i].1.as_str());
        push_str(out, "\"");
        proof {
            assert(attrs@.take(i + 1).drop_last() =~= attrs@.take(i as int));
        }
        i += 1;
    }
    proof {
        assert(attrs@.take(i as int) =~= attrs@);
    }
}

/// Appends the HTML text of `n`.
pub fn serialize_node(n: &HtmlNode, out: &mut String)
    ensures
        final(out)@ == old(out)@ + serialize_spec(*n),
    decreases n,
{
    match n {
        HtmlNode::Document { children } => {
            serialize_children(children, 0, children.len(), out);
            proof {
                assert(children@.subrange(0, children@.len() as int) =~= children@);
            }
        },
        HtmlNode::Doctype { name } => {
            push_str(out, "<!DOCTYPE ");
            push_str(out, name.as_str());
            push_str(out, ">");
        },
        HtmlNode::Text { contents } => {
            push_escaped_text(out, contents.as_str());
        },
        HtmlNode::Comment { contents } => {
            push_str(out, "<!--");
            push_str(out, contents.as_str());
            push_str(out, "-->");
        },
        HtmlNode::Element { name, attrs, children } => {
            push_str(out, "<");
            push_str(out, name.as_str());
            push_attrs(out, attrs);
            push_str(out, ">");
            if !is_void_element(name.as_str()) {
                serialize_children(children, 0, children.len(), out);
                proof {
                    assert(children@.subrange(0, children@.len() as int) =~= children@);
                }
                push_str(out, "</");
                push_str(out, name.as_str());
                push_str(out, ">");
            }
        },
        HtmlNode::ProcessingInstruction { target, contents } => {
            push_str(out, "<?");
            push_str(out, target.as_str());
            push_str(out, " ");
            push_str(out, contents.as_str());
            push_str(out, "?>");
        },
    }
}

/// Appends the HTML text of `children[from..to]`.
fn serialize_children(children: &Vec<HtmlNode>, from: usize, to: usize, out: &mut String)
    requires
        from <= to <= children@.len(),
    ensures
        final(out)@ == old(out)@ + serialize_list(children@.subrange(from as int, to as int)),
    decreases children, 0int,
{
    let mut i = from;
    proof {
        assert(children@.subrange(from as int, from as int) =~= Seq::<HtmlNode>::empty());
    }
    while i < to
        invariant
            from <= i <= to <= children@.len(),
            out@ == old(out)@ + serialize_list(children@.subrange(from as int, i as int)),
        decreases to - i,
    {
        proof {
            assert(children@.subrange(from as int, i + 1).drop_last() =~= children@.subrange(from as int, i as int));
            assert(decreases_to!(children => children@[i as int]));
        }
        serialize_node(&children[i], out);
        i += 1;
    }
}

/// The literals of the element serializations, revealed.
proof fn reveal_literals()
    ensures
        "<"@ == seq!['<'],
        ">"@ == seq!['>'],
        " "@ == seq![' '],
        "=\""@ == seq!['=', '"'],
        "\""@ == seq!['"'],
        "</"@ == seq!['<', '/'],
        "<link rel=\""@ == seq!['<', 'l', 'i', 'n', 'k', ' ', 'r', 'e', 'l', '=', '"'],
        "\" href=\""@ == seq!['"', ' ', 'h', 'r', 'e', 'f', '=', '"'],
        "\">"@ == seq!['"', '>'],
        "<script src=\""@ == seq!['<', 's', 'c', 'r', 'i', 'p', 't', ' ', 's', 'r', 'c', '=', '"'],
        "\" defer=\"\"></script>"@ == seq![
            '"', ' ', 'd', 'e', 'f', 'e', 'r', '=', '"', '"', '>', '<', '/', 's', 'c', 'r', 'i', 'p', 't', '>',
        ],
{
    reveal_strlit("<");
    reveal_strlit(">");
    reveal_strlit(" ");
    reveal_strlit("=\"");
    reveal_strlit("\"");
    reveal_strlit("</");
    reveal_strlit("<link rel=\"");
    reveal_strlit("\" href=\"");
    reveal_strlit("\">");
    reveal_strlit("<script src=\"");
    reveal_strlit("\" defer=\"\"></script>");
}

/// `script` is not a void element.
proof fn lemma_script_not_void()
    ensures
        !is_void_spec("script"@),
{
    reveal_strlit("script");
    reveal_strlit("area"); reveal_strlit("base"); reveal_strlit("br"); reveal_strlit("col");
    reveal_strlit("embed"); reveal_strlit("hr"); reveal_strlit("img"); reveal_strlit("input");
    reveal_strlit("link"); reveal_strlit("meta"); reveal_strlit("param"); reveal_strlit("source");
    reveal_strlit("track"); reveal_strlit("wbr");
    assert("script"@.len() == 6);
    assert("area"@.len() == 4);
    assert("source"@[1] != "script"@[1]);
}

/// A `<link rel=... href=...>` element.
fn link_node(rel: &str, href: &str) -> (n: HtmlNode)
    ensures
        serialize_spec(n) == link_text(rel@, href@),
{
    let mut attrs: Vec<(String, String)> = Vec::new();
    attrs.push((owned("rel"), owned(rel)));
    attrs.push((owned("href"), owned(href)));
    let n = HtmlNode::Element { name: owned("link"), attrs, children: Vec::new() };
    proof {
        reveal_literals();
        reveal_strlit("link");
        reveal_strlit("rel");
        reveal_strlit("href");
        assert(attrs@.drop_last() =~= seq![attrs@[0]]);
        assert(seq![attrs@[0]].drop_last() =~= Seq::<(String, String)>::empty());
        assert(attrs_text(Seq::<(String, String)>::empty()) == Seq::<char>::empty());
        let a1 = attrs_text(seq![attrs@[0]]);
        assert(a1 =~= " "@ + "rel"@ + "=\""@ + rel@ + "\""@);
        let a2 = attrs_text(attrs@);
        assert(a2 == a1 + " "@ + "href"@ + "=\""@ + href@ + "\""@);
        assert(is_void_spec("link"@));
        assert(serialize_spec(n) == "<"@ + "link"@ + a2 + ">"@);
        assert(serialize_spec(n) =~= link_text(rel@, href@));
    }
    n
}

/// A `<script src=... defer>` element.
fn script_node(src: &str) -> (n: HtmlNode)
    ensures
        serialize_spec(n) == script_text(src@),
{
    let mut attrs: Vec<(String, String)> = Vec::new();
    attrs.push((owned("src"), owned(src)));
    attrs.push((owned("defer"), owned("")));
    let n = HtmlNode::Element { name: owned("script"), attrs, children: Vec::new() };
    proof {
        reveal_literals();
        reveal_strlit("script");
        reveal_strlit("src");
        reveal_strlit("defer");
        reveal_strlit("");
        assert(attrs@.drop_last() =~= seq![attrs@[0]]);
        assert(seq![attrs@[0]].drop_last() =~= Seq::<(String, String)>::empty());
        assert(attrs_text(Seq::<(String, String)>::empty()) == Seq::<char>::empty());
        let a1 = attrs_text(seq![attrs@[0]]);
        assert(a1 =~= " "@ + "src"@ + "=\""@ + src@ + "\""@);
        let a2 = attrs_text(attrs@);
        assert(a2 == a1 + " "@ + "defer"@ + "=\""@ + ""@ + "\""@);
        lemma_script_not_void();
        assert(serialize_list(Seq::<HtmlNode>::empty()) =~= Seq::<char>::empty());
        assert(serialize_spec(n) == "<"@ + "script"@ + a2 + ">"@ + Seq::<char>::empty() + "</"@ + "script"@ + ">"@);
        assert(serialize_spec(n) =~= script_text(src@));
    }
    n
}

/// An element created on its own, not yet part of a document.
pub struct Element {
    node: HtmlNode,
}

impl Element {
    /// A `<link rel="..." href="...">` element.
    pub fn create_link(rel: &str, href: &str) -> (e: Element)
        ensures
            serialize_spec(e.node_spec()) == link_text(rel@, href@),
    {
        Element { node: link_node(rel, href) }
    }

    /// A `<script src="..." defer></script>` element.
    pub fn create_script(src: &str) -> (e: Element)
        ensures
            serialize_spec(e.node_spec()) == script_text(src@),
    {
        Element { node: script_node(src) }
    }

    /// The node this element is.
    pub closed spec fn node_spec(&self) -> HtmlNode {
        self.node
    }

    /// The element's tag name (empty for a non-element node).
    pub fn tag_name(&self) -> (t: String)
        ensures
            match self.node_spec() {
                HtmlNode::Element { name, .. } => t@ == name@,
                _ => t@ == Seq::<char>::empty(),
            },
    {
        match &self.node {
            HtmlNode::Element { name, .. } => name.clone(),
            _ => String::new(),
        }
    }

    /// The element's serialized HTML.
    pub fn serialize(&self) -> (s: String)
        ensures
            s@ == serialize_spec(self.node_spec()),
    {
        let mut s = String::new();
        serialize_node(&self.node, &mut s);
        s
    }
}

/// A parsed HTML document.
pub struct HtmlDom {
    root: HtmlNode,
}

impl HtmlDom {
    /// The document tree.
    pub closed spec fn root_spec(&self) -> HtmlNode {
        self.root
    }

    /// Parse an HTML string into a DOM tree.
    pub fn parse(html: &str) -> (r: Result<HtmlDom>)
        ensures
            r is Ok <==> html5ever_parse(html@) is Some,
            r matches Ok(d) ==> html5ever_parse(html@) == Some(d.root_spec()),
            r matches Err(e) ==> e is HtmlGeneration && e->HtmlGeneration_count == 1,
    {
        match parse_html_tree(html) {
            Ok(root) => Ok(HtmlDom { root }),
            Err(e) => {
                let mut errors = owned("failed to parse HTML: ");
                push_str(&mut errors, e.as_str());
                Err(RheoError::HtmlGeneration { count: 1, errors })
            },
        }
    }

    /// A document made of an already-built tree.
    pub fn from_tree(root: HtmlNode) -> (d: HtmlDom)
        ensures
            d.root_spec() == root,
    {
        HtmlDom { root }
    }

    /// Serialize the DOM tree back to an HTML string.
    pub fn serialize(&self) -> (r: Result<String>)
        ensures
            r matches Ok(s) && s@ == serialize_spec(self.root_spec()),
    {
        let mut s = String::new();
        serialize_node(&self.root, &mut s);
        Ok(s)
    }

    /// The path to the first element named `tag_name`, depth first.
    pub fn find_element(&self, tag_name: &str) -> (r: Option<Vec<usize>>)
        ensures
            match find_path(self.root_spec(), tag_name@) {
                Some(p) => r matches Some(v) && v@.map_values(|i: usize| i as int) == p,
                None => r is None,
            },
    {
        find_element_by_tag(&self.root, tag_name)
    }

    /// Inject `<link>` and `<script>` elements into the HTML `<head>` —
    /// after the last `<meta>`, or first when there is none — in order:
    /// fonts, stylesheets, scripts; then serialize the document.
    pub fn inject_head_links(&self, fonts: &[&str], stylesheets: &[&str], scripts: &[&str]) -> (r: Result<String>)
        ensures
            match inject_head_spec(
                self.root_spec(),
                fonts@.map_values(|s: &str| s@),
                stylesheets@.map_values(|s: &str| s@),
                scripts@.map_values(|s: &str| s@),
            ) {
                Some(text) => r matches Ok(s) && s@ == text,
                None => r matches Err(e) && e is HtmlGeneration && e->HtmlGeneration_count == 1,
            },
    {
        match find_element_by_tag(&self.root, "head") {
            None => Err(RheoError::HtmlGeneration {
                count: 1,
                errors: owned("HTML document does not contain a <head> element"),
            }),
            Some(path) => {
                let injected = injected_html(fonts, stylesheets, scripts);
                let mut out = String::new();
                serialize_with_injection(&self.root, &path, 0, injected.as_str(), &mut out);
                proof {
                    assert(path@.map_values(|i: usize| i as int).skip(0) =~= path@.map_values(|i: usize| i as int));
                    reveal_strlit("head");
                }
                Ok(out)
            },
        }
    }
}

/// The serialized nodes injected into `<head>`.
fn injected_html(fonts: &[&str], stylesheets: &[&str], scripts: &[&str]) -> (s: String)
    ensures
        s@ == injected_text(
            fonts@.map_values(|s: &str| s@),
            stylesheets@.map_values(|s: &str| s@),
            scripts@.map_values(|s: &str| s@),
        ),
{
    let mut out = String::new();
    push_links(&mut out, fonts);
    push_links(&mut out, stylesheets);
    push_scripts(&mut out, scripts);
    out
}

/// Appends a stylesheet link per href.
fn push_links(out: &mut String, hrefs: &[&str])
    ensures
        final(out)@ == old(out)@ + links_text(hrefs@.map_values(|s: &str| s@)),
{
    let mut i: usize = 0;
    while i < hrefs.len()
        invariant
            i <= hrefs@.len(),
            out@ == old(out)@ + links_text(hrefs@.map_values(|s: &str| s@).take(i as int)),
        decreases hrefs@.len() - i,
    {
        let link = link_node("stylesheet", hrefs[i]);
        serialize_node(&link, out);
        proof {
            let hs = hrefs@.map_values(|s: &str| s@);
            assert(hs.take(i + 1).drop_last() =~= hs.take(i as int));
            reveal_strlit("stylesheet");
        }
        i += 1;
    }
    proof {
        assert(hrefs@.map_values(|s: &str| s@).take(i as int) =~= hrefs@.map_values(|s: &str| s@));
    }
}

/// Appends a deferred script per src.
fn push_scripts(out: &mut String, srcs: &[&str])
    ensures
        final(out)@ == old(out)@ + scripts_text(srcs@.map_values(|s: &str| s@)),
{
    let mut i: usize = 0;
    while i < srcs.len()
        invariant
            i <= srcs@.len(),
            out@ == old(out)@ + scripts_text(srcs@.map_values(|s: &str| s@).take(i as int)),
        decreases srcs@.len() - i,
    {
        let script = script_node(srcs[i]);
        serialize_node(&script, out);
        proof {
            let ss = srcs@.map_values(|s: &str| s@);
            assert(ss.take(i + 1).drop_last() =~= ss.take(i as int));
        }
        i += 1;
    }
    proof {
        assert(srcs@.map_values(|s: &str| s@).take(i as int) =~= srcs@.map_values(|s: &str| s@));
    }
}

/// Where injected head nodes go among `children`.
fn insert_pos_exec(children: &Vec<HtmlNode>) -> (p: usize)
    ensures
        p as int == insert_pos(children@),
        p <= children@.len(),
{
    let mut k = children.len();
    proof {
        assert(children@.take(k as int) =~= children@);
    }
    while k > 0
        invariant
            k <= children@.len(),
            last_meta_index(children@) == last_meta_index(children@.take(k as int)),
        decreases k,
    {
        proof {
            assert(children@.take(k as int).drop_last() =~= children@.take(k - 1));
        }
        let is_meta = match &children[k - 1] {
            HtmlNode::Element { name, .. } => str_eq(name.as_str(), "meta"),
            _ => false,
        };
        if is_meta {
            return k;
        }
        k -= 1;
    }
    0
}

/// Appends the HTML of `children` with `injected` placed just after the
/// last `<meta>` among them, or first.
fn serialize_children_injected(children: &Vec<HtmlNode>, injected: &str, out: &mut String)
    ensures
        final(out)@ == old(out)@ + serialize_list(children@.take(insert_pos(children@))) + injected@
            + serialize_list(children@.skip(insert_pos(children@))),
{
    let pos = insert_pos_exec(children);
    serialize_children(children, 0, pos, out);
    push_str(out, injected);
    serialize_children(children, pos, children.len(), out);
    proof {
        assert(children@.subrange(0, pos as int) =~= children@.take(pos as int));
        assert(children@.subrange(pos as int, children@.len() as int) =~= children@.skip(pos as int));
    }
}

/// Appends the HTML of `n` with `injected` placed among the children of the
/// node at `path[depth..]`.
#[verifier::spinoff_prover]
#[verifier::rlimit(40)]
fn serialize_with_injection(n: &HtmlNode, path: &Vec<usize>, depth: usize, injected: &str, out: &mut String)
    requires
        depth <= path@.len(),
    ensures
        final(out)@ == old(out)@ + serialize_injected(
            *n,
            path@.map_values(|i: usize| i as int).skip(depth as int),
            injected@,
        ),
    decreases n,
{
    let ghost p = path@.map_values(|i: usize| i as int).skip(depth as int);
    if depth == path.len() {
        proof {
            assert(p.len() == 0);
        }
        match n {
            HtmlNode::Document { children } => {
                serialize_children_injected(children, injected, out);
            },
            HtmlNode::Element { name, attrs, children } => {
                push_str(out, "<");
                push_str(out, name.as_str());
                push_attrs(out, attrs);
                push_str(out, ">");
                if !is_void_element(name.as_str()) {
                    serialize_children_injected(children, injected, out);
                    push_str(out, "</");
                    push_str(out, name.as_str());
                    push_str(out, ">");
                }
            },
            _ => {
                serialize_node(n, out);
            },
        }
    } else {
        let idx = path[depth];
        proof {
            assert(p[0] == idx as int);
            assert(p.drop_first() =~= path@.map_values(|i: usize| i as int).skip(depth + 1));
        }
        match n {
            HtmlNode::Document { children } => {
                if idx < children.len() {
                    serialize_children(children, 0, idx, out);
                    proof {
                        assert(decreases_to!(children => children@[idx as int]));
                    }
                    serialize_with_injection(&children[idx], path, depth + 1, injected, out);
                    serialize_children(children, idx + 1, children.len(), out);
                    proof {
                        assert(children@.subrange(0, idx as int) =~= children@.take(idx as int));
                        assert(children@.subrange(idx + 1, children@.len() as int) =~= children@.skip(idx + 1));
                    }
                } else {
                    serialize_node(n, out);
                }
            },
            HtmlNode::Element { name, attrs, children } => {
                if is_void_element(name.as_str()) || idx >= children.len() {
                    serialize_node(n, out);
                } else {
                    push_str(out, "<");
                    push_str(out, name.as_str());
                    push_attrs(out, attrs);
                    push_str(out, ">");
                    serialize_children(children, 0, idx, out);
                    proof {
                        assert(decreases_to!(children => children@[idx as int]));
                    }
                    serialize_with_injection(&children[idx], path, depth + 1, injected, out);
                    serialize_children(children, idx + 1, children.len(), out);
                    push_str(out, "</");
                    push_str(out, name.as_str());
                    push_str(out, ">");
                    proof {
                        assert(children@.subrange(0, idx as int) =~= children@.take(idx as int));
                        assert(children@.subrange(idx + 1, children@.len() as int) =~= children@.skip(idx + 1));
                    }
                }
            },
            _ => {
                serialize_node(n, out);
            },
        }
    }
}

/// The path of the first element named `tag_name` under `n`.
fn find_element_by_tag(n: &HtmlNode, tag_name: &str) -> (r: Option<Vec<usize>>)
    ensures
        match find_path(*n, tag_name@) {
            Some(p) => r matches Some(v) && v@.map_values(|i: usize| i as int) == p,
            None => r is None,
        },
    decreases n, 1int,
{
    match n {
        HtmlNode::Element { name, children, .. } => {
            if str_eq(name.as_str(), tag_name) {
                let v: Vec<usize> = Vec::new();
                proof {
                    assert(v@.map_values(|i: usize| i as int) =~= Seq::<int>::empty());
                }
                return Some(v);
            }
            find_in_children(children, tag_name, 0)
        },
        HtmlNode::Document { children } => find_in_children(children, tag_name, 0),
        _ => None,
    }
}

/// The path of the first element named `tag_name` under `children[i..]`.
fn find_in_children(children: &Vec<HtmlNode>, tag_name: &str, i: usize) -> (r: Option<Vec<usize>>)
    requires
        i <= children@.len(),
    ensures
        match find_in_list(children@, tag_name@, i as int) {
            Some(p) => r matches Some(v) && v@.map_values(|i: usize| i as int) == p,
            None => r is None,
        },
    decreases children, children@.len() - i,
{
    if i >= children.len() {
        return None;
    }
    proof {
        assert(decreases_to!(children => children@[i as int]));
    }
    match find_element_by_tag(&children[i], tag_name) {
        Some(p) => {
            let mut v: Vec<usize> = Vec::new();
            v.push(i);
            let mut k: usize = 0;
            while k < p.len()
                invariant
                    k <= p@.len(),
                    v@.len() == k + 1,
                    v@[0] == i,
                    forall|j: int| 0 <= j < k ==> v@[j + 1] == p@[j],
                decreases p@.len() - k,
            {
                v.push(p[k]);
                k += 1;
            }
            proof {
                assert(v@.map_values(|x: usize| x as int) =~= seq![i as int] + p@.map_values(|x: usize| x as int));
            }
            Some(v)
        },
        None => find_in_children(children, tag_name, i + 1),
    }
}

/// `<style>css</style>` for each block, in order.
fn styles_html(css_blocks: &[&str]) -> (styles: String)
    ensures
        styles@ == styles_text(css_blocks@.map_values(|c: &str| c@)),
{
    let mut styles = String::new();
    let mut i: usize = 0;
    while i < css_blocks.len()
        invariant
            i <= css_blocks@.len(),
            styles@ == styles_text(css_blocks@.map_values(|c: &str| c@).take(i as int)),
        decreases css_blocks@.len() - i,
    {
        push_str(&mut styles, "<style>");
        push_str(&mut styles, css_blocks[i]);
        push_str(&mut styles, "</style>");
        proof {
            let cs = css_blocks@.map_values(|c: &str| c@);
            assert(cs.take(i + 1).drop_last() =~= cs.take(i as int));
        }
        i += 1;
    }
    proof {
        assert(css_blocks@.map_values(|c: &str| c@).take(i as int) =~= css_blocks@.map_values(|c: &str| c@));
    }
    styles
}

/// `html` with `styles` placed just before its first `</head>`, or `None`
/// when it has none.
pub open spec fn splice_before_head(html: Seq<char>, styles: Seq<char>) -> Option<Seq<char>> {
    match first_occurrence(html, "</head>"@) {
        Some(pos) => Some(html.take(pos) + styles + html.skip(pos)),
        None => None,
    }
}

/// `html` with `styles` placed just before its first `</head>`.
fn splice_before_head_exec(html: &str, styles: &str) -> (r: Option<String>)
    ensures
        match splice_before_head(html@, styles@) {
            Some(t) => r matches Some(s) && s@ == t,
            None => r is None,
        },
{
    let hv = chars_of(html);
    let needle = chars_of("</head>");
    let found = find_seq(&hv, &needle);
    let ghost fo = first_occurrence(html@, "</head>"@);
    assert(fo == first_occurrence(hv@, needle@));
    match found {
        Some(pos) => {
            assert(fo == Some(pos as int));
            let mut result = string_of_range(&hv, 0, pos);
            push_str(&mut result, styles);
            let rest = string_of_range(&hv, pos, hv.len());
            push_str(&mut result, rest.as_str());
            proof {
                assert(hv@.subrange(0, pos as int) =~= hv@.take(pos as int));
                assert(hv@.subrange(pos as int, hv@.len() as int) =~= hv@.skip(pos as int));
            }
            Some(result)
        },
        None => {
            assert(fo is None);
            None
        },
    }
}

/// Embed CSS directly into the HTML `<head>` as `<style>` blocks, just
/// before the first `</head>`. Empty `css_blocks` leaves the HTML as it is;
/// HTML without `</head>` is an error.
pub fn inject_inline_styles(html: &str, css_blocks: &[&str]) -> (r: Result<String>)
    ensures
        css_blocks@.len() == 0 ==> (r matches Ok(s) && s@ == html@),
        css_blocks@.len() > 0 ==> (match splice_before_head(html@, styles_text(css_blocks@.map_values(|c: &str| c@))) {
            Some(t) => r matches Ok(s) && s@ == t,
            None => r matches Err(e) && e is HtmlGeneration && e->HtmlGeneration_count == 1,
        }),
{
    if css_blocks.len() == 0 {
        return Ok(owned(html));
    }
    let styles = styles_html(css_blocks);
    match splice_before_head_exec(html, styles.as_str()) {
        Some(result) => Ok(result),
        None => Err(RheoError::HtmlGeneration {
            count: 1,
            errors: owned("HTML document does not contain a </head> element"),
        }),
    }
}

/// Inject `<link>` and `<script>` elements into the `<head>` of `html` —
/// after the last `<meta>`, or first when there is none — in order: fonts,
/// stylesheets, scripts. An error when the HTML cannot be read or has no
/// `<head>`.
pub fn inject_head_links(html: &str, fonts: &[&str], stylesheets: &[&str], scripts: &[&str]) -> (r: Result<String>)
    ensures
        match html5ever_parse(html@) {
            Some(tree) => match inject_head_spec(
                tree,
                fonts@.map_values(|s: &str| s@),
                stylesheets@.map_values(|s: &str| s@),
                scripts@.map_values(|s: &str| s@),
            ) {
                Some(text) => r matches Ok(s) && s@ == text,
                None => r matches Err(e) && e is HtmlGeneration,
            },
            None => r matches Err(e) && e is HtmlGeneration,
        },
{
    let dom = HtmlDom::parse(html)?;
    dom.inject_head_links(fonts, stylesheets, scripts)
}

} // verus!
