//! The Typst syntax tree as plain values, and the one walk over it.
//!
//! typst-syntax parses a source into its own node type; [`parse_typst`]
//! converts that tree node for node into a [`SyntaxTree`]. Everything the
//! harvesters do after the parse — the depth-first walk that threads each
//! node's byte offset, its markup/code context and the line breaks before
//! it — is stated here over [`visits`] and proved.

use vstd::prelude::*;
use typst_syntax::{ast, SyntaxNode};
use crate::parser::WalkCtx;
use crate::text::{chars_of, str_eq};

verus! {

/// One node of a parsed Typst source.
#[derive(Debug)]
pub struct SyntaxTree {
    /// The name of the node's `SyntaxKind` variant, e.g. `Label`, `SetRule`.
    pub kind: String,
    /// The node's own text: a leaf's token, empty for an inner node.
    pub text: String,
    /// The byte length of the node in the source.
    pub len: usize,
    /// Whether the node is an expression (typst-syntax's `ast::Expr` casts).
    pub is_expr: bool,
    /// For a string literal, its value with escape sequences resolved.
    pub str_value: Option<String>,
    /// For an integer literal, its value.
    pub int_value: Option<i64>,
    /// The node's children, in source order.
    pub children: Vec<SyntaxTree>,
}

// ─── Specifications ─────────────────────────────────────────────────────────

/// The tree typst-syntax's `parse` builds from a source text.
pub uninterp spec fn typst_parse(text: Seq<char>) -> SyntaxTree;

/// The number of bytes `c` takes in UTF-8.
pub open spec fn utf8_width(c: char) -> nat {
    if (c as u32) < 0x80 {
        1
    } else if (c as u32) < 0x800 {
        2
    } else if (c as u32) < 0x10000 {
        3
    } else {
        4
    }
}

/// The number of bytes `s` takes in UTF-8.
pub open spec fn utf8_len(s: Seq<char>) -> nat
    decreases s.len(),
{
    if s.len() == 0 {
        0
    } else {
        utf8_len(s.drop_last()) + utf8_width(s.last())
    }
}

/// The summed byte lengths of sibling nodes.
pub open spec fn sum_lens(cs: Seq<SyntaxTree>) -> nat
    decreases cs.len(),
{
    if cs.len() == 0 {
        0
    } else {
        sum_lens(cs.drop_last()) + cs.last().len as nat
    }
}

/// Every node's length is its own text's byte length plus its children's
/// lengths: a leaf is as long as its token, an inner node as its children.
pub open spec fn tree_ok(t: SyntaxTree) -> bool
    decreases t, 1int,
{
    t.len == utf8_len(t.text@) + sum_lens(t.children@) && tree_ok_list(t.children@)
}

/// [`tree_ok`] for each of a list of siblings.
pub open spec fn tree_ok_list(cs: Seq<SyntaxTree>) -> bool
    decreases cs, 0int,
{
    cs.len() == 0 || (tree_ok_list(cs.drop_last()) && tree_ok(cs.last()))
}

/// A character that ends a line in Typst source.
pub open spec fn is_newline(c: char) -> bool {
    c == '\n' || c == '\x0B' || c == '\x0C' || c == '\r' || c == '\u{0085}' || c == '\u{2028}'
        || c == '\u{2029}'
}

/// Whether a line ends at `s[i]`: a newline character, except the `\n` of a
/// `\r\n` pair, which ends the line its `\r` already ended.
pub open spec fn breaks_at(s: Seq<char>, i: int) -> bool {
    is_newline(s[i]) && !(s[i] == '\n' && i > 0 && s[i - 1] == '\r')
}

/// The number of line ends in `s`.
pub open spec fn line_breaks(s: Seq<char>) -> nat
    decreases s.len(),
{
    if s.len() == 0 {
        0
    } else {
        line_breaks(s.drop_last()) + if breaks_at(s, s.len() - 1) {
            1nat
        } else {
            0nat
        }
    }
}

/// The line ends in the texts of a whole subtree.
pub open spec fn breaks_total(t: SyntaxTree) -> nat
    decreases t, 1int,
{
    line_breaks(t.text@) + breaks_list(t.children@)
}

/// The line ends in the texts of a list of sibling subtrees.
pub open spec fn breaks_list(cs: Seq<SyntaxTree>) -> nat
    decreases cs, 0int,
{
    if cs.len() == 0 {
        0
    } else {
        breaks_list(cs.drop_last()) + breaks_total(cs.last())
    }
}

/// The context at the top of a source: markup at file scope.
pub open spec fn root_ctx() -> WalkCtx {
    WalkCtx { in_code: false, file_scope: true }
}

/// The context of the children of a node of kind `kind` in context `ctx`:
/// call arguments and code are code context; a closure, a code block or a
/// `let` binding leaves file scope.
pub open spec fn descend(kind: Seq<char>, ctx: WalkCtx) -> WalkCtx {
    WalkCtx {
        in_code: ctx.in_code || kind == "Args"@ || kind == "CodeBlock"@ || kind == "Code"@,
        file_scope: ctx.file_scope && !(kind == "Closure"@ || kind == "CodeBlock"@ || kind
            == "LetBinding"@),
    }
}

/// Every node of `t` in depth-first order, each with its byte offset, its
/// context and the number of line ends before it; `t` itself starts at
/// `offset` in context `ctx` after `breaks` line ends. Children start where
/// their parent starts, each after its elder siblings.
pub open spec fn visits(t: SyntaxTree, offset: int, ctx: WalkCtx, breaks: int) -> Seq<
    (SyntaxTree, int, WalkCtx, int),
>
    decreases t, 1int,
{
    seq![(t, offset, ctx, breaks)] + visits_list(
        t.children@,
        offset,
        descend(t.kind@, ctx),
        breaks + line_breaks(t.text@),
    )
}

/// [`visits`] of each of a list of siblings, the first at `offset`.
pub open spec fn visits_list(cs: Seq<SyntaxTree>, offset: int, ctx: WalkCtx, breaks: int) -> Seq<
    (SyntaxTree, int, WalkCtx, int),
>
    decreases cs, 0int,
{
    if cs.len() == 0 {
        Seq::empty()
    } else {
        visits_list(cs.drop_last(), offset, ctx, breaks) + visits(
            cs.last(),
            offset + sum_lens(cs.drop_last()),
            ctx,
            breaks + breaks_list(cs.drop_last()),
        )
    }
}

/// The visits of a whole source's tree.
pub open spec fn source_visits(t: SyntaxTree) -> Seq<(SyntaxTree, int, WalkCtx, int)> {
    visits(t, 0, root_ctx(), 0)
}

/// A list of visits read as plain values.
pub open spec fn visit_view(v: Seq<(&SyntaxTree, usize, WalkCtx, usize)>) -> Seq<
    (SyntaxTree, int, WalkCtx, int),
> {
    v.map_values(|e: (&SyntaxTree, usize, WalkCtx, usize)| (*e.0, e.1 as int, e.2, e.3 as int))
}

/// Every visit's node is well formed, and its byte range and the line ends
/// before it fit the machine's integers with room for one more line.
pub open spec fn visits_fit(v: Seq<(&SyntaxTree, usize, WalkCtx, usize)>) -> bool {
    forall|k: int|
        0 <= k < v.len() ==> {
            &&& tree_ok(*(#[trigger] v[k]).0)
            &&& v[k].1 + v[k].0.len <= usize::MAX
            &&& v[k].3 + v[k].0.len < usize::MAX
        }
}

/// The whole text of a subtree: its own text, then its children's.
pub open spec fn full_text(t: SyntaxTree) -> Seq<char>
    decreases t, 1int,
{
    t.text@ + full_text_list(t.children@)
}

/// The whole text of a list of sibling subtrees.
pub open spec fn full_text_list(cs: Seq<SyntaxTree>) -> Seq<char>
    decreases cs, 0int,
{
    if cs.len() == 0 {
        Seq::empty()
    } else {
        full_text_list(cs.drop_last()) + full_text(cs.last())
    }
}

// ─── Lemmas ─────────────────────────────────────────────────────────────────

/// Each character takes at least one byte, and a line end is a character.
proof fn lemma_breaks_bounded(s: Seq<char>)
    ensures
        line_breaks(s) <= s.len() <= utf8_len(s),
    decreases s.len(),
{
    if s.len() > 0 {
        lemma_breaks_bounded(s.drop_last());
    }
}

/// A subtree holds no more line ends than bytes.
proof fn lemma_breaks_total_bounded(t: SyntaxTree)
    requires
        tree_ok(t),
    ensures
        breaks_total(t) <= t.len,
    decreases t, 1int,
{
    lemma_breaks_bounded(t.text@);
    lemma_breaks_list_bounded(t.children@);
}

/// Siblings hold no more line ends than bytes.
proof fn lemma_breaks_list_bounded(cs: Seq<SyntaxTree>)
    requires
        tree_ok_list(cs),
    ensures
        breaks_list(cs) <= sum_lens(cs),
    decreases cs, 0int,
{
    if cs.len() > 0 {
        lemma_breaks_list_bounded(cs.drop_last());
        lemma_breaks_total_bounded(cs.last());
    }
}

/// Every sibling of a well-formed list is well formed.
pub proof fn lemma_tree_ok_each(cs: Seq<SyntaxTree>, i: int)
    requires
        tree_ok_list(cs),
        0 <= i < cs.len(),
    ensures
        tree_ok(cs[i]),
    decreases cs.len(),
{
    if i < cs.len() - 1 {
        assert(cs.drop_last()[i] == cs[i]);
        lemma_tree_ok_each(cs.drop_last(), i);
    }
}

/// The lengths of a prefix of siblings are part of the lengths of all.
pub proof fn lemma_sum_lens_prefix(cs: Seq<SyntaxTree>, i: int)
    requires
        0 <= i <= cs.len(),
    ensures
        sum_lens(cs.take(i)) <= sum_lens(cs),
    decreases cs.len() - i,
{
    if i < cs.len() {
        assert(cs.take(i + 1).drop_last() =~= cs.take(i));
        lemma_sum_lens_prefix(cs, i + 1);
    } else {
        assert(cs.take(i) =~= cs);
    }
}

// ─── Exec ───────────────────────────────────────────────────────────────────

/// typst-syntax's `parse` over `text`, converted node for node into a
/// [`SyntaxTree`]. The tree is named: it is a function of `text` alone. Its
/// lengths add up as typst-syntax builds them — a leaf is as long as its
/// token's bytes, an inner node as its children together, and an inner
/// node's own text is empty.
#[verifier::external_body]
pub(crate) fn parse_typst(text: &str) -> (t: SyntaxTree)
    ensures
        t == typst_parse(text@),
        tree_ok(t),
{
    tree_from_node(&typst_syntax::parse(text))
}

/// typst-syntax's node type, carried through the conversion only.
#[verifier::external_type_specification]
#[verifier::external_body]
pub struct ExSyntaxNode(typst_syntax::SyntaxNode);

/// Converts one typst-syntax node and its children into a [`SyntaxTree`].
#[verifier::external_body]
fn tree_from_node(n: &SyntaxNode) -> SyntaxTree {
    SyntaxTree {
        kind: format!("{:?}", n.kind()),
        text: n.leaf_text().to_string(),
        len: n.len(),
        is_expr: n.cast::<ast::Expr>().is_some(),
        str_value: n.cast::<ast::Str>().map(|s| s.get().to_string()),
        int_value: n.cast::<ast::Int>().map(|i| i.get()),
        children: n.children().map(tree_from_node).collect(),
    }
}

/// The syntax tree of a Typst source, as typst-syntax parses it.
pub fn parse_source(text: &str) -> (t: SyntaxTree)
    ensures
        t == typst_parse(text@),
        tree_ok(t),
{
    parse_typst(text)
}

/// Whether a node is of the named kind.
pub fn is_kind(t: &SyntaxTree, kind: &str) -> (b: bool)
    ensures
        b == (t.kind@ == kind@),
{
    str_eq(t.kind.as_str(), kind)
}

/// The context of the children of a node of kind `kind`.
pub fn descend_ctx(kind: &str, ctx: WalkCtx) -> (c: WalkCtx)
    ensures
        c == descend(kind@, ctx),
{
    let code = str_eq(kind, "Args") || str_eq(kind, "CodeBlock") || str_eq(kind, "Code");
    let leaves = str_eq(kind, "Closure") || str_eq(kind, "CodeBlock") || str_eq(kind, "LetBinding");
    WalkCtx { in_code: ctx.in_code || code, file_scope: ctx.file_scope && !leaves }
}

/// The number of line ends in `s`.
pub fn count_line_breaks(s: &str) -> (n: usize)
    ensures
        n == line_breaks(s@),
{
    let v = chars_of(s);
    let mut n: usize = 0;
    let mut i: usize = 0;
    while i < v.len()
        invariant
            i <= v@.len(),
            v@ == s@,
            n == line_breaks(v@.take(i as int)),
            n <= i,
        decreases v@.len() - i,
    {
        let c = v[i];
        let nl = c == '\n' || c == '\x0B' || c == '\x0C' || c == '\r' || c == '\u{0085}' || c
            == '\u{2028}' || c == '\u{2029}';
        let pair = c == '\n' && i > 0 && v[i - 1] == '\r';
        proof {
            let t = v@.take(i + 1);
            assert(t.drop_last() =~= v@.take(i as int));
            assert(t[i as int] == c);
            if i > 0 {
                assert(t[i - 1] == v@[i - 1]);
            }
        }
        if nl && !pair {
            n = n + 1;
        }
        i = i + 1;
    }
    proof {
        assert(v@.take(i as int) =~= s@);
    }
    n
}

/// Appends the visits of `t`, which starts at `offset` in context `ctx`
/// after `breaks` line ends, and answers the line ends inside `t`.
fn walk<'a>(
    t: &'a SyntaxTree,
    offset: usize,
    ctx: WalkCtx,
    breaks: usize,
    out: &mut Vec<(&'a SyntaxTree, usize, WalkCtx, usize)>,
) -> (b: usize)
    requires
        tree_ok(*t),
        offset + t.len <= usize::MAX,
        breaks + t.len < usize::MAX,
        visits_fit(old(out)@),
    ensures
        b == breaks_total(*t),
        visit_view(final(out)@) == visit_view(old(out)@) + visits(*t, offset as int, ctx, breaks as int),
        visits_fit(final(out)@),
    decreases t, 1int,
{
    proof {
        lemma_breaks_bounded(t.text@);
        lemma_breaks_list_bounded(t.children@);
    }
    out.push((t, offset, ctx, breaks));
    proof {
        assert forall|k: int| 0 <= k < out@.len() implies {
            &&& tree_ok(*(#[trigger] out@[k]).0)
            &&& out@[k].1 + out@[k].0.len <= usize::MAX
            &&& out@[k].3 + out@[k].0.len < usize::MAX
        } by {
            if k < old(out)@.len() {
                assert(out@[k] == old(out)@[k]);
            }
        }
    }
    let own = count_line_breaks(t.text.as_str());
    let child_ctx = descend_ctx(t.kind.as_str(), ctx);
    let b0 = breaks + own;
    let ghost start = visit_view(old(out)@) + seq![(*t, offset as int, ctx, breaks as int)];
    proof {
        assert(visit_view(out@) =~= start);
    }
    let (total, _) = walk_children(&t.children, offset, child_ctx, b0, out);
    proof {
        assert(t.children@.take(t.children@.len() as int) =~= t.children@);
    }
    own + total
}

/// Appends the visits of all `cs`, the first starting at `offset`, and
/// answers their line ends and their summed lengths.
fn walk_children<'a>(
    cs: &'a Vec<SyntaxTree>,
    offset: usize,
    ctx: WalkCtx,
    breaks: usize,
    out: &mut Vec<(&'a SyntaxTree, usize, WalkCtx, usize)>,
) -> (r: (usize, usize))
    requires
        tree_ok_list(cs@),
        offset + sum_lens(cs@) <= usize::MAX,
        breaks + sum_lens(cs@) < usize::MAX,
        visits_fit(old(out)@),
    ensures
        visits_fit(final(out)@),
        r.0 == breaks_list(cs@),
        r.1 == sum_lens(cs@),
        visit_view(final(out)@) == visit_view(old(out)@) + visits_list(
            cs@,
            offset as int,
            ctx,
            breaks as int,
        ),
    decreases cs, 0int,
{
    let ghost start = visit_view(out@);
    let mut i: usize = 0;
    let mut off = offset;
    let mut br: usize = 0;
    proof {
        assert(cs@.take(0) =~= Seq::<SyntaxTree>::empty());
        lemma_breaks_list_bounded(cs@);
    }
    while i < cs.len()
        invariant
            i <= cs@.len(),
            tree_ok_list(cs@),
            offset + sum_lens(cs@) <= usize::MAX,
            breaks + sum_lens(cs@) < usize::MAX,
            visits_fit(out@),
            off == offset + sum_lens(cs@.take(i as int)),
            br == breaks_list(cs@.take(i as int)),
            br <= sum_lens(cs@.take(i as int)),
            visit_view(out@) == start + visits_list(cs@.take(i as int), offset as int, ctx, breaks as int),
        decreases cs@.len() - i,
    {
        proof {
            let p = cs@.take(i + 1);
            assert(p.drop_last() =~= cs@.take(i as int));
            assert(p.last() == cs@[i as int]);
            lemma_tree_ok_each(cs@, i as int);
            lemma_sum_lens_prefix(cs@, i + 1);
            lemma_breaks_total_bounded(cs@[i as int]);
            assert(decreases_to!(cs => cs@[i as int]));
        }
        let child = &cs[i];
        let ghost before = visit_view(out@);
        let b = walk(child, off, ctx, breaks + br, out);
        proof {
            assert(visit_view(out@) =~= start + visits_list(cs@.take(i + 1), offset as int, ctx, breaks as int));
        }
        off = off + child.len;
        br = br + b;
        i = i + 1;
    }
    proof {
        assert(cs@.take(i as int) =~= cs@);
    }
    (br, off - offset)
}

/// Every node of `t` in depth-first order with its byte offset, its context
/// and the line ends before it; `t` starts at offset 0 at file scope.
pub fn visit_all(t: &SyntaxTree) -> (v: Vec<(&SyntaxTree, usize, WalkCtx, usize)>)
    requires
        tree_ok(*t),
        t.len < usize::MAX,
    ensures
        visit_view(v@) == source_visits(*t),
        visits_fit(v@),
{
    let mut out: Vec<(&SyntaxTree, usize, WalkCtx, usize)> = Vec::new();
    proof {
        assert(visit_view(out@) =~= Seq::<(SyntaxTree, int, WalkCtx, int)>::empty());
    }
    let ctx = WalkCtx { in_code: false, file_scope: true };
    let _ = walk(t, 0, ctx, 0, &mut out);
    proof {
        assert(visit_view(out@) =~= source_visits(*t));
    }
    out
}

} // verus!
