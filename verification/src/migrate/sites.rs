//! The syntax-driven migrations of `rheo migrate`: the removed
//! `rheo-target` surface and its rewrites, the files that read the old
//! `rheo-context` binding, the retired `rheo-*` bindings, and old-style
//! `#link("file.typ")` targets — each found on the parsed tree, never by
//! searching text.

use vstd::prelude::*;
use crate::parser::syntax::{
    full_text, is_kind, lemma_sum_lens_prefix, lemma_tree_ok_each, parse_typst, source_visits,
    sum_lens, tree_ok, tree_ok_list, typst_parse, visit_all, visit_view, visits_fit, SyntaxTree,
};
use crate::parser::metadata::{arg_name, first_expr, last_expr, last_of_kind};
use crate::parser::vars::{first_of_kind, first_of_kind_exec};
use crate::parser::WalkCtx;
use crate::config::{keys_view, retired_binding_table, retired_bindings, retired_key_table, retired_keys};
use crate::config::project::{entry_index, entry_index_exec, PluginSection, TomlValue};
use crate::reporter::{note_line, retired_line, rewrite_line, Reporter};
use crate::text::{
    chars_of, contains_seq, decimal, ends_with, ends_with_exec, find_seq, owned, push_decimal,
    push_str, str_eq,
};

verus! {

// ─── Specifications: shared syntax ─────────────────────────────────────────

/// The text of the last identifier among `cs`, empty if there is none
/// (a field access's field).
pub open spec fn last_ident_text(cs: Seq<SyntaxTree>) -> Seq<char> {
    match last_of_kind(cs, "Ident"@, cs.len() as int) {
        Some(i) => cs[i].text@,
        None => Seq::empty(),
    }
}

/// The first expression among `cs`, if any.
pub open spec fn first_expr_of(cs: Seq<SyntaxTree>) -> Option<SyntaxTree> {
    match first_expr(cs, 0) {
        Some(i) => Some(cs[i]),
        None => None,
    }
}

/// `e` is the field access `sys.inputs`.
pub open spec fn is_sys_inputs(e: SyntaxTree) -> bool {
    let t = first_expr_of(e.children@);
    &&& e.kind@ == "FieldAccess"@
    &&& t is Some
    &&& t->Some_0.kind@ == "Ident"@
    &&& t->Some_0.text@ == "sys"@
    &&& last_ident_text(e.children@) == "inputs"@
}

/// Whether an argument-list child is an argument rather than trivia or
/// punctuation.
pub open spec fn is_item(c: SyntaxTree) -> bool {
    !(c.kind@ == "Shebang"@ || c.kind@ == "LineComment"@ || c.kind@ == "BlockComment"@ || c.kind@
        == "Space"@ || c.kind@ == "Parbreak"@ || c.kind@ == "LeftParen"@ || c.kind@
        == "RightParen"@ || c.kind@ == "Comma"@)
}

/// The indices of the arguments among `cs`, in order.
pub open spec fn item_indices(cs: Seq<SyntaxTree>) -> Seq<int>
    decreases cs.len(),
{
    if cs.len() == 0 {
        Seq::empty()
    } else {
        let prev = item_indices(cs.drop_last());
        if is_item(cs.last()) {
            prev.push(cs.len() - 1)
        } else {
            prev
        }
    }
}

/// `e` is a string literal whose value is `value`.
pub open spec fn is_str_value(e: SyntaxTree, value: Seq<char>) -> bool {
    e.kind@ == "Str"@ && e.str_value is Some && e.str_value->Some_0@ == value
}

/// A binary operator's token kind, or `Not`, which a following `In` turns
/// into `not in`.
pub open spec fn is_op_kind(k: Seq<char>) -> bool {
    k == "Plus"@ || k == "Minus"@ || k == "Star"@ || k == "Slash"@ || k == "And"@ || k == "Or"@
        || k == "EqEq"@ || k == "ExclEq"@ || k == "Lt"@ || k == "LtEq"@ || k == "Gt"@ || k
        == "GtEq"@ || k == "Eq"@ || k == "In"@ || k == "PlusEq"@ || k == "HyphEq"@ || k
        == "StarEq"@ || k == "SlashEq"@ || k == "Not"@
}

/// The index of the first operator token among `cs[from..]`.
pub open spec fn first_op(cs: Seq<SyntaxTree>, from: int) -> Option<int>
    decreases cs.len() - from,
{
    if from < 0 || from >= cs.len() {
        None
    } else if is_op_kind(cs[from].kind@) {
        Some(from)
    } else {
        first_op(cs, from + 1)
    }
}

// ─── Specifications: `rheo-target` ─────────────────────────────────────────

/// The old and new text of `sys.inputs.at("rheo-target"[, default: ..])`
/// for a call at `offset`, when its arguments are the key alone or the key
/// and a `default:`; the default is copied as written.
pub open spec fn at_rewrite(call: SyntaxTree, offset: int) -> Option<
    (int, int, int, Seq<char>, Seq<char>),
> {
    let cs = call.children@;
    match first_of_kind(cs, "Args"@, 0) {
        None => None,
        Some(a) => {
            let args = cs[a].children@;
            let idx = item_indices(args);
            if idx.len() == 0 || !is_str_value(args[idx[0]], "rheo-target"@) {
                None
            } else if idx.len() == 1 {
                Some(
                    (
                        3,
                        offset,
                        offset + call.len,
                        "sys.inputs.at(\"rheo-target\")"@,
                        "sys.inputs.rheo-context.at(\"target\")"@,
                    ),
                )
            } else if idx.len() == 2 && args[idx[1]].kind@ == "Named"@ && arg_name(args[idx[1]])
                == "default"@ {
                let d = full_text(args[idx[1]]);
                Some(
                    (
                        3,
                        offset,
                        offset + call.len,
                        "sys.inputs.at(\"rheo-target\", "@ + d + ")"@,
                        "sys.inputs.rheo-context.at(\"target\", "@ + d + ")"@,
                    ),
                )
            } else {
                None
            }
        },
    }
}

/// The rewrite of the removed `rheo-target` surface a node at `offset` is,
/// if any, as (rank, start, end, old, new):
/// `rheo-target()` → `target()` (rank 0);
/// `"rheo-target" in sys.inputs` → a guarded `rheo-context` membership (1);
/// `sys.inputs.rheo-target` → `sys.inputs.rheo-context.target` (2);
/// `sys.inputs.at("rheo-target", ..)` → `sys.inputs.rheo-context.at("target", ..)` (3).
pub open spec fn target_site_at(n: SyntaxTree, offset: int) -> Option<
    (int, int, int, Seq<char>, Seq<char>),
> {
    let cs = n.children@;
    let end = offset + n.len;
    if n.kind@ == "FuncCall"@ {
        match first_expr_of(cs) {
            None => None,
            Some(callee) => {
                let args = first_of_kind(cs, "Args"@, 0);
                if callee.kind@ == "Ident"@ && callee.text@ == "rheo-target"@ && args is Some
                    && item_indices(cs[args->Some_0].children@).len() == 0 {
                    Some((0, offset, end, "rheo-target()"@, "target()"@))
                } else if callee.kind@ == "FieldAccess"@ && last_ident_text(callee.children@)
                    == "at"@ && first_expr_of(callee.children@) is Some && is_sys_inputs(
                    first_expr_of(callee.children@)->Some_0,
                ) {
                    at_rewrite(n, offset)
                } else {
                    None
                }
            },
        }
    } else if n.kind@ == "Binary"@ {
        let op = first_op(cs, 0);
        let lhs = first_expr_of(cs);
        let rhs = last_expr(cs, cs.len() as int);
        if op is Some && cs[op->Some_0].kind@ == "In"@ && lhs is Some && is_str_value(
            lhs->Some_0,
            "rheo-target"@,
        ) && rhs is Some && is_sys_inputs(cs[rhs->Some_0]) {
            Some(
                (
                    1,
                    offset,
                    end,
                    "\"rheo-target\" in sys.inputs"@,
                    "\"rheo-context\" in sys.inputs and \"target\" in sys.inputs.rheo-context"@,
                ),
            )
        } else {
            None
        }
    } else if n.kind@ == "FieldAccess"@ {
        let t = first_expr_of(cs);
        if last_ident_text(cs) == "rheo-target"@ && t is Some && is_sys_inputs(t->Some_0) {
            Some((2, offset, end, "sys.inputs.rheo-target"@, "sys.inputs.rheo-context.target"@))
        } else {
            None
        }
    } else {
        None
    }
}

/// The `rheo-target` sites among a walk's visits, each with the 1-based
/// line it starts on, in walk order.
pub open spec fn target_sites_of(vs: Seq<(SyntaxTree, int, WalkCtx, int)>) -> Seq<
    ((int, int, int, Seq<char>, Seq<char>), int),
>
    decreases vs.len(),
{
    if vs.len() == 0 {
        Seq::empty()
    } else {
        let prev = target_sites_of(vs.drop_last());
        match target_site_at(vs.last().0, vs.last().1) {
            Some(s) => prev.push((s, vs.last().3 + 1)),
            None => prev,
        }
    }
}

/// Whether site `a` comes before site `b`: by rank, then by start.
pub open spec fn site_before(a: (int, int, int, Seq<char>, Seq<char>), b: (int, int, int, Seq<char>, Seq<char>)) -> bool {
    a.0 < b.0 || (a.0 == b.0 && a.1 < b.1)
}

/// `s` inserted into the ordered `sorted` after every site not after it.
pub open spec fn insert_site(
    sorted: Seq<((int, int, int, Seq<char>, Seq<char>), int)>,
    s: ((int, int, int, Seq<char>, Seq<char>), int),
) -> Seq<((int, int, int, Seq<char>, Seq<char>), int)>
    decreases sorted.len(),
{
    if sorted.len() == 0 {
        seq![s]
    } else if !site_before(s.0, sorted.last().0) {
        sorted.push(s)
    } else {
        insert_site(sorted.drop_last(), s).push(sorted.last())
    }
}

/// The sites ordered by rank and then start, ties in walk order.
pub open spec fn sort_sites(ss: Seq<((int, int, int, Seq<char>, Seq<char>), int)>) -> Seq<
    ((int, int, int, Seq<char>, Seq<char>), int),
>
    decreases ss.len(),
{
    if ss.len() == 0 {
        ss
    } else {
        insert_site(sort_sites(ss.drop_last()), ss.last())
    }
}

/// The text of a subtree starting at `offset` with every `rheo-target`
/// site replaced by its new form; a site's own subtree is not searched
/// further.
pub open spec fn rewritten(t: SyntaxTree, offset: int) -> Seq<char>
    decreases t, 1int,
{
    match target_site_at(t, offset) {
        Some(s) => s.4,
        None => t.text@ + rewritten_list(t.children@, offset),
    }
}

/// [`rewritten`] over siblings, the first at `offset`.
pub open spec fn rewritten_list(cs: Seq<SyntaxTree>, offset: int) -> Seq<char>
    decreases cs, 0int,
{
    if cs.len() == 0 {
        Seq::empty()
    } else {
        rewritten_list(cs.drop_last(), offset) + rewritten(cs.last(), offset + sum_lens(cs.drop_last()))
    }
}

// ─── Specifications: `rheo-context` ────────────────────────────────────────

/// Whether a subtree reads the `rheo-context` value binding: an identifier
/// `rheo-context` anywhere except as the field of a field access.
pub open spec fn reads_context(t: SyntaxTree) -> bool
    decreases t, 1int,
{
    if t.kind@ == "Ident"@ && t.text@ == "rheo-context"@ {
        true
    } else {
        let skip = if t.kind@ == "FieldAccess"@ {
            last_of_kind(t.children@, "Ident"@, t.children@.len() as int)
        } else {
            None
        };
        reads_context_list(t.children@, skip)
    }
}

/// Whether any of `cs` but the one at `skip` reads the binding.
pub open spec fn reads_context_list(cs: Seq<SyntaxTree>, skip: Option<int>) -> bool
    decreases cs, 0int,
{
    if cs.len() == 0 {
        false
    } else {
        reads_context_list(cs.drop_last(), skip) || (skip != Some(cs.len() - 1) && reads_context(
            cs.last(),
        ))
    }
}

/// The line prepended to a file that reads the old binding.
pub open spec fn context_shim() -> Seq<char> {
    "#let rheo-context = rheo-context()"@
}

// ─── Specifications: `#link("file.typ")` ───────────────────────────────────

/// For a call of `link` at `offset` whose first argument is a string ending
/// `.typ`: that string's value, its literal's byte range, and the call's
/// start.
pub open spec fn link_target_at(n: SyntaxTree, offset: int) -> Option<(Seq<char>, int, int, int)> {
    let cs = n.children@;
    let callee = first_expr_of(cs);
    if n.kind@ == "FuncCall"@ && callee is Some && callee->Some_0.kind@ == "Ident"@
        && callee->Some_0.text@ == "link"@ {
        match first_of_kind(cs, "Args"@, 0) {
            None => None,
            Some(a) => {
                let args = cs[a].children@;
                let idx = item_indices(args);
                if idx.len() > 0 && args[idx[0]].kind@ == "Str"@ && args[idx[0]].str_value is Some
                    && ends_with(args[idx[0]].str_value->Some_0@, ".typ"@) {
                    let start = offset + sum_lens(cs.take(a)) + sum_lens(args.take(idx[0]));
                    Some(
                        (
                            args[idx[0]].str_value->Some_0@,
                            start,
                            start + args[idx[0]].len,
                            offset,
                        ),
                    )
                } else {
                    None
                }
            },
        }
    } else {
        None
    }
}

/// The link targets among a walk's visits, in walk order.
pub open spec fn link_targets_of(vs: Seq<(SyntaxTree, int, WalkCtx, int)>) -> Seq<
    (Seq<char>, int, int, int),
>
    decreases vs.len(),
{
    if vs.len() == 0 {
        Seq::empty()
    } else {
        let prev = link_targets_of(vs.drop_last());
        match link_target_at(vs.last().0, vs.last().1) {
            Some(s) => prev.push(s),
            None => prev,
        }
    }
}

// ─── Exec: shared syntax ───────────────────────────────────────────────────

/// The last identifier's text among `cs`.
fn last_ident_text_exec(cs: &Vec<SyntaxTree>) -> (r: String)
    ensures
        r@ == last_ident_text(cs@),
{
    match crate::parser::metadata::last_of_kind_exec(cs, "Ident", cs.len()) {
        Some(i) => owned(cs[i].text.as_str()),
        None => String::new(),
    }
}

/// The first expression among `cs`.
fn first_expr_of_exec(cs: &Vec<SyntaxTree>) -> (r: Option<&SyntaxTree>)
    ensures
        r matches Some(e) ==> first_expr_of(cs@) == Some(*e),
        r is None ==> first_expr_of(cs@) is None,
{
    match crate::parser::metadata::first_expr_exec(cs, 0) {
        Some(i) => Some(&cs[i]),
        None => None,
    }
}

/// Whether `e` is the field access `sys.inputs`.
fn is_sys_inputs_exec(e: &SyntaxTree) -> (b: bool)
    ensures
        b == is_sys_inputs(*e),
{
    if !is_kind(e, "FieldAccess") {
        return false;
    }
    match first_expr_of_exec(&e.children) {
        Some(t) => {
            is_kind(t, "Ident") && str_eq(t.text.as_str(), "sys") && str_eq(
                last_ident_text_exec(&e.children).as_str(),
                "inputs",
            )
        },
        None => false,
    }
}

/// Whether an argument-list child is an argument.
fn is_item_exec(c: &SyntaxTree) -> (b: bool)
    ensures
        b == is_item(*c),
{
    !(is_kind(c, "Shebang") || is_kind(c, "LineComment") || is_kind(c, "BlockComment") || is_kind(
        c,
        "Space",
    ) || is_kind(c, "Parbreak") || is_kind(c, "LeftParen") || is_kind(c, "RightParen") || is_kind(
        c,
        "Comma",
    ))
}

/// The indices of the arguments among `cs`.
fn item_indices_exec(cs: &Vec<SyntaxTree>) -> (r: Vec<usize>)
    ensures
        r@.map_values(|i: usize| i as int) == item_indices(cs@),
        forall|k: int| 0 <= k < r@.len() ==> r@[k] < cs@.len(),
{
    let mut out: Vec<usize> = Vec::new();
    let mut i: usize = 0;
    proof {
        assert(cs@.take(0) =~= Seq::<SyntaxTree>::empty());
    }
    while i < cs.len()
        invariant
            i <= cs@.len(),
            out@.map_values(|i: usize| i as int) == item_indices(cs@.take(i as int)),
            forall|k: int| 0 <= k < out@.len() ==> out@[k] < i,
        decreases cs@.len() - i,
    {
        proof {
            assert(cs@.take(i + 1).drop_last() =~= cs@.take(i as int));
            assert(cs@.take(i + 1).last() == cs@[i as int]);
        }
        if is_item_exec(&cs[i]) {
            let ghost before = out@;
            out.push(i);
            proof {
                assert(out@.map_values(|i: usize| i as int) =~= before.map_values(|i: usize| i as int).push(
                    i as int,
                ));
            }
        }
        i += 1;
    }
    proof {
        assert(cs@.take(i as int) =~= cs@);
    }
    out
}

/// Whether `e` is a string literal whose value is `value`.
fn is_str_value_exec(e: &SyntaxTree, value: &str) -> (b: bool)
    ensures
        b == is_str_value(*e, value@),
{
    if !is_kind(e, "Str") {
        return false;
    }
    match &e.str_value {
        Some(s) => str_eq(s.as_str(), value),
        None => false,
    }
}

/// Whether a token kind is a binary operator's, or `Not`.
fn is_op_kind_exec(k: &str) -> (b: bool)
    ensures
        b == is_op_kind(k@),
{
    str_eq(k, "Plus") || str_eq(k, "Minus") || str_eq(k, "Star") || str_eq(k, "Slash") || str_eq(
        k,
        "And",
    ) || str_eq(k, "Or") || str_eq(k, "EqEq") || str_eq(k, "ExclEq") || str_eq(k, "Lt") || str_eq(
        k,
        "LtEq",
    ) || str_eq(k, "Gt") || str_eq(k, "GtEq") || str_eq(k, "Eq") || str_eq(k, "In") || str_eq(
        k,
        "PlusEq",
    ) || str_eq(k, "HyphEq") || str_eq(k, "StarEq") || str_eq(k, "SlashEq") || str_eq(k, "Not")
}

/// The index of the first operator token among `cs[from..]`.
fn first_op_exec(cs: &Vec<SyntaxTree>, from: usize) -> (r: Option<usize>)
    ensures
        r matches Some(i) ==> first_op(cs@, from as int) == Some(i as int) && i < cs@.len(),
        r is None ==> first_op(cs@, from as int) is None,
    decreases cs@.len() - from,
{
    if from >= cs.len() {
        return None;
    }
    if is_op_kind_exec(cs[from].kind.as_str()) {
        return Some(from);
    }
    first_op_exec(cs, from + 1)
}

// ─── Exec: `rheo-target` ───────────────────────────────────────────────────

/// One rewrite of the removed `rheo-target` surface: its rank in the
/// report, the byte range of the node it replaces, the text found, the text
/// written, and the line it starts on.
#[derive(Debug)]
pub struct TargetSite {
    pub rank: u8,
    pub start: usize,
    pub end: usize,
    pub old: String,
    pub new: String,
    pub line: usize,
}

/// A site as plain values.
pub open spec fn target_view(s: TargetSite) -> ((int, int, int, Seq<char>, Seq<char>), int) {
    ((s.rank as int, s.start as int, s.end as int, s.old@, s.new@), s.line as int)
}

impl TargetSite {
    /// The rewrite of `sys.inputs.at("rheo-target"[, default: ..])`, for a
    /// call whose callee is already known to be `sys.inputs.at`.
    fn at_rewrite(call: &SyntaxTree, offset: usize, line: usize) -> (r: Option<TargetSite>)
        requires
            offset + call.len <= usize::MAX,
        ensures
            match at_rewrite(*call, offset as int) {
                None => r is None,
                Some(s) => r matches Some(t) && target_view(t) == (s, line as int),
            },
    {
        let cs = &call.children;
        let a = match first_of_kind_exec(cs, "Args", 0) {
            Some(a) => a,
            None => return None,
        };
        let args = &cs[a].children;
        let idx = item_indices_exec(args);
        proof {
            assert(idx@.len() == item_indices(args@).len());
            if idx@.len() > 0 {
                assert(idx@.map_values(|i: usize| i as int)[0] == idx@[0] as int);
            }
            if idx@.len() > 1 {
                assert(idx@.map_values(|i: usize| i as int)[1] == idx@[1] as int);
            }
        }
        if idx.len() == 0 || !is_str_value_exec(&args[idx[0]], "rheo-target") {
            return None;
        }
        let end = offset + call.len;
        if idx.len() == 1 {
            return Some(
                TargetSite {
                    rank: 3,
                    start: offset,
                    end,
                    old: owned("sys.inputs.at(\"rheo-target\")"),
                    new: owned("sys.inputs.rheo-context.at(\"target\")"),
                    line,
                },
            );
        }
        if idx.len() == 2 {
            let named = &args[idx[1]];
            if is_kind(named, "Named") && str_eq(
                crate::parser::metadata::arg_name_exec(named).as_str(),
                "default",
            ) {
                let mut d = String::new();
                crate::parser::metadata::full_text_exec(named, &mut d);
                proof {
                    assert(d@ =~= full_text(*named));
                }
                let mut old = owned("sys.inputs.at(\"rheo-target\", ");
                push_str(&mut old, d.as_str());
                push_str(&mut old, ")");
                let mut new = owned("sys.inputs.rheo-context.at(\"target\", ");
                push_str(&mut new, d.as_str());
                push_str(&mut new, ")");
                return Some(TargetSite { rank: 3, start: offset, end, old, new, line });
            }
        }
        None
    }

    /// The `rheo-target` rewrite a node at `offset` is, if any.
    pub fn at(n: &SyntaxTree, offset: usize, line: usize) -> (r: Option<TargetSite>)
        requires
            offset + n.len <= usize::MAX,
        ensures
            match target_site_at(*n, offset as int) {
                None => r is None,
                Some(s) => r matches Some(t) && target_view(t) == (s, line as int),
            },
    {
        let cs = &n.children;
        let end = offset + n.len;
        if is_kind(n, "FuncCall") {
            let callee = match first_expr_of_exec(cs) {
                Some(c) => c,
                None => return None,
            };
            let empty_args = match first_of_kind_exec(cs, "Args", 0) {
                Some(a) => {
                    let idx = item_indices_exec(&cs[a].children);
                    idx.len() == 0
                },
                None => false,
            };
            if is_kind(callee, "Ident") && str_eq(callee.text.as_str(), "rheo-target") && empty_args {
                return Some(
                    TargetSite {
                        rank: 0,
                        start: offset,
                        end,
                        old: owned("rheo-target()"),
                        new: owned("target()"),
                        line,
                    },
                );
            }
            if is_kind(callee, "FieldAccess") && str_eq(
                last_ident_text_exec(&callee.children).as_str(),
                "at",
            ) {
                match first_expr_of_exec(&callee.children) {
                    Some(t) => {
                        if is_sys_inputs_exec(t) {
                            return TargetSite::at_rewrite(n, offset, line);
                        }
                    },
                    None => {},
                }
            }
            return None;
        }
        if is_kind(n, "Binary") {
            let op_in = match first_op_exec(cs, 0) {
                Some(o) => is_kind(&cs[o], "In"),
                None => false,
            };
            let lhs_ok = match first_expr_of_exec(cs) {
                Some(l) => is_str_value_exec(l, "rheo-target"),
                None => false,
            };
            let rhs_ok = match crate::parser::metadata::last_expr_exec(cs, cs.len()) {
                Some(r) => is_sys_inputs_exec(&cs[r]),
                None => false,
            };
            if op_in && lhs_ok && rhs_ok {
                return Some(
                    TargetSite {
                        rank: 1,
                        start: offset,
                        end,
                        old: owned("\"rheo-target\" in sys.inputs"),
                        new: owned(
                            "\"rheo-context\" in sys.inputs and \"target\" in sys.inputs.rheo-context",
                        ),
                        line,
                    },
                );
            }
            return None;
        }
        if is_kind(n, "FieldAccess") {
            let target_ok = match first_expr_of_exec(cs) {
                Some(t) => is_sys_inputs_exec(t),
                None => false,
            };
            if str_eq(last_ident_text_exec(cs).as_str(), "rheo-target") && target_ok {
                return Some(
                    TargetSite {
                        rank: 2,
                        start: offset,
                        end,
                        old: owned("sys.inputs.rheo-target"),
                        new: owned("sys.inputs.rheo-context.target"),
                        line,
                    },
                );
            }
            return None;
        }
        None
    }

    /// The `rheo-target` sites of a parsed tree, in walk order.
    pub fn collect_tree(t: &SyntaxTree) -> (r: Vec<TargetSite>)
        requires
            tree_ok(*t),
            t.len < usize::MAX,
        ensures
            r@.map_values(|s: TargetSite| target_view(s)) == target_sites_of(source_visits(*t)),
    {
        let vs = visit_all(t);
        let ghost all = visit_view(vs@);
        let mut out: Vec<TargetSite> = Vec::new();
        let mut i: usize = 0;
        proof {
            assert(out@.map_values(|s: TargetSite| target_view(s)) =~= target_sites_of(all.take(0)));
        }
        while i < vs.len()
            invariant
                i <= vs@.len(),
                all == visit_view(vs@),
                all == source_visits(*t),
                visits_fit(vs@),
                out@.map_values(|s: TargetSite| target_view(s)) == target_sites_of(all.take(i as int)),
            decreases vs@.len() - i,
        {
            let e = vs[i];
            proof {
                assert(all.take(i + 1).drop_last() =~= all.take(i as int));
                assert(all.take(i + 1).last() == (*e.0, e.1 as int, e.2, e.3 as int));
                assert(vs@[i as int] == e);
            }
            match TargetSite::at(e.0, e.1, e.3 + 1) {
                Some(s) => {
                    let ghost before = out@;
                    out.push(s);
                    proof {
                        assert(out@.map_values(|s: TargetSite| target_view(s)) =~= before.map_values(
                            |s: TargetSite| target_view(s),
                        ).push(target_view(s)));
                    }
                },
                None => {},
            }
            i += 1;
        }
        proof {
            assert(all.take(i as int) =~= all);
        }
        out
    }
}

/// Whether site `a` comes before site `b`.
fn site_before_exec(a: &TargetSite, b: &TargetSite) -> (r: bool)
    ensures
        r == site_before(target_view(*a).0, target_view(*b).0),
{
    a.rank < b.rank || (a.rank == b.rank && a.start < b.start)
}

/// The sites ordered by rank and then start, ties kept in order.
pub fn sort_target_sites(sites: Vec<TargetSite>) -> (r: Vec<TargetSite>)
    ensures
        r@.map_values(|s: TargetSite| target_view(s)) == sort_sites(
            sites@.map_values(|s: TargetSite| target_view(s)),
        ),
{
    let ghost all = sites@.map_values(|s: TargetSite| target_view(s));
    let mut out: Vec<TargetSite> = Vec::new();
    let mut rest = sites;
    let total = rest.len();
    let mut i: usize = 0;
    proof {
        assert(all.take(0) =~= Seq::<((int, int, int, Seq<char>, Seq<char>), int)>::empty());
        assert(out@.map_values(|s: TargetSite| target_view(s)) =~= sort_sites(all.take(0)));
    }
    while rest.len() > 0
        invariant
            i + rest@.len() == all.len(),
            all.len() == total,
            rest@.map_values(|s: TargetSite| target_view(s)) == all.skip(i as int),
            out@.map_values(|s: TargetSite| target_view(s)) == sort_sites(all.take(i as int)),
        decreases rest@.len(),
    {
        proof {
            assert(all.take(i + 1).drop_last() =~= all.take(i as int));
            assert(all.take(i + 1).last() == all[i as int]);
            assert(rest@.map_values(|s: TargetSite| target_view(s))[0] == all[i as int]);
            assert(rest@.remove(0) =~= rest@.skip(1));
            assert(rest@.skip(1).map_values(|s: TargetSite| target_view(s)) =~= rest@.map_values(
                |s: TargetSite| target_view(s),
            ).skip(1));
            assert(all.skip(i as int).skip(1) =~= all.skip(i + 1));
        }
        let s = rest.remove(0);
        insert_site_exec(&mut out, s);
        i += 1;
    }
    proof {
        assert(all.take(i as int) =~= all);
    }
    out
}

/// Inserts `s` after every site of the ordered `sorted` not after it.
fn insert_site_exec(sorted: &mut Vec<TargetSite>, s: TargetSite)
    ensures
        final(sorted)@.map_values(|t: TargetSite| target_view(t)) == insert_site(
            old(sorted)@.map_values(|t: TargetSite| target_view(t)),
            target_view(s),
        ),
{
    let ghost orig = sorted@.map_values(|t: TargetSite| target_view(t));
    let mut pos: usize = sorted.len();
    proof {
        assert(orig.take(pos as int) =~= orig);
    }
    while pos > 0 && site_before_exec(&s, &sorted[pos - 1])
        invariant
            pos <= sorted@.len(),
            orig == sorted@.map_values(|t: TargetSite| target_view(t)),
            insert_site(orig, target_view(s)) == insert_site(orig.take(pos as int), target_view(s))
                + orig.skip(pos as int),
        decreases pos,
    {
        proof {
            let p = orig.take(pos as int);
            assert(p.drop_last() =~= orig.take(pos - 1));
            assert(p.last() == orig[pos - 1]);
            assert(orig.skip(pos - 1) =~= seq![orig[pos - 1]] + orig.skip(pos as int));
            assert(insert_site(p, target_view(s)) == insert_site(orig.take(pos - 1), target_view(s)).push(
                orig[pos - 1],
            ));
            assert(insert_site(orig.take(pos - 1), target_view(s)).push(orig[pos - 1]) + orig.skip(
                pos as int,
            ) =~= insert_site(orig.take(pos - 1), target_view(s)) + orig.skip(pos - 1));
        }
        pos -= 1;
    }
    proof {
        let p = orig.take(pos as int);
        if pos > 0 {
            assert(p.last() == orig[pos - 1]);
            assert(insert_site(p, target_view(s)) == p.push(target_view(s)));
        } else {
            assert(insert_site(p, target_view(s)) =~= seq![target_view(s)]);
        }
    }
    let ghost tv = target_view(s);
    sorted.insert(pos, s);
    proof {
        assert(sorted@.map_values(|t: TargetSite| target_view(t)) =~= orig.take(pos as int).push(tv)
            + orig.skip(pos as int));
    }
}

/// Appends the text of `t`, at `offset`, with every `rheo-target` site
/// replaced by its new form.
fn rewrite_into(t: &SyntaxTree, offset: usize, out: &mut String)
    requires
        tree_ok(*t),
        offset + t.len <= usize::MAX,
    ensures
        final(out)@ == old(out)@ + rewritten(*t, offset as int),
    decreases t, 1int,
{
    match TargetSite::at(t, offset, 0) {
        Some(s) => {
            push_str(out, s.new.as_str());
        },
        None => {
            push_str(out, t.text.as_str());
            let ghost mid = out@;
            rewrite_list_into(&t.children, offset, out);
            proof {
                assert(out@ =~= old(out)@ + rewritten(*t, offset as int));
            }
        },
    }
}

/// Appends [`rewritten`] of each of `cs`, the first at `offset`.
fn rewrite_list_into(cs: &Vec<SyntaxTree>, offset: usize, out: &mut String)
    requires
        tree_ok_list(cs@),
        offset + sum_lens(cs@) <= usize::MAX,
    ensures
        final(out)@ == old(out)@ + rewritten_list(cs@, offset as int),
    decreases cs, 0int,
{
    let ghost start = out@;
    let mut i: usize = 0;
    let mut off = offset;
    proof {
        assert(cs@.take(0) =~= Seq::<SyntaxTree>::empty());
    }
    while i < cs.len()
        invariant
            i <= cs@.len(),
            tree_ok_list(cs@),
            offset + sum_lens(cs@) <= usize::MAX,
            off == offset + sum_lens(cs@.take(i as int)),
            out@ == start + rewritten_list(cs@.take(i as int), offset as int),
        decreases cs@.len() - i,
    {
        proof {
            let p = cs@.take(i + 1);
            assert(p.drop_last() =~= cs@.take(i as int));
            assert(p.last() == cs@[i as int]);
            lemma_tree_ok_each(cs@, i as int);
            lemma_sum_lens_prefix(cs@, i + 1);
            assert(decreases_to!(cs => cs@[i as int]));
        }
        rewrite_into(&cs[i], off, out);
        proof {
            assert(out@ =~= start + rewritten_list(cs@.take(i + 1), offset as int));
        }
        off = off + cs[i].len;
        i += 1;
    }
    proof {
        assert(cs@.take(i as int) =~= cs@);
    }
}

/// A parsed source rewritten for the removed `rheo-target` surface: its
/// text with every site replaced, and the sites in report order (by rank,
/// then position).
pub fn rewrite_target_references_tree(t: &SyntaxTree) -> (r: (String, Vec<TargetSite>))
    requires
        tree_ok(*t),
        t.len < usize::MAX,
    ensures
        r.0@ == rewritten(*t, 0),
        r.1@.map_values(|s: TargetSite| target_view(s)) == sort_sites(
            target_sites_of(source_visits(*t)),
        ),
{
    let sites = sort_target_sites(TargetSite::collect_tree(t));
    let mut out = String::new();
    rewrite_into(t, 0, &mut out);
    proof {
        assert(out@ =~= rewritten(*t, 0));
    }
    (out, sites)
}

/// `text` rewritten for the removed `rheo-target` surface, with the sites
/// in report order. A tree as long as the largest integer has no room for
/// its positions; it is returned as written, with no sites.
pub fn rewrite_target_references(text: &str) -> (r: (String, Vec<TargetSite>))
    ensures
        typst_parse(text@).len < usize::MAX ==> r.0@ == rewritten(typst_parse(text@), 0)
            && r.1@.map_values(|s: TargetSite| target_view(s)) == sort_sites(
            target_sites_of(source_visits(typst_parse(text@))),
        ),
        typst_parse(text@).len == usize::MAX ==> r.0@ == text@ && r.1@.len() == 0,
{
    let t = parse_typst(text);
    if t.len == usize::MAX {
        return (owned(text), Vec::new());
    }
    rewrite_target_references_tree(&t)
}

// ─── Exec: `rheo-context` ──────────────────────────────────────────────────

/// Whether a subtree reads the `rheo-context` value binding.
pub fn reads_context_exec(t: &SyntaxTree) -> (b: bool)
    ensures
        b == reads_context(*t),
    decreases t, 1int,
{
    if is_kind(t, "Ident") && str_eq(t.text.as_str(), "rheo-context") {
        return true;
    }
    let skip = if is_kind(t, "FieldAccess") {
        crate::parser::metadata::last_of_kind_exec(&t.children, "Ident", t.children.len())
    } else {
        None
    };
    reads_context_list_exec(&t.children, skip)
}

/// Whether any of `cs` but the one at `skip` reads the binding.
fn reads_context_list_exec(cs: &Vec<SyntaxTree>, skip: Option<usize>) -> (b: bool)
    ensures
        b == reads_context_list(
            cs@,
            match skip {
                Some(k) => Some(k as int),
                None => None,
            },
        ),
    decreases cs, 0int,
{
    let ghost sk = match skip {
        Some(k) => Some(k as int),
        None => None::<int>,
    };
    let mut i: usize = 0;
    proof {
        assert(cs@.take(0) =~= Seq::<SyntaxTree>::empty());
    }
    while i < cs.len()
        invariant
            i <= cs@.len(),
            sk == (match skip {
                Some(k) => Some(k as int),
                None => None::<int>,
            }),
            !reads_context_list(cs@.take(i as int), sk),
        decreases cs@.len() - i,
    {
        proof {
            let p = cs@.take(i + 1);
            assert(p.drop_last() =~= cs@.take(i as int));
            assert(p.last() == cs@[i as int]);
            assert(decreases_to!(cs => cs@[i as int]));
        }
        let skipped = match skip {
            Some(k) => k == i,
            None => false,
        };
        if !skipped && reads_context_exec(&cs[i]) {
            proof {
                lemma_reads_prefix(cs@, sk, i + 1);
            }
            return true;
        }
        i += 1;
    }
    proof {
        assert(cs@.take(i as int) =~= cs@);
    }
    false
}

/// A prefix that reads the binding makes the whole list read it.
proof fn lemma_reads_prefix(cs: Seq<SyntaxTree>, skip: Option<int>, n: int)
    requires
        0 <= n <= cs.len(),
        reads_context_list(cs.take(n), skip),
    ensures
        reads_context_list(cs, skip),
    decreases cs.len() - n,
{
    if n < cs.len() {
        assert(cs.take(n + 1).drop_last() =~= cs.take(n));
        lemma_reads_prefix(cs, skip, n + 1);
    } else {
        assert(cs.take(n) =~= cs);
    }
}

/// A file that reads the old `rheo-context` binding, with the
/// compatibility shim `#let rheo-context = rheo-context()` prepended on a
/// line of its own; `None` for a file already shimmed or one that never
/// reads the binding.
pub fn context_shimmed(text: &str) -> (r: Option<String>)
    ensures
        contains_seq(text@, context_shim()) ==> r is None,
        !contains_seq(text@, context_shim()) ==> (r is Some <==> reads_context(typst_parse(text@))),
        r matches Some(s) ==> s@ == context_shim() + "\n"@ + text@,
{
    let tv = chars_of(text);
    let shim = chars_of("#let rheo-context = rheo-context()");
    if find_seq(&tv, &shim).is_some() {
        return None;
    }
    let t = parse_typst(text);
    if !reads_context_exec(&t) {
        return None;
    }
    let mut out = owned("#let rheo-context = rheo-context()");
    push_str(&mut out, "\n");
    push_str(&mut out, text);
    Some(out)
}

// ─── Exec: `#link("file.typ")` ─────────────────────────────────────────────

/// An old-style `#link("file.typ")` target: the href, the byte range of its
/// string literal, and where the call starts.
#[derive(Debug)]
pub struct LinkTarget {
    pub href: String,
    pub start: usize,
    pub end: usize,
    pub call_start: usize,
}

/// A link target as plain values.
pub open spec fn link_view(l: LinkTarget) -> (Seq<char>, int, int, int) {
    (l.href@, l.start as int, l.end as int, l.call_start as int)
}

impl LinkTarget {
    /// The link target a node at `offset` is, if any.
    pub fn at(n: &SyntaxTree, offset: usize) -> (r: Option<LinkTarget>)
        requires
            tree_ok(*n),
            offset + n.len <= usize::MAX,
        ensures
            match link_target_at(*n, offset as int) {
                None => r is None,
                Some(x) => r matches Some(l) && link_view(l) == x,
            },
    {
        if !is_kind(n, "FuncCall") {
            return None;
        }
        let cs = &n.children;
        match first_expr_of_exec(cs) {
            Some(c) => {
                if !(is_kind(c, "Ident") && str_eq(c.text.as_str(), "link")) {
                    return None;
                }
            },
            None => return None,
        }
        let a = match first_of_kind_exec(cs, "Args", 0) {
            Some(a) => a,
            None => return None,
        };
        let args = &cs[a].children;
        let idx = item_indices_exec(args);
        if idx.len() == 0 {
            return None;
        }
        proof {
            assert(idx@.map_values(|i: usize| i as int)[0] == idx@[0] as int);
        }
        let first = idx[0];
        let item = &args[first];
        if !is_kind(item, "Str") {
            return None;
        }
        let href = match &item.str_value {
            Some(s) => owned(s.as_str()),
            None => return None,
        };
        let hv = chars_of(href.as_str());
        let suffix = chars_of(".typ");
        if !ends_with_exec(&hv, &suffix) {
            return None;
        }
        proof {
            lemma_tree_ok_each(cs@, a as int);
            lemma_sum_lens_prefix(cs@, a + 1);
            assert(cs@.take(a + 1).drop_last() =~= cs@.take(a as int));
            lemma_sum_lens_prefix(args@, first + 1);
            assert(args@.take(first + 1).drop_last() =~= args@.take(first as int));
        }
        let before_args = sum_lens_exec(cs, a);
        let before_item = sum_lens_exec(args, first);
        let start = offset + before_args + before_item;
        Some(LinkTarget { href, start, end: start + item.len, call_start: offset })
    }

    /// The old-style link targets of `text`, in document order. A tree as
    /// long as the largest integer has no room for its positions; it yields
    /// none.
    pub fn collect(text: &str) -> (r: Vec<LinkTarget>)
        ensures
            typst_parse(text@).len < usize::MAX ==> r@.map_values(|l: LinkTarget| link_view(l))
                == link_targets_of(source_visits(typst_parse(text@))),
            typst_parse(text@).len == usize::MAX ==> r@.len() == 0,
    {
        let t = parse_typst(text);
        if t.len == usize::MAX {
            return Vec::new();
        }
        let vs = visit_all(&t);
        let ghost all = visit_view(vs@);
        let mut out: Vec<LinkTarget> = Vec::new();
        let mut i: usize = 0;
        proof {
            assert(out@.map_values(|l: LinkTarget| link_view(l)) =~= link_targets_of(all.take(0)));
        }
        while i < vs.len()
            invariant
                i <= vs@.len(),
                all == visit_view(vs@),
                all == source_visits(typst_parse(text@)),
                visits_fit(vs@),
                out@.map_values(|l: LinkTarget| link_view(l)) == link_targets_of(all.take(i as int)),
            decreases vs@.len() - i,
        {
            let e = vs[i];
            proof {
                assert(all.take(i + 1).drop_last() =~= all.take(i as int));
                assert(all.take(i + 1).last() == (*e.0, e.1 as int, e.2, e.3 as int));
                assert(vs@[i as int] == e);
            }
            match LinkTarget::at(e.0, e.1) {
                Some(l) => {
                    let ghost before = out@;
                    out.push(l);
                    proof {
                        assert(out@.map_values(|l: LinkTarget| link_view(l)) =~= before.map_values(
                            |l: LinkTarget| link_view(l),
                        ).push(link_view(l)));
                    }
                },
                None => {},
            }
            i += 1;
        }
        proof {
            assert(all.take(i as int) =~= all);
        }
        out
    }
}

/// The summed lengths of `cs[..n]`.
fn sum_lens_exec(cs: &Vec<SyntaxTree>, n: usize) -> (r: usize)
    requires
        n <= cs@.len(),
        sum_lens(cs@.take(n as int)) <= usize::MAX,
    ensures
        r == sum_lens(cs@.take(n as int)),
{
    let mut total: usize = 0;
    let mut k: usize = 0;
    proof {
        assert(cs@.take(0) =~= Seq::<SyntaxTree>::empty());
    }
    while k < n
        invariant
            k <= n <= cs@.len(),
            sum_lens(cs@.take(n as int)) <= usize::MAX,
            total == sum_lens(cs@.take(k as int)),
        decreases n - k,
    {
        proof {
            assert(cs@.take(k + 1).drop_last() =~= cs@.take(k as int));
            lemma_sum_lens_prefix(cs@.take(n as int), k + 1);
            assert(cs@.take(n as int).take(k + 1) =~= cs@.take(k + 1));
        }
        total = total + cs[k].len;
        k += 1;
    }
    total
}


// ─── Specifications: retired bindings ──────────────────────────────────────

/// Whether a node can be a binding pattern.
pub open spec fn is_pattern(c: SyntaxTree) -> bool {
    c.kind@ == "Underscore"@ || c.kind@ == "Parenthesized"@ || c.kind@ == "Destructuring"@
        || c.is_expr
}

/// The index of the first pattern among `cs[from..]`.
pub open spec fn first_pattern(cs: Seq<SyntaxTree>, from: int) -> Option<int>
    decreases cs.len() - from,
{
    if from < 0 || from >= cs.len() {
        None
    } else if is_pattern(cs[from]) {
        Some(from)
    } else {
        first_pattern(cs, from + 1)
    }
}

/// The index of the last pattern among `cs[..n]`.
pub open spec fn last_pattern(cs: Seq<SyntaxTree>, n: int) -> Option<int>
    decreases n,
{
    if n <= 0 || n > cs.len() {
        None
    } else if is_pattern(cs[n - 1]) {
        Some(n - 1)
    } else {
        last_pattern(cs, n - 1)
    }
}

/// The names a pattern binds, in order: an identifier itself, through
/// parentheses, and every item of a destructuring.
pub open spec fn pattern_bindings(p: SyntaxTree) -> Seq<Seq<char>>
    decreases p, 1int,
{
    if p.kind@ == "Ident"@ {
        seq![p.text@]
    } else if p.kind@ == "Parenthesized"@ {
        match first_pattern(p.children@, 0) {
            Some(i) => if 0 <= i < p.children@.len() {
                pattern_bindings(p.children@[i])
            } else {
                Seq::empty()
            },
            None => Seq::empty(),
        }
    } else if p.kind@ == "Destructuring"@ {
        destructuring_bindings(p.children@)
    } else {
        Seq::empty()
    }
}

/// The names the items of a destructuring bind: a renamed item's pattern,
/// a sink's identifier, or a nested pattern.
pub open spec fn destructuring_bindings(cs: Seq<SyntaxTree>) -> Seq<Seq<char>>
    decreases cs, 0int,
{
    if cs.len() == 0 {
        Seq::empty()
    } else {
        destructuring_bindings(cs.drop_last()) + item_bindings(cs.last())
    }
}

/// The names one item of a destructuring binds.
pub open spec fn item_bindings(c: SyntaxTree) -> Seq<Seq<char>>
    decreases c, 2int,
{
    if c.kind@ == "Named"@ {
        match last_pattern(c.children@, c.children@.len() as int) {
            Some(j) => if 0 <= j < c.children@.len() {
                pattern_bindings(c.children@[j])
            } else {
                Seq::empty()
            },
            None => Seq::empty(),
        }
    } else if c.kind@ == "Spread"@ {
        match first_of_kind(c.children@, "Ident"@, 0) {
            Some(j) => seq![c.children@[j].text@],
            None => Seq::empty(),
        }
    } else if is_pattern(c) {
        pattern_bindings(c)
    } else {
        Seq::empty()
    }
}

/// The names a `let` binding introduces: a function's name, or its
/// pattern's bindings.
pub open spec fn let_bindings(n: SyntaxTree) -> Seq<Seq<char>> {
    match first_pattern(n.children@, 0) {
        None => Seq::empty(),
        Some(i) => {
            let p = n.children@[i];
            if p.kind@ == "Closure"@ {
                if p.children@.len() > 0 && p.children@[0].kind@ == "Ident"@ {
                    seq![p.children@[0].text@]
                } else {
                    seq![Seq::empty()]
                }
            } else {
                pattern_bindings(p)
            }
        },
    }
}

/// What replaces a retired binding name, if it is one.
pub open spec fn retired_replacement(table: Seq<(Seq<char>, Seq<char>)>, name: Seq<char>) -> Option<
    Seq<char>,
>
    decreases table.len(),
{
    if table.len() == 0 {
        None
    } else if table[0].0 == name {
        Some(table[0].1)
    } else {
        retired_replacement(table.drop_first(), name)
    }
}

/// The first of `names` that is retired, with its replacement.
pub open spec fn first_retired(names: Seq<Seq<char>>) -> Option<(Seq<char>, Seq<char>)>
    decreases names.len(),
{
    if names.len() == 0 {
        None
    } else {
        match retired_replacement(retired_binding_table(), names[0]) {
            Some(r) => Some((names[0], r)),
            None => first_retired(names.drop_first()),
        }
    }
}

/// The retired binding a `let` at a visit introduces, if any: its name,
/// replacement, and 1-based line.
pub open spec fn removed_binding_at(v: (SyntaxTree, int, WalkCtx, int)) -> Option<
    (Seq<char>, Seq<char>, int),
> {
    if v.0.kind@ == "LetBinding"@ {
        match first_retired(let_bindings(v.0)) {
            Some(x) => Some((x.0, x.1, v.3 + 1)),
            None => None,
        }
    } else {
        None
    }
}

/// The retired bindings among a walk's visits, in walk order.
pub open spec fn removed_bindings_of(vs: Seq<(SyntaxTree, int, WalkCtx, int)>) -> Seq<
    (Seq<char>, Seq<char>, int),
>
    decreases vs.len(),
{
    if vs.len() == 0 {
        Seq::empty()
    } else {
        let prev = removed_bindings_of(vs.drop_last());
        match removed_binding_at(vs.last()) {
            Some(x) => prev.push(x),
            None => prev,
        }
    }
}

// ─── Exec: retired bindings ────────────────────────────────────────────────

/// Whether a node can be a binding pattern.
fn is_pattern_exec(c: &SyntaxTree) -> (b: bool)
    ensures
        b == is_pattern(*c),
{
    is_kind(c, "Underscore") || is_kind(c, "Parenthesized") || is_kind(c, "Destructuring")
        || c.is_expr
}

/// The index of the first pattern among `cs[from..]`.
fn first_pattern_exec(cs: &Vec<SyntaxTree>, from: usize) -> (r: Option<usize>)
    ensures
        r matches Some(i) ==> first_pattern(cs@, from as int) == Some(i as int) && i < cs@.len(),
        r is None ==> first_pattern(cs@, from as int) is None,
    decreases cs@.len() - from,
{
    if from >= cs.len() {
        return None;
    }
    if is_pattern_exec(&cs[from]) {
        return Some(from);
    }
    first_pattern_exec(cs, from + 1)
}

/// The index of the last pattern among `cs[..n]`.
fn last_pattern_exec(cs: &Vec<SyntaxTree>, n: usize) -> (r: Option<usize>)
    requires
        n <= cs@.len(),
    ensures
        r matches Some(i) ==> last_pattern(cs@, n as int) == Some(i as int) && i < cs@.len(),
        r is None ==> last_pattern(cs@, n as int) is None,
    decreases n,
{
    if n == 0 {
        return None;
    }
    if is_pattern_exec(&cs[n - 1]) {
        return Some(n - 1);
    }
    last_pattern_exec(cs, n - 1)
}

/// Appends the names a pattern binds.
fn pattern_bindings_exec(p: &SyntaxTree, out: &mut Vec<String>)
    ensures
        final(out)@.map_values(|s: String| s@) == old(out)@.map_values(|s: String| s@)
            + pattern_bindings(*p),
    decreases p, 1int,
{
    if is_kind(p, "Ident") {
        let ghost before = out@;
        out.push(owned(p.text.as_str()));
        proof {
            reveal_strlit("Ident");
            reveal_strlit("Parenthesized");
            reveal_strlit("Destructuring");
            assert(out@.map_values(|s: String| s@) =~= before.map_values(|s: String| s@) + seq![
                p.text@,
            ]);
        }
    } else if is_kind(p, "Parenthesized") {
        proof {
            reveal_strlit("Parenthesized");
            reveal_strlit("Destructuring");
        }
        match first_pattern_exec(&p.children, 0) {
            Some(i) => {
                proof {
                    assert(decreases_to!(p => p.children));
                }
                pattern_bindings_exec(&p.children[i], out);
            },
            None => {
                proof {
                    assert(out@.map_values(|s: String| s@) =~= old(out)@.map_values(|s: String| s@)
                        + pattern_bindings(*p));
                }
            },
        }
    } else if is_kind(p, "Destructuring") {
        destructuring_bindings_exec(&p.children, out);
    } else {
        proof {
            assert(out@.map_values(|s: String| s@) =~= old(out)@.map_values(|s: String| s@)
                + pattern_bindings(*p));
        }
    }
}

/// Appends the names the items of a destructuring bind.
fn destructuring_bindings_exec(cs: &Vec<SyntaxTree>, out: &mut Vec<String>)
    ensures
        final(out)@.map_values(|s: String| s@) == old(out)@.map_values(|s: String| s@)
            + destructuring_bindings(cs@),
    decreases cs, 0int,
{
    let ghost start = out@.map_values(|s: String| s@);
    let mut i: usize = 0;
    proof {
        assert(cs@.take(0) =~= Seq::<SyntaxTree>::empty());
        assert(start + destructuring_bindings(cs@.take(0)) =~= start);
    }
    while i < cs.len()
        invariant
            i <= cs@.len(),
            out@.map_values(|s: String| s@) == start + destructuring_bindings(cs@.take(i as int)),
        decreases cs@.len() - i,
    {
        proof {
            let p = cs@.take(i + 1);
            assert(p.drop_last() =~= cs@.take(i as int));
            assert(p.last() == cs@[i as int]);
            assert(decreases_to!(cs => cs@[i as int]));
        }
        let c = &cs[i];
        let ghost mid = out@.map_values(|s: String| s@);
        let ghost before = out@;
        if is_kind(c, "Named") {
            match last_pattern_exec(&c.children, c.children.len()) {
                Some(j) => {
                    proof {
                        assert(decreases_to!(cs => cs@[i as int].children));
                    }
                    pattern_bindings_exec(&c.children[j], out);
                },
                None => {
                    proof {
                        assert(out@.map_values(|s: String| s@) =~= mid + item_bindings(*c));
                    }
                },
            }
        } else if is_kind(c, "Spread") {
            match first_of_kind_exec(&c.children, "Ident", 0) {
                Some(j) => {
                    out.push(owned(c.children[j].text.as_str()));
                    proof {
                        assert(out@.map_values(|s: String| s@) =~= before.map_values(|s: String| s@)
                            + seq![c.children@[j as int].text@]);
                    }
                },
                None => {
                    proof {
                        assert(out@.map_values(|s: String| s@) =~= mid + item_bindings(*c));
                    }
                },
            }
        } else if is_pattern_exec(c) {
            pattern_bindings_exec(c, out);
        } else {
            proof {
                assert(out@.map_values(|s: String| s@) =~= mid + item_bindings(*c));
            }
        }
        proof {
            assert(out@.map_values(|s: String| s@) == mid + item_bindings(*c));
            assert(out@.map_values(|s: String| s@) =~= start + destructuring_bindings(cs@.take(i + 1)));
        }
        i += 1;
    }
    proof {
        assert(cs@.take(i as int) =~= cs@);
    }
}

/// The names a `let` binding introduces.
fn let_bindings_exec(n: &SyntaxTree) -> (r: Vec<String>)
    ensures
        r@.map_values(|s: String| s@) == let_bindings(*n),
{
    let mut out: Vec<String> = Vec::new();
    match first_pattern_exec(&n.children, 0) {
        None => {},
        Some(i) => {
            let p = &n.children[i];
            if is_kind(p, "Closure") {
                if p.children.len() > 0 && is_kind(&p.children[0], "Ident") {
                    out.push(owned(p.children[0].text.as_str()));
                } else {
                    out.push(String::new());
                }
            } else {
                pattern_bindings_exec(p, &mut out);
            }
        },
    }
    proof {
        assert(out@.map_values(|s: String| s@) =~= let_bindings(*n));
    }
    out
}

/// A `#let` binding of a retired `rheo-*` name: the name, what replaces it,
/// and the line the binding starts on.
#[derive(Debug)]
pub struct RemovedBindingSite {
    pub name: String,
    pub replacement: String,
    pub line: usize,
}

impl RemovedBindingSite {
    /// The retired binding a visited node introduces, if any.
    pub fn at(n: &SyntaxTree, line: usize) -> (r: Option<RemovedBindingSite>)
        ensures
            match removed_binding_at((*n, 0, WalkCtx { in_code: false, file_scope: false }, line - 1)) {
                None => r is None,
                Some(x) => r matches Some(s) && (s.name@, s.replacement@, s.line as int) == x,
            },
    {
        if !is_kind(n, "LetBinding") {
            return None;
        }
        let names = let_bindings_exec(n);
        let table = retired_bindings();
        let ghost nv = names@.map_values(|s: String| s@);
        let ghost tv = table@.map_values(|b: crate::config::RetiredBinding| (b.name@, b.replacement@));
        let mut i: usize = 0;
        proof {
            assert(nv.skip(0) =~= nv);
        }
        while i < names.len()
            invariant
                i <= names@.len(),
                nv == names@.map_values(|s: String| s@),
                nv == let_bindings(*n),
                n.kind@ == "LetBinding"@,
                tv == retired_binding_table(),
                tv == table@.map_values(|b: crate::config::RetiredBinding| (b.name@, b.replacement@)),
                first_retired(nv) == first_retired(nv.skip(i as int)),
            decreases names@.len() - i,
        {
            let mut k: usize = 0;
            proof {
                assert(tv.skip(0) =~= tv);
                assert(nv.skip(i as int)[0] == nv[i as int]);
            }
            while k < table.len()
                invariant
                    k <= table@.len(),
                    i < names@.len(),
                    tv == retired_binding_table(),
                    nv == let_bindings(*n),
                    n.kind@ == "LetBinding"@,
                    first_retired(nv) == first_retired(nv.skip(i as int)),
                    nv.skip(i as int).len() > 0 && nv.skip(i as int)[0] == nv[i as int],
                    nv == names@.map_values(|s: String| s@),
                    tv == table@.map_values(|b: crate::config::RetiredBinding| (b.name@, b.replacement@)),
                    retired_replacement(tv, nv[i as int]) == retired_replacement(tv.skip(k as int), nv[i as int]),
                decreases table@.len() - k,
            {
                proof {
                    assert(tv.skip(k as int)[0] == tv[k as int]);
                    assert(tv.skip(k as int).drop_first() =~= tv.skip(k + 1));
                }
                if str_eq(table[k].name, names[i].as_str()) {
                    return Some(
                        RemovedBindingSite {
                            name: owned(names[i].as_str()),
                            replacement: owned(table[k].replacement),
                            line,
                        },
                    );
                }
                k += 1;
            }
            proof {
                assert(tv.skip(k as int) =~= Seq::<(Seq<char>, Seq<char>)>::empty());
                assert(nv.skip(i as int).drop_first() =~= nv.skip(i + 1));
            }
            i += 1;
        }
        proof {
            assert(nv.skip(i as int) =~= Seq::<Seq<char>>::empty());
        }
        None
    }

    /// The retired bindings of `text`, in document order. A tree as long as
    /// the largest integer has no room for its positions; it yields none.
    pub fn collect(text: &str) -> (r: Vec<RemovedBindingSite>)
        ensures
            typst_parse(text@).len < usize::MAX ==> r@.map_values(
                |s: RemovedBindingSite| (s.name@, s.replacement@, s.line as int),
            ) == removed_bindings_of(source_visits(typst_parse(text@))),
            typst_parse(text@).len == usize::MAX ==> r@.len() == 0,
    {
        let t = parse_typst(text);
        if t.len == usize::MAX {
            return Vec::new();
        }
        let vs = visit_all(&t);
        let ghost all = visit_view(vs@);
        let mut out: Vec<RemovedBindingSite> = Vec::new();
        let mut i: usize = 0;
        proof {
            assert(out@.map_values(|s: RemovedBindingSite| (s.name@, s.replacement@, s.line as int))
                =~= removed_bindings_of(all.take(0)));
        }
        while i < vs.len()
            invariant
                i <= vs@.len(),
                all == visit_view(vs@),
                all == source_visits(typst_parse(text@)),
                visits_fit(vs@),
                out@.map_values(|s: RemovedBindingSite| (s.name@, s.replacement@, s.line as int))
                    == removed_bindings_of(all.take(i as int)),
            decreases vs@.len() - i,
        {
            let e = vs[i];
            proof {
                assert(all.take(i + 1).drop_last() =~= all.take(i as int));
                assert(all.take(i + 1).last() == (*e.0, e.1 as int, e.2, e.3 as int));
                assert(vs@[i as int] == e);
            }
            match RemovedBindingSite::at(e.0, e.3 + 1) {
                Some(x) => {
                    let ghost before = out@;
                    out.push(x);
                    proof {
                        assert(out@.map_values(
                            |s: RemovedBindingSite| (s.name@, s.replacement@, s.line as int),
                        ) =~= before.map_values(
                            |s: RemovedBindingSite| (s.name@, s.replacement@, s.line as int),
                        ).push((x.name@, x.replacement@, x.line as int)));
                    }
                },
                None => {},
            }
            i += 1;
        }
        proof {
            assert(all.take(i as int) =~= all);
        }
        out
    }
}

// ─── Migrations over a project's sources ───────────────────────────────────

/// One `.typ` file of a project being migrated: where it lives, its text,
/// and whether a migration changed it.
#[derive(Debug)]
pub struct MigrationSource {
    pub path: String,
    pub text: String,
    pub dirty: bool,
}

/// A source as plain values.
pub open spec fn source_view(s: MigrationSource) -> (Seq<char>, Seq<char>, bool) {
    (s.path@, s.text@, s.dirty)
}

/// What the `rheo-target` migration makes of a text: the rewritten text and
/// the sites in report order; a tree as long as the largest integer is kept
/// as written.
pub open spec fn target_outcome(text: Seq<char>) -> (Seq<char>, Seq<((int, int, int, Seq<char>, Seq<char>), int)>) {
    let t = typst_parse(text);
    if t.len < usize::MAX {
        (rewritten(t, 0), sort_sites(target_sites_of(source_visits(t))))
    } else {
        (text, Seq::empty())
    }
}

/// The report lines of one file's sites, in order.
pub open spec fn target_report(path: Seq<char>, ss: Seq<((int, int, int, Seq<char>, Seq<char>), int)>) -> Seq<char>
    decreases ss.len(),
{
    if ss.len() == 0 {
        Seq::empty()
    } else {
        target_report(path, ss.drop_last()) + rewrite_line(path, ss.last().1 as nat, ss.last().0.3, ss.last().0.4)
    }
}

/// A source after the `rheo-target` migration: rewritten and marked dirty
/// when it had a site, untouched otherwise.
pub open spec fn target_migrated(s: (Seq<char>, Seq<char>, bool)) -> (Seq<char>, Seq<char>, bool) {
    let o = target_outcome(s.1);
    if o.1.len() > 0 {
        (s.0, o.0, true)
    } else {
        s
    }
}

/// Everything the `rheo-target` migration reports over a list of sources.
pub open spec fn targets_report(ss: Seq<(Seq<char>, Seq<char>, bool)>) -> Seq<char>
    decreases ss.len(),
{
    if ss.len() == 0 {
        Seq::empty()
    } else {
        targets_report(ss.drop_last()) + target_report(ss.last().0, target_outcome(ss.last().1).1)
    }
}

/// Rewrites every source's references to the removed `rheo-target` surface,
/// reporting each rewrite as `<path>:<line>: <old>  ->  <new>`, file by file
/// in report order.
pub fn migrate_target_references(sources: &mut Vec<MigrationSource>, reporter: &mut Reporter)
    ensures
        final(sources)@.map_values(|s: MigrationSource| source_view(s)) == old(sources)@.map_values(
            |s: MigrationSource| source_view(s),
        ).map_values(|s: (Seq<char>, Seq<char>, bool)| target_migrated(s)),
        final(reporter).text_spec() == old(reporter).text_spec() + targets_report(
            old(sources)@.map_values(|s: MigrationSource| source_view(s)),
        ),
        final(reporter).sink_spec() == old(reporter).sink_spec(),
{
    let ghost all = sources@.map_values(|s: MigrationSource| source_view(s));
    let ghost start = reporter.text_spec();
    let mut rest: Vec<MigrationSource> = Vec::new();
    core::mem::swap(&mut rest, sources);
    let total = rest.len();
    let mut out: Vec<MigrationSource> = Vec::new();
    let mut i: usize = 0;
    proof {
        assert(all.take(0) =~= Seq::<(Seq<char>, Seq<char>, bool)>::empty());
        assert(out@.map_values(|s: MigrationSource| source_view(s)) =~= all.take(0).map_values(
            |s: (Seq<char>, Seq<char>, bool)| target_migrated(s),
        ));
    }
    while rest.len() > 0
        invariant
            i + rest@.len() == all.len(),
            all.len() == total,
            rest@.map_values(|s: MigrationSource| source_view(s)) == all.skip(i as int),
            out@.map_values(|s: MigrationSource| source_view(s)) == all.take(i as int).map_values(
                |s: (Seq<char>, Seq<char>, bool)| target_migrated(s),
            ),
            reporter.text_spec() == start + targets_report(all.take(i as int)),
            reporter.sink_spec() == old(reporter).sink_spec(),
        decreases rest@.len(),
    {
        proof {
            assert(all.take(i + 1).drop_last() =~= all.take(i as int));
            assert(all.take(i + 1).last() == all[i as int]);
            assert(rest@.map_values(|s: MigrationSource| source_view(s))[0] == all[i as int]);
            assert(rest@.remove(0) =~= rest@.skip(1));
            assert(rest@.skip(1).map_values(|s: MigrationSource| source_view(s)) =~= rest@.map_values(
                |s: MigrationSource| source_view(s),
            ).skip(1));
            assert(all.skip(i as int).skip(1) =~= all.skip(i + 1));
        }
        let src = rest.remove(0);
        let (text, sites) = rewrite_target_references(src.text.as_str());
        let ghost sv = sites@.map_values(|s: TargetSite| target_view(s));
        let ghost rstart = reporter.text_spec();
        let mut k: usize = 0;
        proof {
            assert(sv.take(0) =~= Seq::<((int, int, int, Seq<char>, Seq<char>), int)>::empty());
        }
        while k < sites.len()
            invariant
                k <= sites@.len(),
                sv == sites@.map_values(|s: TargetSite| target_view(s)),
                reporter.text_spec() == rstart + target_report(src.path@, sv.take(k as int)),
                reporter.sink_spec() == old(reporter).sink_spec(),
            decreases sites@.len() - k,
        {
            proof {
                assert(sv.take(k + 1).drop_last() =~= sv.take(k as int));
                assert(sv.take(k + 1).last() == sv[k as int]);
                assert(sv[k as int] == target_view(sites@[k as int]));
            }
            reporter.rewrite(src.path.as_str(), sites[k].line, sites[k].old.as_str(), sites[k].new.as_str());
            proof {
                assert(reporter.text_spec() =~= rstart + target_report(src.path@, sv.take(k + 1)));
            }
            k += 1;
        }
        proof {
            assert(sv.take(k as int) =~= sv);
            assert(sv == target_outcome(src.text@).1);
        }
        let changed = sites.len() > 0;
        let next = if changed {
            MigrationSource { path: src.path, text, dirty: true }
        } else {
            src
        };
        let ghost before = out@;
        out.push(next);
        proof {
            assert(out@.map_values(|s: MigrationSource| source_view(s)) =~= before.map_values(
                |s: MigrationSource| source_view(s),
            ).push(target_migrated(all[i as int])));
            assert(all.take(i + 1).map_values(|s: (Seq<char>, Seq<char>, bool)| target_migrated(s))
                =~= all.take(i as int).map_values(|s: (Seq<char>, Seq<char>, bool)| target_migrated(s)).push(
                target_migrated(all[i as int]),
            ));
            assert(reporter.text_spec() =~= start + targets_report(all.take(i + 1)));
        }
        i += 1;
    }
    proof {
        assert(all.take(i as int) =~= all);
    }
    *sources = out;
}

/// A source after the `rheo-context` migration: shimmed and marked dirty
/// when it reads the old binding and has no shim yet.
pub open spec fn context_migrated(s: (Seq<char>, Seq<char>, bool)) -> (Seq<char>, Seq<char>, bool) {
    if !contains_seq(s.1, context_shim()) && reads_context(typst_parse(s.1)) {
        (s.0, context_shim() + "\n"@ + s.1, true)
    } else {
        s
    }
}

/// Everything the `rheo-context` migration reports over a list of sources.
pub open spec fn contexts_report(ss: Seq<(Seq<char>, Seq<char>, bool)>) -> Seq<char>
    decreases ss.len(),
{
    if ss.len() == 0 {
        Seq::empty()
    } else {
        let s = ss.last();
        contexts_report(ss.drop_last()) + if !contains_seq(s.1, context_shim()) && reads_context(
            typst_parse(s.1),
        ) {
            note_line(s.0, "prepend `#let rheo-context = rheo-context()` compatibility shim"@)
        } else {
            Seq::empty()
        }
    }
}

/// Prepends the `rheo-context` compatibility shim to every source that
/// reads the old binding, noting each file shimmed.
pub fn migrate_context_references(sources: &mut Vec<MigrationSource>, reporter: &mut Reporter)
    ensures
        final(sources)@.map_values(|s: MigrationSource| source_view(s)) == old(sources)@.map_values(
            |s: MigrationSource| source_view(s),
        ).map_values(|s: (Seq<char>, Seq<char>, bool)| context_migrated(s)),
        final(reporter).text_spec() == old(reporter).text_spec() + contexts_report(
            old(sources)@.map_values(|s: MigrationSource| source_view(s)),
        ),
        final(reporter).sink_spec() == old(reporter).sink_spec(),
{
    let ghost all = sources@.map_values(|s: MigrationSource| source_view(s));
    let ghost start = reporter.text_spec();
    let mut rest: Vec<MigrationSource> = Vec::new();
    core::mem::swap(&mut rest, sources);
    let total = rest.len();
    let mut out: Vec<MigrationSource> = Vec::new();
    let mut i: usize = 0;
    proof {
        assert(all.take(0) =~= Seq::<(Seq<char>, Seq<char>, bool)>::empty());
        assert(out@.map_values(|s: MigrationSource| source_view(s)) =~= all.take(0).map_values(
            |s: (Seq<char>, Seq<char>, bool)| context_migrated(s),
        ));
    }
    while rest.len() > 0
        invariant
            i + rest@.len() == all.len(),
            all.len() == total,
            rest@.map_values(|s: MigrationSource| source_view(s)) == all.skip(i as int),
            out@.map_values(|s: MigrationSource| source_view(s)) == all.take(i as int).map_values(
                |s: (Seq<char>, Seq<char>, bool)| context_migrated(s),
            ),
            reporter.text_spec() == start + contexts_report(all.take(i as int)),
            reporter.sink_spec() == old(reporter).sink_spec(),
        decreases rest@.len(),
    {
        proof {
            assert(all.take(i + 1).drop_last() =~= all.take(i as int));
            assert(all.take(i + 1).last() == all[i as int]);
            assert(rest@.map_values(|s: MigrationSource| source_view(s))[0] == all[i as int]);
            assert(rest@.remove(0) =~= rest@.skip(1));
            assert(rest@.skip(1).map_values(|s: MigrationSource| source_view(s)) =~= rest@.map_values(
                |s: MigrationSource| source_view(s),
            ).skip(1));
            assert(all.skip(i as int).skip(1) =~= all.skip(i + 1));
        }
        let src = rest.remove(0);
        let next = match context_shimmed(src.text.as_str()) {
            Some(text) => {
                reporter.note(
                    src.path.as_str(),
                    "prepend `#let rheo-context = rheo-context()` compatibility shim",
                );
                MigrationSource { path: src.path, text, dirty: true }
            },
            None => src,
        };
        let ghost before = out@;
        out.push(next);
        proof {
            assert(out@.map_values(|s: MigrationSource| source_view(s)) =~= before.map_values(
                |s: MigrationSource| source_view(s),
            ).push(context_migrated(all[i as int])));
            assert(all.take(i + 1).map_values(|s: (Seq<char>, Seq<char>, bool)| context_migrated(s))
                =~= all.take(i as int).map_values(|s: (Seq<char>, Seq<char>, bool)| context_migrated(s)).push(
                context_migrated(all[i as int]),
            ));
            assert(reporter.text_spec() =~= start + contexts_report(all.take(i + 1)));
        }
        i += 1;
    }
    proof {
        assert(all.take(i as int) =~= all);
    }
    *sources = out;
}


// ─── The removed feed surface ───────────────────────────────────────────────

/// The retired `[html]` keys among `table`'s entries, each reported with its
/// replacement, in the order the retired keys are listed.
pub open spec fn feed_keys_report(keys: Seq<(Seq<char>, Seq<char>, Seq<char>)>, table: Seq<(String, TomlValue)>) -> Seq<char>
    decreases keys.len(),
{
    if keys.len() == 0 {
        Seq::empty()
    } else {
        let k = keys.last();
        feed_keys_report(keys.drop_last(), table) + if k.0 == "[html]"@ && entry_index(table, k.1) is Some {
            retired_line("rheo.toml [html]"@, k.1, k.2)
        } else {
            Seq::empty()
        }
    }
}

/// The retired bindings of `text`, as its walk finds them (none when the
/// tree has no room for its positions).
pub open spec fn bindings_in(text: Seq<char>) -> Seq<(Seq<char>, Seq<char>, int)> {
    if typst_parse(text).len < usize::MAX {
        removed_bindings_of(source_visits(typst_parse(text)))
    } else {
        Seq::empty()
    }
}

/// One report line per retired binding site of a file.
pub open spec fn binding_lines(path: Seq<char>, sites: Seq<(Seq<char>, Seq<char>, int)>) -> Seq<char>
    decreases sites.len(),
{
    if sites.len() == 0 {
        Seq::empty()
    } else {
        let s = sites.last();
        binding_lines(path, sites.drop_last()) + retired_line(path + ":"@ + decimal(s.2 as nat), s.0, s.1)
    }
}

/// The report lines for every file's retired bindings, file by file.
pub open spec fn bindings_report(sources: Seq<(Seq<char>, Seq<char>, bool)>) -> Seq<char>
    decreases sources.len(),
{
    if sources.len() == 0 {
        Seq::empty()
    } else {
        let s = sources.last();
        bindings_report(sources.drop_last()) + binding_lines(s.0, bindings_in(s.1))
    }
}

/// Report, never rewrite, every retired `[html]` feed key still in the
/// `[html]` table and every retired `rheo-*` binding still in a source, each
/// with where it is and what replaced it. The feed's settings do not map
/// one to one onto the package that took over, so this stays a report.
pub fn report_removed_feed_surface(html: Option<&PluginSection>, sources: &Vec<MigrationSource>, reporter: &mut Reporter)
    ensures
        final(reporter).text_spec() == old(reporter).text_spec() + match html {
            Some(h) => feed_keys_report(retired_key_table(), h.extra@),
            None => Seq::empty(),
        } + bindings_report(sources@.map_values(|s: MigrationSource| source_view(s))),
        final(reporter).sink_spec() == old(reporter).sink_spec(),
{
    let ghost start = reporter.text_spec();
    let keys = retired_keys();
    let ghost kv = keys_view(keys@);
    match html {
        Some(h) => {
            let mut i: usize = 0;
            while i < keys.len()
                invariant
                    i <= keys@.len(),
                    kv == keys_view(keys@),
                    kv == retired_key_table(),
                    reporter.text_spec() == start + feed_keys_report(kv.take(i as int), h.extra@),
                    reporter.sink_spec() == old(reporter).sink_spec(),
                decreases keys@.len() - i,
            {
                proof {
                    reveal_strlit("[html]");
                    assert(kv.take(i + 1).drop_last() =~= kv.take(i as int));
                    assert(kv.take(i + 1).last() == (keys@[i as int].table@, keys@[i as int].key@, keys@[i as int].replacement@));
                }
                if str_eq(keys[i].table, "[html]") {
                    match entry_index_exec(&h.extra, keys[i].key) {
                        Some(_) => {
                            reporter.retired("rheo.toml [html]", keys[i].key, keys[i].replacement);
                        },
                        None => {},
                    }
                }
                i += 1;
            }
            proof {
                assert(kv.take(i as int) =~= kv);
            }
        },
        None => {},
    }
    let ghost mid = reporter.text_spec();
    let ghost sv = sources@.map_values(|s: MigrationSource| source_view(s));
    let mut j: usize = 0;
    proof {
        assert(sv.take(0) =~= Seq::<(Seq<char>, Seq<char>, bool)>::empty());
    }
    while j < sources.len()
        invariant
            j <= sources@.len(),
            sv == sources@.map_values(|s: MigrationSource| source_view(s)),
            reporter.text_spec() == mid + bindings_report(sv.take(j as int)),
            reporter.sink_spec() == old(reporter).sink_spec(),
        decreases sources@.len() - j,
    {
        proof {
            assert(sv.take(j + 1).drop_last() =~= sv.take(j as int));
            assert(sv.take(j + 1).last() == source_view(sources@[j as int]));
        }
        let sites = RemovedBindingSite::collect(sources[j].text.as_str());
        let ghost sview = sites@.map_values(|x: RemovedBindingSite| (x.name@, x.replacement@, x.line as int));
        let ghost before = reporter.text_spec();
        proof {
            if typst_parse(sources[j as int].text@).len == usize::MAX {
                assert(sview =~= Seq::<(Seq<char>, Seq<char>, int)>::empty());
            }
            assert(sview == bindings_in(sources@[j as int].text@));
            assert(sview.take(0) =~= Seq::<(Seq<char>, Seq<char>, int)>::empty());
        }
        let mut k: usize = 0;
        while k < sites.len()
            invariant
                j < sources@.len(),
                k <= sites@.len(),
                sview == sites@.map_values(|x: RemovedBindingSite| (x.name@, x.replacement@, x.line as int)),
                reporter.text_spec() == before + binding_lines(sources@[j as int].path@, sview.take(k as int)),
                reporter.sink_spec() == old(reporter).sink_spec(),
            decreases sites@.len() - k,
        {
            proof {
                assert(sview.take(k + 1).drop_last() =~= sview.take(k as int));
                assert(sview.take(k + 1).last() == (sites@[k as int].name@, sites@[k as int].replacement@, sites@[k as int].line as int));
            }
            let mut location = owned(sources[j].path.as_str());
            push_str(&mut location, ":");
            push_decimal(&mut location, sites[k].line as u128);
            reporter.retired(location.as_str(), sites[k].name.as_str(), sites[k].replacement.as_str());
            k += 1;
        }
        proof {
            assert(sview.take(k as int) =~= sview);
        }
        j += 1;
    }
    proof {
        assert(sv.take(j as int) =~= sv);
    }
}

} // verus!
