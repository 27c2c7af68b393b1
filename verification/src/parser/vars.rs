//! Two extractors over the walk: top-level `#let rheo-<key> = ...` bindings
//! and the paths of `#import` / `#include` statements.

use vstd::prelude::*;
use crate::parser::{ImportInfo, RheoValue, RheoVar, WalkCtx};
use crate::parser::syntax::{
    is_kind, lemma_sum_lens_prefix, parse_typst, source_visits, sum_lens, tree_ok, typst_parse,
    visit_all, visit_view, visits_fit, SyntaxTree,
};
use crate::text::{
    chars_of, starts_with, str_eq, string_of_range, trim_end_char, trim_end_char_exec,
    trim_start_char, trim_start_char_exec,
};

verus! {

// ─── Specifications ─────────────────────────────────────────────────────────

/// The index of the first of `cs[from..]` of kind `kind`.
pub open spec fn first_of_kind(cs: Seq<SyntaxTree>, kind: Seq<char>, from: int) -> Option<int>
    decreases cs.len() - from,
{
    if from < 0 || from >= cs.len() {
        None
    } else if cs[from].kind@ == kind {
        Some(from)
    } else {
        first_of_kind(cs, kind, from + 1)
    }
}

/// The index of the first of `cs[from..]` not of kind `kind`.
pub open spec fn first_not_of_kind(cs: Seq<SyntaxTree>, kind: Seq<char>, from: int) -> Option<int>
    decreases cs.len() - from,
{
    if from < 0 || from >= cs.len() {
        None
    } else if cs[from].kind@ != kind {
        Some(from)
    } else {
        first_not_of_kind(cs, kind, from + 1)
    }
}

/// A token without the quotes around it (`str::trim_matches('"')`).
pub open spec fn unquote(s: Seq<char>) -> Seq<char> {
    trim_end_char(trim_start_char(s, '"'), '"')
}

/// The right-hand side of a `let` binding's children: the first node after
/// the `=` that is not a space.
pub open spec fn binding_value(cs: Seq<SyntaxTree>) -> Option<SyntaxTree> {
    match first_of_kind(cs, "Eq"@, 0) {
        None => None,
        Some(e) => match first_not_of_kind(cs, "Space"@, e + 1) {
            None => None,
            Some(j) => Some(cs[j]),
        },
    }
}

/// What a `rheo-*` binding at a visit is: its key without `rheo-`, the node
/// of its right-hand side if it has one, and its 1-based line. Only a `let`
/// binding at file scope whose first identifier starts with `rheo-` is one.
pub open spec fn rheo_var_at(v: (SyntaxTree, int, WalkCtx, int)) -> Option<
    (Seq<char>, Option<SyntaxTree>, int),
> {
    let cs = v.0.children@;
    if v.2.file_scope && v.0.kind@ == "LetBinding"@ {
        match first_of_kind(cs, "Ident"@, 0) {
            None => None,
            Some(i) => if starts_with(cs[i].text@, "rheo-"@) {
                Some((cs[i].text@.skip(5), binding_value(cs), v.3 + 1))
            } else {
                None
            },
        }
    } else {
        None
    }
}

/// The `rheo-*` bindings among a walk's visits, in walk order.
pub open spec fn rheo_vars_of(vs: Seq<(SyntaxTree, int, WalkCtx, int)>) -> Seq<
    (Seq<char>, Option<SyntaxTree>, int),
>
    decreases vs.len(),
{
    if vs.len() == 0 {
        Seq::empty()
    } else {
        let prev = rheo_vars_of(vs.drop_last());
        match rheo_var_at(vs.last()) {
            Some(x) => prev.push(x),
            None => prev,
        }
    }
}

/// The value a right-hand side gives: a string literal's text without its
/// quotes, a boolean literal (`true` only when written `true`), and no value
/// for anything else or for a binding without a right-hand side.
pub open spec fn value_of(value: Option<RheoValue>, rhs: Option<SyntaxTree>) -> bool {
    match rhs {
        None => value is None,
        Some(n) => if n.kind@ == "Str"@ {
            value matches Some(RheoValue::Str(s)) && s@ == unquote(n.text@)
        } else if n.kind@ == "Bool"@ {
            value == Some(RheoValue::Bool(n.text@ == "true"@))
        } else {
            value is None
        },
    }
}

/// A harvested binding is the one the specification describes.
pub open spec fn var_is(r: RheoVar, x: (Seq<char>, Option<SyntaxTree>, int)) -> bool {
    &&& r.key@ == x.0
    &&& value_of(r.value, x.1)
    &&& r.line == x.2
}

/// Harvested bindings are the described ones, one for one.
pub open spec fn vars_are(r: Seq<RheoVar>, xs: Seq<(Seq<char>, Option<SyntaxTree>, int)>) -> bool {
    r.len() == xs.len() && forall|k: int| 0 <= k < r.len() ==> #[trigger] var_is(r[k], xs[k])
}

/// The import a visit is: for an `#import` or `#include`, its first string
/// literal's text without quotes, with the literal's byte range.
pub open spec fn import_at(v: (SyntaxTree, int, WalkCtx, int)) -> Option<(Seq<char>, int, int)> {
    let cs = v.0.children@;
    if v.0.kind@ == "ModuleImport"@ || v.0.kind@ == "ModuleInclude"@ {
        match first_of_kind(cs, "Str"@, 0) {
            None => None,
            Some(i) => {
                let start = v.1 + sum_lens(cs.take(i));
                Some((unquote(cs[i].text@), start, start + cs[i].len))
            },
        }
    } else {
        None
    }
}

/// The imports among a walk's visits, in walk order.
pub open spec fn imports_of(vs: Seq<(SyntaxTree, int, WalkCtx, int)>) -> Seq<(Seq<char>, int, int)>
    decreases vs.len(),
{
    if vs.len() == 0 {
        Seq::empty()
    } else {
        let prev = imports_of(vs.drop_last());
        match import_at(vs.last()) {
            Some(x) => prev.push(x),
            None => prev,
        }
    }
}

/// An import as plain values: path, start, end and whether it names a
/// package.
pub open spec fn import_view(i: ImportInfo) -> (Seq<char>, int, int, bool) {
    (i.path@, i.byte_range.start as int, i.byte_range.end as int, i.is_package)
}

/// The described imports with their package flag: a path starting with `@`
/// names a package.
pub open spec fn imports_flagged(xs: Seq<(Seq<char>, int, int)>) -> Seq<(Seq<char>, int, int, bool)> {
    xs.map_values(|x: (Seq<char>, int, int)| (x.0, x.1, x.2, starts_with(x.0, "@"@)))
}

/// The paths of the described imports that name a package, in order.
pub open spec fn package_paths_of(xs: Seq<(Seq<char>, int, int)>) -> Seq<Seq<char>>
    decreases xs.len(),
{
    if xs.len() == 0 {
        Seq::empty()
    } else {
        let prev = package_paths_of(xs.drop_last());
        if starts_with(xs.last().0, "@"@) {
            prev.push(xs.last().0)
        } else {
            prev
        }
    }
}

// ─── Exec ───────────────────────────────────────────────────────────────────

/// The index of the first of `cs[from..]` of kind `kind`.
pub fn first_of_kind_exec(cs: &Vec<SyntaxTree>, kind: &str, from: usize) -> (r: Option<usize>)
    ensures
        r matches Some(i) ==> first_of_kind(cs@, kind@, from as int) == Some(i as int) && from <= i
            < cs@.len(),
        r is None ==> first_of_kind(cs@, kind@, from as int) is None,
    decreases cs@.len() - from,
{
    if from >= cs.len() {
        return None;
    }
    if is_kind(&cs[from], kind) {
        return Some(from);
    }
    first_of_kind_exec(cs, kind, from + 1)
}

/// The index of the first of `cs[from..]` not of kind `kind`.
pub fn first_not_of_kind_exec(cs: &Vec<SyntaxTree>, kind: &str, from: usize) -> (r: Option<usize>)
    ensures
        r matches Some(i) ==> first_not_of_kind(cs@, kind@, from as int) == Some(i as int) && from <= i
            < cs@.len(),
        r is None ==> first_not_of_kind(cs@, kind@, from as int) is None,
    decreases cs@.len() - from,
{
    if from >= cs.len() {
        return None;
    }
    if !is_kind(&cs[from], kind) {
        return Some(from);
    }
    first_not_of_kind_exec(cs, kind, from + 1)
}

/// A token without the quotes around it.
pub fn unquote_exec(s: &str) -> (r: String)
    ensures
        r@ == unquote(s@),
{
    let a = trim_start_char_exec(s, '"');
    trim_end_char_exec(a.as_str(), '"')
}

impl RheoVar {
    /// The `rheo-*` binding a visited node is, if any.
    pub fn at(node: &SyntaxTree, ctx: WalkCtx, breaks: usize) -> (r: Option<RheoVar>)
        requires
            breaks < usize::MAX,
        ensures
            match rheo_var_at((*node, 0, ctx, breaks as int)) {
                Some(x) => r matches Some(v) && var_is(v, x),
                None => r is None,
            },
    {
        if !(ctx.file_scope && is_kind(node, "LetBinding")) {
            return None;
        }
        let cs = &node.children;
        let i = match first_of_kind_exec(cs, "Ident", 0) {
            Some(i) => i,
            None => return None,
        };
        let name = chars_of(cs[i].text.as_str());
        let prefix = chars_of("rheo-");
        proof {
            reveal_strlit("rheo-");
        }
        if !crate::text::starts_with_exec(&name, &prefix) {
            return None;
        }
        let key = string_of_range(&name, 5, name.len());
        proof {
            assert(name@.subrange(5, name@.len() as int) =~= name@.skip(5));
        }
        let count = cs.len();
        let rhs = match first_of_kind_exec(cs, "Eq", 0) {
            None => None,
            Some(e) => {
                proof {
                    assert(e < count);
                }
                first_not_of_kind_exec(cs, "Space", e + 1)
            },
        };
        let value = match rhs {
            None => None,
            Some(j) => {
                let n = &cs[j];
                if is_kind(n, "Str") {
                    Some(RheoValue::Str(unquote_exec(n.text.as_str())))
                } else if is_kind(n, "Bool") {
                    Some(RheoValue::Bool(str_eq(n.text.as_str(), "true")))
                } else {
                    None
                }
            },
        };
        Some(RheoVar { key, value, line: breaks + 1 })
    }

    /// The file-scope `rheo-*` bindings of a parsed tree, in document order.
    pub fn collect_tree(t: &SyntaxTree) -> (r: Vec<RheoVar>)
        requires
            tree_ok(*t),
            t.len < usize::MAX,
        ensures
            vars_are(r@, rheo_vars_of(source_visits(*t))),
    {
        let vs = visit_all(t);
        let ghost all = visit_view(vs@);
        let mut out: Vec<RheoVar> = Vec::new();
        let mut i: usize = 0;
        while i < vs.len()
            invariant
                i <= vs@.len(),
                all == visit_view(vs@),
                all == source_visits(*t),
                visits_fit(vs@),
                vars_are(out@, rheo_vars_of(all.take(i as int))),
            decreases vs@.len() - i,
        {
            let e = vs[i];
            proof {
                assert(all.take(i + 1).drop_last() =~= all.take(i as int));
                assert(all.take(i + 1).last() == (*e.0, e.1 as int, e.2, e.3 as int));
                assert(vs@[i as int] == e);
                assert(rheo_var_at((*e.0, e.1 as int, e.2, e.3 as int)) == rheo_var_at(
                    (*e.0, 0, e.2, e.3 as int),
                ));
            }
            match RheoVar::at(e.0, e.2, e.3) {
                Some(x) => {
                    let ghost before = out@;
                    out.push(x);
                    proof {
                        let xs = rheo_vars_of(all.take(i + 1));
                        assert forall|k: int| 0 <= k < out@.len() implies #[trigger] var_is(
                            out@[k],
                            xs[k],
                        ) by {
                            if k < before.len() {
                                assert(out@[k] == before[k]);
                                assert(var_is(before[k], rheo_vars_of(all.take(i as int))[k]));
                            }
                        }
                    }
                },
                None => {},
            }
            i += 1;
        }
        proof {
            assert(all.take(i as int) =~= all);
        }
        out
    }

    /// The file-scope `rheo-*` bindings of `source`, in document order. A
    /// tree as long as the largest integer has no room for its positions; it
    /// yields none.
    pub fn collect(source: &str) -> (r: Vec<RheoVar>)
        ensures
            typst_parse(source@).len < usize::MAX ==> vars_are(
                r@,
                rheo_vars_of(source_visits(typst_parse(source@))),
            ),
            typst_parse(source@).len == usize::MAX ==> r@.len() == 0,
    {
        let t = parse_typst(source);
        if t.len == usize::MAX {
            return Vec::new();
        }
        RheoVar::collect_tree(&t)
    }
}

impl ImportInfo {
    /// The import a visited node is, if any.
    pub fn at(node: &SyntaxTree, offset: usize, ctx: WalkCtx, breaks: usize) -> (r: Option<
        ImportInfo,
    >)
        requires
            tree_ok(*node),
            offset + node.len <= usize::MAX,
        ensures
            match import_at((*node, offset as int, ctx, breaks as int)) {
                Some(x) => r matches Some(i) && import_view(i) == (x.0, x.1, x.2, starts_with(
                    x.0,
                    "@"@,
                )),
                None => r is None,
            },
    {
        if !(is_kind(node, "ModuleImport") || is_kind(node, "ModuleInclude")) {
            return None;
        }
        let cs = &node.children;
        let i = match first_of_kind_exec(cs, "Str", 0) {
            Some(i) => i,
            None => return None,
        };
        let mut start = offset;
        let mut k: usize = 0;
        proof {
            lemma_sum_lens_prefix(cs@, i + 1);
            assert(cs@.take(i + 1).drop_last() =~= cs@.take(i as int));
            assert(cs@.take(0) =~= Seq::<SyntaxTree>::empty());
        }
        while k < i
            invariant
                k <= i < cs@.len(),
                start == offset + sum_lens(cs@.take(k as int)),
                offset + sum_lens(cs@.take(i as int)) + cs@[i as int].len <= usize::MAX,
            decreases i - k,
        {
            proof {
                assert(cs@.take(k + 1).drop_last() =~= cs@.take(k as int));
                lemma_sum_lens_prefix(cs@.take(i as int), k + 1);
                assert(cs@.take(i as int).take(k + 1) =~= cs@.take(k + 1));
            }
            start = start + cs[k].len;
            k += 1;
        }
        let end = start + cs[i].len;
        let path = unquote_exec(cs[i].text.as_str());
        let pv = chars_of(path.as_str());
        let is_package = pv.len() > 0 && pv[0] == '@';
        proof {
            reveal_strlit("@");
            if is_package {
                assert(pv@.take(1) =~= "@"@);
            } else if pv@.len() > 0 {
                assert(pv@.take(1)[0] != "@"@[0]);
            }
        }
        Some(ImportInfo { path, byte_range: start..end, is_package })
    }

    /// The imports of a parsed tree, in document order.
    pub fn collect_tree(t: &SyntaxTree) -> (r: Vec<ImportInfo>)
        requires
            tree_ok(*t),
            t.len < usize::MAX,
        ensures
            r@.map_values(|i: ImportInfo| import_view(i)) == imports_flagged(
                imports_of(source_visits(*t)),
            ),
    {
        let vs = visit_all(t);
        let ghost all = visit_view(vs@);
        let mut out: Vec<ImportInfo> = Vec::new();
        let mut i: usize = 0;
        proof {
            assert(out@.map_values(|i: ImportInfo| import_view(i)) =~= imports_flagged(
                imports_of(all.take(0)),
            ));
        }
        while i < vs.len()
            invariant
                i <= vs@.len(),
                all == visit_view(vs@),
                all == source_visits(*t),
                visits_fit(vs@),
                out@.map_values(|i: ImportInfo| import_view(i)) == imports_flagged(
                    imports_of(all.take(i as int)),
                ),
            decreases vs@.len() - i,
        {
            let e = vs[i];
            proof {
                assert(all.take(i + 1).drop_last() =~= all.take(i as int));
                assert(all.take(i + 1).last() == (*e.0, e.1 as int, e.2, e.3 as int));
                assert(vs@[i as int] == e);
            }
            match ImportInfo::at(e.0, e.1, e.2, e.3) {
                Some(x) => {
                    let ghost before = out@;
                    out.push(x);
                    proof {
                        assert(out@.map_values(|i: ImportInfo| import_view(i)) =~= before.map_values(
                            |i: ImportInfo| import_view(i),
                        ).push(import_view(x)));
                        assert(imports_flagged(imports_of(all.take(i + 1))) =~= imports_flagged(
                            imports_of(all.take(i as int)),
                        ).push(import_view(x)));
                    }
                },
                None => {},
            }
            i += 1;
        }
        proof {
            assert(all.take(i as int) =~= all);
        }
        out
    }

    /// The imports of `source`, in document order. A tree as long as the
    /// largest integer has no room for its positions; it yields none.
    pub fn collect(source: &str) -> (r: Vec<ImportInfo>)
        ensures
            typst_parse(source@).len < usize::MAX ==> r@.map_values(|i: ImportInfo| import_view(i))
                == imports_flagged(imports_of(source_visits(typst_parse(source@)))),
            typst_parse(source@).len == usize::MAX ==> r@.len() == 0,
    {
        let t = parse_typst(source);
        if t.len == usize::MAX {
            return Vec::new();
        }
        ImportInfo::collect_tree(&t)
    }

    /// The package import paths (those starting with `@`) of `source`, in
    /// encounter order.
    pub fn package_paths(source: &str) -> (r: Vec<String>)
        ensures
            typst_parse(source@).len < usize::MAX ==> r@.map_values(|s: String| s@)
                == package_paths_of(imports_of(source_visits(typst_parse(source@)))),
            typst_parse(source@).len == usize::MAX ==> r@.len() == 0,
    {
        let all = ImportInfo::collect(source);
        let ghost xs = imports_of(source_visits(typst_parse(source@)));
        let ghost av = all@.map_values(|i: ImportInfo| import_view(i));
        let mut out: Vec<String> = Vec::new();
        let mut i: usize = 0;
        while i < all.len()
            invariant
                i <= all@.len(),
                av == all@.map_values(|i: ImportInfo| import_view(i)),
                typst_parse(source@).len < usize::MAX ==> av == imports_flagged(xs),
                typst_parse(source@).len < usize::MAX ==> out@.map_values(|s: String| s@)
                    == package_paths_of(xs.take(i as int)),
                typst_parse(source@).len == usize::MAX ==> all@.len() == 0 && out@.len() == 0,
            decreases all@.len() - i,
        {
            let ghost before = out@;
            if all[i].is_package {
                out.push(crate::text::owned(all[i].path.as_str()));
            }
            proof {
                if typst_parse(source@).len < usize::MAX {
                    assert(xs.take(i + 1).drop_last() =~= xs.take(i as int));
                    assert(av[i as int] == import_view(all@[i as int]));
                    assert(imports_flagged(xs)[i as int] == av[i as int]);
                    assert(xs.take(i + 1).last() == xs[i as int]);
                    if all@[i as int].is_package {
                        assert(out@.map_values(|s: String| s@) =~= before.map_values(|s: String| s@).push(
                            all@[i as int].path@,
                        ));
                    }
                }
            }
            i += 1;
        }
        proof {
            if typst_parse(source@).len < usize::MAX {
                assert(av.len() == xs.len());
                assert(xs.take(i as int) =~= xs);
            }
        }
        out
    }
}

/// The package import paths (those starting with `@`) of `source`, in
/// encounter order.
pub fn extract_package_imports(source: &str) -> (r: Vec<String>)
    ensures
        typst_parse(source@).len < usize::MAX ==> r@.map_values(|s: String| s@) == package_paths_of(
            imports_of(source_visits(typst_parse(source@))),
        ),
        typst_parse(source@).len == usize::MAX ==> r@.len() == 0,
{
    ImportInfo::package_paths(source)
}

} // verus!
