//! Label sites — `<label>` definitions and `@ref` / `#link(<label>)`
//! references — and the relabeling that prefixes a vertebra's own labels
//! with its handle.
//!
//! A `<name>` in markup defines a label; in code context (call arguments,
//! code blocks) it references one, as does every `@name` marker. Each site
//! carries the byte range of its token.

use vstd::prelude::*;
use crate::parser::{ExtractedNodes, LabelRole, LabelSite, LabelSites, WalkCtx};
use crate::parser::syntax::{
    is_kind, parse_typst, source_visits, tree_ok, typst_parse, visit_all, visit_view, visits_fit,
    SyntaxTree,
};
use crate::text::{
    owned, push_str, str_eq, trim_end_char, trim_end_char_exec, trim_start_char,
    trim_start_char_exec,
};

verus! {

// ─── Specifications ─────────────────────────────────────────────────────────

/// The label site a visited node is, if any: its bare name, its role and
/// the byte range of its token. An empty name is no site.
pub open spec fn label_site_at(v: (SyntaxTree, int, WalkCtx, int)) -> Option<
    (Seq<char>, LabelRole, int, int),
> {
    let n = v.0;
    if n.kind@ == "Label"@ {
        let name = trim_end_char(trim_start_char(n.text@, '<'), '>');
        if name.len() > 0 {
            let role = if v.2.in_code {
                LabelRole::Reference
            } else {
                LabelRole::Definition
            };
            Some((name, role, v.1, v.1 + n.len))
        } else {
            None
        }
    } else if n.kind@ == "RefMarker"@ {
        let name = trim_start_char(n.text@, '@');
        if name.len() > 0 {
            Some((name, LabelRole::Reference, v.1, v.1 + n.len))
        } else {
            None
        }
    } else {
        None
    }
}

/// The label sites among a walk's visits, in walk order.
pub open spec fn label_sites_of(vs: Seq<(SyntaxTree, int, WalkCtx, int)>) -> Seq<
    (Seq<char>, LabelRole, int, int),
>
    decreases vs.len(),
{
    if vs.len() == 0 {
        Seq::empty()
    } else {
        let prev = label_sites_of(vs.drop_last());
        match label_site_at(vs.last()) {
            Some(s) => prev.push(s),
            None => prev,
        }
    }
}

/// A site as plain values: name, role, start and end.
pub open spec fn site_view(s: LabelSite) -> (Seq<char>, LabelRole, int, int) {
    (s.name@, s.role, s.range.start as int, s.range.end as int)
}

/// Sites as plain values.
pub open spec fn sites_view(v: Seq<LabelSite>) -> Seq<(Seq<char>, LabelRole, int, int)> {
    v.map_values(|s: LabelSite| site_view(s))
}

/// The sites of one role, in order.
pub open spec fn with_role(ss: Seq<(Seq<char>, LabelRole, int, int)>, role: LabelRole) -> Seq<
    (Seq<char>, LabelRole, int, int),
>
    decreases ss.len(),
{
    if ss.len() == 0 {
        Seq::empty()
    } else {
        let prev = with_role(ss.drop_last(), role);
        if ss.last().1 == role {
            prev.push(ss.last())
        } else {
            prev
        }
    }
}

/// The names of the sites that define a label, in order.
pub open spec fn defined_names(ss: Seq<(Seq<char>, LabelRole, int, int)>) -> Seq<Seq<char>> {
    with_role(ss, LabelRole::Definition).map_values(|s: (Seq<char>, LabelRole, int, int)| s.0)
}

/// `@handle:name` or `<handle:name>`, as the token being replaced is
/// written.
pub open spec fn qualified(token: Seq<char>, handle: Seq<char>, name: Seq<char>) -> Seq<char> {
    if token.len() > 0 && token[0] == '@' {
        "@"@ + handle + ":"@ + name
    } else {
        "<"@ + handle + ":"@ + name + ">"@
    }
}

/// A visited node's text after relabeling: a definition becomes
/// `<handle:name>`, a reference to a name defined in `defined` keeps its
/// form under the qualified name, and everything else stays as written.
pub open spec fn relabeled_token(
    v: (SyntaxTree, int, WalkCtx, int),
    defined: Seq<Seq<char>>,
    handle: Seq<char>,
) -> Seq<char> {
    match label_site_at(v) {
        Some(s) => if s.1 == LabelRole::Definition {
            "<"@ + handle + ":"@ + s.0 + ">"@
        } else if defined.contains(s.0) {
            qualified(v.0.text@, handle, s.0)
        } else {
            v.0.text@
        },
        None => v.0.text@,
    }
}

/// The texts of all visited nodes, relabeled, in walk order.
pub open spec fn relabeled_text(
    vs: Seq<(SyntaxTree, int, WalkCtx, int)>,
    defined: Seq<Seq<char>>,
    handle: Seq<char>,
) -> Seq<char>
    decreases vs.len(),
{
    if vs.len() == 0 {
        Seq::empty()
    } else {
        relabeled_text(vs.drop_last(), defined, handle) + relabeled_token(vs.last(), defined, handle)
    }
}

/// The texts of all visited nodes, in walk order.
pub open spec fn visit_texts(vs: Seq<(SyntaxTree, int, WalkCtx, int)>) -> Seq<char>
    decreases vs.len(),
{
    if vs.len() == 0 {
        Seq::empty()
    } else {
        visit_texts(vs.drop_last()) + vs.last().0.text@
    }
}

// ─── Laws ───────────────────────────────────────────────────────────────────

/// Relabeling touches label tokens only: where the walk finds no label site,
/// the result is the texts of the nodes exactly as written.
pub proof fn lemma_relabel_without_sites(
    vs: Seq<(SyntaxTree, int, WalkCtx, int)>,
    defined: Seq<Seq<char>>,
    handle: Seq<char>,
)
    requires
        label_sites_of(vs).len() == 0,
    ensures
        relabeled_text(vs, defined, handle) == visit_texts(vs),
    decreases vs.len(),
{
    if vs.len() > 0 {
        let prev = label_sites_of(vs.drop_last());
        if label_site_at(vs.last()) is Some {
            assert(label_sites_of(vs).len() == prev.len() + 1);
        }
        lemma_relabel_without_sites(vs.drop_last(), defined, handle);
    }
}

/// Every defining site of a vertebra is renamed under its handle: the
/// relabeled token of a definition is `<handle:name>`, whatever else the
/// vertebra defines or references.
pub proof fn lemma_definitions_are_qualified(
    v: (SyntaxTree, int, WalkCtx, int),
    defined: Seq<Seq<char>>,
    handle: Seq<char>,
)
    requires
        label_site_at(v) matches Some(s) && s.1 == LabelRole::Definition,
    ensures
        relabeled_token(v, defined, handle) == "<"@ + handle + ":"@ + label_site_at(v)->Some_0.0
            + ">"@,
{
}

/// A reference whose name the vertebra does not define — a bibliography
/// citation, an already qualified cross-file reference — is left as written.
pub proof fn lemma_foreign_references_untouched(
    v: (SyntaxTree, int, WalkCtx, int),
    defined: Seq<Seq<char>>,
    handle: Seq<char>,
)
    requires
        label_site_at(v) matches Some(s) && s.1 == LabelRole::Reference && !defined.contains(s.0),
    ensures
        relabeled_token(v, defined, handle) == v.0.text@,
{
}

// ─── Exec ───────────────────────────────────────────────────────────────────

/// Whether `names` holds `name`.
fn holds_name(names: &Vec<String>, name: &str) -> (b: bool)
    ensures
        b == names@.map_values(|s: String| s@).contains(name@),
{
    let ghost nv = names@.map_values(|s: String| s@);
    let mut i: usize = 0;
    while i < names.len()
        invariant
            i <= names@.len(),
            nv == names@.map_values(|s: String| s@),
            forall|j: int| 0 <= j < i ==> nv[j] != name@,
        decreases names@.len() - i,
    {
        if str_eq(names[i].as_str(), name) {
            proof {
                assert(nv[i as int] == name@);
            }
            return true;
        }
        i += 1;
    }
    false
}

impl LabelSite {
    /// The label site a visited node is, if any.
    pub fn at(node: &SyntaxTree, offset: usize, ctx: WalkCtx, breaks: usize) -> (r: Option<
        LabelSite,
    >)
        requires
            offset + node.len <= usize::MAX,
        ensures
            match r {
                Some(s) => label_site_at((*node, offset as int, ctx, breaks as int)) == Some(
                    site_view(s),
                ),
                None => label_site_at((*node, offset as int, ctx, breaks as int)) is None,
            },
    {
        let end = offset + node.len;
        if is_kind(node, "Label") {
            let open = trim_start_char_exec(node.text.as_str(), '<');
            let name = trim_end_char_exec(open.as_str(), '>');
            if name.as_str().is_empty() {
                return None;
            }
            let role = if ctx.in_code {
                LabelRole::Reference
            } else {
                LabelRole::Definition
            };
            Some(LabelSite { name, role, range: offset..end })
        } else if is_kind(node, "RefMarker") {
            let name = trim_start_char_exec(node.text.as_str(), '@');
            if name.as_str().is_empty() {
                return None;
            }
            Some(LabelSite { name, role: LabelRole::Reference, range: offset..end })
        } else {
            None
        }
    }

    /// The label sites of a parsed tree, in document order.
    pub fn collect_tree(t: &SyntaxTree) -> (r: Vec<LabelSite>)
        requires
            tree_ok(*t),
            t.len < usize::MAX,
        ensures
            sites_view(r@) == label_sites_of(source_visits(*t)),
    {
        let vs = visit_all(t);
        let ghost all = visit_view(vs@);
        let mut out: Vec<LabelSite> = Vec::new();
        let mut i: usize = 0;
        proof {
            assert(sites_view(out@) =~= label_sites_of(all.take(0)));
        }
        while i < vs.len()
            invariant
                i <= vs@.len(),
                all == visit_view(vs@),
                all == source_visits(*t),
                visits_fit(vs@),
                sites_view(out@) == label_sites_of(all.take(i as int)),
            decreases vs@.len() - i,
        {
            let e = vs[i];
            proof {
                assert(all.take(i + 1).drop_last() =~= all.take(i as int));
                assert(all.take(i + 1).last() == (*e.0, e.1 as int, e.2, e.3 as int));
                assert(vs@[i as int] == e);
            }
            match LabelSite::at(e.0, e.1, e.2, e.3) {
                Some(s) => {
                    let ghost before = out@;
                    out.push(s);
                    proof {
                        assert(sites_view(out@) =~= sites_view(before).push(site_view(s)));
                    }
                },
                None => {},
            }
            i += 1;
        }
        proof {
            assert(all.take(i as int) =~= all);
        }
        out
    }

    /// The label sites of `source`, in document order. A tree as long as the
    /// largest integer has no room for its positions; it yields no sites.
    pub fn collect(source: &str) -> (r: Vec<LabelSite>)
        ensures
            typst_parse(source@).len < usize::MAX ==> sites_view(r@) == label_sites_of(
                source_visits(typst_parse(source@)),
            ),
            typst_parse(source@).len == usize::MAX ==> r@.len() == 0,
    {
        let t = parse_typst(source);
        if t.len == usize::MAX {
            return Vec::new();
        }
        LabelSite::collect_tree(&t)
    }

    /// The first label site of `source` in document order, if any.
    pub fn first(source: &str) -> (r: Option<LabelSite>)
        ensures
            typst_parse(source@).len < usize::MAX ==> ({
                let ss = label_sites_of(source_visits(typst_parse(source@)));
                &&& (r is None <==> ss.len() == 0)
                &&& (r matches Some(s) ==> site_view(s) == ss[0])
            }),
            typst_parse(source@).len == usize::MAX ==> r is None,
    {
        let mut all = LabelSite::collect(source);
        if all.len() == 0 {
            return None;
        }
        proof {
            assert(sites_view(all@)[0] == site_view(all@[0]));
        }
        Some(all.remove(0))
    }
}

impl LabelSites {
    /// Sites in source order, partitioned by role: definitions and references
    /// each keep their relative order.
    pub fn from_sites(sites: Vec<LabelSite>) -> (r: Self)
        ensures
            sites_view(r.definitions@) == with_role(sites_view(sites@), LabelRole::Definition),
            sites_view(r.references@) == with_role(sites_view(sites@), LabelRole::Reference),
    {
        let ghost all = sites_view(sites@);
        let mut out = LabelSites::default();
        let mut rest = sites;
        let total = rest.len();
        let mut i: usize = 0;
        proof {
            assert(sites_view(out.definitions@) =~= with_role(all.take(0), LabelRole::Definition));
            assert(sites_view(out.references@) =~= with_role(all.take(0), LabelRole::Reference));
        }
        while rest.len() > 0
            invariant
                i + rest@.len() == all.len(),
                all.len() == total,
                sites_view(rest@) == all.skip(i as int),
                sites_view(out.definitions@) == with_role(all.take(i as int), LabelRole::Definition),
                sites_view(out.references@) == with_role(all.take(i as int), LabelRole::Reference),
            decreases rest@.len(),
        {
            proof {
                assert(all.take(i + 1).drop_last() =~= all.take(i as int));
                assert(all.take(i + 1).last() == all[i as int]);
                assert(sites_view(rest@)[0] == all[i as int]);
                assert(rest@.remove(0) =~= rest@.skip(1));
                assert(sites_view(rest@.skip(1)) =~= sites_view(rest@).skip(1));
            }
            let site = rest.remove(0);
            let ghost d0 = out.definitions@;
            let ghost r0 = out.references@;
            match site.role {
                LabelRole::Definition => {
                    out.definitions.push(site);
                    proof {
                        assert(sites_view(out.definitions@) =~= sites_view(d0).push(site_view(site)));
                    }
                },
                LabelRole::Reference => {
                    out.references.push(site);
                    proof {
                        assert(sites_view(out.references@) =~= sites_view(r0).push(site_view(site)));
                    }
                },
            }
            i += 1;
        }
        proof {
            assert(all.take(i as int) =~= all);
        }
        out
    }

    /// The label sites of a parsed tree, partitioned by role.
    pub fn from_tree(t: &SyntaxTree) -> (r: Self)
        requires
            tree_ok(*t),
            t.len < usize::MAX,
        ensures
            sites_view(r.definitions@) == with_role(
                label_sites_of(source_visits(*t)),
                LabelRole::Definition,
            ),
            sites_view(r.references@) == with_role(
                label_sites_of(source_visits(*t)),
                LabelRole::Reference,
            ),
    {
        LabelSites::from_sites(LabelSite::collect_tree(t))
    }

    /// The label sites of `source`, partitioned by role; ranges are byte
    /// offsets into `source`.
    pub fn from_source(source: &str) -> (r: Self)
        ensures
            typst_parse(source@).len < usize::MAX ==> {
                let ss = label_sites_of(source_visits(typst_parse(source@)));
                &&& sites_view(r.definitions@) == with_role(ss, LabelRole::Definition)
                &&& sites_view(r.references@) == with_role(ss, LabelRole::Reference)
            },
            typst_parse(source@).len == usize::MAX ==> r.definitions@.len() == 0
                && r.references@.len() == 0,
    {
        let t = parse_typst(source);
        if t.len == usize::MAX {
            return LabelSites::default();
        }
        LabelSites::from_tree(&t)
    }
}

/// The names of the labels `source` defines (markup context only), in
/// document order, without their brackets.
pub fn collect_user_labels(source: &str) -> (r: Vec<String>)
    ensures
        typst_parse(source@).len < usize::MAX ==> r@.map_values(|s: String| s@) == defined_names(
            label_sites_of(source_visits(typst_parse(source@))),
        ),
        typst_parse(source@).len == usize::MAX ==> r@.len() == 0,
{
    let sites = LabelSites::from_source(source);
    let ghost dv = sites_view(sites.definitions@);
    let mut out: Vec<String> = Vec::new();
    let mut i: usize = 0;
    while i < sites.definitions.len()
        invariant
            i <= sites.definitions@.len(),
            dv == sites_view(sites.definitions@),
            out@.map_values(|s: String| s@) == dv.take(i as int).map_values(
                |s: (Seq<char>, LabelRole, int, int)| s.0,
            ),
        decreases sites.definitions@.len() - i,
    {
        let ghost before = out@;
        let nm = owned(sites.definitions[i].name.as_str());
        out.push(nm);
        proof {
            assert(dv[i as int] == site_view(sites.definitions@[i as int]));
            assert(out@ == before.push(nm));
            assert(dv.take(i + 1) =~= dv.take(i as int).push(dv[i as int]));
            assert(out@.map_values(|s: String| s@) =~= before.map_values(|s: String| s@).push(nm@));
            assert(dv.take(i + 1).map_values(|s: (Seq<char>, LabelRole, int, int)| s.0)
                =~= dv.take(i as int).map_values(|s: (Seq<char>, LabelRole, int, int)| s.0).push(
                dv[i as int].0,
            ));
        }
        i += 1;
    }
    proof {
        assert(dv.take(i as int) =~= dv);
    }
    out
}

/// Everything harvested from a vertebra's source in one parse and one walk:
/// its label sites, partitioned by role.
pub fn extract_nodes(source: &str) -> (r: ExtractedNodes)
    ensures
        typst_parse(source@).len < usize::MAX ==> {
            let ss = label_sites_of(source_visits(typst_parse(source@)));
            &&& sites_view(r.labels.definitions@) == with_role(ss, LabelRole::Definition)
            &&& sites_view(r.labels.references@) == with_role(ss, LabelRole::Reference)
        },
        typst_parse(source@).len == usize::MAX ==> r.labels.definitions@.len() == 0
            && r.labels.references@.len() == 0,
{
    ExtractedNodes { labels: LabelSites::from_source(source) }
}

/// A parsed vertebra's text with every label it defines prefixed by
/// `handle:`, and every reference to one of those labels rewritten to
/// match; other references (citations, cross-file references) stay as
/// written.
pub fn prefix_labels_tree(t: &SyntaxTree, handle: &str) -> (r: String)
    requires
        tree_ok(*t),
        t.len < usize::MAX,
    ensures
        r@ == relabeled_text(
            source_visits(*t),
            defined_names(label_sites_of(source_visits(*t))),
            handle@,
        ),
{
    let vs = visit_all(t);
    let ghost all = visit_view(vs@);
    let sites = LabelSites::from_tree(t);
    let mut names: Vec<String> = Vec::new();
    let mut k: usize = 0;
    let ghost dv = sites_view(sites.definitions@);
    while k < sites.definitions.len()
        invariant
            k <= sites.definitions@.len(),
            dv == sites_view(sites.definitions@),
            names@.map_values(|s: String| s@) == dv.take(k as int).map_values(
                |s: (Seq<char>, LabelRole, int, int)| s.0,
            ),
        decreases sites.definitions@.len() - k,
    {
        let ghost before = names@;
        let nm = owned(sites.definitions[k].name.as_str());
        names.push(nm);
        proof {
            assert(dv[k as int] == site_view(sites.definitions@[k as int]));
            assert(names@ == before.push(nm));
            assert(dv.take(k + 1) =~= dv.take(k as int).push(dv[k as int]));
            assert(names@.map_values(|s: String| s@) =~= before.map_values(|s: String| s@).push(nm@));
            assert(dv.take(k + 1).map_values(|s: (Seq<char>, LabelRole, int, int)| s.0)
                =~= dv.take(k as int).map_values(|s: (Seq<char>, LabelRole, int, int)| s.0).push(
                dv[k as int].0,
            ));
        }
        k += 1;
    }
    let ghost defined = defined_names(label_sites_of(source_visits(*t)));
    proof {
        assert(dv.take(k as int) =~= dv);
        assert(names@.map_values(|s: String| s@) == defined);
    }
    let mut out = String::new();
    let mut i: usize = 0;
    proof {
        assert(out@ =~= relabeled_text(all.take(0), defined, handle@));
    }
    while i < vs.len()
        invariant
            i <= vs@.len(),
            all == visit_view(vs@),
            all == source_visits(*t),
            visits_fit(vs@),
            names@.map_values(|s: String| s@) == defined,
            out@ == relabeled_text(all.take(i as int), defined, handle@),
        decreases vs@.len() - i,
    {
        let e = vs[i];
        proof {
            assert(all.take(i + 1).drop_last() =~= all.take(i as int));
            assert(all.take(i + 1).last() == (*e.0, e.1 as int, e.2, e.3 as int));
            assert(vs@[i as int] == e);
        }
        match LabelSite::at(e.0, e.1, e.2, e.3) {
            Some(s) => {
                let token = e.0.text.as_str();
                let ghost tv = token@;
                let local = holds_name(&names, s.name.as_str());
                if s.role == LabelRole::Definition || local {
                    let at = {
                        let v = crate::text::chars_of(token);
                        v.len() > 0 && v[0] == '@'
                    };
                    if s.role == LabelRole::Reference && at {
                        push_str(&mut out, "@");
                        push_str(&mut out, handle);
                        push_str(&mut out, ":");
                        push_str(&mut out, s.name.as_str());
                    } else {
                        push_str(&mut out, "<");
                        push_str(&mut out, handle);
                        push_str(&mut out, ":");
                        push_str(&mut out, s.name.as_str());
                        push_str(&mut out, ">");
                    }
                } else {
                    push_str(&mut out, token);
                }
                proof {
                    assert(out@ =~= relabeled_text(all.take(i + 1), defined, handle@));
                }
            },
            None => {
                push_str(&mut out, e.0.text.as_str());
            },
        }
        i += 1;
    }
    proof {
        assert(all.take(i as int) =~= all);
    }
    out
}

/// `source` with every label it defines prefixed by `handle:` and every
/// local reference to one of them rewritten to match. The rewrite is not
/// idempotent: it runs once per vertebra. A tree as long as the largest
/// integer is returned as written.
pub fn prefix_labels(source: &str, handle: &str) -> (r: String)
    ensures
        typst_parse(source@).len < usize::MAX ==> r@ == relabeled_text(
            source_visits(typst_parse(source@)),
            defined_names(label_sites_of(source_visits(typst_parse(source@)))),
            handle@,
        ),
        typst_parse(source@).len == usize::MAX ==> r@ == source@,
{
    let t = parse_typst(source);
    if t.len == usize::MAX {
        return owned(source);
    }
    prefix_labels_tree(&t, handle)
}

} // verus!
