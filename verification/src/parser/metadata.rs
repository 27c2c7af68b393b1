//! What a vertebra's `#set document(...)` rule says: its literal-valued
//! named arguments ([`DocumentMetadata`]) and its `date: datetime(...)`
//! ([`DocumentDate`]).

use vstd::prelude::*;
use crate::parser::{DocumentMetadata, LossyTitle, MetaValue, WalkCtx};
use crate::parser::syntax::{
    full_text, full_text_list, is_kind, parse_typst, source_visits, tree_ok, typst_parse,
    visit_all, visit_view, visits_fit, SyntaxTree,
};
use crate::parser::vars::{first_of_kind, first_of_kind_exec};
use crate::text::{owned, push_str, str_eq, trim, trim_exec};

verus! {

// ─── Specifications: syntax ────────────────────────────────────────────────

/// The index of the first expression among `cs[from..]`.
pub open spec fn first_expr(cs: Seq<SyntaxTree>, from: int) -> Option<int>
    decreases cs.len() - from,
{
    if from < 0 || from >= cs.len() {
        None
    } else if cs[from].is_expr {
        Some(from)
    } else {
        first_expr(cs, from + 1)
    }
}

/// The index of the last expression among `cs[..n]`.
pub open spec fn last_expr(cs: Seq<SyntaxTree>, n: int) -> Option<int>
    decreases n,
{
    if n <= 0 || n > cs.len() {
        None
    } else if cs[n - 1].is_expr {
        Some(n - 1)
    } else {
        last_expr(cs, n - 1)
    }
}

/// The index of the last of `cs[..n]` of kind `kind`.
pub open spec fn last_of_kind(cs: Seq<SyntaxTree>, kind: Seq<char>, n: int) -> Option<int>
    decreases n,
{
    if n <= 0 || n > cs.len() {
        None
    } else if cs[n - 1].kind@ == kind {
        Some(n - 1)
    } else {
        last_of_kind(cs, kind, n - 1)
    }
}

/// The children of a node's last argument list, none if it has none.
pub open spec fn args_of(n: SyntaxTree) -> Seq<SyntaxTree> {
    match last_of_kind(n.children@, "Args"@, n.children@.len() as int) {
        Some(a) => n.children@[a].children@,
        None => Seq::empty(),
    }
}

/// For a `set` rule whose target is the identifier `document`, the
/// children of its argument list.
pub open spec fn document_args(n: SyntaxTree) -> Option<Seq<SyntaxTree>> {
    let cs = n.children@;
    let t = first_expr(cs, 0);
    if n.kind@ == "SetRule"@ && t is Some && cs[t->Some_0].kind@ == "Ident"@ && cs[t->Some_0].text@
        == "document"@ {
        Some(args_of(n))
    } else {
        None
    }
}

/// A named argument's name: the text of its first identifier.
pub open spec fn arg_name(named: SyntaxTree) -> Seq<char> {
    match first_of_kind(named.children@, "Ident"@, 0) {
        Some(i) => named.children@[i].text@,
        None => Seq::empty(),
    }
}

/// A named argument's value: its last expression.
pub open spec fn arg_value(named: SyntaxTree) -> Option<SyntaxTree> {
    match last_expr(named.children@, named.children@.len() as int) {
        Some(i) => Some(named.children@[i]),
        None => None,
    }
}

// ─── Specifications: plain text ────────────────────────────────────────────

/// The text of the textual leaves (`Text`, `Space`, `SmartQuote`) of a
/// subtree, and whether it holds anything else besides the transparent
/// `Markup` and `ContentBlock` structure.
pub open spec fn collect_text(t: SyntaxTree) -> (Seq<char>, bool)
    decreases t, 1int,
{
    if t.kind@ == "Text"@ || t.kind@ == "Space"@ || t.kind@ == "SmartQuote"@ {
        (t.text@, false)
    } else {
        let r = collect_list(t.children@);
        if t.kind@ == "Markup"@ || t.kind@ == "ContentBlock"@ {
            r
        } else {
            (r.0, true)
        }
    }
}

/// [`collect_text`] over a list of siblings.
pub open spec fn collect_list(cs: Seq<SyntaxTree>) -> (Seq<char>, bool)
    decreases cs, 0int,
{
    if cs.len() == 0 {
        (Seq::empty(), false)
    } else {
        let a = collect_list(cs.drop_last());
        let b = collect_text(cs.last());
        (a.0 + b.0, a.1 || b.1)
    }
}

/// The body of a content block: its first `Markup` child.
pub open spec fn content_body(e: SyntaxTree) -> Option<SyntaxTree> {
    match first_of_kind(e.children@, "Markup"@, 0) {
        Some(i) => Some(e.children@[i]),
        None => None,
    }
}

/// A content block's body as trimmed plain text, and whether flattening it
/// lost anything.
pub open spec fn body_text(e: SyntaxTree) -> (Seq<char>, bool) {
    match content_body(e) {
        Some(b) => (trim(collect_text(b).0), collect_text(b).1),
        None => (Seq::empty(), false),
    }
}

/// A content block's body exactly as written.
pub open spec fn body_source(e: SyntaxTree) -> Seq<char> {
    match content_body(e) {
        Some(b) => full_text(b),
        None => Seq::empty(),
    }
}

// ─── Specifications: values ─────────────────────────────────────────────────

/// Whether an expression is a literal a [`MetaValue`] can hold: a string, a
/// content block or an array.
pub open spec fn has_meta(e: SyntaxTree) -> bool {
    (e.kind@ == "Str"@ && e.str_value is Some) || e.kind@ == "ContentBlock"@ || e.kind@ == "Array"@
}

/// `v` is the value of the literal `e`: a string's value, a content block's
/// plain text, an array's representable items.
pub open spec fn meta_of(e: SyntaxTree, v: MetaValue) -> bool
    decreases e, 2int,
{
    if e.kind@ == "Str"@ {
        match (v, e.str_value) {
            (MetaValue::Str(t), Some(s)) => t@ == s@,
            _ => false,
        }
    } else if e.kind@ == "ContentBlock"@ {
        v matches MetaValue::Str(t) && t@ == body_text(e).0
    } else {
        v matches MetaValue::Array(items) && items_of(e.children@, items@)
    }
}

/// `items` are the values of the representable expressions among `cs`, in
/// order.
pub open spec fn items_of(cs: Seq<SyntaxTree>, items: Seq<MetaValue>) -> bool
    decreases cs, 1int,
{
    if cs.len() == 0 {
        items.len() == 0
    } else {
        let last = cs.last();
        if last.is_expr && has_meta(last) {
            items.len() > 0 && items_of(cs.drop_last(), items.drop_last()) && meta_of(
                last,
                items.last(),
            )
        } else {
            items_of(cs.drop_last(), items)
        }
    }
}

/// `fields` are the named arguments among `args` whose values are
/// representable literals, as (name, value), in order.
pub open spec fn fields_of(args: Seq<SyntaxTree>, fields: Seq<(String, MetaValue)>) -> bool
    decreases args.len(),
{
    if args.len() == 0 {
        fields.len() == 0
    } else {
        let a = args.last();
        let ev = arg_value(a);
        if a.kind@ == "Named"@ && ev is Some && has_meta(ev->Some_0) {
            &&& fields.len() > 0
            &&& fields_of(args.drop_last(), fields.drop_last())
            &&& fields.last().0@ == arg_name(a)
            &&& meta_of(ev->Some_0, fields.last().1)
        } else {
            fields_of(args.drop_last(), fields)
        }
    }
}

/// The last `title:` among `args` given as a content block whose flattening
/// lost something: its body as written (trimmed) and as plain text.
pub open spec fn lossy_of(args: Seq<SyntaxTree>) -> Option<(Seq<char>, Seq<char>)>
    decreases args.len(),
{
    if args.len() == 0 {
        None
    } else {
        let a = args.last();
        let ev = arg_value(a);
        if a.kind@ == "Named"@ && arg_name(a) == "title"@ && ev is Some && ev->Some_0.kind@
            == "ContentBlock"@ && body_text(ev->Some_0).1 {
            Some((trim(body_source(ev->Some_0)), body_text(ev->Some_0).0))
        } else {
            lossy_of(args.drop_last())
        }
    }
}

/// `m` is what a `#set document(...)` rule with argument list `args` says.
pub open spec fn metadata_is(m: DocumentMetadata, args: Seq<SyntaxTree>) -> bool {
    &&& fields_of(args, m.fields@)
    &&& match lossy_of(args) {
        None => m.lossy_title is None,
        Some(l) => m.lossy_title matches Some(t) && t.raw@ == l.0 && t.stripped@ == l.1,
    }
}

/// The argument list of the first file-scope `#set document(...)` among
/// `vs[from..]`.
pub open spec fn first_document_rule(vs: Seq<(SyntaxTree, int, WalkCtx, int)>, from: int) -> Option<
    Seq<SyntaxTree>,
>
    decreases vs.len() - from,
{
    if from < 0 || from >= vs.len() {
        None
    } else if vs[from].2.file_scope && document_args(vs[from].0) is Some {
        document_args(vs[from].0)
    } else {
        first_document_rule(vs, from + 1)
    }
}

// ─── Specifications: dates ──────────────────────────────────────────────────

/// A leap year of the proleptic Gregorian calendar.
pub open spec fn is_leap(y: int) -> bool {
    (y % 4 == 0 && y % 100 != 0) || y % 400 == 0
}

/// The days of month `m` of year `y`.
pub open spec fn days_in_month(y: int, m: int) -> int {
    if m == 2 {
        if is_leap(y) {
            29
        } else {
            28
        }
    } else if m == 4 || m == 6 || m == 9 || m == 11 {
        30
    } else {
        31
    }
}

/// The Gregorian month lengths: thirty-one days in January, March, May,
/// July, August, October and December; thirty in April, June, September and
/// November; twenty-nine in February of a year divisible by 4 but not by
/// 100, or by 400, and twenty-eight otherwise.
pub proof fn lemma_month_lengths(y: int)
    ensures
        days_in_month(y, 1) == 31,
        days_in_month(y, 2) == (if (y % 4 == 0 && y % 100 != 0) || y % 400 == 0 {
            29int
        } else {
            28int
        }),
        days_in_month(y, 3) == 31,
        days_in_month(y, 4) == 30,
        days_in_month(y, 5) == 31,
        days_in_month(y, 6) == 30,
        days_in_month(y, 7) == 31,
        days_in_month(y, 8) == 31,
        days_in_month(y, 9) == 30,
        days_in_month(y, 10) == 31,
        days_in_month(y, 11) == 30,
        days_in_month(y, 12) == 31,
{
}

/// Every real calendar date and time of day, in the years chrono covers, is
/// one it can represent.
pub proof fn lemma_real_dates_valid(y: int, mo: int, d: int, h: int, mi: int, s: int)
    requires
        -262143 <= y <= 262142,
        1 <= mo <= 12,
        1 <= d,
        mo == 1 || mo == 3 || mo == 5 || mo == 7 || mo == 8 || mo == 10 || mo == 12 ==> d <= 31,
        mo == 4 || mo == 6 || mo == 9 || mo == 11 ==> d <= 30,
        mo == 2 ==> d <= 28 || (d == 29 && ((y % 4 == 0 && y % 100 != 0) || y % 400 == 0)),
        0 <= h < 24,
        0 <= mi < 60,
        0 <= s < 60,
    ensures
        valid_datetime(y, mo, d, h, mi, s),
{
    lemma_month_lengths(y);
}

/// A calendar date and time of day chrono can represent in UTC: a year
/// from 262144 BCE to 262142 CE, a real day of a real month, and a time of
/// day without leap seconds.
pub open spec fn valid_datetime(y: int, mo: int, d: int, h: int, mi: int, s: int) -> bool {
    &&& -262143 <= y <= 262142
    &&& 1 <= mo <= 12
    &&& 1 <= d <= days_in_month(y, mo)
    &&& 0 <= h < 24
    &&& 0 <= mi < 60
    &&& 0 <= s < 60
}

/// The value of the first argument named `name` among `args` that is an
/// integer literal.
pub open spec fn named_int(args: Seq<SyntaxTree>, name: Seq<char>, from: int) -> Option<int>
    decreases args.len() - from,
{
    if from < 0 || from >= args.len() {
        None
    } else {
        let a = args[from];
        let ev = arg_value(a);
        if a.kind@ == "Named"@ && arg_name(a) == name && ev is Some && ev->Some_0.kind@ == "Int"@
            && ev->Some_0.int_value is Some {
            Some(ev->Some_0.int_value->Some_0 as int)
        } else {
            named_int(args, name, from + 1)
        }
    }
}

/// The value of the first named argument called `name` among `args[from..]`.
pub open spec fn named_value(args: Seq<SyntaxTree>, name: Seq<char>, from: int) -> Option<
    SyntaxTree,
>
    decreases args.len() - from,
{
    if from < 0 || from >= args.len() {
        None
    } else if args[from].kind@ == "Named"@ && arg_name(args[from]) == name {
        arg_value(args[from])
    } else {
        named_value(args, name, from + 1)
    }
}

/// The date a `date: datetime(year:, month:, day:[, hour:, minute:,
/// second:])` argument among `args` gives; absent time parts are zero.
pub open spec fn date_of_args(args: Seq<SyntaxTree>) -> Option<(int, int, int, int, int, int)> {
    match named_value(args, "date"@, 0) {
        None => None,
        Some(call) => {
            let cs = call.children@;
            let callee = first_expr(cs, 0);
            if call.kind@ == "FuncCall"@ && callee is Some && cs[callee->Some_0].kind@ == "Ident"@
                && cs[callee->Some_0].text@ == "datetime"@ {
                let ca = args_of(call);
                let y = named_int(ca, "year"@, 0);
                let mo = named_int(ca, "month"@, 0);
                let d = named_int(ca, "day"@, 0);
                let h = match named_int(ca, "hour"@, 0) {
                    Some(x) => x,
                    None => 0,
                };
                let mi = match named_int(ca, "minute"@, 0) {
                    Some(x) => x,
                    None => 0,
                };
                let s = match named_int(ca, "second"@, 0) {
                    Some(x) => x,
                    None => 0,
                };
                if y is Some && mo is Some && d is Some && valid_datetime(
                    y->Some_0,
                    mo->Some_0,
                    d->Some_0,
                    h,
                    mi,
                    s,
                ) {
                    Some((y->Some_0, mo->Some_0, d->Some_0, h, mi, s))
                } else {
                    None
                }
            } else {
                None
            }
        },
    }
}

/// The date of the first `#set document(...)` rule among `vs[from..]` that
/// gives one, in any context.
pub open spec fn first_date(vs: Seq<(SyntaxTree, int, WalkCtx, int)>, from: int) -> Option<
    (int, int, int, int, int, int),
>
    decreases vs.len() - from,
{
    if from < 0 || from >= vs.len() {
        None
    } else {
        let found = match document_args(vs[from].0) {
            Some(args) => date_of_args(args),
            None => None,
        };
        if found is Some {
            found
        } else {
            first_date(vs, from + 1)
        }
    }
}

/// A date and time in UTC, as a `#set document(date: datetime(...))` rule
/// gives it.
#[derive(Debug, Clone, Copy, PartialEq, Eq, Structural)]
pub struct DocumentDate {
    pub year: i32,
    pub month: u32,
    pub day: u32,
    pub hour: u32,
    pub minute: u32,
    pub second: u32,
}

/// A date as plain values.
pub open spec fn date_view(d: DocumentDate) -> (int, int, int, int, int, int) {
    (d.year as int, d.month as int, d.day as int, d.hour as int, d.minute as int, d.second as int)
}

// ─── Exec: syntax ───────────────────────────────────────────────────────────

/// The index of the first expression among `cs[from..]`.
pub(crate) fn first_expr_exec(cs: &Vec<SyntaxTree>, from: usize) -> (r: Option<usize>)
    ensures
        r matches Some(i) ==> first_expr(cs@, from as int) == Some(i as int) && i < cs@.len(),
        r is None ==> first_expr(cs@, from as int) is None,
    decreases cs@.len() - from,
{
    if from >= cs.len() {
        return None;
    }
    if cs[from].is_expr {
        return Some(from);
    }
    first_expr_exec(cs, from + 1)
}

/// The index of the last expression among `cs[..n]`.
pub(crate) fn last_expr_exec(cs: &Vec<SyntaxTree>, n: usize) -> (r: Option<usize>)
    requires
        n <= cs@.len(),
    ensures
        r matches Some(i) ==> last_expr(cs@, n as int) == Some(i as int) && i < cs@.len(),
        r is None ==> last_expr(cs@, n as int) is None,
    decreases n,
{
    if n == 0 {
        return None;
    }
    if cs[n - 1].is_expr {
        return Some(n - 1);
    }
    last_expr_exec(cs, n - 1)
}

/// The index of the last of `cs[..n]` of kind `kind`.
pub(crate) fn last_of_kind_exec(cs: &Vec<SyntaxTree>, kind: &str, n: usize) -> (r: Option<usize>)
    requires
        n <= cs@.len(),
    ensures
        r matches Some(i) ==> last_of_kind(cs@, kind@, n as int) == Some(i as int) && i < cs@.len(),
        r is None ==> last_of_kind(cs@, kind@, n as int) is None,
    decreases n,
{
    if n == 0 {
        return None;
    }
    if is_kind(&cs[n - 1], kind) {
        return Some(n - 1);
    }
    last_of_kind_exec(cs, kind, n - 1)
}

/// The children of a node's last argument list, if it has one.
fn args_exec(n: &SyntaxTree) -> (r: Option<&Vec<SyntaxTree>>)
    ensures
        r matches Some(a) ==> a@ == args_of(*n),
        r is None ==> args_of(*n).len() == 0,
{
    match last_of_kind_exec(&n.children, "Args", n.children.len()) {
        Some(a) => Some(&n.children[a].children),
        None => None,
    }
}

/// Whether a node is a `set` rule whose target is the identifier
/// `document`.
fn is_document_rule(n: &SyntaxTree) -> (b: bool)
    ensures
        b == document_args(*n) is Some,
{
    if !is_kind(n, "SetRule") {
        return false;
    }
    match first_expr_exec(&n.children, 0) {
        Some(t) => is_kind(&n.children[t], "Ident") && str_eq(n.children[t].text.as_str(), "document"),
        None => false,
    }
}

/// A named argument's name.
pub(crate) fn arg_name_exec(named: &SyntaxTree) -> (r: String)
    ensures
        r@ == arg_name(*named),
{
    match first_of_kind_exec(&named.children, "Ident", 0) {
        Some(i) => owned(named.children[i].text.as_str()),
        None => String::new(),
    }
}

/// A named argument's value.
fn arg_value_exec(named: &SyntaxTree) -> (r: Option<&SyntaxTree>)
    ensures
        r matches Some(e) ==> arg_value(*named) == Some(*e),
        r is None ==> arg_value(*named) is None,
{
    match last_expr_exec(&named.children, named.children.len()) {
        Some(i) => Some(&named.children[i]),
        None => None,
    }
}

// ─── Exec: plain text ───────────────────────────────────────────────────────

/// Appends the textual leaves of `t` and answers whether it held anything
/// else.
fn collect_text_exec(t: &SyntaxTree, out: &mut String) -> (lossy: bool)
    ensures
        final(out)@ == old(out)@ + collect_text(*t).0,
        lossy == collect_text(*t).1,
    decreases t, 1int,
{
    if is_kind(t, "Text") || is_kind(t, "Space") || is_kind(t, "SmartQuote") {
        push_str(out, t.text.as_str());
        return false;
    }
    let inner = collect_list_exec(&t.children, out);
    if is_kind(t, "Markup") || is_kind(t, "ContentBlock") {
        inner
    } else {
        true
    }
}

/// Appends the textual leaves of each of `cs` and answers whether any held
/// anything else.
fn collect_list_exec(cs: &Vec<SyntaxTree>, out: &mut String) -> (lossy: bool)
    ensures
        final(out)@ == old(out)@ + collect_list(cs@).0,
        lossy == collect_list(cs@).1,
    decreases cs, 0int,
{
    let ghost start = out@;
    let mut lossy = false;
    let mut i: usize = 0;
    proof {
        assert(cs@.take(0) =~= Seq::<SyntaxTree>::empty());
    }
    while i < cs.len()
        invariant
            i <= cs@.len(),
            out@ == start + collect_list(cs@.take(i as int)).0,
            lossy == collect_list(cs@.take(i as int)).1,
        decreases cs@.len() - i,
    {
        proof {
            assert(cs@.take(i + 1).drop_last() =~= cs@.take(i as int));
            assert(cs@.take(i + 1).last() == cs@[i as int]);
            assert(decreases_to!(cs => cs@[i as int]));
        }
        let l = collect_text_exec(&cs[i], out);
        lossy = lossy || l;
        proof {
            assert(out@ =~= start + collect_list(cs@.take(i + 1)).0);
        }
        i += 1;
    }
    proof {
        assert(cs@.take(i as int) =~= cs@);
    }
    lossy
}

/// Appends the whole text of `t`.
pub(crate) fn full_text_exec(t: &SyntaxTree, out: &mut String)
    ensures
        final(out)@ == old(out)@ + full_text(*t),
    decreases t, 1int,
{
    push_str(out, t.text.as_str());
    full_text_list_exec(&t.children, out);
    proof {
        assert(out@ =~= old(out)@ + full_text(*t));
    }
}

/// Appends the whole texts of `cs`.
fn full_text_list_exec(cs: &Vec<SyntaxTree>, out: &mut String)
    ensures
        final(out)@ == old(out)@ + full_text_list(cs@),
    decreases cs, 0int,
{
    let ghost start = out@;
    let mut i: usize = 0;
    proof {
        assert(cs@.take(0) =~= Seq::<SyntaxTree>::empty());
    }
    while i < cs.len()
        invariant
            i <= cs@.len(),
            out@ == start + full_text_list(cs@.take(i as int)),
        decreases cs@.len() - i,
    {
        proof {
            assert(cs@.take(i + 1).drop_last() =~= cs@.take(i as int));
            assert(cs@.take(i + 1).last() == cs@[i as int]);
            assert(decreases_to!(cs => cs@[i as int]));
        }
        full_text_exec(&cs[i], out);
        proof {
            assert(out@ =~= start + full_text_list(cs@.take(i + 1)));
        }
        i += 1;
    }
    proof {
        assert(cs@.take(i as int) =~= cs@);
    }
}

/// The first `Markup` child of a content block.
fn content_body_exec(e: &SyntaxTree) -> (r: Option<&SyntaxTree>)
    ensures
        r matches Some(b) ==> content_body(*e) == Some(*b),
        r is None ==> content_body(*e) is None,
{
    match first_of_kind_exec(&e.children, "Markup", 0) {
        Some(i) => Some(&e.children[i]),
        None => None,
    }
}

/// A content block's body as trimmed plain text, and whether flattening it
/// lost anything.
fn body_text_exec(e: &SyntaxTree) -> (r: (String, bool))
    ensures
        r.0@ == body_text(*e).0,
        r.1 == body_text(*e).1,
{
    match content_body_exec(e) {
        Some(b) => {
            let mut s = String::new();
            let lossy = collect_text_exec(b, &mut s);
            proof {
                assert(s@ =~= collect_text(*b).0);
            }
            (trim_exec(s.as_str()), lossy)
        },
        None => (String::new(), false),
    }
}

/// A content block's body exactly as written.
fn body_source_exec(e: &SyntaxTree) -> (r: String)
    ensures
        r@ == body_source(*e),
{
    let mut s = String::new();
    match content_body_exec(e) {
        Some(b) => {
            full_text_exec(b, &mut s);
            proof {
                assert(s@ =~= full_text(*b));
            }
        },
        None => {},
    }
    s
}

// ─── Exec: values ───────────────────────────────────────────────────────────

/// Whether an expression is a literal a [`MetaValue`] can hold.
fn has_meta_exec(e: &SyntaxTree) -> (b: bool)
    ensures
        b == has_meta(*e),
{
    (is_kind(e, "Str") && e.str_value.is_some()) || is_kind(e, "ContentBlock") || is_kind(
        e,
        "Array",
    )
}

impl MetaValue {
    /// The value of a representable literal: a string's value, a content
    /// block's plain text, an array's representable items.
    pub fn from_expr(e: &SyntaxTree) -> (r: Option<MetaValue>)
        ensures
            has_meta(*e) ==> (r matches Some(v) && meta_of(*e, v)),
            !has_meta(*e) ==> r is None,
        decreases e, 2int,
    {
        if is_kind(e, "Str") {
            proof {
                reveal_strlit("Str");
                reveal_strlit("ContentBlock");
                reveal_strlit("Array");
            }
            match &e.str_value {
                Some(s) => {
                    let t = owned(s.as_str());
                    let v = MetaValue::Str(t);
                    proof {
                        assert(e.str_value == Some(*s));
                        assert(meta_of(*e, v));
                    }
                    return Some(v);
                },
                None => {
                    proof {
                        assert("Str"@.len() == 3);
                        assert("Array"@.len() == 5);
                        assert("ContentBlock"@.len() == 12);
                        assert(e.kind@ == "Str"@);
                        assert(!has_meta(*e));
                    }
                    return None;
                },
            }
        }
        if is_kind(e, "ContentBlock") {
            let (text, _) = body_text_exec(e);
            return Some(MetaValue::Str(text));
        }
        if is_kind(e, "Array") {
            let items = MetaValue::items_from(&e.children);
            return Some(MetaValue::Array(items));
        }
        None
    }

    /// The values of the representable expressions among `cs`, in order.
    fn items_from(cs: &Vec<SyntaxTree>) -> (r: Vec<MetaValue>)
        ensures
            items_of(cs@, r@),
        decreases cs, 1int,
    {
        let mut out: Vec<MetaValue> = Vec::new();
        let mut i: usize = 0;
        proof {
            assert(cs@.take(0) =~= Seq::<SyntaxTree>::empty());
        }
        while i < cs.len()
            invariant
                i <= cs@.len(),
                items_of(cs@.take(i as int), out@),
            decreases cs@.len() - i,
        {
            proof {
                assert(cs@.take(i + 1).drop_last() =~= cs@.take(i as int));
                assert(cs@.take(i + 1).last() == cs@[i as int]);
                assert(decreases_to!(cs => cs@[i as int]));
            }
            if cs[i].is_expr && has_meta_exec(&cs[i]) {
                match MetaValue::from_expr(&cs[i]) {
                    Some(v) => {
                        let ghost before = out@;
                        out.push(v);
                        proof {
                            assert(out@.drop_last() =~= before);
                        }
                    },
                    None => {},
                }
            }
            i += 1;
        }
        proof {
            assert(cs@.take(i as int) =~= cs@);
        }
        out
    }
}

impl DocumentMetadata {
    /// What a `#set document(...)` rule with argument list `args` says: each
    /// named argument whose value is a representable literal, in order, and
    /// the last bracket-content title whose flattening lost something.
    pub fn from_args(args: &Vec<SyntaxTree>) -> (m: DocumentMetadata)
        ensures
            metadata_is(m, args@),
    {
        let mut fields: Vec<(String, MetaValue)> = Vec::new();
        let mut lossy_title: Option<LossyTitle> = None;
        let mut i: usize = 0;
        proof {
            assert(args@.take(0) =~= Seq::<SyntaxTree>::empty());
        }
        while i < args.len()
            invariant
                i <= args@.len(),
                fields_of(args@.take(i as int), fields@),
                match lossy_of(args@.take(i as int)) {
                    None => lossy_title is None,
                    Some(l) => lossy_title matches Some(t) && t.raw@ == l.0 && t.stripped@ == l.1,
                },
            decreases args@.len() - i,
        {
            proof {
                assert(args@.take(i + 1).drop_last() =~= args@.take(i as int));
                assert(args@.take(i + 1).last() == args@[i as int]);
            }
            let a = &args[i];
            if is_kind(a, "Named") {
                let name = arg_name_exec(a);
                match arg_value_exec(a) {
                    Some(e) => {
                        if str_eq(name.as_str(), "title") && is_kind(e, "ContentBlock") {
                            let (stripped, lossy) = body_text_exec(e);
                            if lossy {
                                let raw = body_source_exec(e);
                                lossy_title = Some(LossyTitle { raw: trim_exec(raw.as_str()), stripped });
                            }
                        }
                        if has_meta_exec(e) {
                            match MetaValue::from_expr(e) {
                                Some(v) => {
                                    let ghost before = fields@;
                                    fields.push((name, v));
                                    proof {
                                        assert(fields@.drop_last() =~= before);
                                    }
                                },
                                None => {},
                            }
                        }
                    },
                    None => {},
                }
            }
            i += 1;
        }
        proof {
            assert(args@.take(i as int) =~= args@);
        }
        DocumentMetadata { fields, lossy_title }
    }

    /// What the first file-scope `#set document(...)` rule of a parsed tree
    /// says, if it has one.
    pub fn first_tree(t: &SyntaxTree) -> (r: Option<DocumentMetadata>)
        requires
            tree_ok(*t),
            t.len < usize::MAX,
        ensures
            match first_document_rule(source_visits(*t), 0) {
                None => r is None,
                Some(args) => r matches Some(m) && metadata_is(m, args),
            },
    {
        let vs = visit_all(t);
        let ghost all = visit_view(vs@);
        let mut i: usize = 0;
        while i < vs.len()
            invariant
                i <= vs@.len(),
                all == visit_view(vs@),
                all == source_visits(*t),
                first_document_rule(all, 0) == first_document_rule(all, i as int),
            decreases vs@.len() - i,
        {
            let e = vs[i];
            proof {
                assert(vs@[i as int] == e);
                assert(all[i as int] == (*e.0, e.1 as int, e.2, e.3 as int));
            }
            if e.2.file_scope && is_document_rule(e.0) {
                let m = match args_exec(e.0) {
                    Some(a) => DocumentMetadata::from_args(a),
                    None => {
                        let none: Vec<SyntaxTree> = Vec::new();
                        proof {
                            assert(none@ =~= args_of(*e.0));
                        }
                        DocumentMetadata::from_args(&none)
                    },
                };
                return Some(m);
            }
            i += 1;
        }
        None
    }

    /// What the first file-scope `#set document(...)` rule of `source` says,
    /// if it has one. A tree as long as the largest integer has no room for
    /// its positions; it yields none.
    pub fn first(source: &str) -> (r: Option<DocumentMetadata>)
        ensures
            typst_parse(source@).len < usize::MAX ==> match first_document_rule(
                source_visits(typst_parse(source@)),
                0,
            ) {
                None => r is None,
                Some(args) => r matches Some(m) && metadata_is(m, args),
            },
            typst_parse(source@).len == usize::MAX ==> r is None,
    {
        let t = parse_typst(source);
        if t.len == usize::MAX {
            return None;
        }
        DocumentMetadata::first_tree(&t)
    }
}

// ─── Exec: dates ────────────────────────────────────────────────────────────

/// The value of the first named argument called `name` among `args[from..]`.
fn named_value_exec<'a>(args: &'a Vec<SyntaxTree>, name: &str, from: usize) -> (r: Option<
    &'a SyntaxTree,
>)
    ensures
        r matches Some(e) ==> named_value(args@, name@, from as int) == Some(*e),
        r is None ==> named_value(args@, name@, from as int) is None,
    decreases args@.len() - from,
{
    if from >= args.len() {
        return None;
    }
    if is_kind(&args[from], "Named") {
        let n = arg_name_exec(&args[from]);
        if str_eq(n.as_str(), name) {
            return arg_value_exec(&args[from]);
        }
    }
    named_value_exec(args, name, from + 1)
}

/// The value of the first argument named `name` among `args[from..]` that
/// is an integer literal.
fn named_int_exec(args: &Vec<SyntaxTree>, name: &str, from: usize) -> (r: Option<i64>)
    ensures
        r matches Some(x) ==> named_int(args@, name@, from as int) == Some(x as int),
        r is None ==> named_int(args@, name@, from as int) is None,
    decreases args@.len() - from,
{
    if from >= args.len() {
        return None;
    }
    let a = &args[from];
    if is_kind(a, "Named") {
        let n = arg_name_exec(a);
        if str_eq(n.as_str(), name) {
            match arg_value_exec(a) {
                Some(e) => {
                    if is_kind(e, "Int") {
                        match e.int_value {
                            Some(x) => return Some(x),
                            None => {},
                        }
                    }
                },
                None => {},
            }
        }
    }
    named_int_exec(args, name, from + 1)
}

/// Whether a date and time is one chrono can represent in UTC.
fn valid_datetime_exec(y: i64, mo: i64, d: i64, h: i64, mi: i64, s: i64) -> (b: bool)
    ensures
        b == valid_datetime(y as int, mo as int, d as int, h as int, mi as int, s as int),
{
    if !(-262143 <= y && y <= 262142 && 1 <= mo && mo <= 12) {
        return false;
    }
    let a: u64 = if y < 0 {
        (-y) as u64
    } else {
        y as u64
    };
    let leap = (a % 4 == 0 && a % 100 != 0) || a % 400 == 0;
    let days: i64 = if mo == 2 {
        if leap {
            29
        } else {
            28
        }
    } else if mo == 4 || mo == 6 || mo == 9 || mo == 11 {
        30
    } else {
        31
    };
    proof {
        assert(leap == is_leap(y as int)) by (nonlinear_arith)
            requires
                a == (if y < 0 {
                    -y
                } else {
                    y as int
                }),
                leap == ((a % 4 == 0 && a % 100 != 0) || a % 400 == 0),
        ;
    }
    1 <= d && d <= days && 0 <= h && h < 24 && 0 <= mi && mi < 60 && 0 <= s && s < 60
}

impl DocumentDate {
    /// The date a `#set document(...)` rule with argument list `args` gives
    /// in its `date: datetime(...)` argument, if it gives a valid one.
    pub fn from_document_args(args: &Vec<SyntaxTree>) -> (r: Option<DocumentDate>)
        ensures
            match date_of_args(args@) {
                None => r is None,
                Some(x) => r matches Some(d) && date_view(d) == x,
            },
    {
        let call = match named_value_exec(args, "date", 0) {
            Some(c) => c,
            None => return None,
        };
        if !is_kind(call, "FuncCall") {
            return None;
        }
        match first_expr_exec(&call.children, 0) {
            Some(c) => {
                if !(is_kind(&call.children[c], "Ident") && str_eq(
                    call.children[c].text.as_str(),
                    "datetime",
                )) {
                    return None;
                }
            },
            None => return None,
        }
        let none: Vec<SyntaxTree> = Vec::new();
        let ca = match args_exec(call) {
            Some(a) => a,
            None => {
                proof {
                    assert(none@ =~= args_of(*call));
                }
                &none
            },
        };
        let y = match named_int_exec(ca, "year", 0) {
            Some(x) => x,
            None => return None,
        };
        let mo = match named_int_exec(ca, "month", 0) {
            Some(x) => x,
            None => return None,
        };
        let d = match named_int_exec(ca, "day", 0) {
            Some(x) => x,
            None => return None,
        };
        let h = match named_int_exec(ca, "hour", 0) {
            Some(x) => x,
            None => 0,
        };
        let mi = match named_int_exec(ca, "minute", 0) {
            Some(x) => x,
            None => 0,
        };
        let s = match named_int_exec(ca, "second", 0) {
            Some(x) => x,
            None => 0,
        };
        if !valid_datetime_exec(y, mo, d, h, mi, s) {
            return None;
        }
        Some(
            DocumentDate {
                year: y as i32,
                month: mo as u32,
                day: d as u32,
                hour: h as u32,
                minute: mi as u32,
                second: s as u32,
            },
        )
    }

    /// The date of the first `#set document(...)` rule of a parsed tree that
    /// gives a valid `date: datetime(...)`, in any context.
    pub fn first_tree(t: &SyntaxTree) -> (r: Option<DocumentDate>)
        requires
            tree_ok(*t),
            t.len < usize::MAX,
        ensures
            match first_date(source_visits(*t), 0) {
                None => r is None,
                Some(x) => r matches Some(d) && date_view(d) == x,
            },
    {
        let vs = visit_all(t);
        let ghost all = visit_view(vs@);
        let mut i: usize = 0;
        while i < vs.len()
            invariant
                i <= vs@.len(),
                all == visit_view(vs@),
                all == source_visits(*t),
                first_date(all, 0) == first_date(all, i as int),
            decreases vs@.len() - i,
        {
            let e = vs[i];
            proof {
                assert(vs@[i as int] == e);
                assert(all[i as int] == (*e.0, e.1 as int, e.2, e.3 as int));
            }
            if is_document_rule(e.0) {
                let found = match args_exec(e.0) {
                    Some(a) => DocumentDate::from_document_args(a),
                    None => {
                        let none: Vec<SyntaxTree> = Vec::new();
                        proof {
                            assert(none@ =~= args_of(*e.0));
                        }
                        DocumentDate::from_document_args(&none)
                    },
                };
                if found.is_some() {
                    return found;
                }
            }
            i += 1;
        }
        None
    }

    /// The date of the first `#set document(...)` rule of `source` that
    /// gives a valid `date: datetime(...)`. A tree as long as the largest
    /// integer has no room for its positions; it yields none.
    pub fn first(source: &str) -> (r: Option<DocumentDate>)
        ensures
            typst_parse(source@).len < usize::MAX ==> match first_date(
                source_visits(typst_parse(source@)),
                0,
            ) {
                None => r is None,
                Some(x) => r matches Some(d) && date_view(d) == x,
            },
            typst_parse(source@).len == usize::MAX ==> r is None,
    {
        let t = parse_typst(source);
        if t.len == usize::MAX {
            return None;
        }
        DocumentDate::first_tree(&t)
    }
}

} // verus!
