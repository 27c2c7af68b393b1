//! What rheo harvests from a vertebra's Typst source: document metadata,
//! `rheo-*` variables, label sites and import paths, as plain values.

pub mod syntax;
pub mod labels;
pub mod vars;
pub mod metadata;

use vstd::prelude::*;
use crate::text::{push_str, replace_char, replace_char_exec, str_eq};

verus! {

/// Context threaded down a syntax-tree walk. Visitors read the flags they
/// care about; they never compute context themselves.
#[derive(Clone, Copy)]
pub struct WalkCtx {
    /// Inside code context (function arguments, code blocks) where a `<name>`
    /// label is a reference rather than a definition.
    pub in_code: bool,
    /// At the top markup level, where a `#let rheo-*` binding is file-scope.
    pub file_scope: bool,
}

impl Default for WalkCtx {
    /// The document root is top-level markup: file scope, not code.
    fn default() -> (c: Self)
        ensures
            !c.in_code,
            c.file_scope,
    {
        WalkCtx { in_code: false, file_scope: true }
    }
}

// ─── Typst literals ─────────────────────────────────────────────────────────

/// A Typst value written as source: a string, an array or a dictionary.
#[derive(Debug, PartialEq)]
pub enum TypstLiteral {
    Str(String),
    Array(Vec<TypstLiteral>),
    Dict(Vec<(String, TypstLiteral)>),
}

/// A Typst string literal for `s`: quoted, with `\\` and `"` escaped.
pub open spec fn quoted(s: Seq<char>) -> Seq<char> {
    "\""@ + replace_char(replace_char(s, '\\', "\\\\"@), '"', "\\\""@) + "\""@
}

/// The Typst source of a literal: a quoted string; an array as
/// `(a, b,)`; a dictionary as `("k": v,)`, or `(:)` when empty.
pub open spec fn literal_text(l: TypstLiteral) -> Seq<char>
    decreases l, 1int,
{
    match l {
        TypstLiteral::Str(s) => quoted(s@),
        TypstLiteral::Array(items) => "("@ + items_text(items@) + ")"@,
        TypstLiteral::Dict(entries) => if entries@.len() == 0 {
            "(:)"@
        } else {
            "("@ + entries_text(entries@) + ")"@
        },
    }
}

/// Each item followed by a comma, separated by spaces.
pub open spec fn items_text(ls: Seq<TypstLiteral>) -> Seq<char>
    decreases ls, 0int,
{
    if ls.len() == 0 {
        Seq::empty()
    } else {
        let sep = if ls.len() > 1 {
            " "@
        } else {
            Seq::empty()
        };
        items_text(ls.drop_last()) + sep + literal_text(ls.last()) + ","@
    }
}

/// Each `"key": value` followed by a comma, separated by spaces.
pub open spec fn entries_text(es: Seq<(String, TypstLiteral)>) -> Seq<char>
    decreases es, 0int,
{
    if es.len() == 0 {
        Seq::empty()
    } else {
        let sep = if es.len() > 1 {
            " "@
        } else {
            Seq::empty()
        };
        entries_text(es.drop_last()) + sep + quoted(es.last().0@) + ": "@ + literal_text(es.last().1)
            + ","@
    }
}

impl TypstLiteral {
    /// A string literal.
    pub fn str(s: &str) -> (l: Self)
        ensures
            l matches TypstLiteral::Str(t) && t@ == s@,
    {
        TypstLiteral::Str(crate::text::owned(s))
    }

    /// The literal as Typst source.
    pub fn serialize(&self) -> (r: String)
        ensures
            r@ == literal_text(*self),
    {
        let mut out = String::new();
        self.write_to(&mut out);
        proof {
            assert(out@ =~= literal_text(*self));
        }
        out
    }

    /// Appends the literal as Typst source.
    fn write_to(&self, out: &mut String)
        ensures
            final(out)@ == old(out)@ + literal_text(*self),
        decreases self, 1int,
    {
        match self {
            TypstLiteral::Str(s) => push_quoted(out, s.as_str()),
            TypstLiteral::Array(items) => {
                push_str(out, "(");
                write_items(items, out);
                push_str(out, ")");
            },
            TypstLiteral::Dict(entries) => {
                if entries.len() == 0 {
                    push_str(out, "(:)");
                } else {
                    push_str(out, "(");
                    write_entries(entries, out);
                    push_str(out, ")");
                }
            },
        }
        proof {
            assert(out@ =~= old(out)@ + literal_text(*self));
        }
    }
}

/// Appends `s` as a quoted Typst string.
fn push_quoted(out: &mut String, s: &str)
    ensures
        final(out)@ == old(out)@ + quoted(s@),
{
    let a = replace_char_exec(s, '\\', "\\\\");
    let b = replace_char_exec(a.as_str(), '"', "\\\"");
    push_str(out, "\"");
    push_str(out, b.as_str());
    push_str(out, "\"");
    proof {
        assert(out@ =~= old(out)@ + quoted(s@));
    }
}

/// Appends the items of an array literal.
fn write_items(ls: &Vec<TypstLiteral>, out: &mut String)
    ensures
        final(out)@ == old(out)@ + items_text(ls@),
    decreases ls, 0int,
{
    let ghost start = out@;
    let mut i: usize = 0;
    proof {
        assert(ls@.take(0) =~= Seq::<TypstLiteral>::empty());
    }
    while i < ls.len()
        invariant
            i <= ls@.len(),
            out@ == start + items_text(ls@.take(i as int)),
        decreases ls@.len() - i,
    {
        proof {
            assert(ls@.take(i + 1).drop_last() =~= ls@.take(i as int));
            assert(ls@.take(i + 1).last() == ls@[i as int]);
            assert(decreases_to!(ls => ls@[i as int]));
        }
        if i > 0 {
            push_str(out, " ");
        }
        ls[i].write_to(out);
        push_str(out, ",");
        proof {
            assert(out@ =~= start + items_text(ls@.take(i + 1)));
        }
        i += 1;
    }
    proof {
        assert(ls@.take(i as int) =~= ls@);
    }
}

/// Appends the entries of a dictionary literal.
fn write_entries(es: &Vec<(String, TypstLiteral)>, out: &mut String)
    ensures
        final(out)@ == old(out)@ + entries_text(es@),
    decreases es, 0int,
{
    let ghost start = out@;
    let mut i: usize = 0;
    proof {
        assert(es@.take(0) =~= Seq::<(String, TypstLiteral)>::empty());
    }
    while i < es.len()
        invariant
            i <= es@.len(),
            out@ == start + entries_text(es@.take(i as int)),
        decreases es@.len() - i,
    {
        proof {
            assert(es@.take(i + 1).drop_last() =~= es@.take(i as int));
            assert(es@.take(i + 1).last() == es@[i as int]);
            assert(decreases_to!(es => es@[i as int]));
            assert(decreases_to!(es@[i as int] => es@[i as int].1));
        }
        if i > 0 {
            push_str(out, " ");
        }
        push_quoted(out, es[i].0.as_str());
        push_str(out, ": ");
        es[i].1.write_to(out);
        push_str(out, ",");
        proof {
            assert(out@ =~= start + entries_text(es@.take(i + 1)));
        }
        i += 1;
    }
    proof {
        assert(es@.take(i as int) =~= es@);
    }
}

// ─── Document metadata ──────────────────────────────────────────────────────

/// A value harvested from a `#set document(...)` named argument: a string
/// (bracket content flattened to plain text) or an array of them.
#[derive(Debug, PartialEq)]
pub enum MetaValue {
    /// A string literal, or the plain text of a bracket-content value.
    Str(String),
    /// An array literal, e.g. `("DiH", "MiT")` for `keywords`.
    Array(Vec<MetaValue>),
}

/// `a` and `b` hold the same text, element by element.
pub open spec fn same_meta(a: MetaValue, b: MetaValue) -> bool
    decreases a,
{
    match (a, b) {
        (MetaValue::Str(x), MetaValue::Str(y)) => x@ == y@,
        (MetaValue::Array(xs), MetaValue::Array(ys)) => same_meta_list(xs@, ys@),
        _ => false,
    }
}

/// Two lists of values hold the same text, element by element.
pub open spec fn same_meta_list(xs: Seq<MetaValue>, ys: Seq<MetaValue>) -> bool
    decreases xs,
{
    xs.len() == ys.len() && (xs.len() == 0 || (same_meta_list(xs.drop_last(), ys.drop_last())
        && same_meta(xs.last(), ys.last())))
}

/// `l` is the literal `v` renders as: a string as a string, an array element
/// by element.
pub open spec fn renders(l: TypstLiteral, v: MetaValue) -> bool
    decreases v,
{
    match (l, v) {
        (TypstLiteral::Str(x), MetaValue::Str(y)) => x@ == y@,
        (TypstLiteral::Array(ls), MetaValue::Array(vs)) => renders_list(ls@, vs@),
        _ => false,
    }
}

/// Each literal of `ls` renders the value of `vs` at the same place.
pub open spec fn renders_list(ls: Seq<TypstLiteral>, vs: Seq<MetaValue>) -> bool
    decreases vs,
{
    ls.len() == vs.len() && (vs.len() == 0 || (renders_list(ls.drop_last(), vs.drop_last())
        && renders(ls.last(), vs.last())))
}

/// Element-wise sameness is sameness of the lists.
pub proof fn lemma_same_meta_list(xs: Seq<MetaValue>, ys: Seq<MetaValue>)
    requires
        xs.len() == ys.len(),
        forall|k: int| 0 <= k < xs.len() ==> same_meta(#[trigger] xs[k], ys[k]),
    ensures
        same_meta_list(xs, ys),
    decreases xs.len(),
{
    if xs.len() > 0 {
        let (a, b) = (xs.drop_last(), ys.drop_last());
        assert forall|k: int| 0 <= k < a.len() implies same_meta(#[trigger] a[k], b[k]) by {
            assert(a[k] == xs[k] && b[k] == ys[k]);
        }
        lemma_same_meta_list(a, b);
        assert(same_meta(xs[xs.len() - 1], ys[ys.len() - 1]));
    }
}

/// Element-wise rendering is rendering of the lists.
pub proof fn lemma_renders_list(ls: Seq<TypstLiteral>, vs: Seq<MetaValue>)
    requires
        ls.len() == vs.len(),
        forall|k: int| 0 <= k < vs.len() ==> renders(#[trigger] ls[k], vs[k]),
    ensures
        renders_list(ls, vs),
    decreases vs.len(),
{
    if vs.len() > 0 {
        let (a, b) = (ls.drop_last(), vs.drop_last());
        assert forall|k: int| 0 <= k < b.len() implies renders(#[trigger] a[k], b[k]) by {
            assert(a[k] == ls[k] && b[k] == vs[k]);
        }
        lemma_renders_list(a, b);
        assert(renders(ls[ls.len() - 1], vs[vs.len() - 1]));
    }
}

impl MetaValue {
    /// The inner string if this is a [`MetaValue::Str`], else `None`.
    pub fn as_str(&self) -> (r: Option<&str>)
        ensures
            match *self {
                MetaValue::Str(s) => r matches Some(t) && t@ == s@,
                MetaValue::Array(_) => r is None,
            },
    {
        match self {
            MetaValue::Str(s) => Some(s.as_str()),
            MetaValue::Array(_) => None,
        }
    }

    /// This value as a [`TypstLiteral`], for the spine's `metadata` dict.
    pub fn to_literal(&self) -> (l: TypstLiteral)
        ensures
            renders(l, *self),
        decreases self,
    {
        match self {
            MetaValue::Str(s) => TypstLiteral::str(s.as_str()),
            MetaValue::Array(items) => {
                let mut out: Vec<TypstLiteral> = Vec::new();
                let mut i: usize = 0;
                while i < items.len()
                    invariant
                        i <= items@.len(),
                        *self == MetaValue::Array(*items),
                        out@.len() == i,
                        forall|k: int| 0 <= k < i ==> renders(#[trigger] out@[k], items@[k]),
                    decreases items@.len() - i,
                {
                    proof {
                        assert(decreases_to!(*self => (*self)->Array_0));
                        assert((*self)->Array_0 == *items);
                        assert(decreases_to!(*items => items@));
                        assert(decreases_to!(items@ => items@[i as int]));
                        assert(decreases_to!(*self => items@[i as int]));
                    }
                    let l = items[i].to_literal();
                    out.push(l);
                    i += 1;
                }
                proof {
                    lemma_renders_list(out@, items@);
                }
                TypstLiteral::Array(out)
            },
        }
    }
}

impl Clone for MetaValue {
    /// A deep copy with the same text.
    fn clone(&self) -> (c: Self)
        ensures
            same_meta(c, *self),
        decreases self,
    {
        match self {
            MetaValue::Str(s) => MetaValue::Str(s.clone()),
            MetaValue::Array(items) => {
                let mut out: Vec<MetaValue> = Vec::new();
                let mut i: usize = 0;
                while i < items.len()
                    invariant
                        i <= items@.len(),
                        *self == MetaValue::Array(*items),
                        out@.len() == i,
                        forall|k: int| 0 <= k < i ==> same_meta(#[trigger] out@[k], items@[k]),
                    decreases items@.len() - i,
                {
                    proof {
                        assert(decreases_to!(*self => (*self)->Array_0));
                        assert((*self)->Array_0 == *items);
                        assert(decreases_to!(*items => items@));
                        assert(decreases_to!(items@ => items@[i as int]));
                        assert(decreases_to!(*self => items@[i as int]));
                    }
                    let c = items[i].clone();
                    out.push(c);
                    i += 1;
                }
                proof {
                    lemma_same_meta_list(out@, items@);
                }
                MetaValue::Array(out)
            },
        }
    }
}

/// A document title whose bracket content lost information when flattened
/// to plain text, carrying both forms so the caller can warn the author.
#[derive(Debug, Clone, PartialEq)]
pub struct LossyTitle {
    /// The original title content as written (markup intact).
    pub raw: String,
    /// The plain-text form kept in the spine.
    pub stripped: String,
}

/// All literal-valued named arguments of the first `#set document(...)` rule
/// in a vertebra, as `(name, value)` pairs in source order.
#[derive(Debug, PartialEq)]
pub struct DocumentMetadata {
    /// The harvested `(name, value)` pairs, in source order.
    pub fields: Vec<(String, MetaValue)>,
    /// Set when the `title` was bracket content that lost information.
    pub lossy_title: Option<LossyTitle>,
}

impl Clone for DocumentMetadata {
    /// A deep copy with the same fields and lossy title.
    fn clone(&self) -> (c: Self)
        ensures
            c.fields@.len() == self.fields@.len(),
            forall|i: int|
                0 <= i < self.fields@.len() ==> (#[trigger] c.fields@[i]).0@ == self.fields@[i].0@
                    && same_meta(c.fields@[i].1, self.fields@[i].1),
    {
        let mut fields: Vec<(String, MetaValue)> = Vec::new();
        let mut i: usize = 0;
        while i < self.fields.len()
            invariant
                i <= self.fields@.len(),
                fields@.len() == i,
                forall|k: int|
                    0 <= k < i ==> (#[trigger] fields@[k]).0@ == self.fields@[k].0@ && same_meta(
                        fields@[k].1,
                        self.fields@[k].1,
                    ),
            decreases self.fields@.len() - i,
        {
            fields.push((self.fields[i].0.clone(), self.fields[i].1.clone()));
            i += 1;
        }
        DocumentMetadata { fields, lossy_title: self.lossy_title.clone() }
    }
}

impl Default for DocumentMetadata {
    /// No fields and no lossy title.
    fn default() -> (m: Self)
        ensures
            m.fields@.len() == 0,
            m.lossy_title is None,
    {
        DocumentMetadata { fields: Vec::new(), lossy_title: None }
    }
}

/// The index of the first field called `name`, if any.
pub open spec fn first_field(fields: Seq<(String, MetaValue)>, name: Seq<char>) -> Option<int>
    decreases fields.len(),
{
    if fields.len() == 0 {
        None
    } else {
        match first_field(fields.drop_last(), name) {
            Some(i) => Some(i),
            None => if fields.last().0@ == name {
                Some(fields.len() - 1)
            } else {
                None
            },
        }
    }
}

impl DocumentMetadata {
    /// The value of the first argument called `name` (e.g. `title`), if any.
    pub fn get(&self, name: &str) -> (r: Option<&MetaValue>)
        ensures
            match first_field(self.fields@, name@) {
                Some(i) => r == Some(&self.fields@[i].1),
                None => r is None,
            },
    {
        let mut i: usize = 0;
        while i < self.fields.len()
            invariant
                i <= self.fields@.len(),
                first_field(self.fields@.take(i as int), name@) is None,
            decreases self.fields@.len() - i,
        {
            proof {
                assert(self.fields@.take(i + 1).drop_last() =~= self.fields@.take(i as int));
            }
            if str_eq(self.fields[i].0.as_str(), name) {
                proof {
                    lemma_first_field_prefix(self.fields@, name@, i + 1);
                }
                return Some(&self.fields[i].1);
            }
            i += 1;
        }
        proof {
            assert(self.fields@.take(i as int) =~= self.fields@);
        }
        None
    }

    /// The captured metadata as a [`TypstLiteral`] dictionary, in source
    /// order; empty metadata is the empty dictionary.
    pub fn to_literal(&self) -> (l: TypstLiteral)
        ensures
            l matches TypstLiteral::Dict(entries) && entries@.len() == self.fields@.len() && forall|i: int|
                0 <= i < self.fields@.len() ==> (#[trigger] entries@[i]).0@ == self.fields@[i].0@ && renders(
                    entries@[i].1,
                    self.fields@[i].1,
                ),
    {
        let mut out: Vec<(String, TypstLiteral)> = Vec::new();
        let mut i: usize = 0;
        while i < self.fields.len()
            invariant
                i <= self.fields@.len(),
                out@.len() == i,
                forall|k: int|
                    0 <= k < i ==> (#[trigger] out@[k]).0@ == self.fields@[k].0@ && renders(
                        out@[k].1,
                        self.fields@[k].1,
                    ),
            decreases self.fields@.len() - i,
        {
            let key = self.fields[i].0.clone();
            let value = self.fields[i].1.to_literal();
            out.push((key, value));
            i += 1;
        }
        TypstLiteral::Dict(out)
    }
}

/// Once a prefix holds the field, the whole list's first match is the
/// prefix's.
proof fn lemma_first_field_prefix(fields: Seq<(String, MetaValue)>, name: Seq<char>, n: int)
    requires
        0 <= n <= fields.len(),
        first_field(fields.take(n), name) is Some,
    ensures
        first_field(fields, name) == first_field(fields.take(n), name),
    decreases fields.len() - n,
{
    if n < fields.len() {
        assert(fields.take(n + 1).drop_last() =~= fields.take(n));
        lemma_first_field_prefix(fields, name, n + 1);
    } else {
        assert(fields.take(n) =~= fields);
    }
}

// ─── `rheo-*` variables ─────────────────────────────────────────────────────

/// A value bound to a `rheo-*` variable.
#[derive(Debug, Clone, PartialEq)]
pub enum RheoValue {
    /// A string literal right-hand side.
    Str(String),
    /// A boolean literal right-hand side.
    Bool(bool),
}

impl RheoValue {
    /// The inner string if this is a [`RheoValue::Str`], else `None`.
    pub fn as_str(&self) -> (r: Option<&str>)
        ensures
            match *self {
                RheoValue::Str(s) => r matches Some(t) && t@ == s@,
                RheoValue::Bool(_) => r is None,
            },
    {
        match self {
            RheoValue::Str(s) => Some(s.as_str()),
            RheoValue::Bool(_) => None,
        }
    }

    /// The inner bool if this is a [`RheoValue::Bool`], else `None`.
    pub fn as_bool(&self) -> (r: Option<bool>)
        ensures
            match *self {
                RheoValue::Bool(b) => r == Some(b),
                RheoValue::Str(_) => r is None,
            },
    {
        match self {
            RheoValue::Bool(b) => Some(*b),
            RheoValue::Str(_) => None,
        }
    }
}

/// A top-level `#let rheo-<key> = ...` binding harvested from a vertebra.
#[derive(Debug, Clone, PartialEq)]
pub struct RheoVar {
    /// The binding name without its leading `rheo-`.
    pub key: String,
    /// `Some(value)` when the right-hand side is a supported kind.
    pub value: Option<RheoValue>,
    /// 1-based source line of the binding.
    pub line: usize,
}

// ─── Labels and imports ─────────────────────────────────────────────────────

/// Whether a [`LabelSite`] defines a label or references one.
#[derive(Debug, Clone, Copy, PartialEq, Eq, Structural)]
pub enum LabelRole {
    /// A markup-context `<name>`.
    Definition,
    /// A `@name` marker or a code-context `<name>`.
    Reference,
}

/// A label occurrence with the byte range of the token to rewrite.
#[derive(Debug, PartialEq, Eq)]
pub struct LabelSite {
    /// Bare label name.
    pub name: String,
    /// Whether this site defines or references a label.
    pub role: LabelRole,
    /// Byte range of the rewriteable token in the source.
    pub range: core::ops::Range<usize>,
}

impl Clone for LabelSite {
    /// The same name, role and range.
    fn clone(&self) -> (c: Self)
        ensures
            c.name@ == self.name@,
            c.role == self.role,
            c.range.start == self.range.start,
            c.range.end == self.range.end,
    {
        LabelSite { name: self.name.clone(), role: self.role, range: self.range.start..self.range.end }
    }
}

/// Every label site of a source, partitioned by role.
#[derive(Debug, Clone, PartialEq, Eq)]
pub struct LabelSites {
    pub definitions: Vec<LabelSite>,
    pub references: Vec<LabelSite>,
}

impl Default for LabelSites {
    /// No sites.
    fn default() -> (s: Self)
        ensures
            s.definitions@.len() == 0,
            s.references@.len() == 0,
    {
        LabelSites { definitions: Vec::new(), references: Vec::new() }
    }
}

/// A path string extracted from an `#import`/`#include` statement.
#[derive(Debug)]
pub struct ImportInfo {
    /// The raw path string (e.g. `./utils.typ` or `@preview/foo:0.1.0`).
    pub path: String,
    /// Byte range of the path string.
    pub byte_range: core::ops::Range<usize>,
    /// `true` if the path starts with `@` (a package import).
    pub is_package: bool,
}

impl Clone for ImportInfo {
    /// The same path, range and package flag.
    fn clone(&self) -> (c: Self)
        ensures
            c.path@ == self.path@,
            c.byte_range.start == self.byte_range.start,
            c.byte_range.end == self.byte_range.end,
            c.is_package == self.is_package,
    {
        ImportInfo {
            path: self.path.clone(),
            byte_range: self.byte_range.start..self.byte_range.end,
            is_package: self.is_package,
        }
    }
}

/// Everything harvested from a vertebra's source in the canonical parse.
pub struct ExtractedNodes {
    /// Label definition and reference sites, partitioned by role.
    pub labels: LabelSites,
}

} // verus!
