//! rheo.toml: the rules a project's configuration is held to.

pub mod packages;
pub mod project;
pub mod decode;

use vstd::prelude::*;
use crate::error::{Result, RheoError};
use crate::text::{ends_with, owned, push_str, str_eq};

verus! {

// ─── Spine tables ───────────────────────────────────────────────────────────

/// A virtual directory in the spine: groups flat files under a named node,
/// behaving like an on-disk subdirectory. Nests to arbitrary depth.
#[derive(Debug)]
pub struct SpineSection {
    /// Slug — the node's handle segment and sibling sort key.
    pub name: String,
    /// Display title; when absent, derived from `name`.
    pub title: Option<String>,
    /// Glob patterns (relative to content_dir) for files pulled under this section.
    pub include_globs: Vec<String>,
    /// Nested virtual directories.
    pub section: Vec<SpineSection>,
}

/// `a` and `b` are the same section, down to every nested one.
pub open spec fn same_section(a: SpineSection, b: SpineSection) -> bool
    decreases a,
{
    &&& a.name@ == b.name@
    &&& opt_text(a.title) == opt_text(b.title)
    &&& texts(a.include_globs@) == texts(b.include_globs@)
    &&& same_sections(a.section@, b.section@)
}

/// Two lists of sections are the same, place by place.
pub open spec fn same_sections(xs: Seq<SpineSection>, ys: Seq<SpineSection>) -> bool
    decreases xs,
{
    xs.len() == ys.len() && (xs.len() == 0 || (same_sections(xs.drop_last(), ys.drop_last())
        && same_section(xs.last(), ys.last())))
}

/// The characters of each string.
pub open spec fn texts(v: Seq<String>) -> Seq<Seq<char>> {
    v.map_values(|s: String| s@)
}

/// The characters of an optional string.
pub open spec fn opt_text(o: Option<String>) -> Option<Seq<char>> {
    match o {
        Some(s) => Some(s@),
        None => None,
    }
}

/// Place-by-place sameness is sameness of the lists.
pub proof fn lemma_same_sections(xs: Seq<SpineSection>, ys: Seq<SpineSection>)
    requires
        xs.len() == ys.len(),
        forall|k: int| 0 <= k < xs.len() ==> same_section(#[trigger] xs[k], ys[k]),
    ensures
        same_sections(xs, ys),
    decreases xs.len(),
{
    if xs.len() > 0 {
        let (a, b) = (xs.drop_last(), ys.drop_last());
        assert forall|k: int| 0 <= k < a.len() implies same_section(#[trigger] a[k], b[k]) by {
            assert(a[k] == xs[k] && b[k] == ys[k]);
        }
        lemma_same_sections(a, b);
        assert(same_section(xs[xs.len() - 1], ys[ys.len() - 1]));
    }
}

/// A copy of every string.
fn copy_strings(v: &Vec<String>) -> (r: Vec<String>)
    ensures
        texts(r@) == texts(v@),
{
    let mut out: Vec<String> = Vec::new();
    let mut i: usize = 0;
    while i < v.len()
        invariant
            i <= v@.len(),
            out@.len() == i,
            forall|k: int| 0 <= k < i ==> #[trigger] out@[k]@ == v@[k]@,
        decreases v@.len() - i,
    {
        out.push(v[i].clone());
        i += 1;
    }
    proof {
        assert(texts(out@) =~= texts(v@));
    }
    out
}

impl Clone for SpineSection {
    /// A deep copy: the same section, down to every nested one.
    fn clone(&self) -> (c: Self)
        ensures
            same_section(c, *self),
        decreases self,
    {
        let mut nested: Vec<SpineSection> = Vec::new();
        let mut i: usize = 0;
        while i < self.section.len()
            invariant
                i <= self.section@.len(),
                nested@.len() == i,
                forall|k: int| 0 <= k < i ==> same_section(#[trigger] nested@[k], self.section@[k]),
            decreases self.section@.len() - i,
        {
            proof {
                assert(decreases_to!(*self => self.section));
                assert(decreases_to!(self.section => self.section@));
                assert(decreases_to!(self.section@ => self.section@[i as int]));
            }
            nested.push(self.section[i].clone());
            i += 1;
        }
        proof {
            lemma_same_sections(nested@, self.section@);
        }
        SpineSection {
            name: self.name.clone(),
            title: match &self.title {
                Some(t) => Some(t.clone()),
                None => None,
            },
            include_globs: copy_strings(&self.include_globs),
            section: nested,
        }
    }
}

/// A copy of every section.
fn copy_sections(v: &Vec<SpineSection>) -> (r: Vec<SpineSection>)
    ensures
        same_sections(r@, v@),
{
    let mut out: Vec<SpineSection> = Vec::new();
    let mut i: usize = 0;
    while i < v.len()
        invariant
            i <= v@.len(),
            out@.len() == i,
            forall|k: int| 0 <= k < i ==> same_section(#[trigger] out@[k], v@[k]),
        decreases v@.len() - i,
    {
        out.push(v[i].clone());
        i += 1;
    }
    proof {
        lemma_same_sections(out@, v@);
    }
    out
}

/// Spine configuration from a `[spine]` or `[<plugin>.spine]` table.
///
/// Each list is `None` when unset in this table (as opposed to an explicit
/// empty list), so a per-format table that doesn't set it falls back to the
/// global table field by field.
#[derive(Debug)]
pub struct Spine {
    /// Title for the combined output document, when applicable.
    pub title: Option<String>,
    /// Glob patterns for files or folders to omit from the scanned spine.
    pub exclude: Option<Vec<String>>,
    /// Virtual-directory layering over flat files.
    pub section: Option<Vec<SpineSection>>,
    /// Ordered glob list that replaces the scan order.
    pub include_globs: Option<Vec<String>>,
    /// The table's unrecognized keys, so a retired key still set in an older
    /// `rheo.toml` can be warned about.
    pub extra_keys: Vec<String>,
}

impl Default for Spine {
    /// A table that sets nothing.
    fn default() -> (s: Self)
        ensures
            s.title is None,
            s.exclude is None,
            s.section is None,
            s.include_globs is None,
            s.extra_keys@.len() == 0,
    {
        Spine { title: None, exclude: None, section: None, include_globs: None, extra_keys: Vec::new() }
    }
}

/// One format's resolved spine knobs, every field already merged over the
/// global `[spine]` table.
pub struct MergedSpine {
    pub exclude: Vec<String>,
    pub section: Vec<SpineSection>,
    pub include_globs: Vec<String>,
    pub title: Option<String>,
}

/// The field of the first table that sets it: the per-format table, else the
/// global one.
pub open spec fn pick<T>(this: Option<Option<T>>, global: Option<Option<T>>) -> Option<T> {
    match this {
        Some(Some(v)) => Some(v),
        _ => match global {
            Some(Some(v)) => Some(v),
            _ => None,
        },
    }
}

/// A table's `exclude` list, when the table is present.
pub open spec fn exclude_of(t: Option<&Spine>) -> Option<Option<Seq<Seq<char>>>> {
    match t {
        Some(s) => Some(opt_texts(s.exclude)),
        None => None,
    }
}

/// A table's `include` list, when the table is present.
pub open spec fn include_of(t: Option<&Spine>) -> Option<Option<Seq<Seq<char>>>> {
    match t {
        Some(s) => Some(opt_texts(s.include_globs)),
        None => None,
    }
}

/// A table's `title`, when the table is present.
pub open spec fn title_of(t: Option<&Spine>) -> Option<Option<Seq<char>>> {
    match t {
        Some(s) => Some(opt_text(s.title)),
        None => None,
    }
}

/// A merged list: the first table's that sets it, else empty.
pub open spec fn merged_list(
    this: Option<Option<Seq<Seq<char>>>>,
    global: Option<Option<Seq<Seq<char>>>>,
) -> Seq<Seq<char>> {
    match pick(this, global) {
        Some(v) => v,
        None => Seq::empty(),
    }
}

/// The text of an optional list of strings.
pub open spec fn opt_texts(o: Option<Vec<String>>) -> Option<Seq<Seq<char>>> {
    match o {
        Some(v) => Some(texts(v@)),
        None => None,
    }
}

impl Spine {
    /// Merge a per-format spine table over the global one, each field falling
    /// back INDEPENDENTLY when unset — so `[pdf.spine] title` alone still
    /// inherits the global `exclude`, rather than the per-format table's mere
    /// presence blanking every global spine key at once. An unset list
    /// merges to empty.
    pub fn merged_over(this: Option<&Spine>, global: Option<&Spine>) -> (m: MergedSpine)
        ensures
            texts(m.exclude@) == merged_list(exclude_of(this), exclude_of(global)),
            texts(m.include_globs@) == merged_list(include_of(this), include_of(global)),
            opt_text(m.title) == pick(title_of(this), title_of(global)),
            match (this, global) {
                (Some(t), _) if t.section is Some => same_sections(m.section@, t.section->Some_0@),
                (_, Some(g)) if g.section is Some => same_sections(m.section@, g.section->Some_0@),
                _ => m.section@.len() == 0,
            },
    {
        let exclude = match this {
            Some(t) if t.exclude.is_some() => copy_strings(t.exclude.as_ref().unwrap()),
            _ => match global {
                Some(g) if g.exclude.is_some() => copy_strings(g.exclude.as_ref().unwrap()),
                _ => {
                    let v = Vec::new();
                    assert(texts(v@) =~= Seq::<Seq<char>>::empty());
                    v
                },
            },
        };
        let include_globs = match this {
            Some(t) if t.include_globs.is_some() => copy_strings(t.include_globs.as_ref().unwrap()),
            _ => match global {
                Some(g) if g.include_globs.is_some() => copy_strings(g.include_globs.as_ref().unwrap()),
                _ => {
                    let v = Vec::new();
                    assert(texts(v@) =~= Seq::<Seq<char>>::empty());
                    v
                },
            },
        };
        let section = match this {
            Some(t) if t.section.is_some() => copy_sections(t.section.as_ref().unwrap()),
            _ => match global {
                Some(g) if g.section.is_some() => copy_sections(g.section.as_ref().unwrap()),
                _ => Vec::new(),
            },
        };
        let title = match this {
            Some(t) if t.title.is_some() => Some(t.title.as_ref().unwrap().clone()),
            _ => match global {
                Some(g) if g.title.is_some() => Some(g.title.as_ref().unwrap().clone()),
                _ => None,
            },
        };
        MergedSpine { exclude, section, include_globs, title }
    }
}

/// Validating a configuration table after it has been read.
pub trait ValidateConfig {
    fn validate(&self) -> Result<()>;
}

/// Why a spine table sets both `include` and `section`.
pub open spec fn include_and_section_text() -> Seq<char> {
    "include is a flat reorder, section nests into virtual directories: set one, not both"@
}

impl ValidateConfig for Spine {
    /// A spine table may set `include` or `section`, not both.
    fn validate(&self) -> (r: Result<()>)
        ensures
            r is Ok <==> !(self.include_globs is Some && self.section is Some),
            r matches Err(e) ==> e matches RheoError::ProjectConfig { message }
                && message@ == include_and_section_text(),
    {
        if self.include_globs.is_some() && self.section.is_some() {
            return Err(
                RheoError::ProjectConfig {
                    message: owned(
                        "include is a flat reorder, section nests into virtual directories: set one, not both",
                    ),
                },
            );
        }
        Ok(())
    }
}

// ─── Retired names ──────────────────────────────────────────────────────────

/// A single retired `rheo.toml` key: the table it lived in, its name, and
/// what to do instead.
pub struct RetiredKey {
    /// Table the key lived in, exactly as printed in the warning.
    pub table: &'static str,
    /// Key name as it appears in `rheo.toml`.
    pub key: &'static str,
    /// What changed, or what to do instead.
    pub replacement: &'static str,
}

/// A `#let rheo-<name>` binding retired from authored Typst, and what to do
/// instead.
pub struct RetiredBinding {
    /// Binding name as it appears after `#let`.
    pub name: &'static str,
    /// What changed, or what to do instead.
    pub replacement: &'static str,
}

/// Every key retired so far, as `(table, key, replacement)`.
pub open spec fn retired_key_table() -> Seq<(Seq<char>, Seq<char>, Seq<char>)> {
    seq![
        ("[spine]"@, "vertebrae"@, "spine membership and order now come from a directory scan plus `exclude` / `[[section]]` — see https://rheo.ohrg.org/spines"@),
        ("[spine]"@, "merge"@, "PDF combines its spine into one document by default and HTML/EPUB always produce per-page output — there is no equivalent key"@),
        ("[html]"@, "feed_base_url"@, "Atom feed generation moved to the Typst package @rheo/feeds — see https://rheo.ohrg.org/feeds"@),
        ("[html]"@, "feed_author"@, "set via @rheo/feeds instead — see https://rheo.ohrg.org/feeds"@),
        ("[html]"@, "feed_title"@, "set via @rheo/feeds instead — see https://rheo.ohrg.org/feeds"@),
        ("[html]"@, "feed_include"@, "a marrow that builds its own entry list knows what it put in — this concept does not survive the move to @rheo/feeds"@),
    ]
}

/// The retired keys as text.
pub open spec fn keys_view(v: Seq<RetiredKey>) -> Seq<(Seq<char>, Seq<char>, Seq<char>)> {
    v.map_values(|k: RetiredKey| (k.table@, k.key@, k.replacement@))
}

/// Every key retired so far.
pub fn retired_keys() -> (r: Vec<RetiredKey>)
    ensures
        keys_view(r@) == retired_key_table(),
{
    let r = vec![
        RetiredKey {
            table: "[spine]",
            key: "vertebrae",
            replacement: "spine membership and order now come from a directory scan plus `exclude` / `[[section]]` — see https://rheo.ohrg.org/spines",
        },
        RetiredKey {
            table: "[spine]",
            key: "merge",
            replacement: "PDF combines its spine into one document by default and HTML/EPUB always produce per-page output — there is no equivalent key",
        },
        RetiredKey {
            table: "[html]",
            key: "feed_base_url",
            replacement: "Atom feed generation moved to the Typst package @rheo/feeds — see https://rheo.ohrg.org/feeds",
        },
        RetiredKey {
            table: "[html]",
            key: "feed_author",
            replacement: "set via @rheo/feeds instead — see https://rheo.ohrg.org/feeds",
        },
        RetiredKey {
            table: "[html]",
            key: "feed_title",
            replacement: "set via @rheo/feeds instead — see https://rheo.ohrg.org/feeds",
        },
        RetiredKey {
            table: "[html]",
            key: "feed_include",
            replacement: "a marrow that builds its own entry list knows what it put in — this concept does not survive the move to @rheo/feeds",
        },
    ];
    proof {
        assert(keys_view(r@) =~= retired_key_table());
    }
    r
}

/// Every binding retired so far, as `(name, replacement)`.
pub open spec fn retired_binding_table() -> Seq<(Seq<char>, Seq<char>)> {
    seq![
        ("rheo-feed-title"@, "moved to @rheo/feeds's Typst configuration"@),
        ("rheo-feed-updated"@, "moved to @rheo/feeds's Typst configuration"@),
        ("rheo-feed-exclude"@, "moved to @rheo/feeds's Typst configuration"@),
        ("rheo-author"@, "use `#set document(author: \"...\")` instead"@),
    ]
}

/// Every binding retired so far.
pub fn retired_bindings() -> (r: Vec<RetiredBinding>)
    ensures
        r@.map_values(|b: RetiredBinding| (b.name@, b.replacement@)) == retired_binding_table(),
{
    let r = vec![
        RetiredBinding { name: "rheo-feed-title", replacement: "moved to @rheo/feeds's Typst configuration" },
        RetiredBinding { name: "rheo-feed-updated", replacement: "moved to @rheo/feeds's Typst configuration" },
        RetiredBinding { name: "rheo-feed-exclude", replacement: "moved to @rheo/feeds's Typst configuration" },
        RetiredBinding { name: "rheo-author", replacement: "use `#set document(author: \"...\")` instead" },
    ];
    proof {
        assert(r@.map_values(|b: RetiredBinding| (b.name@, b.replacement@)) =~= retired_binding_table());
    }
    r
}

/// The table a shown table's retired keys are listed under: every
/// `[<plugin>.spine]` shares the `[spine]` entries.
pub open spec fn declared_table(shown: Seq<char>) -> Seq<char> {
    if ends_with(shown, ".spine]"@) {
        "[spine]"@
    } else {
        shown
    }
}

/// One warning line for a retired key found in a table.
pub open spec fn retired_warning(key: Seq<char>, shown: Seq<char>, replacement: Seq<char>) -> Seq<char> {
    "`"@ + key + "` in "@ + shown + " is retired and has no effect — "@ + replacement
}

/// The warnings for the retired keys of `table` (in table order) that
/// `present` holds.
pub open spec fn retired_warnings_spec(
    table: Seq<(Seq<char>, Seq<char>, Seq<char>)>,
    shown: Seq<char>,
    present: Seq<Seq<char>>,
) -> Seq<Seq<char>>
    decreases table.len(),
{
    if table.len() == 0 {
        Seq::empty()
    } else {
        let before = retired_warnings_spec(table.drop_last(), shown, present);
        let (t, k, r) = table.last();
        if t == declared_table(shown) && present.contains(k) {
            before.push(retired_warning(k, shown, r))
        } else {
            before
        }
    }
}

/// Whether `keys` holds `k`.
fn holds_key(keys: &Vec<String>, k: &str) -> (b: bool)
    ensures
        b == texts(keys@).contains(k@),
{
    let mut i: usize = 0;
    while i < keys.len()
        invariant
            i <= keys@.len(),
            forall|j: int| 0 <= j < i ==> keys@[j]@ != k@,
        decreases keys@.len() - i,
    {
        if str_eq(keys[i].as_str(), k) {
            proof {
                assert(texts(keys@)[i as int] == k@);
            }
            return true;
        }
        i += 1;
    }
    proof {
        if texts(keys@).contains(k@) {
            let j = choose|j: int| 0 <= j < texts(keys@).len() && texts(keys@)[j] == k@;
            assert(keys@[j]@ == k@);
        }
    }
    false
}

/// One warning for each retired key found among a table's unrecognized
/// keys. `shown_table` is the table the key was actually written in, and is
/// what the warning prints; a per-format `[pdf.spine]` matches the `[spine]`
/// entries, since one entry has to serve every spine table.
pub fn retired_key_warnings(shown_table: &str, extra_keys: &Vec<String>) -> (r: Vec<String>)
    ensures
        texts(r@) == retired_warnings_spec(retired_key_table(), shown_table@, texts(extra_keys@)),
{
    let table = retired_keys();
    let declared = if crate::text::ends_with_exec(
        &crate::text::chars_of(shown_table),
        &crate::text::chars_of(".spine]"),
    ) {
        "[spine]"
    } else {
        shown_table
    };
    let mut out: Vec<String> = Vec::new();
    let mut i: usize = 0;
    while i < table.len()
        invariant
            i <= table@.len(),
            keys_view(table@) == retired_key_table(),
            declared@ == declared_table(shown_table@),
            texts(out@) == retired_warnings_spec(retired_key_table().take(i as int), shown_table@, texts(extra_keys@)),
        decreases table@.len() - i,
    {
        proof {
            assert(retired_key_table().take(i + 1).drop_last() =~= retired_key_table().take(i as int));
            assert(retired_key_table().take(i + 1).last() == keys_view(table@)[i as int]);
        }
        let entry = &table[i];
        if str_eq(entry.table, declared) && holds_key(extra_keys, entry.key) {
            let mut w = owned("`");
            push_str(&mut w, entry.key);
            push_str(&mut w, "` in ");
            push_str(&mut w, shown_table);
            push_str(&mut w, " is retired and has no effect — ");
            push_str(&mut w, entry.replacement);
            let ghost before = out@;
            out.push(w);
            proof {
                assert(texts(out@) =~= texts(before).push(w@));
            }
        }
        i += 1;
    }
    proof {
        assert(retired_key_table().take(i as int) =~= retired_key_table());
    }
    out
}

} // verus!
