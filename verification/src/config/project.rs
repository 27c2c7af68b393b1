//! The project configuration as read from `rheo.toml`: the top-level keys,
//! the global `[spine]`, and one section per plugin table, each with its
//! asset blocks and the keys only its plugin reads.

use vstd::prelude::*;
use crate::config::{
    include_and_section_text, retired_key_table, retired_key_warnings, retired_warnings_spec, texts,
    Spine, ValidateConfig,
};
use crate::error::{Result, RheoError};
use crate::paths::{join, join_exec};
use crate::text::{owned, push_str, str_eq};

verus! {

// ─── Values ─────────────────────────────────────────────────────────────────

/// A TOML value as plain values. A float and a date-time keep the text
/// TOML writes them as.
#[derive(Debug, PartialEq)]
pub enum TomlValue {
    Str(String),
    Int(i64),
    Float(String),
    Bool(bool),
    Datetime(String),
    Array(Vec<TomlValue>),
    Table(Vec<(String, TomlValue)>),
}

impl TomlValue {
    /// The string if this is one.
    pub fn as_str(&self) -> (r: Option<&str>)
        ensures
            match *self {
                TomlValue::Str(s) => r matches Some(t) && t@ == s@,
                _ => r is None,
            },
    {
        match self {
            TomlValue::Str(s) => Some(s.as_str()),
            _ => None,
        }
    }

    /// The items if this is an array.
    pub fn as_array(&self) -> (r: Option<&Vec<TomlValue>>)
        ensures
            match *self {
                TomlValue::Array(v) => r == Some(&v),
                _ => r is None,
            },
    {
        match self {
            TomlValue::Array(v) => Some(v),
            _ => None,
        }
    }
}

/// The index of the first entry of `t` under `key`.
pub open spec fn entry_index(t: Seq<(String, TomlValue)>, key: Seq<char>) -> Option<int>
    decreases t.len(),
{
    if t.len() == 0 {
        None
    } else {
        match entry_index(t.drop_last(), key) {
            Some(i) => Some(i),
            None => if t.last().0@ == key {
                Some(t.len() - 1)
            } else {
                None
            },
        }
    }
}

/// The string value of the first entry of `t` under `key`, if it is a
/// string.
pub open spec fn entry_str(t: Seq<(String, TomlValue)>, key: Seq<char>) -> Option<Seq<char>> {
    match entry_index(t, key) {
        Some(i) => match t[i].1 {
            TomlValue::Str(s) => Some(s@),
            _ => None,
        },
        None => None,
    }
}

/// Once a prefix has the key, the whole table's first entry is the
/// prefix's.
proof fn lemma_entry_prefix(t: Seq<(String, TomlValue)>, key: Seq<char>, n: int)
    requires
        0 <= n <= t.len(),
        entry_index(t.take(n), key) is Some,
    ensures
        entry_index(t, key) == entry_index(t.take(n), key),
    decreases t.len() - n,
{
    if n < t.len() {
        assert(t.take(n + 1).drop_last() =~= t.take(n));
        lemma_entry_prefix(t, key, n + 1);
    } else {
        assert(t.take(n) =~= t);
    }
}

/// The index of the first entry of `t` under `key`.
pub fn entry_index_exec(t: &Vec<(String, TomlValue)>, key: &str) -> (r: Option<usize>)
    ensures
        r matches Some(i) ==> entry_index(t@, key@) == Some(i as int) && i < t@.len(),
        r is None ==> entry_index(t@, key@) is None,
{
    let mut i: usize = 0;
    while i < t.len()
        invariant
            i <= t@.len(),
            entry_index(t@.take(i as int), key@) is None,
        decreases t@.len() - i,
    {
        proof {
            assert(t@.take(i + 1).drop_last() =~= t@.take(i as int));
        }
        if str_eq(t[i].0.as_str(), key) {
            proof {
                lemma_entry_prefix(t@, key@, i + 1);
            }
            return Some(i);
        }
        i += 1;
    }
    proof {
        assert(t@.take(i as int) =~= t@);
    }
    None
}

/// The string value of the first entry of `t` under `key`, if it is a
/// string.
pub fn entry_str_exec<'a>(t: &'a Vec<(String, TomlValue)>, key: &str) -> (r: Option<&'a str>)
    ensures
        match entry_str(t@, key@) {
            Some(s) => r matches Some(x) && x@ == s,
            None => r is None,
        },
{
    match entry_index_exec(t, key) {
        Some(i) => t[i].1.as_str(),
        None => None,
    }
}

// ─── Plugin sections ────────────────────────────────────────────────────────

/// One asset block of a plugin table (`[plugin.assets]` or one of
/// `[[plugin.assets]]`): glob copies, a destination subdirectory, and named
/// asset overrides.
#[derive(Debug, PartialEq)]
pub struct PluginAssets {
    /// Globs (relative to the project root) copied into the plugin's output.
    pub copy: Vec<String>,
    /// A subdirectory of the plugin's output every file of the block goes to.
    pub dest: Option<String>,
    /// Named asset overrides, e.g. `css_stylesheet = "custom.css"`.
    pub extra: Vec<(String, TomlValue)>,
}

/// `[plugin.assets]` as one table or as an array of tables.
#[derive(Debug, PartialEq)]
pub enum AssetsField {
    Single(PluginAssets),
    Multiple(Vec<PluginAssets>),
}

/// The asset blocks of an assets field, whichever way it was written.
pub open spec fn blocks_of(f: AssetsField) -> Seq<PluginAssets> {
    match f {
        AssetsField::Single(a) => seq![a],
        AssetsField::Multiple(v) => v@,
    }
}

/// References read as the values they point at.
pub open spec fn derefs<T>(v: Seq<&T>) -> Seq<T> {
    v.map_values(|r: &T| *r)
}

impl AssetsField {
    /// The blocks, whichever way they were written.
    pub fn blocks(&self) -> (r: Vec<&PluginAssets>)
        ensures
            derefs(r@) == blocks_of(*self),
    {
        match self {
            AssetsField::Single(a) => {
                let r = vec![a];
                proof {
                    assert(derefs(r@) =~= seq![*a]);
                }
                r
            },
            AssetsField::Multiple(v) => {
                let mut r: Vec<&PluginAssets> = Vec::new();
                let mut i: usize = 0;
                while i < v.len()
                    invariant
                        i <= v@.len(),
                        derefs(r@) == v@.take(i as int),
                    decreases v@.len() - i,
                {
                    let ghost before = r@;
                    r.push(&v[i]);
                    proof {
                        assert(r@ == before.push(&v[i as int]));
                        assert(derefs(r@) =~= derefs(before).push(v@[i as int]));
                        assert(v@.take(i + 1) =~= v@.take(i as int).push(v@[i as int]));
                    }
                    i += 1;
                }
                proof {
                    assert(v@.take(i as int) =~= v@);
                }
                r
            },
        }
    }
}

/// A plugin's table, `[<plugin>]`: its spine, its asset blocks, two
/// switches, and the keys only the plugin itself reads.
#[derive(Debug)]
pub struct PluginSection {
    pub spine: Option<Spine>,
    pub assets: Option<AssetsField>,
    /// Whether imported packages' assets are detected (default true).
    pub auto_detect_packages: Option<bool>,
    /// Whether per-page output restarts footnote numbers (default true).
    pub reset_footnotes: Option<bool>,
    pub extra: Vec<(String, TomlValue)>,
}

impl Default for PluginSection {
    /// A table that sets nothing.
    fn default() -> (s: Self)
        ensures
            s.spine is None,
            s.assets is None,
            s.auto_detect_packages is None,
            s.reset_footnotes is None,
            s.extra@.len() == 0,
    {
        PluginSection { spine: None, assets: None, auto_detect_packages: None, reset_footnotes: None, extra: Vec::new() }
    }
}

/// The blocks of an optional assets field, none when it is absent.
pub open spec fn section_blocks(s: PluginSection) -> Seq<PluginAssets> {
    match s.assets {
        Some(f) => blocks_of(f),
        None => Seq::empty(),
    }
}

/// The first block override of `key` that is a string.
pub open spec fn first_string(blocks: Seq<PluginAssets>, key: Seq<char>) -> Option<Seq<char>>
    decreases blocks.len(),
{
    if blocks.len() == 0 {
        None
    } else {
        match entry_str(blocks[0].extra@, key) {
            Some(s) => Some(s),
            None => first_string(blocks.drop_first(), key),
        }
    }
}

/// Every block's override of `key` that is a string, with the index of its
/// block, in order.
pub open spec fn all_strings(blocks: Seq<PluginAssets>, key: Seq<char>) -> Seq<(int, Seq<char>)>
    decreases blocks.len(),
{
    if blocks.len() == 0 {
        Seq::empty()
    } else {
        let prev = all_strings(blocks.drop_last(), key);
        match entry_str(blocks.last().extra@, key) {
            Some(s) => prev.push((blocks.len() - 1, s)),
            None => prev,
        }
    }
}

impl PluginSection {
    /// The asset blocks, whichever way they were written; none without an
    /// assets table.
    pub fn asset_blocks(&self) -> (r: Vec<&PluginAssets>)
        ensures
            derefs(r@) == section_blocks(*self),
    {
        match &self.assets {
            Some(f) => f.blocks(),
            None => {
                let r: Vec<&PluginAssets> = Vec::new();
                proof {
                    assert(derefs(r@) =~= Seq::<PluginAssets>::empty());
                }
                r
            },
        }
    }

    /// Whether imported packages' assets are detected: unless the table
    /// says `auto_detect_packages = false`.
    pub fn auto_detect_packages_enabled(&self) -> (b: bool)
        ensures
            b == (self.auto_detect_packages != Some(false)),
    {
        match self.auto_detect_packages {
            Some(b) => b,
            None => true,
        }
    }

    /// Whether per-page output restarts footnote numbering: unless the
    /// table says `reset_footnotes = false`.
    pub fn reset_footnotes(&self) -> (b: bool)
        ensures
            b == (self.reset_footnotes != Some(false)),
    {
        match self.reset_footnotes {
            Some(b) => b,
            None => true,
        }
    }

    /// The first asset block's override of `key` that is a string.
    pub fn get_string(&self, key: &str) -> (r: Option<&str>)
        ensures
            match first_string(section_blocks(*self), key@) {
                Some(s) => r matches Some(x) && x@ == s,
                None => r is None,
            },
    {
        let blocks = self.asset_blocks();
        let ghost bs = section_blocks(*self);
        let mut i: usize = 0;
        proof {
            assert(bs.skip(0) =~= bs);
        }
        while i < blocks.len()
            invariant
                i <= blocks@.len(),
                derefs(blocks@) == bs,
                bs == section_blocks(*self),
                first_string(bs, key@) == first_string(bs.skip(i as int), key@),
            decreases blocks@.len() - i,
        {
            proof {
                assert(bs.skip(i as int)[0] == bs[i as int]);
                assert(*blocks@[i as int] == bs[i as int]);
                assert(bs.skip(i as int).drop_first() =~= bs.skip(i + 1));
            }
            let b = blocks[i];
            proof {
                assert(*b == bs[i as int]);
            }
            match entry_str_exec(&b.extra, key) {
                Some(s) => {
                    proof {
                        assert(entry_str(bs[i as int].extra@, key@) == Some(s@));
                        assert(first_string(bs.skip(i as int), key@) == Some(s@));
                    }
                    return Some(s);
                },
                None => {
                    proof {
                        assert(entry_str(bs[i as int].extra@, key@) is None);
                    }
                },
            }
            i += 1;
        }
        proof {
            assert(bs.skip(i as int) =~= Seq::<PluginAssets>::empty());
        }
        None
    }

    /// Every asset block's override of `key` that is a string, in order.
    pub fn get_strings(&self, key: &str) -> (r: Vec<&str>)
        ensures
            r@.map_values(|s: &str| s@) == all_strings(section_blocks(*self), key@).map_values(
                |x: (int, Seq<char>)| x.1,
            ),
    {
        let pairs = self.get_strings_with_block(key);
        let ghost pv = all_strings(section_blocks(*self), key@);
        let mut out: Vec<&str> = Vec::new();
        let mut i: usize = 0;
        while i < pairs.len()
            invariant
                i <= pairs@.len(),
                pairs@.len() == pv.len(),
                forall|k: int| 0 <= k < pairs@.len() ==> #[trigger] pairs@[k].1@ == pv[k].1,
                out@.map_values(|s: &str| s@) == pv.take(i as int).map_values(|x: (int, Seq<char>)| x.1),
            decreases pairs@.len() - i,
        {
            let ghost before = out@;
            out.push(pairs[i].1);
            proof {
                assert(out@ == before.push(pairs@[i as int].1));
                assert(out@.map_values(|s: &str| s@) =~= before.map_values(|s: &str| s@).push(pv[i as int].1));
                assert(pv.take(i + 1) =~= pv.take(i as int).push(pv[i as int]));
                assert(out@.map_values(|s: &str| s@) =~= pv.take(i + 1).map_values(|x: (int, Seq<char>)| x.1));
            }
            i += 1;
        }
        proof {
            assert(pv.take(i as int) =~= pv);
        }
        out
    }

    /// Every asset block's override of `key` that is a string, each with
    /// its block (whose `dest` places it), in order.
    pub fn get_strings_with_block(&self, key: &str) -> (r: Vec<(&PluginAssets, &str)>)
        ensures
            r@.len() == all_strings(section_blocks(*self), key@).len(),
            forall|k: int|
                0 <= k < r@.len() ==> {
                    let x = all_strings(section_blocks(*self), key@)[k];
                    &&& *(#[trigger] r@[k]).0 == section_blocks(*self)[x.0]
                    &&& r@[k].1@ == x.1
                },
    {
        let blocks = self.asset_blocks();
        let ghost bs = section_blocks(*self);
        let mut out: Vec<(&PluginAssets, &str)> = Vec::new();
        let mut i: usize = 0;
        proof {
            assert(bs.take(0) =~= Seq::<PluginAssets>::empty());
        }
        while i < blocks.len()
            invariant
                i <= blocks@.len(),
                derefs(blocks@) == bs,
                out@.len() == all_strings(bs.take(i as int), key@).len(),
                forall|k: int|
                    0 <= k < out@.len() ==> {
                        let x = all_strings(bs.take(i as int), key@)[k];
                        &&& 0 <= x.0 < i
                        &&& *(#[trigger] out@[k]).0 == bs[x.0]
                        &&& out@[k].1@ == x.1
                    },
            decreases blocks@.len() - i,
        {
            proof {
                assert(bs.take(i + 1).drop_last() =~= bs.take(i as int));
                assert(bs.take(i + 1).last() == bs[i as int]);
                assert(*blocks@[i as int] == bs[i as int]);
                lemma_all_strings_bounded(bs.take(i as int), key@);
            }
            match entry_str_exec(&blocks[i].extra, key) {
                Some(s) => {
                    let ghost before = out@;
                    out.push((blocks[i], s));
                    proof {
                        assert forall|k: int| 0 <= k < out@.len() implies {
                            let x = all_strings(bs.take(i + 1), key@)[k];
                            &&& 0 <= x.0 < i + 1
                            &&& *(#[trigger] out@[k]).0 == bs[x.0]
                            &&& out@[k].1@ == x.1
                        } by {
                            if k < before.len() {
                                assert(out@[k] == before[k]);
                            }
                        }
                    }
                },
                None => {},
            }
            i += 1;
        }
        proof {
            assert(bs.take(i as int) =~= bs);
        }
        out
    }
}

/// The block indices of [`all_strings`] fall among the blocks.
proof fn lemma_all_strings_bounded(blocks: Seq<PluginAssets>, key: Seq<char>)
    ensures
        forall|k: int|
            0 <= k < all_strings(blocks, key).len() ==> 0 <= (#[trigger] all_strings(blocks, key)[k]).0
                < blocks.len(),
    decreases blocks.len(),
{
    if blocks.len() > 0 {
        lemma_all_strings_bounded(blocks.drop_last(), key);
        let prev = all_strings(blocks.drop_last(), key);
        assert forall|k: int| 0 <= k < all_strings(blocks, key).len() implies 0 <= (
        #[trigger] all_strings(blocks, key)[k]).0 < blocks.len() by {
            if k < prev.len() {
                assert(all_strings(blocks, key)[k] == prev[k]);
            }
        }
    }
}

// ─── The project configuration ─────────────────────────────────────────────

/// A project's `rheo.toml`.
#[derive(Debug)]
pub struct RheoConfig {
    /// The manifest version the project was written for, as written.
    pub version: String,
    /// The directory of the `.typ` content, relative to the project root.
    pub content_dir: Option<String>,
    /// The build output directory, relative to the project root unless
    /// absolute.
    pub build_dir: Option<String>,
    /// The formats compiled when the command line names none; empty means
    /// every registered plugin.
    pub formats: Vec<String>,
    /// Globs copied into every plugin's output.
    pub copy: Vec<String>,
    /// Directories searched for fonts.
    pub font_dirs: Vec<String>,
    /// Each plugin table by plugin name, in the order read.
    pub plugin_sections: Vec<(String, PluginSection)>,
    /// The global `[spine]` table.
    pub spine: Option<Spine>,
    /// The project's marrow file, relative to `content_dir`.
    pub marrow: Option<String>,
    /// Whether the project's marrow is spliced before every document.
    pub marrow_prologue: Option<bool>,
}

/// The marrow file a project uses when it names none.
pub open spec fn default_marrow() -> Seq<char> {
    ".marrow.typ"@
}

/// The index of the first plugin table named `name`.
pub open spec fn section_index(s: Seq<(String, PluginSection)>, name: Seq<char>) -> Option<int>
    decreases s.len(),
{
    if s.len() == 0 {
        None
    } else {
        match section_index(s.drop_last(), name) {
            Some(i) => Some(i),
            None => if s.last().0@ == name {
                Some(s.len() - 1)
            } else {
                None
            },
        }
    }
}

/// Once a prefix has the name, the whole list's first match is the
/// prefix's.
proof fn lemma_section_prefix(s: Seq<(String, PluginSection)>, name: Seq<char>, n: int)
    requires
        0 <= n <= s.len(),
        section_index(s.take(n), name) is Some,
    ensures
        section_index(s, name) == section_index(s.take(n), name),
    decreases s.len() - n,
{
    if n < s.len() {
        assert(s.take(n + 1).drop_last() =~= s.take(n));
        lemma_section_prefix(s, name, n + 1);
    } else {
        assert(s.take(n) =~= s);
    }
}

/// The first failing spine check of the plugin tables `s`, as its error
/// message.
pub open spec fn plugin_spine_error(s: Seq<(String, PluginSection)>) -> Option<Seq<char>>
    decreases s.len(),
{
    if s.len() == 0 {
        None
    } else {
        let sp = s[0].1.spine;
        if sp is Some && sp->Some_0.include_globs is Some && sp->Some_0.section is Some {
            Some("["@ + s[0].0@ + "]: "@ + include_and_section_text())
        } else {
            plugin_spine_error(s.drop_first())
        }
    }
}

/// Whether a spine table sets both `include` and `section`.
pub open spec fn conflicting(sp: Option<Spine>) -> bool {
    sp is Some && sp->Some_0.include_globs is Some && sp->Some_0.section is Some
}

impl RheoConfig {
    /// The configuration a project without `rheo.toml` gets: content in
    /// `./`, output in `./build`, written for `version`.
    pub fn defaults(version: &str) -> (c: Self)
        ensures
            c.version@ == version@,
            c.content_dir matches Some(d) && d@ == "./"@,
            c.build_dir matches Some(d) && d@ == "./build"@,
            c.formats@.len() == 0,
            c.copy@.len() == 0,
            c.font_dirs@.len() == 0,
            c.plugin_sections@.len() == 0,
            c.spine is None,
            c.marrow is None,
            c.marrow_prologue is None,
    {
        RheoConfig {
            version: owned(version),
            content_dir: Some(owned("./")),
            build_dir: Some(owned("./build")),
            formats: Vec::new(),
            copy: Vec::new(),
            font_dirs: Vec::new(),
            plugin_sections: Vec::new(),
            spine: None,
            marrow: None,
            marrow_prologue: None,
        }
    }

    /// The project's marrow file: as configured, else `.marrow.typ`.
    pub fn marrow_file(&self) -> (r: &str)
        ensures
            r@ == (match self.marrow {
                Some(m) => m@,
                None => default_marrow(),
            }),
    {
        match &self.marrow {
            Some(m) => m.as_str(),
            None => ".marrow.typ",
        }
    }

    /// Whether the project's marrow goes before every document: only when
    /// `marrow_prologue = true`.
    pub fn marrow_prologue(&self) -> (b: bool)
        ensures
            b == (self.marrow_prologue == Some(true)),
    {
        match self.marrow_prologue {
            Some(b) => b,
            None => false,
        }
    }

    /// The content directory under `base_dir`, if one is configured.
    pub fn resolve_content_dir(&self, base_dir: &str) -> (r: Option<String>)
        ensures
            match self.content_dir {
                Some(d) => r matches Some(p) && p@ == join(base_dir@, d@),
                None => r is None,
            },
    {
        match &self.content_dir {
            Some(d) => Some(join_exec(base_dir, d.as_str())),
            None => None,
        }
    }

    /// Every font directory under `base_dir`.
    pub fn resolve_font_dirs(&self, base_dir: &str) -> (r: Vec<String>)
        ensures
            texts(r@) == texts(self.font_dirs@).map_values(|d: Seq<char>| join(base_dir@, d)),
    {
        let mut out: Vec<String> = Vec::new();
        let mut i: usize = 0;
        while i < self.font_dirs.len()
            invariant
                i <= self.font_dirs@.len(),
                texts(out@) == texts(self.font_dirs@.take(i as int)).map_values(
                    |d: Seq<char>| join(base_dir@, d),
                ),
            decreases self.font_dirs@.len() - i,
        {
            let ghost before = out@;
            let d = join_exec(base_dir, self.font_dirs[i].as_str());
            out.push(d);
            proof {
                assert(out@ == before.push(d));
                assert(texts(out@) =~= texts(before).push(join(base_dir@, self.font_dirs@[i as int]@)));
                assert(self.font_dirs@.take(i + 1) =~= self.font_dirs@.take(i as int).push(self.font_dirs@[i as int]));
                assert(texts(out@) =~= texts(self.font_dirs@.take(i + 1)).map_values(
                    |d: Seq<char>| join(base_dir@, d),
                ));
            }
            i += 1;
        }
        proof {
            assert(self.font_dirs@.take(i as int) =~= self.font_dirs@);
        }
        out
    }

    /// Whether `name` is among the configured formats.
    pub fn has_format(&self, name: &str) -> (b: bool)
        ensures
            b == texts(self.formats@).contains(name@),
    {
        let mut i: usize = 0;
        while i < self.formats.len()
            invariant
                i <= self.formats@.len(),
                forall|k: int| 0 <= k < i ==> self.formats@[k]@ != name@,
            decreases self.formats@.len() - i,
        {
            if str_eq(self.formats[i].as_str(), name) {
                proof {
                    assert(texts(self.formats@)[i as int] == name@);
                }
                return true;
            }
            i += 1;
        }
        proof {
            assert forall|k: int| 0 <= k < texts(self.formats@).len() implies texts(self.formats@)[k] != name@ by {
                assert(texts(self.formats@)[k] == self.formats@[k]@);
            }
        }
        false
    }

    /// The plugin table named `name`, if the project has one.
    pub fn plugin_section_ref(&self, name: &str) -> (r: Option<&PluginSection>)
        ensures
            match section_index(self.plugin_sections@, name@) {
                Some(i) => r == Some(&self.plugin_sections@[i].1),
                None => r is None,
            },
    {
        let mut i: usize = 0;
        while i < self.plugin_sections.len()
            invariant
                i <= self.plugin_sections@.len(),
                section_index(self.plugin_sections@.take(i as int), name@) is None,
            decreases self.plugin_sections@.len() - i,
        {
            proof {
                assert(self.plugin_sections@.take(i + 1).drop_last() =~= self.plugin_sections@.take(i as int));
            }
            if str_eq(self.plugin_sections[i].0.as_str(), name) {
                proof {
                    lemma_section_prefix(self.plugin_sections@, name@, i + 1);
                }
                return Some(&self.plugin_sections[i].1);
            }
            i += 1;
        }
        proof {
            assert(self.plugin_sections@.take(i as int) =~= self.plugin_sections@);
        }
        None
    }

    /// The spine table of the plugin named `name`, if it has one.
    pub fn spine_for_plugin(&self, name: &str) -> (r: Option<&Spine>)
        ensures
            match section_index(self.plugin_sections@, name@) {
                Some(i) => match self.plugin_sections@[i].1.spine {
                    Some(s) => r == Some(&s),
                    None => r is None,
                },
                None => r is None,
            },
    {
        match self.plugin_section_ref(name) {
            Some(s) => match &s.spine {
                Some(sp) => Some(sp),
                None => None,
            },
            None => None,
        }
    }

    /// Warnings about the configuration that do not stop a build: a
    /// manifest version other than `current`, then every retired key still
    /// set in `[spine]`, then in each plugin table and its spine table.
    pub fn warnings(&self, current: &str) -> (r: Vec<String>)
        ensures
            texts(r@) == config_warnings(self.version@, current@, self.spine, self.plugin_sections@),
    {
        let mut out: Vec<String> = Vec::new();
        if !str_eq(self.version.as_str(), current) {
            let mut w = owned("rheo.toml version ");
            push_str(&mut w, self.version.as_str());
            push_str(&mut w, " does not match rheo version ");
            push_str(&mut w, current);
            push_str(&mut w, ". Run `rheo migrate` to update it (add --apply to write the changes).");
            out.push(w);
        }
        match &self.spine {
            Some(sp) => {
                let ws = retired_key_warnings("[spine]", &sp.extra_keys);
                append_all(&mut out, ws);
            },
            None => {},
        }
        let ghost head = texts(out@);
        proof {
            assert(head == version_part(self.version@, current@) + spine_part(self.spine));
            assert(self.plugin_sections@.take(0) =~= Seq::<(String, PluginSection)>::empty());
            assert(head + sections_part(self.plugin_sections@.take(0)) =~= head);
        }
        let mut i: usize = 0;
        while i < self.plugin_sections.len()
            invariant
                i <= self.plugin_sections@.len(),
                texts(out@) == head + sections_part(self.plugin_sections@.take(i as int)),
            decreases self.plugin_sections@.len() - i,
        {
            proof {
                assert(self.plugin_sections@.take(i + 1).drop_last() =~= self.plugin_sections@.take(i as int));
                assert(self.plugin_sections@.take(i + 1).last() == self.plugin_sections@[i as int]);
            }
            let ghost before = texts(out@);
            let mut table = owned("[");
            push_str(&mut table, self.plugin_sections[i].0.as_str());
            push_str(&mut table, "]");
            let keys = keys_of(&self.plugin_sections[i].1.extra);
            append_all(&mut out, retired_key_warnings(table.as_str(), &keys));
            match &self.plugin_sections[i].1.spine {
                Some(sp) => {
                    let mut st = owned("[");
                    push_str(&mut st, self.plugin_sections[i].0.as_str());
                    push_str(&mut st, ".spine]");
                    append_all(&mut out, retired_key_warnings(st.as_str(), &sp.extra_keys));
                },
                None => {},
            }
            proof {
                assert(texts(out@) =~= before + section_part(self.plugin_sections@[i as int]));
                assert(texts(out@) =~= head + sections_part(self.plugin_sections@.take(i + 1)));
            }
            i += 1;
        }
        proof {
            assert(self.plugin_sections@.take(i as int) =~= self.plugin_sections@);
        }
        out
    }
}

/// The version warning, when the version is not `current`.
pub open spec fn version_part(version: Seq<char>, current: Seq<char>) -> Seq<Seq<char>> {
    if version != current {
        seq![version_warning(version, current)]
    } else {
        Seq::empty()
    }
}

/// The retired keys of the global spine table.
pub open spec fn spine_part(spine: Option<Spine>) -> Seq<Seq<char>> {
    match spine {
        Some(sp) => retired_warnings_spec(retired_key_table(), "[spine]"@, texts(sp.extra_keys@)),
        None => Seq::empty(),
    }
}

/// The retired keys of one plugin table, then of its spine table.
pub open spec fn section_part(s: (String, PluginSection)) -> Seq<Seq<char>> {
    retired_warnings_spec(
        retired_key_table(),
        "["@ + s.0@ + "]"@,
        s.1.extra@.map_values(|e: (String, TomlValue)| e.0@),
    ) + match s.1.spine {
        Some(sp) => retired_warnings_spec(retired_key_table(), "["@ + s.0@ + ".spine]"@, texts(sp.extra_keys@)),
        None => Seq::empty(),
    }
}

/// [`section_part`] of each plugin table, in order.
pub open spec fn sections_part(ss: Seq<(String, PluginSection)>) -> Seq<Seq<char>>
    decreases ss.len(),
{
    if ss.len() == 0 {
        Seq::empty()
    } else {
        sections_part(ss.drop_last()) + section_part(ss.last())
    }
}

/// Every warning a configuration draws.
pub open spec fn config_warnings(
    version: Seq<char>,
    current: Seq<char>,
    spine: Option<Spine>,
    sections: Seq<(String, PluginSection)>,
) -> Seq<Seq<char>> {
    version_part(version, current) + spine_part(spine) + sections_part(sections)
}

/// The warning for a manifest version other than rheo's.
pub open spec fn version_warning(written: Seq<char>, current: Seq<char>) -> Seq<char> {
    "rheo.toml version "@ + written + " does not match rheo version "@ + current
        + ". Run `rheo migrate` to update it (add --apply to write the changes)."@
}

/// Appends every string of `more`.
fn append_all(out: &mut Vec<String>, more: Vec<String>)
    ensures
        final(out)@ == old(out)@ + more@,
{
    let mut rest = more;
    let ghost start = out@;
    let ghost all = rest@;
    let total = rest.len();
    let mut i: usize = 0;
    while rest.len() > 0
        invariant
            all.len() == total,
            i + rest@.len() == all.len(),
            rest@ == all.skip(i as int),
            out@ == start + all.take(i as int),
        decreases rest@.len(),
    {
        proof {
            assert(rest@.remove(0) =~= all.skip(i + 1));
            assert(start + all.take(i + 1) =~= (start + all.take(i as int)).push(all[i as int]));
        }
        let s = rest.remove(0);
        out.push(s);
        i += 1;
    }
    proof {
        assert(all.take(i as int) =~= all);
    }
}

/// The keys of a table, in order.
fn keys_of(t: &Vec<(String, TomlValue)>) -> (r: Vec<String>)
    ensures
        texts(r@) == t@.map_values(|e: (String, TomlValue)| e.0@),
{
    let mut out: Vec<String> = Vec::new();
    let mut i: usize = 0;
    while i < t.len()
        invariant
            i <= t@.len(),
            texts(out@) == t@.take(i as int).map_values(|e: (String, TomlValue)| e.0@),
        decreases t@.len() - i,
    {
        let ghost before = out@;
        let k = owned(t[i].0.as_str());
        out.push(k);
        proof {
            assert(out@ == before.push(k));
            assert(texts(out@) =~= texts(before).push(t@[i as int].0@));
            assert(t@.take(i + 1) =~= t@.take(i as int).push(t@[i as int]));
            assert(texts(out@) =~= t@.take(i + 1).map_values(|e: (String, TomlValue)| e.0@));
        }
        i += 1;
    }
    proof {
        assert(t@.take(i as int) =~= t@);
    }
    out
}

impl ValidateConfig for RheoConfig {
    /// The global spine and every plugin's spine may each set `include` or
    /// `section`, not both; the first offender is named in the error.
    fn validate(&self) -> (r: Result<()>)
        ensures
            conflicting(self.spine) ==> (r matches Err(RheoError::ProjectConfig { message }) && message@
                == "[spine]: "@ + include_and_section_text()),
            !conflicting(self.spine) ==> match plugin_spine_error(self.plugin_sections@) {
                None => r is Ok,
                Some(m) => (r matches Err(RheoError::ProjectConfig { message }) && message@ == m),
            },
    {
        match &self.spine {
            Some(sp) => {
                match sp.validate() {
                    Ok(()) => {},
                    Err(_) => {
                        let mut message = owned("[spine]: ");
                        push_str(
                            &mut message,
                            "include is a flat reorder, section nests into virtual directories: set one, not both",
                        );
                        proof {
                            assert(message@ == "[spine]: "@ + include_and_section_text());
                        }
                        return Err(RheoError::ProjectConfig { message });
                    },
                }
            },
            None => {},
        }
        let mut i: usize = 0;
        proof {
            assert(self.plugin_sections@.skip(0) =~= self.plugin_sections@);
        }
        while i < self.plugin_sections.len()
            invariant
                i <= self.plugin_sections@.len(),
                !conflicting(self.spine),
                plugin_spine_error(self.plugin_sections@) == plugin_spine_error(
                    self.plugin_sections@.skip(i as int),
                ),
            decreases self.plugin_sections@.len() - i,
        {
            proof {
                assert(self.plugin_sections@.skip(i as int)[0] == self.plugin_sections@[i as int]);
                assert(self.plugin_sections@.skip(i as int).drop_first() =~= self.plugin_sections@.skip(i + 1));
            }
            match &self.plugin_sections[i].1.spine {
                Some(sp) => {
                    if sp.include_globs.is_some() && sp.section.is_some() {
                        let mut message = owned("[");
                        push_str(&mut message, self.plugin_sections[i].0.as_str());
                        push_str(&mut message, "]: ");
                        push_str(
                            &mut message,
                            "include is a flat reorder, section nests into virtual directories: set one, not both",
                        );
                        return Err(RheoError::ProjectConfig { message });
                    }
                },
                None => {},
            }
            i += 1;
        }
        Ok(())
    }
}

} // verus!
