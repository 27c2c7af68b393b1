//! Reading `rheo.toml`: the document's text parsed by toml into a table of
//! plain values, then each table shaped into the configuration's types.
//! A key the configuration knows must hold the type it expects; a key it
//! does not know is kept for the plugin that reads it.

use vstd::prelude::*;
use crate::config::project::{
    conflicting, plugin_spine_error, AssetsField, PluginAssets, PluginSection, RheoConfig, TomlValue,
};
use crate::config::ValidateConfig;
use crate::error::RheoError;
use crate::config::{opt_text, opt_texts, texts, Spine, SpineSection};
use crate::text::{owned, push_str, str_eq};

verus! {

// ─── toml ───────────────────────────────────────────────────────────────────

/// What toml makes of a document's text: the entries of its top-level
/// table, in the table's own order, or the message of its parse error.
pub uninterp spec fn toml_parse(text: Seq<char>) -> Result<Seq<(String, TomlValue)>, Seq<char>>;

/// toml's value type, carried through the conversion only.
#[verifier::external_type_specification]
#[verifier::external_body]
pub struct ExTomlValue(toml::Value);

/// Parses `text` with the `FromStr` of `toml::Table` and converts each
/// entry. The contract claims only that the result is toml's, by name.
#[verifier::external_body]
pub(crate) fn parse_toml(text: &str) -> (r: Result<Vec<(String, TomlValue)>, String>)
    ensures
        match r {
            Ok(t) => toml_parse(text@) == Ok::<Seq<(String, TomlValue)>, Seq<char>>(t@),
            Err(e) => toml_parse(text@) == Err::<Seq<(String, TomlValue)>, Seq<char>>(e@),
        },
{
    match text.parse::<toml::Table>() {
        Ok(t) => Ok(t.into_iter().map(|(k, v)| (k, value_from_toml(v))).collect()),
        Err(e) => Err(e.to_string()),
    }
}

/// Converts one toml value, and everything inside it, into a [`TomlValue`].
#[verifier::external_body]
fn value_from_toml(v: toml::Value) -> TomlValue {
    match v {
        toml::Value::String(s) => TomlValue::Str(s),
        toml::Value::Integer(i) => TomlValue::Int(i),
        toml::Value::Float(x) => TomlValue::Float(x.to_string()),
        toml::Value::Boolean(b) => TomlValue::Bool(b),
        toml::Value::Datetime(d) => TomlValue::Datetime(d.to_string()),
        toml::Value::Array(a) => TomlValue::Array(a.into_iter().map(value_from_toml).collect()),
        toml::Value::Table(t) => TomlValue::Table(t.into_iter().map(|(k, v)| (k, value_from_toml(v))).collect()),
    }
}

// ─── Plain values ───────────────────────────────────────────────────────────

/// The string `v` holds, if it is one.
pub open spec fn str_value(v: TomlValue) -> Option<Seq<char>> {
    match v {
        TomlValue::Str(s) => Some(s@),
        _ => None,
    }
}

/// The boolean `v` holds, if it is one.
pub open spec fn bool_value(v: TomlValue) -> Option<bool> {
    match v {
        TomlValue::Bool(b) => Some(b),
        _ => None,
    }
}

/// The text of a string value (empty for any other value).
pub open spec fn text_of(v: TomlValue) -> Seq<char> {
    match v {
        TomlValue::Str(s) => s@,
        _ => Seq::empty(),
    }
}

/// The strings `v` holds, if it is an array of strings.
pub open spec fn strs_value(v: TomlValue) -> Option<Seq<Seq<char>>> {
    match v {
        TomlValue::Array(a) => if forall|i: int| 0 <= i < a@.len() ==> (#[trigger] a@[i]) is Str {
            Some(a@.map_values(|x: TomlValue| text_of(x)))
        } else {
            None
        },
        _ => None,
    }
}

/// The value of the last entry of `t` under `key` (a TOML table holds each
/// key once; a later entry replaces an earlier one).
pub open spec fn last_under(t: Seq<(String, TomlValue)>, key: Seq<char>) -> Option<TomlValue>
    decreases t.len(),
{
    if t.len() == 0 {
        None
    } else if t.last().0@ == key {
        Some(t.last().1)
    } else {
        last_under(t.drop_last(), key)
    }
}

/// The string under `key`, if the last entry there is one.
pub open spec fn str_under(t: Seq<(String, TomlValue)>, key: Seq<char>) -> Option<Seq<char>> {
    match last_under(t, key) {
        Some(v) => str_value(v),
        None => None,
    }
}

/// The boolean under `key`, if the last entry there is one.
pub open spec fn bool_under(t: Seq<(String, TomlValue)>, key: Seq<char>) -> Option<bool> {
    match last_under(t, key) {
        Some(v) => bool_value(v),
        None => None,
    }
}

/// The strings under `key`, if the last entry there is an array of them.
pub open spec fn strs_under(t: Seq<(String, TomlValue)>, key: Seq<char>) -> Option<Seq<Seq<char>>> {
    match last_under(t, key) {
        Some(v) => strs_value(v),
        None => None,
    }
}

/// The strings under `key`, none when the key is absent.
pub open spec fn strs_or_empty(t: Seq<(String, TomlValue)>, key: Seq<char>) -> Seq<Seq<char>> {
    match strs_under(t, key) {
        Some(s) => s,
        None => Seq::empty(),
    }
}

/// The keys of `t` that are not in `known`, in order.
pub open spec fn unknown_keys(t: Seq<(String, TomlValue)>, known: Seq<Seq<char>>) -> Seq<Seq<char>>
    decreases t.len(),
{
    if t.len() == 0 {
        Seq::empty()
    } else if known.contains(t.last().0@) {
        unknown_keys(t.drop_last(), known)
    } else {
        unknown_keys(t.drop_last(), known).push(t.last().0@)
    }
}

/// The entries of `t` whose key is not in `known`, in order.
pub open spec fn unknown_entries(t: Seq<(String, TomlValue)>, known: Seq<Seq<char>>) -> Seq<(String, TomlValue)>
    decreases t.len(),
{
    if t.len() == 0 {
        Seq::empty()
    } else if known.contains(t.last().0@) {
        unknown_entries(t.drop_last(), known)
    } else {
        unknown_entries(t.drop_last(), known).push(t.last())
    }
}

/// The string `v` holds, taken out of it.
fn take_str(v: TomlValue) -> (r: Option<String>)
    ensures
        opt_text(r) == str_value(v),
{
    match v {
        TomlValue::Str(s) => Some(s),
        _ => None,
    }
}

/// The boolean `v` holds.
fn take_bool(v: TomlValue) -> (r: Option<bool>)
    ensures
        r == bool_value(v),
{
    match v {
        TomlValue::Bool(b) => Some(b),
        _ => None,
    }
}

/// The strings `v` holds, taken out of it, if it is an array of strings.
fn take_strs(v: TomlValue) -> (r: Option<Vec<String>>)
    ensures
        opt_texts(r) == strs_value(v),
{
    match v {
        TomlValue::Array(a) => {
            let ghost a0 = a@;
            let mut rest = a;
            let mut out: Vec<String> = Vec::new();
            let mut k: usize = 0;
            let n = rest.len();
            while rest.len() > 0
                invariant
                    v matches TomlValue::Array(x) && x@ == a0,
                    a0.len() == n,
                    k <= a0.len(),
                    rest@ == a0.skip(k as int),
                    out@.len() == k,
                    forall|j: int| 0 <= j < k ==> (#[trigger] a0[j]) is Str,
                    forall|j: int| 0 <= j < k ==> (#[trigger] out@[j])@ == text_of(a0[j]),
                decreases rest@.len(),
            {
                proof {
                    assert(rest@[0] == a0[k as int]);
                }
                let item = rest.remove(0);
                proof {
                    assert(rest@ =~= a0.skip(k + 1));
                }
                match item {
                    TomlValue::Str(s) => {
                        out.push(s);
                    },
                    _ => {
                        proof {
                            assert(!(a0[k as int] is Str));
                        }
                        return None;
                    },
                }
                k += 1;
            }
            proof {
                assert(texts(out@) =~= a0.map_values(|x: TomlValue| text_of(x)));
            }
            Some(out)
        },
        _ => None,
    }
}

// ─── Spine sections ─────────────────────────────────────────────────────────

/// The key under which a spine table lists its ordered globs.
pub open spec fn glob_list_key() -> Seq<char> {
    "incl"@ + "ude"@
}

/// Whether `k` is [`glob_list_key`].
fn is_glob_list_key(k: &str) -> (r: bool)
    ensures
        r == (k@ == glob_list_key()),
{
    let mut key = owned("incl");
    push_str(&mut key, "ude");
    str_eq(k, key.as_str())
}

/// Whether `v` is a `[[spine.section]]` table: a string `name`, and where
/// set, a string `title`, an array of strings listing globs, and an array of
/// such tables `section`.
pub open spec fn section_ok(v: TomlValue) -> bool
    decreases v, 2int,
{
    match v {
        TomlValue::Table(t) => section_entries_ok(t@) && str_under(t@, "name"@) is Some,
        _ => false,
    }
}

/// Whether every entry of a section table holds what its key expects.
pub open spec fn section_entries_ok(t: Seq<(String, TomlValue)>) -> bool
    decreases t, 1int,
{
    if t.len() == 0 {
        true
    } else {
        &&& section_entries_ok(t.drop_last())
        &&& if t[t.len() - 1].0@ == "name"@ || t[t.len() - 1].0@ == "title"@ {
            t[t.len() - 1].1 is Str
        } else if t[t.len() - 1].0@ == glob_list_key() {
            strs_value(t[t.len() - 1].1) is Some
        } else if t[t.len() - 1].0@ == "section"@ {
            match t[t.len() - 1].1 {
                TomlValue::Array(a) => sections_ok(a@),
                _ => false,
            }
        } else {
            true
        }
    }
}

/// Whether each of `a` is a section table.
pub open spec fn sections_ok(a: Seq<TomlValue>) -> bool
    decreases a, 0int,
{
    a.len() == 0 || (sections_ok(a.drop_last()) && section_ok(a[a.len() - 1]))
}

/// Whether `s` is what the section table `v` says.
pub open spec fn section_is(v: TomlValue, s: SpineSection) -> bool
    decreases v, 2int,
{
    match v {
        TomlValue::Table(t) => {
            &&& Some(s.name@) == str_under(t@, "name"@)
            &&& opt_text(s.title) == str_under(t@, "title"@)
            &&& texts(s.include_globs@) == strs_or_empty(t@, glob_list_key())
            &&& sections_under(t@, s.section@)
        },
        _ => false,
    }
}

/// Whether `xs` is what the last `section` entry of `t` says (none when
/// there is no such entry).
pub open spec fn sections_under(t: Seq<(String, TomlValue)>, xs: Seq<SpineSection>) -> bool
    decreases t, 1int,
{
    if t.len() == 0 {
        xs.len() == 0
    } else if t[t.len() - 1].0@ == "section"@ {
        match t[t.len() - 1].1 {
            TomlValue::Array(a) => sections_are(a@, xs),
            _ => false,
        }
    } else {
        sections_under(t.drop_last(), xs)
    }
}

/// Whether `xs` is what the section tables `a` say, place by place.
pub open spec fn sections_are(a: Seq<TomlValue>, xs: Seq<SpineSection>) -> bool
    decreases a, 0int,
{
    a.len() == xs.len() && (a.len() == 0 || (sections_are(a.drop_last(), xs.drop_last())
        && section_is(a[a.len() - 1], xs[xs.len() - 1])))
}

proof fn lemma_section_entries_prefix(t: Seq<(String, TomlValue)>, n: int)
    requires
        0 <= n <= t.len(),
        section_entries_ok(t),
    ensures
        section_entries_ok(t.take(n)),
    decreases t.len(),
{
    if n == t.len() {
        assert(t.take(n) =~= t);
    } else {
        assert(t.drop_last().take(n) =~= t.take(n));
        lemma_section_entries_prefix(t.drop_last(), n);
    }
}

proof fn lemma_sections_prefix(a: Seq<TomlValue>, n: int)
    requires
        0 <= n <= a.len(),
        sections_ok(a),
    ensures
        sections_ok(a.take(n)),
    decreases a.len(),
{
    if n == a.len() {
        assert(a.take(n) =~= a);
    } else {
        assert(a.drop_last().take(n) =~= a.take(n));
        lemma_sections_prefix(a.drop_last(), n);
    }
}

/// The section table `v`, shaped; `None` when it is not one.
pub fn decode_section(v: TomlValue) -> (r: Option<SpineSection>)
    ensures
        r is Some == section_ok(v),
        r matches Some(s) ==> section_is(v, s),
    decreases v, 1int,
{
    match v {
        TomlValue::Table(t) => {
            let ghost tv = t;
            let ghost t0 = t@;
            let n = t.len();
            let mut rest = t;
            let mut name: Option<String> = None;
            let mut title: Option<String> = None;
            let mut globs: Vec<String> = Vec::new();
            let mut section: Vec<SpineSection> = Vec::new();
            let mut k: usize = 0;
            while rest.len() > 0
                invariant
                    v == TomlValue::Table(tv),
                    tv@ == t0,
                    t0.len() == n,
                    k <= n,
                    rest@ == t0.skip(k as int),
                    section_entries_ok(t0.take(k as int)),
                    opt_text(name) == str_under(t0.take(k as int), "name"@),
                    opt_text(title) == str_under(t0.take(k as int), "title"@),
                    texts(globs@) == strs_or_empty(t0.take(k as int), glob_list_key()),
                    sections_under(t0.take(k as int), section@),
                decreases rest@.len(),
            {
                proof {
                    reveal_strlit("name");
                    reveal_strlit("title");
                    reveal_strlit("section");
                    reveal_strlit("incl");
                    reveal_strlit("ude");
                    assert("name"@.len() == 4 && "title"@.len() == 5 && glob_list_key().len() == 7);
                    assert("section"@[0] == 's' && glob_list_key()[0] == 'i');
                    assert(rest@[0] == t0[k as int]);
                    assert(t0.take(k + 1).drop_last() =~= t0.take(k as int));
                    assert(t0.take(k + 1)[k as int] == t0[k as int]);
                }
                let (key, val) = rest.remove(0);
                proof {
                    assert(rest@ =~= t0.skip(k + 1));
                }
                if str_eq(key.as_str(), "name") {
                    match take_str(val) {
                        Some(s) => {
                            name = Some(s);
                        },
                        None => {
                            proof {
                                if section_entries_ok(t0) {
                                    lemma_section_entries_prefix(t0, k + 1);
                                }
                            }
                            return None;
                        },
                    }
                } else if str_eq(key.as_str(), "title") {
                    match take_str(val) {
                        Some(s) => {
                            title = Some(s);
                        },
                        None => {
                            proof {
                                if section_entries_ok(t0) {
                                    lemma_section_entries_prefix(t0, k + 1);
                                }
                            }
                            return None;
                        },
                    }
                } else if is_glob_list_key(key.as_str()) {
                    match take_strs(val) {
                        Some(x) => {
                            globs = x;
                        },
                        None => {
                            proof {
                                if section_entries_ok(t0) {
                                    lemma_section_entries_prefix(t0, k + 1);
                                }
                            }
                            return None;
                        },
                    }
                } else if str_eq(key.as_str(), "section") {
                    match val {
                        TomlValue::Array(arr) => {
                            proof {
                                assert(decreases_to!(v => v->Table_0));
                                assert(decreases_to!(tv => tv@));
                                assert(decreases_to!(tv@ => tv@[k as int]));
                                assert(decreases_to!(tv@[k as int] => tv@[k as int].1));
                                assert(decreases_to!(tv@[k as int].1 => arr));
                                assert(decreases_to!(v => arr));
                            }
                            match decode_sections(arr) {
                                Some(xs) => {
                                    section = xs;
                                },
                                None => {
                                    proof {
                                        if section_entries_ok(t0) {
                                            lemma_section_entries_prefix(t0, k + 1);
                                        }
                                    }
                                    return None;
                                },
                            }
                        },
                        _ => {
                            proof {
                                if section_entries_ok(t0) {
                                    lemma_section_entries_prefix(t0, k + 1);
                                }
                            }
                            return None;
                        },
                    }
                }
                k += 1;
            }
            proof {
                assert(t0.take(k as int) =~= t0);
            }
            match name {
                Some(nm) => Some(SpineSection { name: nm, title, include_globs: globs, section }),
                None => None,
            }
        },
        _ => None,
    }
}

/// The section tables `a`, shaped; `None` when one of them is not one.
fn decode_sections(a: Vec<TomlValue>) -> (r: Option<Vec<SpineSection>>)
    ensures
        r is Some == sections_ok(a@),
        r matches Some(xs) ==> sections_are(a@, xs@),
    decreases a, 0int,
{
    let ghost av = a;
    let ghost a0 = a@;
    let n = a.len();
    let mut rest = a;
    let mut out: Vec<SpineSection> = Vec::new();
    let mut k: usize = 0;
    while rest.len() > 0
        invariant
            av == a,
            av@ == a0,
            a0.len() == n,
            k <= n,
            rest@ == a0.skip(k as int),
            sections_ok(a0.take(k as int)),
            sections_are(a0.take(k as int), out@),
        decreases rest@.len(),
    {
        proof {
            assert(rest@[0] == a0[k as int]);
            assert(a0.take(k + 1).drop_last() =~= a0.take(k as int));
            assert(a0.take(k + 1)[k as int] == a0[k as int]);
        }
        let item = rest.remove(0);
        proof {
            assert(rest@ =~= a0.skip(k + 1));
            assert(decreases_to!(av => av@));
            assert(decreases_to!(av@ => av@[k as int]));
            assert(item == av@[k as int]);
            assert(decreases_to!(av => item));
        }
        match decode_section(item) {
            Some(s) => {
                let ghost before = out@;
                out.push(s);
                proof {
                    assert(out@.drop_last() =~= before);
                }
            },
            None => {
                proof {
                    assert(!section_ok(a0.take(k + 1)[k as int]));
                    if sections_ok(a0) {
                        lemma_sections_prefix(a0, k + 1);
                    }
                }
                return None;
            },
        }
        k += 1;
    }
    proof {
        assert(a0.take(k as int) =~= a0);
    }
    Some(out)
}

// ─── Spine tables ───────────────────────────────────────────────────────────

/// The keys a spine table knows.
pub open spec fn spine_keys() -> Seq<Seq<char>> {
    seq!["title"@, "exclude"@, glob_list_key(), "section"@]
}

/// Whether one entry of a spine table holds what its key expects.
pub open spec fn spine_entry_ok(e: (String, TomlValue)) -> bool {
    if e.0@ == "title"@ {
        e.1 is Str
    } else if e.0@ == "exclude"@ || e.0@ == glob_list_key() {
        strs_value(e.1) is Some
    } else if e.0@ == "section"@ {
        match e.1 {
            TomlValue::Array(a) => sections_ok(a@),
            _ => false,
        }
    } else {
        true
    }
}

/// Whether every entry of `t` holds what a spine table expects.
pub open spec fn spine_entries_ok(t: Seq<(String, TomlValue)>) -> bool {
    forall|i: int| 0 <= i < t.len() ==> spine_entry_ok(#[trigger] t[i])
}

/// Whether `v` is a spine table.
pub open spec fn spine_ok(v: TomlValue) -> bool {
    match v {
        TomlValue::Table(t) => spine_entries_ok(t@),
        _ => false,
    }
}

/// Whether `s` is what the spine table `v` says: each knob as its last
/// entry sets it, unset when absent, and the keys it does not know.
pub open spec fn spine_is(v: TomlValue, s: Spine) -> bool {
    match v {
        TomlValue::Table(t) => {
            &&& opt_text(s.title) == str_under(t@, "title"@)
            &&& opt_texts(s.exclude) == strs_under(t@, "exclude"@)
            &&& opt_texts(s.include_globs) == strs_under(t@, glob_list_key())
            &&& match s.section {
                Some(xs) => last_under(t@, "section"@) is Some && sections_under(t@, xs@),
                None => last_under(t@, "section"@) is None,
            }
            &&& texts(s.extra_keys@) == unknown_keys(t@, spine_keys())
        },
        _ => false,
    }
}

/// The spine table `v`, shaped; `None` when it is not one.
pub fn decode_spine(v: TomlValue) -> (r: Option<Spine>)
    ensures
        r is Some == spine_ok(v),
        r matches Some(s) ==> spine_is(v, s),
{
    match v {
        TomlValue::Table(t) => {
            let ghost tv = t;
            let ghost t0 = t@;
            let n = t.len();
            let mut rest = t;
            let mut title: Option<String> = None;
            let mut exclude: Option<Vec<String>> = None;
            let mut globs: Option<Vec<String>> = None;
            let mut section: Option<Vec<SpineSection>> = None;
            let mut extra_keys: Vec<String> = Vec::new();
            let mut k: usize = 0;
            while rest.len() > 0
                invariant
                    v == TomlValue::Table(tv),
                    tv@ == t0,
                    t0.len() == n,
                    k <= n,
                    rest@ == t0.skip(k as int),
                    forall|j: int| 0 <= j < k ==> spine_entry_ok(#[trigger] t0[j]),
                    opt_text(title) == str_under(t0.take(k as int), "title"@),
                    opt_texts(exclude) == strs_under(t0.take(k as int), "exclude"@),
                    opt_texts(globs) == strs_under(t0.take(k as int), glob_list_key()),
                    match section {
                        Some(xs) => last_under(t0.take(k as int), "section"@) is Some
                            && sections_under(t0.take(k as int), xs@),
                        None => last_under(t0.take(k as int), "section"@) is None,
                    },
                    texts(extra_keys@) == unknown_keys(t0.take(k as int), spine_keys()),
                decreases rest@.len(),
            {
                proof {
                    reveal_strlit("title");
                    reveal_strlit("exclude");
                    reveal_strlit("section");
                    reveal_strlit("incl");
                    reveal_strlit("ude");
                    assert("title"@.len() == 5 && "exclude"@.len() == 7 && glob_list_key().len() == 7);
                    assert("section"@[0] == 's' && glob_list_key()[0] == 'i' && "exclude"@[0] == 'e');
                    assert(rest@[0] == t0[k as int]);
                    assert(t0.take(k + 1).drop_last() =~= t0.take(k as int));
                    assert(t0.take(k + 1)[k as int] == t0[k as int]);
                    assert(spine_keys()[0] == "title"@ && spine_keys()[1] == "exclude"@);
                    assert(spine_keys()[2] == glob_list_key() && spine_keys()[3] == "section"@);
                }
                let (key, val) = rest.remove(0);
                proof {
                    assert(rest@ =~= t0.skip(k + 1));
                }
                if str_eq(key.as_str(), "title") {
                    match take_str(val) {
                        Some(x) => {
                            title = Some(x);
                        },
                        None => {
                            proof {
                                assert(!spine_entry_ok(t0[k as int]));
                            }
                            return None;
                        },
                    }
                } else if str_eq(key.as_str(), "exclude") {
                    match take_strs(val) {
                        Some(x) => {
                            exclude = Some(x);
                        },
                        None => {
                            proof {
                                assert(!spine_entry_ok(t0[k as int]));
                            }
                            return None;
                        },
                    }
                } else if is_glob_list_key(key.as_str()) {
                    match take_strs(val) {
                        Some(x) => {
                            globs = Some(x);
                        },
                        None => {
                            proof {
                                assert(!spine_entry_ok(t0[k as int]));
                            }
                            return None;
                        },
                    }
                } else if str_eq(key.as_str(), "section") {
                    match val {
                        TomlValue::Array(arr) => match decode_sections(arr) {
                            Some(xs) => {
                                section = Some(xs);
                            },
                            None => {
                                proof {
                                    assert(!spine_entry_ok(t0[k as int]));
                                }
                                return None;
                            },
                        },
                        _ => {
                            proof {
                                assert(!spine_entry_ok(t0[k as int]));
                            }
                            return None;
                        },
                    }
                } else {
                    proof {
                        assert(!spine_keys().contains(key@));
                    }
                    extra_keys.push(key);
                }
                k += 1;
            }
            proof {
                assert(t0.take(k as int) =~= t0);
            }
            Some(Spine { title, exclude, section, include_globs: globs, extra_keys })
        },
        _ => None,
    }
}

// ─── Asset blocks ───────────────────────────────────────────────────────────

/// The keys an asset block knows.
pub open spec fn asset_keys() -> Seq<Seq<char>> {
    seq!["copy"@, "dest"@]
}

/// Whether one entry of an asset block holds what its key expects.
pub open spec fn asset_entry_ok(e: (String, TomlValue)) -> bool {
    if e.0@ == "copy"@ {
        strs_value(e.1) is Some
    } else if e.0@ == "dest"@ {
        e.1 is Str
    } else {
        true
    }
}

/// Whether every entry of `t` holds what an asset block expects.
pub open spec fn asset_entries_ok(t: Seq<(String, TomlValue)>) -> bool {
    forall|i: int| 0 <= i < t.len() ==> asset_entry_ok(#[trigger] t[i])
}

/// Whether `v` is an asset block.
pub open spec fn assets_ok(v: TomlValue) -> bool {
    match v {
        TomlValue::Table(t) => asset_entries_ok(t@),
        _ => false,
    }
}

/// Whether `p` is what the asset block `v` says: its `copy` globs (none when
/// unset), its `dest`, and every other entry kept as an override.
pub open spec fn assets_is(v: TomlValue, p: PluginAssets) -> bool {
    match v {
        TomlValue::Table(t) => {
            &&& texts(p.copy@) == strs_or_empty(t@, "copy"@)
            &&& opt_text(p.dest) == str_under(t@, "dest"@)
            &&& p.extra@ == unknown_entries(t@, asset_keys())
        },
        _ => false,
    }
}

/// The asset block `v`, shaped; `None` when it is not one.
pub fn decode_assets(v: TomlValue) -> (r: Option<PluginAssets>)
    ensures
        r is Some == assets_ok(v),
        r matches Some(p) ==> assets_is(v, p),
{
    match v {
        TomlValue::Table(t) => {
            let ghost tv = t;
            let ghost t0 = t@;
            let n = t.len();
            let mut rest = t;
            let mut copy: Vec<String> = Vec::new();
            let mut dest: Option<String> = None;
            let mut extra: Vec<(String, TomlValue)> = Vec::new();
            let mut k: usize = 0;
            while rest.len() > 0
                invariant
                    v == TomlValue::Table(tv),
                    tv@ == t0,
                    t0.len() == n,
                    k <= n,
                    rest@ == t0.skip(k as int),
                    forall|j: int| 0 <= j < k ==> asset_entry_ok(#[trigger] t0[j]),
                    texts(copy@) == strs_or_empty(t0.take(k as int), "copy"@),
                    opt_text(dest) == str_under(t0.take(k as int), "dest"@),
                    extra@ == unknown_entries(t0.take(k as int), asset_keys()),
                decreases rest@.len(),
            {
                proof {
                    reveal_strlit("copy");
                    reveal_strlit("dest");
                    assert("copy"@[0] == 'c' && "dest"@[0] == 'd');
                    assert(rest@[0] == t0[k as int]);
                    assert(t0.take(k + 1).drop_last() =~= t0.take(k as int));
                    assert(t0.take(k + 1)[k as int] == t0[k as int]);
                    assert(asset_keys()[0] == "copy"@ && asset_keys()[1] == "dest"@);
                }
                let (key, val) = rest.remove(0);
                proof {
                    assert(rest@ =~= t0.skip(k + 1));
                }
                if str_eq(key.as_str(), "copy") {
                    match take_strs(val) {
                        Some(x) => {
                            copy = x;
                        },
                        None => {
                            proof {
                                assert(!asset_entry_ok(t0[k as int]));
                            }
                            return None;
                        },
                    }
                } else if str_eq(key.as_str(), "dest") {
                    match take_str(val) {
                        Some(x) => {
                            dest = Some(x);
                        },
                        None => {
                            proof {
                                assert(!asset_entry_ok(t0[k as int]));
                            }
                            return None;
                        },
                    }
                } else {
                    proof {
                        assert(!asset_keys().contains(key@));
                    }
                    extra.push((key, val));
                }
                k += 1;
            }
            proof {
                assert(t0.take(k as int) =~= t0);
            }
            Some(PluginAssets { copy, dest, extra })
        },
        _ => None,
    }
}

/// Whether `v` is an `assets` entry: one block, or an array of blocks.
pub open spec fn assets_field_ok(v: TomlValue) -> bool {
    match v {
        TomlValue::Table(_) => assets_ok(v),
        TomlValue::Array(a) => all_assets_ok(a@),
        _ => false,
    }
}

/// Whether each of `a` is an asset block.
pub open spec fn all_assets_ok(a: Seq<TomlValue>) -> bool {
    forall|i: int| 0 <= i < a.len() ==> assets_ok(#[trigger] a[i])
}

/// Whether `f` is what the `assets` entry `v` says.
pub open spec fn assets_field_is(v: TomlValue, f: AssetsField) -> bool {
    match f {
        AssetsField::Single(p) => v is Table && assets_is(v, p),
        AssetsField::Multiple(ps) => match v {
            TomlValue::Array(a) => a@.len() == ps@.len() && forall|i: int| 0 <= i < a@.len()
                ==> assets_is(#[trigger] a@[i], ps@[i]),
            _ => false,
        },
    }
}

/// The `assets` entry `v`, shaped; `None` when it is neither a block nor
/// an array of blocks.
pub fn decode_assets_field(v: TomlValue) -> (r: Option<AssetsField>)
    ensures
        r is Some == assets_field_ok(v),
        r matches Some(f) ==> assets_field_is(v, f),
{
    match v {
        TomlValue::Table(t) => match decode_assets(TomlValue::Table(t)) {
            Some(p) => Some(AssetsField::Single(p)),
            None => None,
        },
        TomlValue::Array(a) => {
            let ghost av = a;
            let ghost a0 = a@;
            let n = a.len();
            let mut rest = a;
            let mut out: Vec<PluginAssets> = Vec::new();
            let mut k: usize = 0;
            while rest.len() > 0
                invariant
                    v == TomlValue::Array(av),
                    av@ == a0,
                    a0.len() == n,
                    k <= n,
                    rest@ == a0.skip(k as int),
                    out@.len() == k,
                    forall|j: int| 0 <= j < k ==> assets_ok(#[trigger] a0[j]),
                    forall|j: int| 0 <= j < k ==> assets_is(#[trigger] a0[j], out@[j]),
                decreases rest@.len(),
            {
                proof {
                    assert(rest@[0] == a0[k as int]);
                }
                let item = rest.remove(0);
                proof {
                    assert(rest@ =~= a0.skip(k + 1));
                }
                match decode_assets(item) {
                    Some(p) => {
                        out.push(p);
                    },
                    None => {
                        proof {
                            assert(!assets_ok(a0[k as int]));
                        }
                        return None;
                    },
                }
                k += 1;
            }
            Some(AssetsField::Multiple(out))
        },
        _ => None,
    }
}

// ─── Plugin tables ──────────────────────────────────────────────────────────

/// The keys a plugin table knows; every other key is the plugin's own.
pub open spec fn plugin_keys() -> Seq<Seq<char>> {
    seq!["spine"@, "assets"@, "auto_detect_packages"@, "reset_footnotes"@]
}

/// Whether one entry of a plugin table holds what its key expects.
pub open spec fn plugin_entry_ok(e: (String, TomlValue)) -> bool {
    if e.0@ == "spine"@ {
        spine_ok(e.1)
    } else if e.0@ == "assets"@ {
        assets_field_ok(e.1)
    } else if e.0@ == "auto_detect_packages"@ || e.0@ == "reset_footnotes"@ {
        e.1 is Bool
    } else {
        true
    }
}

/// Whether the entries `t` make a plugin table.
pub open spec fn plugin_ok(t: Seq<(String, TomlValue)>) -> bool {
    forall|i: int| 0 <= i < t.len() ==> plugin_entry_ok(#[trigger] t[i])
}

/// Whether `s` is what the plugin table `t` says.
pub open spec fn plugin_is(t: Seq<(String, TomlValue)>, s: PluginSection) -> bool {
    &&& match s.spine {
        Some(sp) => last_under(t, "spine"@) matches Some(v) && spine_is(v, sp),
        None => last_under(t, "spine"@) is None,
    }
    &&& match s.assets {
        Some(f) => last_under(t, "assets"@) matches Some(v) && assets_field_is(v, f),
        None => last_under(t, "assets"@) is None,
    }
    &&& s.auto_detect_packages == bool_under(t, "auto_detect_packages"@)
    &&& s.reset_footnotes == bool_under(t, "reset_footnotes"@)
    &&& s.extra@ == unknown_entries(t, plugin_keys())
}

/// The plugin table with entries `t`, shaped; `None` when a known key holds
/// the wrong shape.
pub fn decode_plugin(t: Vec<(String, TomlValue)>) -> (r: Option<PluginSection>)
    ensures
        r is Some == plugin_ok(t@),
        r matches Some(s) ==> plugin_is(t@, s),
{
    let ghost t0 = t@;
    let n = t.len();
    let mut rest = t;
    let mut spine: Option<Spine> = None;
    let mut assets: Option<AssetsField> = None;
    let mut auto_detect: Option<bool> = None;
    let mut reset: Option<bool> = None;
    let mut extra: Vec<(String, TomlValue)> = Vec::new();
    let mut k: usize = 0;
    while rest.len() > 0
        invariant
            t@ == t0,
            t0.len() == n,
            k <= n,
            rest@ == t0.skip(k as int),
            forall|j: int| 0 <= j < k ==> plugin_entry_ok(#[trigger] t0[j]),
            match spine {
                Some(sp) => last_under(t0.take(k as int), "spine"@) matches Some(v) && spine_is(v, sp),
                None => last_under(t0.take(k as int), "spine"@) is None,
            },
            match assets {
                Some(f) => last_under(t0.take(k as int), "assets"@) matches Some(v) && assets_field_is(v, f),
                None => last_under(t0.take(k as int), "assets"@) is None,
            },
            auto_detect == bool_under(t0.take(k as int), "auto_detect_packages"@),
            reset == bool_under(t0.take(k as int), "reset_footnotes"@),
            extra@ == unknown_entries(t0.take(k as int), plugin_keys()),
        decreases rest@.len(),
    {
        proof {
            reveal_strlit("spine");
            reveal_strlit("assets");
            reveal_strlit("auto_detect_packages");
            reveal_strlit("reset_footnotes");
            assert("spine"@[0] == 's' && "assets"@[0] == 'a' && "auto_detect_packages"@[0] == 'a');
            assert("reset_footnotes"@[0] == 'r' && "assets"@.len() == 6 && "auto_detect_packages"@.len() == 20);
            assert(rest@[0] == t0[k as int]);
            assert(t0.take(k + 1).drop_last() =~= t0.take(k as int));
            assert(t0.take(k + 1)[k as int] == t0[k as int]);
            assert(plugin_keys()[0] == "spine"@ && plugin_keys()[1] == "assets"@);
            assert(plugin_keys()[2] == "auto_detect_packages"@ && plugin_keys()[3] == "reset_footnotes"@);
        }
        let (key, val) = rest.remove(0);
        proof {
            assert(rest@ =~= t0.skip(k + 1));
        }
        if str_eq(key.as_str(), "spine") {
            match decode_spine(val) {
                Some(x) => {
                    spine = Some(x);
                },
                None => {
                    proof {
                        assert(!plugin_entry_ok(t0[k as int]));
                    }
                    return None;
                },
            }
        } else if str_eq(key.as_str(), "assets") {
            match decode_assets_field(val) {
                Some(x) => {
                    assets = Some(x);
                },
                None => {
                    proof {
                        assert(!plugin_entry_ok(t0[k as int]));
                    }
                    return None;
                },
            }
        } else if str_eq(key.as_str(), "auto_detect_packages") {
            match take_bool(val) {
                Some(b) => {
                    auto_detect = Some(b);
                },
                None => {
                    proof {
                        assert(!plugin_entry_ok(t0[k as int]));
                    }
                    return None;
                },
            }
        } else if str_eq(key.as_str(), "reset_footnotes") {
            match take_bool(val) {
                Some(b) => {
                    reset = Some(b);
                },
                None => {
                    proof {
                        assert(!plugin_entry_ok(t0[k as int]));
                    }
                    return None;
                },
            }
        } else {
            proof {
                assert(!plugin_keys().contains(key@));
            }
            extra.push((key, val));
        }
        k += 1;
    }
    proof {
        assert(t0.take(k as int) =~= t0);
    }
    Some(PluginSection { spine, assets, auto_detect_packages: auto_detect, reset_footnotes: reset, extra })
}

// ─── rheo.toml ──────────────────────────────────────────────────────────────

/// The top-level keys rheo knows; any other table is a plugin's.
pub open spec fn config_keys() -> Seq<Seq<char>> {
    seq![
        "version"@,
        "content_dir"@,
        "build_dir"@,
        "formats"@,
        "copy"@,
        "font_dirs"@,
        "marrow"@,
        "marrow_prologue"@,
        "spine"@,
    ]
}

/// Whether one top-level entry holds what its key expects. A table under
/// an unknown key is a plugin table; any other value there is ignored.
pub open spec fn config_entry_ok(e: (String, TomlValue)) -> bool {
    if e.0@ == "version"@ || e.0@ == "content_dir"@ || e.0@ == "build_dir"@ || e.0@ == "marrow"@ {
        e.1 is Str
    } else if e.0@ == "formats"@ || e.0@ == "copy"@ || e.0@ == "font_dirs"@ {
        strs_value(e.1) is Some
    } else if e.0@ == "marrow_prologue"@ {
        e.1 is Bool
    } else if e.0@ == "spine"@ {
        spine_ok(e.1)
    } else {
        match e.1 {
            TomlValue::Table(tt) => plugin_ok(tt@),
            _ => true,
        }
    }
}

/// Whether the top-level entries `t` make a configuration: each entry holds
/// what its key expects, and `version` is set.
pub open spec fn config_ok(t: Seq<(String, TomlValue)>) -> bool {
    &&& forall|i: int| 0 <= i < t.len() ==> config_entry_ok(#[trigger] t[i])
    &&& str_under(t, "version"@) is Some
}

/// The plugin tables among the top-level entries: each unknown key that
/// holds a table, with that table, in order.
pub open spec fn plugin_tables(t: Seq<(String, TomlValue)>) -> Seq<(Seq<char>, Seq<(String, TomlValue)>)>
    decreases t.len(),
{
    if t.len() == 0 {
        Seq::empty()
    } else {
        let rest = plugin_tables(t.drop_last());
        if !config_keys().contains(t.last().0@) && t.last().1 is Table {
            rest.push((t.last().0@, t.last().1->Table_0@))
        } else {
            rest
        }
    }
}

/// Whether `c` is what the top-level entries `t` say.
pub open spec fn config_is(t: Seq<(String, TomlValue)>, c: RheoConfig) -> bool {
    &&& Some(c.version@) == str_under(t, "version"@)
    &&& opt_text(c.content_dir) == str_under(t, "content_dir"@)
    &&& opt_text(c.build_dir) == str_under(t, "build_dir"@)
    &&& texts(c.formats@) == strs_or_empty(t, "formats"@)
    &&& texts(c.copy@) == strs_or_empty(t, "copy"@)
    &&& texts(c.font_dirs@) == strs_or_empty(t, "font_dirs"@)
    &&& opt_text(c.marrow) == str_under(t, "marrow"@)
    &&& c.marrow_prologue == bool_under(t, "marrow_prologue"@)
    &&& match c.spine {
        Some(sp) => last_under(t, "spine"@) matches Some(v) && spine_is(v, sp),
        None => last_under(t, "spine"@) is None,
    }
    &&& sections_are_plugins(plugin_tables(t), c.plugin_sections@)
}

/// Whether each plugin section is what its table says, under its key.
pub open spec fn sections_are_plugins(
    tables: Seq<(Seq<char>, Seq<(String, TomlValue)>)>,
    sections: Seq<(String, PluginSection)>,
) -> bool {
    &&& tables.len() == sections.len()
    &&& forall|i: int| 0 <= i < tables.len() ==> (#[trigger] sections[i]).0@ == tables[i].0 && plugin_is(
        tables[i].1,
        sections[i].1,
    )
}

/// The key of the first top-level entry that does not hold what its key
/// expects.
pub open spec fn bad_key(t: Seq<(String, TomlValue)>) -> Option<Seq<char>>
    decreases t.len(),
{
    if t.len() == 0 {
        None
    } else if !config_entry_ok(t[0]) {
        Some(t[0].0@)
    } else {
        bad_key(t.drop_first())
    }
}

/// Why the top-level entries `t` are not a configuration.
pub open spec fn config_error(t: Seq<(String, TomlValue)>) -> Seq<char> {
    match bad_key(t) {
        Some(k) => "wrong type or shape for `"@ + k + "`"@,
        None => "missing field `version`"@,
    }
}

proof fn lemma_bad_key(t: Seq<(String, TomlValue)>, k: int)
    requires
        0 <= k <= t.len(),
        forall|j: int| 0 <= j < k ==> config_entry_ok(#[trigger] t[j]),
    ensures
        k < t.len() && !config_entry_ok(t[k]) ==> bad_key(t) == Some(t[k].0@),
        k == t.len() ==> bad_key(t) is None,
    decreases k,
{
    if k > 0 {
        assert forall|j: int| 0 <= j < k - 1 implies config_entry_ok(#[trigger] t.drop_first()[j]) by {
            assert(t.drop_first()[j] == t[j + 1]);
        }
        lemma_bad_key(t.drop_first(), k - 1);
        assert(config_entry_ok(t[0]));
        if k < t.len() {
            assert(t.drop_first()[k - 1] == t[k]);
        }
    }
}

/// The configuration the top-level entries `t` of `rheo.toml` say; why they
/// are not one otherwise: the first entry whose value has the wrong shape
/// for its key, or a missing `version`.
pub fn config_from_table(t: Vec<(String, TomlValue)>) -> (r: Result<RheoConfig, String>)
    ensures
        r is Ok == config_ok(t@),
        r matches Ok(c) ==> config_is(t@, c),
        r matches Err(e) ==> e@ == config_error(t@),
{
    let ghost t0 = t@;
    let n = t.len();
    let mut rest = t;
    let mut version: Option<String> = None;
    let mut content_dir: Option<String> = None;
    let mut build_dir: Option<String> = None;
    let mut formats: Vec<String> = Vec::new();
    let mut copy: Vec<String> = Vec::new();
    let mut font_dirs: Vec<String> = Vec::new();
    let mut marrow: Option<String> = None;
    let mut marrow_prologue: Option<bool> = None;
    let mut spine: Option<Spine> = None;
    let mut plugin_sections: Vec<(String, PluginSection)> = Vec::new();
    let mut k: usize = 0;
    while rest.len() > 0
        invariant
            t@ == t0,
            t0.len() == n,
            k <= n,
            rest@ == t0.skip(k as int),
            forall|j: int| 0 <= j < k ==> config_entry_ok(#[trigger] t0[j]),
            opt_text(version) == str_under(t0.take(k as int), "version"@),
            opt_text(content_dir) == str_under(t0.take(k as int), "content_dir"@),
            opt_text(build_dir) == str_under(t0.take(k as int), "build_dir"@),
            texts(formats@) == strs_or_empty(t0.take(k as int), "formats"@),
            texts(copy@) == strs_or_empty(t0.take(k as int), "copy"@),
            texts(font_dirs@) == strs_or_empty(t0.take(k as int), "font_dirs"@),
            opt_text(marrow) == str_under(t0.take(k as int), "marrow"@),
            marrow_prologue == bool_under(t0.take(k as int), "marrow_prologue"@),
            match spine {
                Some(sp) => last_under(t0.take(k as int), "spine"@) matches Some(v) && spine_is(v, sp),
                None => last_under(t0.take(k as int), "spine"@) is None,
            },
            sections_are_plugins(plugin_tables(t0.take(k as int)), plugin_sections@),
        decreases rest@.len(),
    {
        proof {
            reveal_strlit("version");
            reveal_strlit("content_dir");
            reveal_strlit("build_dir");
            reveal_strlit("formats");
            reveal_strlit("copy");
            reveal_strlit("font_dirs");
            reveal_strlit("marrow");
            reveal_strlit("marrow_prologue");
            reveal_strlit("spine");
            assert("version"@[0] == 'v' && "content_dir"@[0] == 'c' && "build_dir"@[0] == 'b');
            assert("formats"@[0] == 'f' && "copy"@[0] == 'c' && "font_dirs"@[0] == 'f');
            assert("marrow"@[0] == 'm' && "marrow_prologue"@[0] == 'm' && "spine"@[0] == 's');
            assert("content_dir"@.len() == 11 && "copy"@.len() == 4);
            assert("formats"@.len() == 7 && "font_dirs"@.len() == 9);
            assert("marrow"@.len() == 6 && "marrow_prologue"@.len() == 15);
            assert(rest@[0] == t0[k as int]);
            assert(t0.take(k + 1).drop_last() =~= t0.take(k as int));
            assert(t0.take(k + 1)[k as int] == t0[k as int]);
            assert(config_keys()[0] == "version"@ && config_keys()[1] == "content_dir"@);
            assert(config_keys()[2] == "build_dir"@ && config_keys()[3] == "formats"@);
            assert(config_keys()[4] == "copy"@ && config_keys()[5] == "font_dirs"@);
            assert(config_keys()[6] == "marrow"@ && config_keys()[7] == "marrow_prologue"@);
            assert(config_keys()[8] == "spine"@);
        }
        let (key, val) = rest.remove(0);
        proof {
            assert(rest@ =~= t0.skip(k + 1));
        }
        let mut ok = true;
        if str_eq(key.as_str(), "version") {
            match take_str(val) {
                Some(x) => {
                    version = Some(x);
                },
                None => {
                    ok = false;
                },
            }
        } else if str_eq(key.as_str(), "content_dir") {
            match take_str(val) {
                Some(x) => {
                    content_dir = Some(x);
                },
                None => {
                    ok = false;
                },
            }
        } else if str_eq(key.as_str(), "build_dir") {
            match take_str(val) {
                Some(x) => {
                    build_dir = Some(x);
                },
                None => {
                    ok = false;
                },
            }
        } else if str_eq(key.as_str(), "marrow") {
            match take_str(val) {
                Some(x) => {
                    marrow = Some(x);
                },
                None => {
                    ok = false;
                },
            }
        } else if str_eq(key.as_str(), "formats") {
            match take_strs(val) {
                Some(x) => {
                    formats = x;
                },
                None => {
                    ok = false;
                },
            }
        } else if str_eq(key.as_str(), "copy") {
            match take_strs(val) {
                Some(x) => {
                    copy = x;
                },
                None => {
                    ok = false;
                },
            }
        } else if str_eq(key.as_str(), "font_dirs") {
            match take_strs(val) {
                Some(x) => {
                    font_dirs = x;
                },
                None => {
                    ok = false;
                },
            }
        } else if str_eq(key.as_str(), "marrow_prologue") {
            match take_bool(val) {
                Some(b) => {
                    marrow_prologue = Some(b);
                },
                None => {
                    ok = false;
                },
            }
        } else if str_eq(key.as_str(), "spine") {
            match decode_spine(val) {
                Some(x) => {
                    spine = Some(x);
                },
                None => {
                    ok = false;
                },
            }
        } else {
            proof {
                assert(!config_keys().contains(key@));
            }
            match val {
                TomlValue::Table(tt) => {
                    let ghost before = plugin_sections@;
                    let ghost tables = plugin_tables(t0.take(k as int));
                    match decode_plugin(tt) {
                        Some(section) => {
                            plugin_sections.push((owned(key.as_str()), section));
                            proof {
                                assert(plugin_tables(t0.take(k + 1)) == tables.push(
                                    (t0[k as int].0@, t0[k as int].1->Table_0@),
                                ));
                                assert forall|i: int| 0 <= i < plugin_tables(t0.take(k + 1)).len() implies
                                    (#[trigger] plugin_sections@[i]).0@ == plugin_tables(t0.take(k + 1))[i].0
                                    && plugin_is(plugin_tables(t0.take(k + 1))[i].1, plugin_sections@[i].1) by {
                                    if i < tables.len() {
                                        assert(plugin_sections@[i] == before[i]);
                                    }
                                }
                            }
                        },
                        None => {
                            ok = false;
                        },
                    }
                },
                _ => {},
            }
        }
        if !ok {
            proof {
                assert(!config_entry_ok(t0[k as int]));
                lemma_bad_key(t0, k as int);
            }
            let mut message = owned("wrong type or shape for `");
            push_str(&mut message, key.as_str());
            push_str(&mut message, "`");
            return Err(message);
        }
        k += 1;
    }
    proof {
        assert(t0.take(k as int) =~= t0);
        lemma_bad_key(t0, k as int);
    }
    match version {
        Some(v) => Ok(
            RheoConfig {
                version: v,
                content_dir,
                build_dir,
                formats,
                copy,
                font_dirs,
                plugin_sections,
                spine,
                marrow,
                marrow_prologue,
            },
        ),
        None => Err(owned("missing field `version`")),
    }
}

/// Whether a configuration passes validation: no spine table, global or a
/// plugin's, sets both the ordered glob list and `section`.
pub open spec fn config_valid(c: RheoConfig) -> bool {
    !conflicting(c.spine) && plugin_spine_error(c.plugin_sections@) is None
}

impl RheoConfig {
    /// Parse the text of a configuration file, shape it, and validate it.
    /// Every failure is a configuration error that begins `invalid <label>: `.
    pub fn from_toml_str(text: &str, label: &str) -> (r: Result<RheoConfig, RheoError>)
        ensures
            match toml_parse(text@) {
                Err(e) => r matches Err(RheoError::ProjectConfig { message })
                    && message@ == "invalid "@ + label@ + ": "@ + e,
                Ok(t) => if !config_ok(t) {
                    r matches Err(RheoError::ProjectConfig { message })
                        && message@ == "invalid "@ + label@ + ": "@ + config_error(t)
                } else {
                    &&& r matches Ok(c) ==> config_is(t, c) && config_valid(c)
                    &&& r is Err ==> exists|c: RheoConfig| config_is(t, c) && !config_valid(c)
                },
            },
    {
        match parse_toml(text) {
            Err(e) => {
                let mut message = owned("invalid ");
                push_str(&mut message, label);
                push_str(&mut message, ": ");
                push_str(&mut message, e.as_str());
                Err(RheoError::ProjectConfig { message })
            },
            Ok(t) => {
                let ghost t0 = t@;
                match config_from_table(t) {
                    Err(e) => {
                        let mut message = owned("invalid ");
                        push_str(&mut message, label);
                        push_str(&mut message, ": ");
                        push_str(&mut message, e.as_str());
                        Err(RheoError::ProjectConfig { message })
                    },
                    Ok(c) => match c.validate() {
                        Ok(()) => Ok(c),
                        Err(e) => {
                            proof {
                                assert(config_is(t0, c) && !config_valid(c));
                            }
                            Err(e)
                        },
                    },
                }
            },
        }
    }
}

} // verus!
