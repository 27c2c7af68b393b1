//! Editing `rheo.toml` in place for `rheo migrate`: toml_edit keeps the
//! user's comments and formatting while the retired `vertebrae` lists turn
//! into `exclude` lists and the manifest's version is raised.
//!
//! A document is seen through its entries: every item below the root that
//! is reached through tables and inline tables, at its key path, as a kind
//! and the strings it holds. Kind 0 is a table or an inline table, 1 a string (one
//! element, the string), 2 an array (each element's string, or none for an
//! element that is not a string), 3 anything else.

use vstd::prelude::*;
use crate::config::texts;
use crate::error::RheoError;
use crate::text::{owned, push_str};
use toml_edit::{DocumentMut, TomlError};

verus! {

/// toml_edit's editable document.
#[verifier::external_type_specification]
#[verifier::external_body]
pub struct ExDocumentMut(DocumentMut);

/// toml_edit's parse error.
#[verifier::external_type_specification]
#[verifier::external_body]
pub struct ExTomlError(TomlError);

/// The entries of the document toml_edit parses from `text`, or `None`
/// when it refuses the text.
pub uninterp spec fn toml_edit_entries(text: Seq<char>) -> Option<Map<Seq<Seq<char>>, (u8, Seq<Option<Seq<char>>>)>>;

/// The entries a document holds.
pub uninterp spec fn doc_entries(doc: DocumentMut) -> Map<Seq<Seq<char>>, (u8, Seq<Option<Seq<char>>>)>;

/// Whether `q` lies at or under `p`.
pub open spec fn under(q: Seq<Seq<char>>, p: Seq<Seq<char>>) -> bool {
    q.len() >= p.len() && q.take(p.len() as int) == p
}

/// The entries without the one at `p` and everything under it.
pub open spec fn without_subtree(
    m: Map<Seq<Seq<char>>, (u8, Seq<Option<Seq<char>>>)>,
    p: Seq<Seq<char>>,
) -> Map<Seq<Seq<char>>, (u8, Seq<Option<Seq<char>>>)> {
    Map::new(|q: Seq<Seq<char>>| m.contains_key(q) && !under(q, p), |q: Seq<Seq<char>>| m[q])
}

/// Whether the entry at `p` is a table or an inline table.
pub open spec fn is_table_entry(m: Map<Seq<Seq<char>>, (u8, Seq<Option<Seq<char>>>)>, p: Seq<Seq<char>>) -> bool {
    m.contains_key(p) && m[p].0 == 0
}

/// Whether the entry at `p` is an array.
pub open spec fn is_array_entry(m: Map<Seq<Seq<char>>, (u8, Seq<Option<Seq<char>>>)>, p: Seq<Seq<char>>) -> bool {
    m.contains_key(p) && m[p].0 == 2
}

/// Optional strings as text.
pub open spec fn opt_texts(v: Seq<Option<String>>) -> Seq<Option<Seq<char>>> {
    v.map_values(|o: Option<String>| match o {
        Some(s) => Some(s@),
        None => None,
    })
}

/// Parses `text` with the `FromStr` of `toml_edit::DocumentMut`. The
/// contract claims that the answer, and the document's entries, are toml_edit's
/// for this text, by name.
#[verifier::external_body]
fn parse_document(text: &str) -> (r: Result<DocumentMut, TomlError>)
    ensures
        r is Ok <==> toml_edit_entries(text@) is Some,
        r matches Ok(d) ==> toml_edit_entries(text@) == Some(doc_entries(d)),
{
    text.parse::<DocumentMut>()
}

/// The text of a parse error, as its `Display` writes it. Nothing is
/// claimed of the text.
#[verifier::external_body]
fn parse_error_text(e: &TomlError) -> String {
    e.to_string()
}

/// Whether the item at `path` (one or two keys, reached through tables and
/// inline tables with `get` and `as_table_like`) is a table or an inline
/// table, by `Item::is_table_like`.
#[verifier::external_body]
fn is_table_at(doc: &DocumentMut, path: &Vec<String>) -> (r: bool)
    requires
        1 <= path@.len() <= 2,
    ensures
        r == is_table_entry(doc_entries(*doc), texts(path@)),
{
    let item = doc.get(&path[0]);
    let item = if path.len() == 2 { item.and_then(|i| i.as_table_like()).and_then(|t| t.get(&path[1])) } else { item };
    item.is_some_and(|i| i.is_table_like())
}

/// `TableLike::remove` of `key` in the table at `table` (one or two keys,
/// reached with `get_mut` and `as_table_like_mut`), when that item is a table
/// or an inline table; the document is unchanged otherwise.
#[verifier::external_body]
fn remove_key(doc: &mut DocumentMut, table: &Vec<String>, key: &str)
    requires
        1 <= table@.len() <= 2,
    ensures
        doc_entries(*final(doc)) == if is_table_entry(doc_entries(*old(doc)), texts(table@)) {
            without_subtree(doc_entries(*old(doc)), texts(table@).push(key@))
        } else {
            doc_entries(*old(doc))
        },
{
    let item = doc.get_mut(&table[0]);
    let item = if table.len() == 2 { item.and_then(|i| i.as_table_like_mut()).and_then(|t| t.get_mut(&table[1])) } else { item };
    if let Some(t) = item.and_then(|i| i.as_table_like_mut()) {
        t.remove(key);
    }
}

/// The elements of the array under `key` in the table at `table` (one or
/// two keys, reached as in [`is_table_at`]), each by `Value::as_str`; `None`
/// when that item is not an array, by `Item::as_array`.
#[verifier::external_body]
fn array_strings(doc: &DocumentMut, table: &Vec<String>, key: &str) -> (r: Option<Vec<Option<String>>>)
    requires
        1 <= table@.len() <= 2,
    ensures
        r is Some <==> is_array_entry(doc_entries(*doc), texts(table@).push(key@)),
        r matches Some(v) ==> opt_texts(v@) == doc_entries(*doc)[texts(table@).push(key@)].1,
{
    let item = doc.get(&table[0]);
    let item = if table.len() == 2 { item.and_then(|i| i.as_table_like()).and_then(|t| t.get(&table[1])) } else { item };
    let item = item.and_then(|i| i.as_table_like()).and_then(|t| t.get(key));
    item.and_then(|i| i.as_array()).map(|a| a.iter().map(|v| v.as_str().map(|s| s.to_string())).collect())
}

/// `Array::push` of the string `s` onto the array under `key` in the table
/// at `table` (reached as in [`remove_key`], then `as_array_mut`).
#[verifier::external_body]
fn push_string(doc: &mut DocumentMut, table: &Vec<String>, key: &str, s: &str)
    requires
        1 <= table@.len() <= 2,
        is_array_entry(doc_entries(*old(doc)), texts(table@).push(key@)),
    ensures
        doc_entries(*final(doc)) == doc_entries(*old(doc)).insert(
            texts(table@).push(key@),
            (2u8, doc_entries(*old(doc))[texts(table@).push(key@)].1.push(Some(s@))),
        ),
{
    let item = doc.get_mut(&table[0]);
    let item = if table.len() == 2 { item.and_then(|i| i.as_table_like_mut()).and_then(|t| t.get_mut(&table[1])) } else { item };
    let item = item.and_then(|i| i.as_table_like_mut()).and_then(|t| t.get_mut(key));
    if let Some(a) = item.and_then(|i| i.as_array_mut()) {
        a.push(s);
    }
}

/// `TableLike::insert` of `key` holding an array of `items` into the table
/// at `table` (one or two keys, reached as in [`remove_key`]), replacing
/// whatever the key held.
#[verifier::external_body]
fn insert_array(doc: &mut DocumentMut, table: &Vec<String>, key: &str, items: &Vec<String>)
    requires
        1 <= table@.len() <= 2,
        is_table_entry(doc_entries(*old(doc)), texts(table@)),
    ensures
        doc_entries(*final(doc)) == without_subtree(doc_entries(*old(doc)), texts(table@).push(key@)).insert(
            texts(table@).push(key@),
            (2u8, texts(items@).map_values(|s: Seq<char>| Some(s))),
        ),
{
    let item = doc.get_mut(&table[0]);
    let item = if table.len() == 2 { item.and_then(|i| i.as_table_like_mut()).and_then(|t| t.get_mut(&table[1])) } else { item };
    if let Some(t) = item.and_then(|i| i.as_table_like_mut()) {
        t.insert(key, toml_edit::value(items.iter().map(|s| s.as_str()).collect::<toml_edit::Array>()));
    }
}

/// `doc[key] = toml_edit::value(value)`: the top-level `key` set to the
/// string `value`, replacing whatever it held.
#[verifier::external_body]
fn set_top_string(doc: &mut DocumentMut, key: &str, value: &str)
    ensures
        doc_entries(*final(doc)) == set_top(doc_entries(*old(doc)), key@, value@),
{
    doc[key] = toml_edit::value(value);
}

// ─── Specifications ─────────────────────────────────────────────────────────

/// The entries with the top-level `key` set to the string `value`.
pub open spec fn set_top(
    m: Map<Seq<Seq<char>>, (u8, Seq<Option<Seq<char>>>)>,
    key: Seq<char>,
    value: Seq<char>,
) -> Map<Seq<Seq<char>>, (u8, Seq<Option<Seq<char>>>)> {
    without_subtree(m, seq![key]).insert(seq![key], (1u8, seq![Some(value)]))
}

/// The key path of a `[spine]` table: the global one, or a plugin's.
pub open spec fn spine_path(plugin: Option<Seq<char>>) -> Seq<Seq<char>> {
    match plugin {
        Some(p) => seq![p, "spine"@],
        None => seq!["spine"@],
    }
}

/// An array's elements with each of `added` appended unless a string
/// element already equals it, in order.
pub open spec fn merge_into(arr: Seq<Option<Seq<char>>>, added: Seq<Seq<char>>) -> Seq<Option<Seq<char>>>
    decreases added.len(),
{
    if added.len() == 0 {
        arr
    } else {
        let before = merge_into(arr, added.drop_last());
        if before.contains(Some(added.last())) {
            before
        } else {
            before.push(Some(added.last()))
        }
    }
}

/// One site's edit: in the spine table of `plugin`, when it is a table,
/// `vertebrae` removed and, when files are newly excluded, each appended to
/// an `exclude` array not already listing it, or `exclude` set to an array
/// of them when it holds no array.
pub open spec fn site_step(
    m: Map<Seq<Seq<char>>, (u8, Seq<Option<Seq<char>>>)>,
    plugin: Option<Seq<char>>,
    added: Seq<Seq<char>>,
) -> Map<Seq<Seq<char>>, (u8, Seq<Option<Seq<char>>>)> {
    let p = spine_path(plugin);
    let ex = p.push("exclude"@);
    if !is_table_entry(m, p) {
        m
    } else {
        let m1 = without_subtree(m, p.push("vertebrae"@));
        if added.len() == 0 {
            m1
        } else if is_array_entry(m1, ex) {
            m1.insert(ex, (2u8, merge_into(m1[ex].1, added)))
        } else {
            without_subtree(m1, ex).insert(ex, (2u8, added.map_values(|s: Seq<char>| Some(s))))
        }
    }
}

/// The sites' edits, in order.
pub open spec fn sites_applied(
    m: Map<Seq<Seq<char>>, (u8, Seq<Option<Seq<char>>>)>,
    sites: Seq<(Option<Seq<char>>, Seq<Seq<char>>)>,
) -> Map<Seq<Seq<char>>, (u8, Seq<Option<Seq<char>>>)>
    decreases sites.len(),
{
    if sites.len() == 0 {
        m
    } else {
        site_step(sites_applied(m, sites.drop_last()), sites.last().0, sites.last().1)
    }
}

/// Sites as plain values.
pub open spec fn sites_view(sites: Seq<(Option<String>, Vec<String>)>) -> Seq<(Option<Seq<char>>, Seq<Seq<char>>)> {
    sites.map_values(
        |s: (Option<String>, Vec<String>)|
            (
                match s.0 {
                    Some(p) => Some(p@),
                    None => None,
                },
                texts(s.1@),
            ),
    )
}

/// The message for a manifest toml_edit refuses, up to the parser's own
/// words.
pub open spec fn parse_failure_prefix(path: Seq<char>) -> Seq<char> {
    "failed to parse "@ + path + ": "@
}

// ─── Exec ───────────────────────────────────────────────────────────────────

/// The key path of a `[spine]` table.
fn spine_path_exec(plugin: &Option<String>) -> (r: Vec<String>)
    ensures
        texts(r@) == spine_path(match plugin {
            Some(p) => Some(p@),
            None => None,
        }),
{
    let mut r: Vec<String> = Vec::new();
    match plugin {
        Some(p) => r.push(owned(p.as_str())),
        None => {},
    }
    r.push(owned("spine"));
    proof {
        reveal_strlit("spine");
        assert(texts(r@) =~= spine_path(match plugin {
            Some(p) => Some(p@),
            None => None,
        }));
    }
    r
}

/// Whether a string element already equals `s`.
fn lists(items: &Vec<Option<String>>, s: &str) -> (b: bool)
    ensures
        b == opt_texts(items@).contains(Some(s@)),
{
    let mut i: usize = 0;
    while i < items.len()
        invariant
            i <= items@.len(),
            forall|k: int| 0 <= k < i ==> opt_texts(items@)[k] != Some(s@),
        decreases items@.len() - i,
    {
        match &items[i] {
            Some(x) => if crate::text::str_eq(x.as_str(), s) {
                proof {
                    assert(opt_texts(items@)[i as int] == Some(s@));
                }
                return true;
            },
            None => {},
        }
        i += 1;
    }
    false
}

/// One site's edit.
fn apply_site(doc: &mut DocumentMut, plugin: &Option<String>, added: &Vec<String>)
    ensures
        doc_entries(*final(doc)) == site_step(
            doc_entries(*old(doc)),
            match plugin {
                Some(p) => Some(p@),
                None => None,
            },
            texts(added@),
        ),
{
    let ghost m = doc_entries(*doc);
    let ghost pv = match plugin {
        Some(p) => Some(p@),
        None => None,
    };
    let p = spine_path_exec(plugin);
    proof {
        assert(texts(p@).len() == p@.len());
    }
    if !is_table_at(doc, &p) {
        return;
    }
    remove_key(doc, &p, "vertebrae");
    proof {
        reveal_strlit("vertebrae");
        reveal_strlit("exclude");
        assert(texts(p@).push("vertebrae"@) =~= spine_path(pv).push("vertebrae"@));
    }
    let ghost m1 = doc_entries(*doc);
    if added.len() == 0 {
        proof {
            assert(texts(added@).len() == 0);
        }
        return;
    }
    let ghost ex = spine_path(pv).push("exclude"@);
    proof {
        assert(texts(p@).push("exclude"@) =~= ex);
        assert(!under(texts(p@), texts(p@).push("vertebrae"@)));
        assert(is_table_entry(m1, texts(p@)));
    }
    match array_strings(doc, &p, "exclude") {
        Some(current) => {
            let ghost av = texts(added@);
            let mut items = current;
            let mut j: usize = 0;
            proof {
                assert(av.take(0) =~= Seq::<Seq<char>>::empty());
            }
            while j < added.len()
                invariant
                    j <= added@.len(),
                    av == texts(added@),
                    1 <= p@.len() <= 2,
                    ex == texts(p@).push("exclude"@),
                    is_array_entry(doc_entries(*doc), ex),
                    doc_entries(*doc) == m1.insert(ex, (2u8, opt_texts(items@))),
                    opt_texts(items@) == merge_into(m1[ex].1, av.take(j as int)),
                    is_array_entry(m1, ex),
                decreases added@.len() - j,
            {
                proof {
                    assert(av.take(j + 1).drop_last() =~= av.take(j as int));
                    assert(av.take(j + 1).last() == added@[j as int]@);
                }
                if !lists(&items, added[j].as_str()) {
                    push_string(doc, &p, "exclude", added[j].as_str());
                    items.push(Some(owned(added[j].as_str())));
                    proof {
                        assert(opt_texts(items@) =~= merge_into(m1[ex].1, av.take(j as int)).push(
                            Some(added@[j as int]@),
                        ));
                        assert(doc_entries(*doc) =~= m1.insert(ex, (2u8, opt_texts(items@))));
                    }
                }
                j += 1;
            }
            proof {
                assert(av.take(j as int) =~= av);
                assert(m1.insert(ex, (2u8, m1[ex].1)) =~= m1);
            }
        },
        None => {
            insert_array(doc, &p, "exclude", added);
        },
    }
}

/// Migrate the text of a `rheo.toml` read from `path` with toml_edit, so
/// comments and formatting survive: for each site, its spine table loses
/// `vertebrae` and gains the newly excluded files in `exclude`
/// ([`site_step`]), then `version` is set to `target`. A text toml_edit
/// refuses is a project-config error naming `path` and the parser's words.
/// The edited document is returned for its caller to write out.
pub fn migrate_manifest(path: &str, text: &str, target: &str, sites: &Vec<(Option<String>, Vec<String>)>) -> (r:
    Result<DocumentMut, RheoError>)
    ensures
        r is Err <==> toml_edit_entries(text@) is None,
        r matches Err(e) ==> (e matches RheoError::ProjectConfig { message } && message@.take(
            parse_failure_prefix(path@).len() as int,
        ) == parse_failure_prefix(path@)),
        r matches Ok(d) ==> doc_entries(d) == set_top(
            sites_applied(toml_edit_entries(text@)->Some_0, sites_view(sites@)),
            "version"@,
            target@,
        ),
{
    let mut doc = match parse_document(text) {
        Ok(d) => d,
        Err(e) => {
            let mut message = owned("failed to parse ");
            push_str(&mut message, path);
            push_str(&mut message, ": ");
            let ghost head = message@;
            let words = parse_error_text(&e);
            push_str(&mut message, words.as_str());
            proof {
                reveal_strlit("failed to parse ");
                reveal_strlit(": ");
                assert(head == parse_failure_prefix(path@));
                assert(message@.take(head.len() as int) =~= head);
            }
            return Err(RheoError::ProjectConfig { message });
        },
    };
    let ghost m0 = doc_entries(doc);
    let ghost sv = sites_view(sites@);
    let mut i: usize = 0;
    proof {
        assert(sv.take(0) =~= Seq::<(Option<Seq<char>>, Seq<Seq<char>>)>::empty());
    }
    while i < sites.len()
        invariant
            i <= sites@.len(),
            sv == sites_view(sites@),
            doc_entries(doc) == sites_applied(m0, sv.take(i as int)),
        decreases sites@.len() - i,
    {
        proof {
            assert(sv.take(i + 1).drop_last() =~= sv.take(i as int));
            assert(sv.take(i + 1).last() == sv[i as int]);
        }
        apply_site(&mut doc, &sites[i].0, &sites[i].1);
        i += 1;
    }
    proof {
        assert(sv.take(i as int) =~= sv);
    }
    set_top_string(&mut doc, "version", target);
    Ok(doc)
}

} // verus!
