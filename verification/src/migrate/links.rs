//! Rewriting old `#link("./file.typ")` calls to the `#link(<handle>)` form
//! that releases before 0.4.0 did not know.

use vstd::prelude::*;
use crate::migrate::edits::{applied, apply_edits, edits_fit, edits_fit_exec, sort_edits, sort_edits_exec, TextEdit};
use crate::migrate::sites::{link_targets_of, LinkTarget};
use crate::parser::syntax::{source_visits, typst_parse};
use crate::paths::{components, lemma_path_eq_components, path_eq, path_eq_exec, resolve_href, resolve_href_spec};
use crate::text::{chars_of, contains_seq, find_seq, owned, push_str};

verus! {

/// The old-style link targets of a text, in document order: each as its
/// href, the byte range of its string literal, and where the call starts.
pub open spec fn text_links(text: Seq<char>) -> Seq<(Seq<char>, int, int, int)> {
    let t = typst_parse(text);
    if t.len < usize::MAX {
        link_targets_of(source_visits(t))
    } else {
        Seq::empty()
    }
}

/// The handle of the first entry whose path is `path`, compared as paths
/// are: component by component.
pub open spec fn handle_for(handles: Seq<(Seq<char>, Seq<char>)>, path: Seq<char>) -> Option<Seq<char>>
    decreases handles.len(),
{
    if handles.len() == 0 {
        None
    } else if path_eq(handles[0].0, path) {
        Some(handles[0].1)
    } else {
        handle_for(handles.drop_first(), path)
    }
}

/// The handle looked up for a path is that of the first entry whose path has
/// exactly the same components; there is none when no entry's path does.
pub proof fn lemma_handle_for_exact(handles: Seq<(Seq<char>, Seq<char>)>, path: Seq<char>)
    ensures
        handle_for(handles, path) is None <==> forall|i: int|
            0 <= i < handles.len() ==> components(#[trigger] handles[i].0) != components(path),
        handle_for(handles, path) matches Some(h) ==> exists|i: int|
            0 <= i < handles.len() && components(#[trigger] handles[i].0) == components(path) && handles[i].1 == h
                && forall|j: int| 0 <= j < i ==> components(#[trigger] handles[j].0) != components(path),
    decreases handles.len(),
{
    if handles.len() > 0 {
        let rest = handles.drop_first();
        lemma_handle_for_exact(rest, path);
        lemma_path_eq_components(handles[0].0, path);
        if components(handles[0].0) == components(path) {
            assert(0 <= 0 < handles.len() && components(handles[0].0) == components(path));
        } else {
            assert forall|i: int| 0 <= i < rest.len() implies #[trigger] rest[i] == handles[i + 1] by {}
            if handle_for(rest, path) is None {
                assert forall|i: int| 0 <= i < handles.len() implies components(#[trigger] handles[i].0)
                    != components(path) by {
                    if i > 0 {
                        assert(rest[i - 1] == handles[i]);
                    }
                }
            } else {
                let h = handle_for(rest, path)->Some_0;
                let i = choose|i: int|
                    0 <= i < rest.len() && components(#[trigger] rest[i].0) == components(path) && rest[i].1 == h
                        && forall|j: int| 0 <= j < i ==> components(#[trigger] rest[j].0) != components(path);
                assert(handles[i + 1] == rest[i]);
                assert forall|j: int| 0 <= j < i + 1 implies components(#[trigger] handles[j].0) != components(path) by {
                    if j > 0 {
                        assert(handles[j] == rest[j - 1]);
                    }
                }
                assert(components(rest[i].0) == components(path));
                assert(0 <= i + 1 < handles.len() && components(handles[i + 1].0) == components(path));
            }
        }
    }
}

/// The replacement a link gets: none for an external URL or a target that
/// has no handle; else its string literal becomes `<handle>`.
pub open spec fn link_edit(
    l: (Seq<char>, int, int, int),
    file_dir: Seq<char>,
    content_dir: Seq<char>,
    handles: Seq<(Seq<char>, Seq<char>)>,
) -> Option<(int, int, Seq<char>)> {
    if contains_seq(l.0, "://"@) {
        None
    } else {
        match handle_for(handles, resolve_href_spec(l.0, file_dir, content_dir)) {
            Some(h) => Some((l.1, l.2, "<"@ + h + ">"@)),
            None => None,
        }
    }
}

/// The replacements of a run of links, in order.
pub open spec fn link_edits(
    ls: Seq<(Seq<char>, int, int, int)>,
    file_dir: Seq<char>,
    content_dir: Seq<char>,
    handles: Seq<(Seq<char>, Seq<char>)>,
) -> Seq<(int, int, Seq<char>)>
    decreases ls.len(),
{
    if ls.len() == 0 {
        Seq::empty()
    } else {
        let rest = link_edits(ls.drop_last(), file_dir, content_dir, handles);
        match link_edit(ls.last(), file_dir, content_dir, handles) {
            Some(e) => rest.push(e),
            None => rest,
        }
    }
}

/// An edit as plain values.
pub open spec fn edit_view(e: TextEdit) -> (int, int, Seq<char>) {
    (e.start as int, e.end as int, e.replacement@)
}

/// Path-to-handle pairs as plain values.
pub open spec fn handles_view(handles: Seq<(String, String)>) -> Seq<(Seq<char>, Seq<char>)> {
    handles.map_values(|p: (String, String)| (p.0@, p.1@))
}

/// The handle of the first entry whose path is `path`.
fn handle_for_exec(handles: &Vec<(String, String)>, path: &str) -> (r: Option<String>)
    ensures
        opt_view(r) == handle_for(handles_view(handles@), path@),
{
    let ghost hv = handles_view(handles@);
    let mut i: usize = 0;
    proof {
        assert(hv.skip(0) =~= hv);
    }
    while i < handles.len()
        invariant
            i <= handles@.len(),
            hv == handles_view(handles@),
            handle_for(hv, path@) == handle_for(hv.skip(i as int), path@),
        decreases handles@.len() - i,
    {
        proof {
            assert(hv.skip(i as int)[0] == hv[i as int]);
            assert(hv.skip(i as int).drop_first() =~= hv.skip(i + 1));
        }
        if path_eq_exec(handles[i].0.as_str(), path) {
            return Some(owned(handles[i].1.as_str()));
        }
        i += 1;
    }
    proof {
        assert(hv.skip(i as int).len() == 0);
    }
    None
}

/// The characters of an optional string.
pub open spec fn opt_view(o: Option<String>) -> Option<Seq<char>> {
    match o {
        Some(s) => Some(s@),
        None => None,
    }
}

/// The replacement a link gets, if any.
fn link_edit_exec(l: &LinkTarget, file_dir: &str, content_dir: &str, handles: &Vec<(String, String)>) -> (r:
    Option<TextEdit>)
    ensures
        match link_edit(
            crate::migrate::sites::link_view(*l),
            file_dir@,
            content_dir@,
            handles_view(handles@),
        ) {
            Some(e) => r matches Some(x) && edit_view(x) == e,
            None => r is None,
        },
{
    let hv = chars_of(l.href.as_str());
    let sep = chars_of("://");
    proof {
        reveal_strlit("://");
    }
    if find_seq(&hv, &sep).is_some() {
        return None;
    }
    let resolved = resolve_href(l.href.as_str(), file_dir, content_dir);
    match handle_for_exec(handles, resolved.as_str()) {
        Some(h) => {
            let mut rep = owned("<");
            push_str(&mut rep, h.as_str());
            push_str(&mut rep, ">");
            proof {
                reveal_strlit("<");
                reveal_strlit(">");
            }
            Some(TextEdit { start: l.start, end: l.end, replacement: rep })
        },
        None => None,
    }
}

/// Rewrite the old `#link("./file.typ")` calls of a file in `file_dir` to
/// `#link(<handle>)`: each link whose href is not an external URL (holds no
/// `://`) and whose target, resolved against `file_dir` and `content_dir`,
/// has a handle in `handles` gets its string literal replaced by
/// `<handle>`; nothing else changes. Returns the text and the edits made, in
/// document order. Edits that do not fit the text, which a parse of that
/// text never yields, leave it as written.
pub fn rewrite_links(text: &str, file_dir: &str, content_dir: &str, handles: &Vec<(String, String)>) -> (r: (
    String,
    Vec<TextEdit>,
))
    ensures
        r.1@.map_values(|e: TextEdit| edit_view(e)) == link_edits(
            text_links(text@),
            file_dir@,
            content_dir@,
            handles_view(handles@),
        ),
        r.0@ == (if edits_fit(text@, sort_edits(r.1@)) {
            applied(text@, sort_edits(r.1@), 0)
        } else {
            text@
        }),
{
    let links = LinkTarget::collect(text);
    let ghost lv = links@.map_values(|l: LinkTarget| crate::migrate::sites::link_view(l));
    proof {
        assert(lv == text_links(text@));
    }
    let ghost fd = file_dir@;
    let ghost cd = content_dir@;
    let ghost hs = handles_view(handles@);
    let mut edits: Vec<TextEdit> = Vec::new();
    let mut copy: Vec<TextEdit> = Vec::new();
    let mut probe: Vec<TextEdit> = Vec::new();
    let mut i: usize = 0;
    proof {
        assert(edits@.map_values(|e: TextEdit| edit_view(e)) =~= link_edits(lv.take(0), fd, cd, hs));
    }
    while i < links.len()
        invariant
            i <= links@.len(),
            lv == links@.map_values(|l: LinkTarget| crate::migrate::sites::link_view(l)),
            fd == file_dir@,
            cd == content_dir@,
            hs == handles_view(handles@),
            copy@ == edits@,
            probe@ == edits@,
            edits@.map_values(|e: TextEdit| edit_view(e)) == link_edits(lv.take(i as int), fd, cd, hs),
        decreases links@.len() - i,
    {
        proof {
            assert(lv.take(i + 1).drop_last() =~= lv.take(i as int));
            assert(lv.take(i + 1).last() == crate::migrate::sites::link_view(links@[i as int]));
        }
        match link_edit_exec(&links[i], file_dir, content_dir, handles) {
            Some(e) => {
                let twin = TextEdit { start: e.start, end: e.end, replacement: e.replacement.clone() };
                let third = TextEdit { start: e.start, end: e.end, replacement: e.replacement.clone() };
                let ghost before = edits@;
                edits.push(e);
                copy.push(twin);
                probe.push(third);
                proof {
                    assert(copy@ =~= edits@);
                    assert(probe@ =~= edits@);
                    assert(edits@.map_values(|e: TextEdit| edit_view(e)) =~= before.map_values(
                        |e: TextEdit| edit_view(e),
                    ).push(edit_view(edits@.last())));
                }
            },
            None => {},
        }
        i += 1;
    }
    proof {
        assert(lv.take(i as int) =~= lv);
    }
    let mut out = owned(text);
    let sorted = sort_edits_exec(probe);
    if edits_fit_exec(text, &sorted) {
        apply_edits(&mut out, copy);
    }
    (out, edits)
}

} // verus!
