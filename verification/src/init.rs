//! `rheo init`: what a new project's files hold.
//!
//! Writing the files is the caller's business; this module decides their
//! contents — the `rheo.toml` with every format plugin's options section
//! nested under the plugin's own table, and which plugin writes which
//! template file.

use vstd::prelude::*;
use crate::error::{Result, RheoError};
use crate::paths::{char_alphanumeric, is_alphanumeric};
use crate::text::{
    chars_of, ends_with, first_index_of, is_ws, join, join_exec, lines, lines_exec, owned, push_char, push_str,
    strip_cr,
    replace_all, replace_all_exec, starts_with, str_eq, string_of_range, trim, trim_exec,
};

verus! {

/// A character a bare TOML table name may hold here.
pub open spec fn header_char(c: char) -> bool {
    char_alphanumeric(c) || c == '_' || c == '-' || c == '.'
}

/// A non-empty table name made of header characters.
pub open spec fn valid_header_name(inner: Seq<char>) -> bool {
    inner.len() > 0 && forall|i: int| 0 <= i < inner.len() ==> header_char(#[trigger] inner[i])
}

/// Whether `line` begins with whitespace.
pub open spec fn indented(line: Seq<char>) -> bool {
    line.len() > 0 && is_ws(line[0])
}

/// One line with its table header nested under `prefix`: `[spine]` becomes
/// `[prefix.spine]`, `[[items]]` becomes `[[prefix.items]]`. Only a bare
/// header is rewritten: an indented line, a line already prefixed, or a line
/// that is not a header stays as it is.
pub open spec fn prefix_header_line(line: Seq<char>, prefix: Seq<char>) -> Seq<char> {
    let t = trim(line);
    if indented(line) {
        line
    } else if starts_with(t, "["@ + prefix + "."@) || starts_with(t, "[["@ + prefix + "."@) {
        line
    } else if starts_with(t, "[["@) && ends_with(t.skip(2), "]]"@) {
        let inner = trim(t.subrange(2, t.len() - 2));
        if valid_header_name(inner) {
            replace_all(line, t, "[["@ + prefix + "."@ + inner + "]]"@)
        } else {
            line
        }
    } else if starts_with(t, "["@) && ends_with(t.skip(1), "]"@) {
        let inner = trim(t.subrange(1, t.len() - 1));
        if valid_header_name(inner) {
            replace_all(line, t, "["@ + prefix + "."@ + inner + "]"@)
        } else {
            line
        }
    } else {
        line
    }
}

/// Every line of `content` with its header nested under `prefix`, joined
/// with `\n`.
pub open spec fn prefix_toml_headers_spec(content: Seq<char>, prefix: Seq<char>) -> Seq<char> {
    join(lines(content).map_values(|l: Seq<char>| prefix_header_line(l, prefix)), "\n"@)
}

/// Whether every character of `s` may appear in a bare table name, and `s`
/// is not empty.
fn is_header_name(s: &Vec<char>) -> (b: bool)
    ensures
        b == valid_header_name(s@),
{
    if s.len() == 0 {
        return false;
    }
    let mut i: usize = 0;
    while i < s.len()
        invariant
            i <= s@.len(),
            forall|k: int| 0 <= k < i ==> header_char(#[trigger] s@[k]),
        decreases s@.len() - i,
    {
        let c = s[i];
        if !(is_alphanumeric(c) || c == '_' || c == '-' || c == '.') {
            return false;
        }
        i += 1;
    }
    true
}

/// `left` + `prefix` + `.` + `inner` + `right`.
fn nested_header(left: &str, prefix: &str, inner: &str, right: &str) -> (r: String)
    ensures
        r@ == left@ + prefix@ + "."@ + inner@ + right@,
{
    let mut out = owned(left);
    push_str(&mut out, prefix);
    push_str(&mut out, ".");
    push_str(&mut out, inner);
    push_str(&mut out, right);
    out
}

/// One line with its table header nested under `prefix`.
pub fn prefix_header_line_exec(line: &str, prefix: &str) -> (r: String)
    ensures
        r@ == prefix_header_line(line@, prefix@),
{
    let lv = chars_of(line);
    if lv.len() > 0 && crate::text::is_whitespace(lv[0]) {
        return owned(line);
    }
    let trimmed = trim_exec(line);
    let t = chars_of(trimmed.as_str());
    let single = chars_of(nested_header("[", prefix, "", "").as_str());
    let double = chars_of(nested_header("[[", prefix, "", "").as_str());
    proof {
        reveal_strlit("");
        reveal_strlit("[");
        reveal_strlit("[[");
        reveal_strlit("]");
        reveal_strlit("]]");
        assert("["@ + prefix@ + "."@ + ""@ + ""@ =~= "["@ + prefix@ + "."@);
        assert("[["@ + prefix@ + "."@ + ""@ + ""@ =~= "[["@ + prefix@ + "."@);
    }
    let already = crate::text::starts_with_exec(&t, &single) || crate::text::starts_with_exec(&t, &double);
    let n = t.len();
    let dbl = n >= 4 && t[0] == '[' && t[1] == '[' && t[n - 2] == ']' && t[n - 1] == ']';
    let sgl = n >= 2 && t[0] == '[' && t[n - 1] == ']';
    proof {
        let tv = t@;
        assert("[["@ =~= seq!['[', '[']);
        assert("]]"@ =~= seq![']', ']']);
        assert("["@ =~= seq!['[']);
        assert("]"@ =~= seq![']']);
        let dbl_spec = starts_with(tv, "[["@) && ends_with(tv.skip(2), "]]"@);
        let sgl_spec = starts_with(tv, "["@) && ends_with(tv.skip(1), "]"@);
        if dbl {
            assert(tv.take(2) =~= seq!['[', '[']);
            assert(tv.skip(2).skip(tv.skip(2).len() - 2) =~= seq![']', ']']);
        }
        if dbl_spec {
            assert(tv.take(2)[0] == tv[0] && tv.take(2)[1] == tv[1]);
            let e = tv.skip(2).skip(tv.skip(2).len() - 2);
            assert(e[0] == tv[n - 2] && e[1] == tv[n - 1]);
        }
        assert(dbl == dbl_spec);
        if sgl {
            assert(tv.take(1) =~= seq!['[']);
            assert(tv.skip(1).skip(tv.skip(1).len() - 1) =~= seq![']']);
        }
        if sgl_spec {
            assert(tv.take(1)[0] == tv[0]);
            let e = tv.skip(1).skip(tv.skip(1).len() - 1);
            assert(e[0] == tv[n - 1]);
        }
        assert(sgl == sgl_spec);
    }
    if already {
        return owned(line);
    }
    if dbl {
        let inner = trim_exec(string_of_range(&t, 2, n - 2).as_str());
        let iv = chars_of(inner.as_str());
        if is_header_name(&iv) {
            let replacement = nested_header("[[", prefix, inner.as_str(), "]]");
            return replace_all_exec(line, trimmed.as_str(), replacement.as_str());
        }
        return owned(line);
    }
    if sgl {
        let inner = trim_exec(string_of_range(&t, 1, n - 1).as_str());
        let iv = chars_of(inner.as_str());
        if is_header_name(&iv) {
            let replacement = nested_header("[", prefix, inner.as_str(), "]");
            return replace_all_exec(line, trimmed.as_str(), replacement.as_str());
        }
        return owned(line);
    }
    owned(line)
}

/// Nests every bare table header of `content` under `prefix`, so a plugin's
/// options section can be appended to a project's `rheo.toml`: `[spine]`
/// becomes `[prefix.spine]` and `[[items]]` becomes `[[prefix.items]]`.
/// Only headers without leading whitespace are matched; other lines, and
/// headers already under `prefix`, are kept.
pub fn prefix_toml_headers(content: &str, prefix: &str) -> (r: String)
    ensures
        r@ == prefix_toml_headers_spec(content@, prefix@),
{
    let ls = lines_exec(content);
    let ghost lv = ls@.map_values(|l: String| l@);
    let mut out: Vec<String> = Vec::new();
    let mut i: usize = 0;
    while i < ls.len()
        invariant
            i <= ls@.len(),
            lv == ls@.map_values(|l: String| l@),
            lv == lines(content@),
            out@.len() == i,
            forall|k: int|
                0 <= k < i ==> #[trigger] out@[k]@ == prefix_header_line(lv[k], prefix@),
        decreases ls@.len() - i,
    {
        let l = prefix_header_line_exec(ls[i].as_str(), prefix);
        out.push(l);
        i += 1;
    }
    proof {
        assert(out@.map_values(|l: String| l@) =~= lv.map_values(
            |l: Seq<char>| prefix_header_line(l, prefix@),
        ));
    }
    join_exec(&out, "\n")
}

/// The project's `rheo.toml`: the template with `{{VERSION}}` replaced, then
/// each plugin's options section, nested under the plugin's name, on lines
/// of its own.
pub open spec fn init_toml_spec(
    template: Seq<char>,
    version: Seq<char>,
    sections: Seq<(Seq<char>, Option<Seq<char>>)>,
) -> Seq<char>
    decreases sections.len(),
{
    if sections.len() == 0 {
        replace_all(template, "{{VERSION}}"@, version)
    } else {
        let before = init_toml_spec(template, version, sections.drop_last());
        match sections.last().1 {
            Some(options) => before + "\n"@ + prefix_toml_headers_spec(options, sections.last().0)
                + "\n"@,
            None => before,
        }
    }
}

/// The complaint when two plugins want to write the same template path.
pub open spec fn template_conflict_text(existing: Seq<char>, plugin: Seq<char>, path: Seq<char>) -> Seq<char> {
    "template path conflict: both '"@ + existing + "' and '"@ + plugin + "' plugins want to write '"@
        + path + "'"@
}

/// The plugin that already claims `path`, if any.
pub open spec fn claimant(planned: Seq<(Seq<char>, Seq<char>, Seq<char>)>, path: Seq<char>) -> Option<Seq<char>>
    decreases planned.len(),
{
    if planned.len() == 0 {
        None
    } else if planned[0].1 == path {
        Some(planned[0].0)
    } else {
        claimant(planned.drop_first(), path)
    }
}

/// Walking the plugins' template files `(plugin, path, content)` in order:
/// the files to write, each path once, or the complaint about the first path
/// a second plugin claims.
pub open spec fn template_plan(entries: Seq<(Seq<char>, Seq<char>, Seq<char>)>) -> core::result::Result<
    Seq<(Seq<char>, Seq<char>, Seq<char>)>,
    Seq<char>,
>
    decreases entries.len(),
{
    if entries.len() == 0 {
        Ok(Seq::empty())
    } else {
        match template_plan(entries.drop_last()) {
            Err(m) => Err(m),
            Ok(planned) => {
                let (plugin, path, content) = entries.last();
                match claimant(planned, path) {
                    Some(existing) => Err(template_conflict_text(existing, plugin, path)),
                    None => Ok(planned.push((plugin, path, content))),
                }
            },
        }
    }
}

/// `e` is a project configuration error saying `m`.
pub open spec fn is_config_error(e: RheoError, m: Seq<char>) -> bool {
    e matches RheoError::ProjectConfig { message } && message@ == m
}

/// The triples as sequences.
pub open spec fn triples_view(v: Seq<(String, String, String)>) -> Seq<(Seq<char>, Seq<char>, Seq<char>)> {
    v.map_values(|e: (String, String, String)| (e.0@, e.1@, e.2@))
}

/// The project's `rheo.toml`, from the template, the current version, and
/// each plugin's name with its options section, if it has one.
pub fn init_toml(template: &str, version: &str, sections: &Vec<(String, Option<String>)>) -> (r: String)
    ensures
        r@ == init_toml_spec(
            template@,
            version@,
            sections@.map_values(|e: (String, Option<String>)| (e.0@, match e.1 {
                Some(s) => Some(s@),
                None => None,
            })),
        ),
{
    proof {
        reveal_strlit("{{VERSION}}");
    }
    let ghost sv = sections@.map_values(|e: (String, Option<String>)| (e.0@, match e.1 {
        Some(s) => Some(s@),
        None => None,
    }));
    let mut out = replace_all_exec(template, "{{VERSION}}", version);
    let mut i: usize = 0;
    while i < sections.len()
        invariant
            i <= sections@.len(),
            sv == sections@.map_values(|e: (String, Option<String>)| (e.0@, match e.1 {
                Some(s) => Some(s@),
                None => None,
            })),
            out@ == init_toml_spec(template@, version@, sv.take(i as int)),
        decreases sections@.len() - i,
    {
        proof {
            assert(sv.take(i + 1).drop_last() =~= sv.take(i as int));
            assert(sv.take(i + 1).last() == sv[i as int]);
        }
        match &sections[i].1 {
            Some(options) => {
                push_str(&mut out, "\n");
                let nested = prefix_toml_headers(options.as_str(), sections[i].0.as_str());
                push_str(&mut out, nested.as_str());
                push_str(&mut out, "\n");
            },
            None => {},
        }
        i += 1;
    }
    proof {
        assert(sv.take(i as int) =~= sv);
    }
    out
}

/// Which plugin writes which template file. `entries` lists every plugin's
/// template files as `(plugin, path, content)`, plugin by plugin; a path
/// claimed twice is an error naming both plugins.
pub fn plan_template_files(entries: Vec<(String, String, String)>) -> (r: Result<Vec<(String, String, String)>>)
    ensures
        match r {
            Ok(planned) => template_plan(triples_view(entries@)) == Ok::<
                Seq<(Seq<char>, Seq<char>, Seq<char>)>,
                Seq<char>,
            >(triples_view(planned@)),
            Err(e) => template_plan(triples_view(entries@)) matches Err(m) && is_config_error(e, m),
        },
{
    let ghost all = triples_view(entries@);
    let total = entries.len();
    let mut rest = entries;
    let mut planned: Vec<(String, String, String)> = Vec::new();
    let mut i: usize = 0;
    proof {
        assert(all.take(0) =~= Seq::<(Seq<char>, Seq<char>, Seq<char>)>::empty());
        assert(triples_view(planned@) =~= Seq::<(Seq<char>, Seq<char>, Seq<char>)>::empty());
    }
    while rest.len() > 0
        invariant
            i + rest@.len() == all.len(),
            all.len() == total,
            all == triples_view(entries@),
            triples_view(rest@) == all.skip(i as int),
            template_plan(all.take(i as int)) == Ok::<
                Seq<(Seq<char>, Seq<char>, Seq<char>)>,
                Seq<char>,
            >(triples_view(planned@)),
        decreases rest@.len(),
    {
        proof {
            assert(all.take(i + 1).drop_last() =~= all.take(i as int));
            assert(triples_view(rest@)[0] == all[i as int]);
            assert(rest@.remove(0) =~= rest@.skip(1));
            assert(triples_view(rest@.skip(1)) =~= triples_view(rest@).skip(1));
            assert(all.skip(i as int).skip(1) =~= all.skip(i + 1));
        }
        let (plugin, path, content) = rest.remove(0);
        let ghost pv = triples_view(planned@);
        proof {
            assert(all.take(i + 1).last() == (plugin@, path@, content@));
            assert(pv.skip(0) =~= pv);
        }
        let mut k: usize = 0;
        while k < planned.len()
            invariant
                k <= planned@.len(),
                pv == triples_view(planned@),
                i < all.len(),
                all == triples_view(entries@),
                template_plan(all.take(i as int)) == Ok::<
                    Seq<(Seq<char>, Seq<char>, Seq<char>)>,
                    Seq<char>,
                >(pv),
                all.take(i + 1).drop_last() == all.take(i as int),
                all.take(i + 1).last() == (plugin@, path@, content@),
                claimant(pv, path@) == claimant(pv.skip(k as int), path@),
            decreases planned@.len() - k,
        {
            if str_eq(planned[k].1.as_str(), path.as_str()) {
                let mut message = owned("template path conflict: both '");
                push_str(&mut message, planned[k].0.as_str());
                push_str(&mut message, "' and '");
                push_str(&mut message, plugin.as_str());
                push_str(&mut message, "' plugins want to write '");
                push_str(&mut message, path.as_str());
                push_str(&mut message, "'");
                proof {
                    assert(pv.skip(k as int)[0] == pv[k as int]);
                    lemma_plan_err_prefix(all, i + 1);
                }
                return Err(RheoError::ProjectConfig { message });
            }
            proof {
                assert(pv.skip(k as int).drop_first() =~= pv.skip(k + 1));
            }
            k += 1;
        }
        proof {
            assert(pv.skip(k as int) =~= Seq::<(Seq<char>, Seq<char>, Seq<char>)>::empty());
        }
        let ghost p0 = planned@;
        planned.push((plugin, path, content));
        proof {
            assert(triples_view(planned@) =~= triples_view(p0).push((plugin@, path@, content@)));
        }
        i += 1;
    }
    proof {
        assert(all.take(i as int) =~= all);
    }
    Ok(planned)
}

/// Once a prefix of the entries is rejected, all of them are, for the same
/// reason.
proof fn lemma_plan_err_prefix(entries: Seq<(Seq<char>, Seq<char>, Seq<char>)>, n: int)
    requires
        0 <= n <= entries.len(),
        template_plan(entries.take(n)) is Err,
    ensures
        template_plan(entries) == template_plan(entries.take(n)),
    decreases entries.len() - n,
{
    if n < entries.len() {
        assert(entries.take(n + 1).drop_last() =~= entries.take(n));
        lemma_plan_err_prefix(entries, n + 1);
    } else {
        assert(entries.take(n) =~= entries);
    }
}

/// `rheo init` refuses a target directory that already exists, given
/// whether it does.
pub fn check_init_target(target: &str, exists: bool) -> (r: Result<()>)
    ensures
        !exists ==> r is Ok,
        exists ==> (r matches Err(RheoError::ProjectConfig { message })
            && message@ == "directory '"@ + target@ + "' already exists"@),
{
    if exists {
        let mut message = owned("directory '");
        push_str(&mut message, target);
        push_str(&mut message, "' already exists");
        return Err(RheoError::ProjectConfig { message });
    }
    Ok(())
}

// ─── Nesting twice ──────────────────────────────────────────────────────────

/// No line feed in `s`.
pub open spec fn one_line(s: Seq<char>) -> bool {
    forall|i: int| 0 <= i < s.len() ==> #[trigger] s[i] != '\n'
}

/// `s` does not end in a carriage return.
pub open spec fn ends_clean(s: Seq<char>) -> bool {
    s.len() > 0 ==> s.last() != '\r'
}

/// No line of a text holds a line feed.
proof fn lemma_lines_no_lf(s: Seq<char>)
    ensures
        forall|i: int| 0 <= i < lines(s).len() ==> one_line(#[trigger] lines(s)[i]),
    decreases s.len(),
{
    if s.len() > 0 {
        crate::text::lemma_first_index_of_bounds(s, '\n');
        match first_index_of(s, '\n') {
            None => {
                assert(lines(s) =~= seq![s]);
            },
            Some(i) => {
                let head = s.take(i);
                let rest = s.skip(i + 1);
                lemma_lines_no_lf(rest);
                assert(one_line(head));
                assert(one_line(strip_cr(head)));
                assert forall|k: int| 0 <= k < lines(s).len() implies one_line(#[trigger] lines(s)[k]) by {
                    if k > 0 {
                        assert(lines(s)[k] == lines(rest)[k - 1]);
                    }
                }
            },
        }
    }
}

/// The last character of a replacement comes from the text or from the
/// replacement.
proof fn lemma_replace_last(s: Seq<char>, p: Seq<char>, r: Seq<char>)
    requires
        s.len() > 0,
        p.len() > 0,
        r.len() > 0,
    ensures
        replace_all(s, p, r).len() > 0,
        replace_all(s, p, r).last() == s.last() || replace_all(s, p, r).last() == r.last(),
    decreases s.len(),
{
    if s.len() < p.len() {
        assert(replace_all(s, p, r) == s);
    } else if s.take(p.len() as int) == p {
        let rest = s.skip(p.len() as int);
        let x = replace_all(rest, p, r);
        assert(replace_all(s, p, r) == r + x);
        if rest.len() > 0 {
            lemma_replace_last(rest, p, r);
            assert(rest.last() == s.last());
            if x.len() > 0 {
                assert((r + x).last() == x.last());
            } else {
                assert(r + x =~= r);
            }
        } else {
            assert(replace_all(rest, p, r) == rest);
            assert(r + rest =~= r);
        }
    } else {
        let rest = s.skip(1);
        let x = replace_all(rest, p, r);
        assert(replace_all(s, p, r) == seq![s[0]] + x);
        if rest.len() > 0 {
            lemma_replace_last(rest, p, r);
            assert(rest.last() == s.last());
            if x.len() > 0 {
                assert((seq![s[0]] + x).last() == x.last());
            } else {
                assert(seq![s[0]] + x =~= seq![s[0]]);
            }
        } else {
            assert(replace_all(rest, p, r) == rest);
            assert(seq![s[0]] + rest =~= seq![s[0]]);
            assert(s.len() == 1);
            assert(s.last() == s[0]);
        }
    }
}

proof fn lemma_join_front(ls: Seq<Seq<char>>, sep: Seq<char>)
    requires
        ls.len() >= 2,
    ensures
        join(ls, sep) == ls[0] + sep + join(ls.drop_first(), sep),
    decreases ls.len(),
{
    if ls.len() == 2 {
        assert(ls.drop_last().len() == 1);
        assert(ls.drop_last()[0] == ls[0]);
        assert(join(ls.drop_last(), sep) == ls[0]);
        assert(ls.drop_first().len() == 1);
        assert(ls.drop_first()[0] == ls[1]);
        assert(join(ls.drop_first(), sep) == ls[1]);
        assert(join(ls, sep) == join(ls.drop_last(), sep) + sep + ls.last());
    } else {
        let d = ls.drop_last();
        lemma_join_front(d, sep);
        assert(d.drop_first() =~= ls.drop_first().drop_last());
        assert(ls.drop_first().last() == ls.last());
        assert(d[0] == ls[0]);
        assert(join(ls, sep) == join(d, sep) + sep + ls.last());
        assert(join(d, sep) == ls[0] + sep + join(d.drop_first(), sep));
        assert(join(ls.drop_first(), sep) == join(ls.drop_first().drop_last(), sep) + sep + ls.drop_first().last());
        assert(join(ls, sep) =~= ls[0] + sep + join(ls.drop_first(), sep));
    }
}

proof fn lemma_leading_ws_le(s: Seq<char>)
    ensures
        crate::text::leading_ws(s) <= s.len(),
    decreases s.len(),
{
    if s.len() > 0 {
        lemma_leading_ws_le(s.drop_first());
    }
}

proof fn lemma_trailing_ws_le(s: Seq<char>)
    ensures
        crate::text::trailing_ws(s) <= s.len(),
    decreases s.len(),
{
    if s.len() > 0 {
        lemma_trailing_ws_le(s.drop_last());
    }
}

proof fn lemma_concat_one_line(a: Seq<char>, b: Seq<char>)
    requires
        one_line(a),
        one_line(b),
    ensures
        one_line(a + b),
{
    assert forall|i: int| 0 <= i < (a + b).len() implies #[trigger] (a + b)[i] != '\n' by {
        if i < a.len() {
            assert((a + b)[i] == a[i]);
        } else {
            assert((a + b)[i] == b[i - a.len()]);
        }
    }
}

proof fn lemma_part_one_line(s: Seq<char>, a: int, b: int)
    requires
        one_line(s),
        0 <= a <= b <= s.len(),
    ensures
        one_line(s.subrange(a, b)),
        one_line(trim(s)),
{
    assert forall|i: int| 0 <= i < s.subrange(a, b).len() implies #[trigger] s.subrange(a, b)[i] != '\n' by {
        assert(s.subrange(a, b)[i] == s[a + i]);
    }
    lemma_leading_ws_le(s);
    let x = s.skip(crate::text::leading_ws(s) as int);
    lemma_trailing_ws_le(x);
    assert forall|i: int| 0 <= i < trim(s).len() implies #[trigger] trim(s)[i] != '\n' by {
        assert(trim(s)[i] == s[crate::text::leading_ws(s) + i]);
    }
}

proof fn lemma_lines_join(ls: Seq<Seq<char>>)
    requires
        forall|i: int| 0 <= i < ls.len() ==> one_line(#[trigger] ls[i]) && ends_clean(ls[i]),
        ls.len() > 0 ==> ls.last().len() > 0,
    ensures
        lines(join(ls, "\n"@)) == ls,
    decreases ls.len(),
{
    reveal_strlit("\n");
    if ls.len() == 0 {
        assert(lines(join(ls, "\n"@)) =~= ls);
    } else if ls.len() == 1 {
        let s = ls[0];
        assert(one_line(s));
        crate::text::lemma_first_index_of_bounds(s, '\n');
        match first_index_of(s, '\n') {
            Some(i) => {
                assert(s[i] != '\n');
            },
            None => {},
        }
        assert(lines(s) =~= seq![s]);
    } else {
        lemma_join_front(ls, "\n"@);
        let a = ls[0];
        let rest = join(ls.drop_first(), "\n"@);
        let s = a + "\n"@ + rest;
        assert(one_line(a));
        crate::text::lemma_first_index_of_bounds(s, '\n');
        assert(s[a.len() as int] == '\n');
        match first_index_of(s, '\n') {
            Some(i) => {
                if i < a.len() {
                    assert(s[i] == a[i]);
                }
                assert(i == a.len());
            },
            None => {
                assert(s[a.len() as int] != '\n');
            },
        }
        assert(s.take(a.len() as int) =~= a);
        assert(s.skip(a.len() as int + 1) =~= rest);
        assert(ends_clean(a));
        assert(strip_cr(a) == a);
        assert forall|i: int| 0 <= i < ls.drop_first().len() implies one_line(#[trigger] ls.drop_first()[i])
            && ends_clean(ls.drop_first()[i]) by {
            assert(ls.drop_first()[i] == ls[i + 1]);
        }
        lemma_lines_join(ls.drop_first());
        assert(lines(s) =~= seq![a] + ls.drop_first());
        assert(seq![a] + ls.drop_first() =~= ls);
    }
}

proof fn lemma_trailing_ws_bound(a: Seq<char>, b: Seq<char>)
    requires
        a.len() > 0,
        !is_ws(a.last()),
    ensures
        crate::text::trailing_ws(a + b) <= b.len(),
    decreases b.len(),
{
    if b.len() == 0 {
        assert(a + b =~= a);
    } else {
        assert((a + b).drop_last() =~= a + b.drop_last());
        lemma_trailing_ws_bound(a, b.drop_last());
    }
}

proof fn lemma_replace_one_line(s: Seq<char>, p: Seq<char>, r: Seq<char>)
    requires
        one_line(s),
        one_line(r),
    ensures
        one_line(replace_all(s, p, r)),
    decreases s.len(),
{
    if p.len() == 0 || s.len() < p.len() {
    } else if s.take(p.len() as int) == p {
        lemma_replace_one_line(s.skip(p.len() as int), p, r);
        let x = replace_all(s.skip(p.len() as int), p, r);
        assert forall|i: int| 0 <= i < (r + x).len() implies #[trigger] (r + x)[i] != '\n' by {
            if i >= r.len() {
                assert((r + x)[i] == x[i - r.len()]);
            }
        }
    } else {
        lemma_replace_one_line(s.skip(1), p, r);
        let x = replace_all(s.skip(1), p, r);
        assert forall|i: int| 0 <= i < (seq![s[0]] + x).len() implies #[trigger] (seq![s[0]] + x)[i] != '\n' by {
            if i >= 1 {
                assert((seq![s[0]] + x)[i] == x[i - 1]);
            }
        }
    }
}

/// A rewritten header: `new` in place of the trimmed line `t`, with what
/// followed it.
proof fn lemma_rewritten_shape(line: Seq<char>, new: Seq<char>, lead: Seq<char>, p: Seq<char>)
    requires
        !indented(line),
        trim(line).len() > 0,
        new.len() > 0,
        new[0] == '[',
        new.last() == ']',
        starts_with(new, lead),
    ensures
        !indented(replace_all(line, trim(line), new)),
        starts_with(trim(replace_all(line, trim(line), new)), lead),
        replace_all(line, trim(line), new) == new + replace_all(
            line.skip(trim(line).len() as int),
            trim(line),
            new,
        ),
{
    let t = trim(line);
    assert(crate::text::leading_ws(line) == 0);
    assert(line.skip(0) =~= line);
    lemma_trailing_ws_le(line);
    assert(t == line.take(line.len() - crate::text::trailing_ws(line)));
    assert(line.take(t.len() as int) =~= t);
    let rest = replace_all(line.skip(t.len() as int), t, new);
    let out = new + rest;
    assert(replace_all(line, t, new) == out);
    assert(out[0] == '[');
    assert(!is_ws('['));
    assert(!is_ws(']'));
    assert(crate::text::leading_ws(out) == 0);
    assert(out.skip(0) =~= out);
    lemma_trailing_ws_bound(new, rest);
    let t2 = trim(out);
    assert(t2 == out.take(out.len() - crate::text::trailing_ws(out)));
    assert(t2.take(lead.len() as int) =~= new.take(lead.len() as int));
}

proof fn lemma_header_line_twice(line: Seq<char>, prefix: Seq<char>)
    requires
        one_line(line),
        ends_clean(line),
        one_line(prefix),
    ensures
        prefix_header_line(prefix_header_line(line, prefix), prefix) == prefix_header_line(line, prefix),
        one_line(prefix_header_line(line, prefix)),
        ends_clean(prefix_header_line(line, prefix)),
        line.len() > 0 ==> prefix_header_line(line, prefix).len() > 0,
{
    reveal_strlit("[");
    reveal_strlit("[[");
    reveal_strlit("]");
    reveal_strlit("]]");
    reveal_strlit(".");
    let t = trim(line);
    if indented(line) {
    } else if starts_with(t, "["@ + prefix + "."@) || starts_with(t, "[["@ + prefix + "."@) {
    } else if starts_with(t, "[["@) && ends_with(t.skip(2), "]]"@) {
        let inner = trim(t.subrange(2, t.len() - 2));
        if valid_header_name(inner) {
            let lead = "[["@ + prefix + "."@;
            let new = lead + inner + "]]"@;
            assert(new[0] == '[');
            assert(new.last() == ']');
            assert(new.take(lead.len() as int) =~= lead);
            lemma_rewritten_shape(line, new, lead, prefix);
            lemma_part_one_line(line, 0, line.len() as int);
            lemma_part_one_line(t, 2, t.len() - 2);
            lemma_part_one_line(t.subrange(2, t.len() - 2), 0, 0);
            assert(one_line("[["@));
            assert(one_line("."@));
            assert(one_line("]]"@));
            lemma_concat_one_line("[["@, prefix);
            lemma_concat_one_line("[["@ + prefix, "."@);
            lemma_concat_one_line(lead, inner);
            lemma_concat_one_line(lead + inner, "]]"@);
            lemma_replace_one_line(line, t, new);
            let rest = line.skip(t.len() as int);
            if rest.len() > 0 {
                lemma_replace_last(rest, t, new);
                assert(rest.last() == line.last());
            } else {
                assert(replace_all(rest, t, new) == rest);
            }
            assert(new.len() > 0);
        }
    } else if starts_with(t, "["@) && ends_with(t.skip(1), "]"@) {
        let inner = trim(t.subrange(1, t.len() - 1));
        if valid_header_name(inner) {
            let lead = "["@ + prefix + "."@;
            let new = lead + inner + "]"@;
            assert(new[0] == '[');
            assert(new.last() == ']');
            assert(new.take(lead.len() as int) =~= lead);
            lemma_rewritten_shape(line, new, lead, prefix);
            lemma_part_one_line(line, 0, line.len() as int);
            lemma_part_one_line(t, 1, t.len() - 1);
            lemma_part_one_line(t.subrange(1, t.len() - 1), 0, 0);
            assert(one_line("["@));
            assert(one_line("."@));
            assert(one_line("]"@));
            lemma_concat_one_line("["@, prefix);
            lemma_concat_one_line("["@ + prefix, "."@);
            lemma_concat_one_line(lead, inner);
            lemma_concat_one_line(lead + inner, "]"@);
            lemma_replace_one_line(line, t, new);
            let rest = line.skip(t.len() as int);
            if rest.len() > 0 {
                lemma_replace_last(rest, t, new);
                assert(rest.last() == line.last());
            } else {
                assert(replace_all(rest, t, new) == rest);
            }
            assert(new.len() > 0);
        }
    }
}

/// Nesting a text's headers twice under one prefix nests them once: a
/// header already under the prefix is kept. This holds of a text none of
/// whose lines ends in a carriage return and whose last line is not empty,
/// and a prefix without a line feed.
pub proof fn lemma_prefix_headers_idempotent(content: Seq<char>, prefix: Seq<char>)
    requires
        forall|i: int| 0 <= i < lines(content).len() ==> ends_clean(#[trigger] lines(content)[i]),
        lines(content).len() > 0 ==> lines(content).last().len() > 0,
        one_line(prefix),
    ensures
        prefix_toml_headers_spec(prefix_toml_headers_spec(content, prefix), prefix) == prefix_toml_headers_spec(
            content,
            prefix,
        ),
{
    let ls = lines(content);
    lemma_lines_no_lf(content);
    let m = ls.map_values(|l: Seq<char>| prefix_header_line(l, prefix));
    assert forall|i: int| 0 <= i < m.len() implies one_line(#[trigger] m[i]) && ends_clean(m[i]) by {
        lemma_header_line_twice(ls[i], prefix);
    }
    if m.len() > 0 {
        lemma_header_line_twice(ls.last(), prefix);
        assert(m.last() == prefix_header_line(ls.last(), prefix));
    }
    lemma_lines_join(m);
    let mm = m.map_values(|l: Seq<char>| prefix_header_line(l, prefix));
    assert forall|i: int| 0 <= i < mm.len() implies #[trigger] mm[i] == m[i] by {
        lemma_header_line_twice(ls[i], prefix);
    }
    assert(mm =~= m);
}

} // verus!
