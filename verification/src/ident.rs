//! Typst identifiers: the names a package namespace, a package and a label
//! may carry.
//!
//! Which characters may start or continue an identifier is Unicode's
//! XID_Start / XID_Continue, as `typst_syntax` decides it; the library names
//! those answers and builds the whole-name rule on top of them.

use vstd::prelude::*;

verus! {

/// Whether `typst_syntax::is_id_start` accepts `c`.
pub uninterp spec fn id_start(c: char) -> bool;

/// Whether `typst_syntax::is_id_continue` accepts `c`.
pub uninterp spec fn id_continue(c: char) -> bool;

/// A character that may start an identifier: among ASCII, a letter or `_`;
/// beyond it, what `typst_syntax` accepts.
pub open spec fn starts_ident(c: char) -> bool {
    if (c as u32) < 128 {
        ascii_letter(c) || c == '_'
    } else {
        id_start(c)
    }
}

/// A character that may continue an identifier: among ASCII, a letter, a
/// digit, `_` or `-`; beyond it, what `typst_syntax` accepts.
pub open spec fn continues_ident(c: char) -> bool {
    if (c as u32) < 128 {
        ascii_letter(c) || ascii_digit(c) || c == '_' || c == '-'
    } else {
        id_continue(c)
    }
}

/// `s` is a Typst identifier: a first character that may start one, and
/// only characters that may continue one after it.
pub open spec fn is_ident_spec(s: Seq<char>) -> bool {
    &&& s.len() > 0
    &&& starts_ident(s[0])
    &&& forall|i: int| 1 <= i < s.len() ==> continues_ident(#[trigger] s[i])
}

/// An ASCII letter.
pub open spec fn ascii_letter(c: char) -> bool {
    ('a' <= c <= 'z') || ('A' <= c <= 'Z')
}

/// An ASCII digit.
pub open spec fn ascii_digit(c: char) -> bool {
    '0' <= c <= '9'
}

/// `typst_syntax::is_id_start`: XID_Start or `_`. The answer is named; for an
/// ASCII character the crate's table admits exactly the letters, which this
/// contract states together with `_`.
#[verifier::external_body]
fn is_id_start(c: char) -> (b: bool)
    ensures
        b == id_start(c),
        (c as u32) < 128 ==> (b <==> (ascii_letter(c) || c == '_')),
{
    typst_syntax::is_id_start(c)
}

/// `typst_syntax::is_id_continue`: XID_Continue, `_` or `-`. The answer is
/// named; for an ASCII character the crate's table admits exactly letters,
/// digits and `_`, which this contract states together with `-`.
#[verifier::external_body]
fn is_id_continue(c: char) -> (b: bool)
    ensures
        b == id_continue(c),
        (c as u32) < 128 ==> (b <==> (ascii_letter(c) || ascii_digit(c) || c == '_' || c == '-')),
{
    typst_syntax::is_id_continue(c)
}

/// Whether `s` is a Typst identifier, as `typst_syntax::is_ident` decides:
/// its first character starts an identifier and every later one continues it.
pub fn is_ident(s: &str) -> (b: bool)
    ensures
        b == is_ident_spec(s@),
{
    let cs = crate::text::chars_of(s);
    if cs.len() == 0 {
        return false;
    }
    if !is_id_start(cs[0]) {
        return false;
    }
    let mut i: usize = 1;
    while i < cs.len()
        invariant
            1 <= i <= cs.len(),
            cs@ == s@,
            forall|k: int| 1 <= k < i ==> continues_ident(#[trigger] cs@[k]),
        decreases cs.len() - i,
    {
        if !is_id_continue(cs[i]) {
            return false;
        }
        i += 1;
    }
    true
}

} // verus!
