//! The drive that a canonical path lives on.

use vstd::prelude::*;
use crate::text::{ascii_upper, chars_of};

verus! {

/// The characters that `char::to_uppercase` yields for `c`, by the Unicode
/// case tables of the standard library.
pub uninterp spec fn unicode_upper(c: char) -> Seq<char>;

/// `char::to_uppercase`, collected into a string.
///
/// The result is the uppercase mapping of `c`: for an ASCII character its
/// ASCII uppercase form (the character itself when it has none), and in
/// every case at least one character.
#[verifier::external_body]
fn char_to_uppercase(c: char) -> (r: String)
    ensures
        r@ == unicode_upper(c),
        (c as u32) < 128 ==> r@ == seq![ascii_upper(c)],
        r@.len() >= 1,
{
    c.to_uppercase().to_string()
}

/// The prefix of an extended-length path: `\\?\`.
pub open spec fn verbatim_prefix() -> Seq<char> {
    seq!['\\', '\\', '?', '\\']
}

/// The character that names the drive of a canonical path: the one after
/// the extended-length prefix when the path has it, else the first one.
pub open spec fn drive_char(p: Seq<char>) -> Option<char> {
    if verbatim_prefix().is_prefix_of(p) {
        if p.len() > 4 {
            Some(p[4])
        } else {
            None
        }
    } else if p.len() > 0 {
        Some(p[0])
    } else {
        None
    }
}

/// The drive letter of a canonical path, in uppercase; `None` when the path
/// has no character where the drive letter stands.
pub fn drive_letter(path: &str) -> (r: Option<String>)
    ensures
        r is Some <==> drive_char(path@) is Some,
        r matches Some(s) ==> s@ == unicode_upper(drive_char(path@)->0) && s@.len() >= 1 && ((
        drive_char(path@)->0 as u32) < 128 ==> s@ == seq![ascii_upper(drive_char(path@)->0)]),
{
    let cs = chars_of(path);
    let verbatim = cs.len() >= 4 && cs[0] == '\\' && cs[1] == '\\' && cs[2] == '?' && cs[3] == '\\';
    assert(verbatim == verbatim_prefix().is_prefix_of(path@)) by {
        if verbatim {
            assert(path@.take(4) =~= verbatim_prefix());
        }
    }
    let c = if verbatim {
        if cs.len() > 4 {
            cs[4]
        } else {
            return None;
        }
    } else if cs.len() > 0 {
        cs[0]
    } else {
        return None;
    };
    Some(char_to_uppercase(c))
}

} // verus!
