//! The file name at the end of a path.

use vstd::prelude::*;

verus! {

/// The index just after the last `/` of `p`, or 0 when there is none.
pub open spec fn last_segment_start(p: Seq<char>) -> int
    decreases p.len(),
{
    if p.len() == 0 {
        0
    } else if p.last() == '/' {
        p.len() as int
    } else {
        last_segment_start(p.drop_last())
    }
}

/// The last component of a `/`-separated path: trailing separators and `.`
/// components are passed over; a path that ends in `..`, or that has no
/// component left, has an empty file name.
pub open spec fn file_name_of(p: Seq<char>) -> Seq<char>
    decreases p.len(),
{
    if p.len() == 0 {
        Seq::empty()
    } else if p.last() == '/' {
        file_name_of(p.drop_last())
    } else {
        let k = last_segment_start(p);
        let seg = p.subrange(k, p.len() as int);
        if seg == seq!['.'] {
            if k <= 0 || k > p.len() {
                Seq::empty()
            } else {
                file_name_of(p.subrange(0, k - 1))
            }
        } else if seg == seq!['.', '.'] {
            Seq::empty()
        } else {
            seg
        }
    }
}

/// A path that every platform splits into the same components: no backslash,
/// no drive prefix (a colon as second character), and no leading `//`.
pub open spec fn portable_path(p: Seq<char>) -> bool {
    &&& !p.contains('\\')
    &&& !(p.len() >= 2 && p[1] == ':')
    &&& !(p.len() >= 2 && p[0] == '/' && p[1] == '/')
}

/// A path that starts with a drive (`X:/`) and has a last component after
/// it: every platform finds that component as its file name.
pub open spec fn drive_path(p: Seq<char>) -> bool {
    &&& !p.contains('\\')
    &&& p.len() >= 3
    &&& p[1] == ':'
    &&& p[2] == '/'
    &&& file_name_of(p.skip(3)).len() > 0
}

/// What is known of the file name `name` that `Path::file_name` finds in
/// `path`: the `/`-separated last component for portable paths and for
/// paths with a drive and a component after it, and in every case a name
/// made of characters of the path.
pub open spec fn file_name_facts(path: Seq<char>, name: Seq<char>) -> bool {
    &&& portable_path(path) ==> name == file_name_of(path)
    &&& drive_path(path) ==> name == file_name_of(path.skip(3))
    &&& forall|c: char| name.contains(c) ==> path.contains(c)
}

/// `Path::file_name` of `path`, as a string; empty where there is none.
///
/// What the platform makes of a path with backslashes, of a drive prefix
/// without a component after it, or of a leading `//` differs between
/// platforms, and is not stated; for those paths only the fact that the name
/// is made of characters of the path is.
#[verifier::external_body]
pub(crate) fn path_file_name(path: &str) -> (name: String)
    ensures
        portable_path(path@) ==> name@ == file_name_of(path@),
        drive_path(path@) ==> name@ == file_name_of(path@.skip(3)),
        forall|c: char| name@.contains(c) ==> path@.contains(c),
{
    match std::path::Path::new(path).file_name() {
        Some(name) => name.to_string_lossy().into_owned(),
        None => String::new(),
    }
}

} // verus!
