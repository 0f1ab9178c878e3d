//! Paths as the standard library composes them: a path's parent directory and one path
//! joined onto another. What `std::path` makes of separators and components is named,
//! not restated.

use vstd::prelude::*;

use crate::text::copy_str;

verus! {

/// What `std::path::Path::parent` gives for a path: the path without its final component,
/// when it has one.
pub uninterp spec fn path_parent(p: Seq<char>) -> Option<Seq<char>>;

/// What `std::path::Path::join` gives for a base path and a further path.
pub uninterp spec fn path_join(base: Seq<char>, rest: Seq<char>) -> Seq<char>;

/// Calls `Path::parent` on `p` (read lossily back into a string). The contract names the
/// result; the component rules of `std::path` are not restated.
#[verifier::external_body]
pub(crate) fn parent_path(p: &str) -> (r: Option<String>)
    ensures
        match r {
            Some(x) => path_parent(p@) == Some(x@),
            None => path_parent(p@) is None,
        },
{
    std::path::Path::new(p).parent().map(|q| q.to_string_lossy().to_string())
}

/// Calls `Path::join` of `rest` onto `base` (read lossily back into a string). The
/// contract names the result; the separator rules of `std::path` are not restated.
#[verifier::external_body]
pub(crate) fn join_path(base: &str, rest: &str) -> (r: String)
    ensures
        r@ == path_join(base@, rest@),
{
    std::path::Path::new(base).join(rest).to_string_lossy().to_string()
}

/// The directory a path lives in: its parent, or `.` when it has none.
pub open spec fn dir_of(p: Seq<char>) -> Seq<char> {
    match path_parent(p) {
        Some(d) => d,
        None => "."@,
    }
}

/// The directory a path lives in: its parent, or `.` when it has none.
pub fn dir_of_path(p: &str) -> (r: String)
    ensures
        r@ == dir_of(p@),
{
    match parent_path(p) {
        Some(d) => d,
        None => copy_str("."),
    }
}

} // verus!
