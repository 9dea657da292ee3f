//! Path arithmetic on strings.
//!
//! Paths travel through the library as `String`s; wherever the logic needs a
//! path's structure (its parent, its file stem, whether two paths name the
//! same place) it asks `std::path::Path`, through the trusted wrappers below.
//! Prefix tests on plain text are verified here.

use std::path::Path;
use vstd::prelude::*;

verus! {

/// What `Path::new(a) == Path::new(b)` returns for the two strings: whether
/// the two paths have the same components.
pub uninterp spec fn same_path(a: Seq<char>, b: Seq<char>) -> bool;

/// What `Path::new(path).starts_with(base)` returns: whether the components
/// of `base` are a leading run of the components of `path`.
pub uninterp spec fn path_within(path: Seq<char>, base: Seq<char>) -> bool;

/// What `Path::new(path).parent()` returns, as text: the path without its
/// final component, or `None` for a root or an empty path.
pub uninterp spec fn parent_path(path: Seq<char>) -> Option<Seq<char>>;

/// What `Path::new(path).file_stem()` returns, as text.
pub uninterp spec fn file_stem_of(path: Seq<char>) -> Option<Seq<char>>;

/// The texts of a sequence of strings.
pub open spec fn texts(v: Seq<String>) -> Seq<Seq<char>> {
    v.map_values(|s: String| s@)
}

/// Trusted: compares two strings as paths with `Path`'s `==`.
/// The contract names the result `same_path(a, b)` and states what `Path`'s
/// `Eq` documents of it: equal text is the same path, and the comparison is
/// symmetric. What else it is (component-wise equality) is left to the
/// standard library.
#[verifier::external_body]
pub(crate) fn paths_equal(a: &str, b: &str) -> (r: bool)
    ensures
        r == same_path(a@, b@),
        r == same_path(b@, a@),
        a@ == b@ ==> r,
{
    Path::new(a) == Path::new(b)
}

/// Trusted: calls `Path::starts_with`. The contract names the result
/// `path_within(path, base)` and says nothing more of it.
#[verifier::external_body]
pub(crate) fn path_starts_with(path: &str, base: &str) -> (r: bool)
    ensures
        r == path_within(path@, base@),
{
    Path::new(path).starts_with(base)
}

/// Trusted: calls `Path::parent` and turns the parent back into a `String`
/// (losslessly: the parent of a path made from a `&str` is a prefix of that
/// `&str`). The contract names the result `parent_path(path)` and states the
/// one fact that the documentation of `Path::parent` gives plainly: the parent
/// is the path without its final component, so it is strictly shorter.
#[verifier::external_body]
pub(crate) fn path_parent(path: &str) -> (r: Option<String>)
    ensures
        r is None <==> parent_path(path@) is None,
        r matches Some(p) ==> parent_path(path@) == Some(p@),
        r matches Some(p) ==> p@.len() < path@.len(),
{
    match Path::new(path).parent() {
        Some(p) => Some(p.to_string_lossy().into_owned()),
        None => None,
    }
}

/// Trusted: calls `Path::file_stem` and turns the stem into a `String`.
/// The contract names the result `file_stem_of(path)` and says nothing more.
#[verifier::external_body]
pub(crate) fn path_file_stem(path: &str) -> (r: Option<String>)
    ensures
        r is None <==> file_stem_of(path@) is None,
        r matches Some(s) ==> file_stem_of(path@) == Some(s@),
{
    match Path::new(path).file_stem() {
        Some(s) => Some(s.to_string_lossy().into_owned()),
        None => None,
    }
}

/// Whether `text` begins with `prefix`, character by character.
pub fn has_prefix(text: &str, prefix: &str) -> (r: bool)
    ensures
        r == prefix@.is_prefix_of(text@),
{
    let n: usize = prefix.unicode_len();
    let m: usize = text.unicode_len();
    if n > m {
        return false;
    }
    let mut i: usize = 0;
    while i < n
        invariant
            n == prefix@.len(),
            m == text@.len(),
            n <= m,
            i <= n,
            forall|j: int| 0 <= j < i ==> prefix@[j] == text@[j],
        decreases n - i,
    {
        if prefix.get_char(i) != text.get_char(i) {
            return false;
        }
        i = i + 1;
    }
    true
}

} // verus!
