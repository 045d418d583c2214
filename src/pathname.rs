//! Path operations of std, taken on trust.

use vstd::prelude::*;

verus! {

/// What `std::path::Path::extension` gives for a path, as text.
pub uninterp spec fn extension_of(p: Seq<char>) -> Option<Seq<char>>;

/// What `std::path::Path::join` gives for a base and a component, as text.
pub uninterp spec fn joined(base: Seq<char>, part: Seq<char>) -> Seq<char>;

/// What `std::path::Path::starts_with` says of a path and a base, which it
/// compares component by component.
pub uninterp spec fn path_has_prefix(p: Seq<char>, base: Seq<char>) -> bool;

/// What `==` on `std::path::Path` says of two paths, which it compares
/// component by component.
pub uninterp spec fn paths_equal(a: Seq<char>, b: Seq<char>) -> bool;

/// Relies on `PartialEq` for `std::path::Path`: equality by components, so
/// `a/b` and `a/b/` are the same path.
#[verifier::external_body]
pub(crate) fn same_path(a: &str, b: &str) -> (r: bool)
    ensures
        r == paths_equal(a@, b@),
{
    std::path::Path::new(a) == std::path::Path::new(b)
}

/// Relies on `std::path::Path::extension`: the text after the last `.` of
/// the file name, if any (its `to_str` is exact for a path made from text).
#[verifier::external_body]
pub(crate) fn extension(p: &str) -> (r: Option<String>)
    ensures
        r.is_some() == extension_of(p@).is_some(),
        r.is_some() ==> r.unwrap()@ == extension_of(p@).unwrap(),
{
    std::path::Path::new(p).extension().map(|e| e.to_string_lossy().to_string())
}

/// Relies on `std::path::Path::join`.
#[verifier::external_body]
pub(crate) fn join(base: &str, part: &str) -> (r: String)
    ensures
        r@ == joined(base@, part@),
{
    std::path::Path::new(base).join(part).to_string_lossy().to_string()
}

/// Relies on `std::path::Path::starts_with`.
#[verifier::external_body]
pub(crate) fn starts_with_path(p: &str, base: &str) -> (r: bool)
    ensures
        r == path_has_prefix(p@, base@),
{
    std::path::Path::new(p).starts_with(base)
}

} // verus!
