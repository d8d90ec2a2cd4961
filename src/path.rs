//! Path operations of the standard library, on paths held as text.

use std::path::Path;
use vstd::prelude::*;

verus! {

/// The path without its final component, as the standard library computes it.
pub uninterp spec fn path_parent(p: Seq<char>) -> Option<Seq<char>>;

/// The final component of a path, as the standard library computes it.
pub uninterp spec fn path_file_name(p: Seq<char>) -> Option<Seq<char>>;

/// The extension of a path's final component, as the standard library computes it.
pub uninterp spec fn path_extension(p: Seq<char>) -> Option<Seq<char>>;

/// `q` appended to the path `p`, as the standard library computes it.
pub uninterp spec fn path_join(p: Seq<char>, q: Seq<char>) -> Seq<char>;

/// The path `p` with its final component replaced by `name`, as the standard library
/// computes it.
pub uninterp spec fn path_with_file_name(p: Seq<char>, name: Seq<char>) -> Seq<char>;

/// `p` comes before `q` in the standard library's order of paths, which compares them
/// component by component.
pub uninterp spec fn path_lt(p: Seq<char>, q: Seq<char>) -> bool;

/// Relies on `<` of `Path`, from its `Ord`: paths compare component by component, and as
/// the order is total, `p < q` rules out `q < p`.
#[verifier::external_body]
pub(crate) fn path_less(p: &str, q: &str) -> (r: bool)
    ensures
        r == path_lt(p@, q@),
        r ==> !path_lt(q@, p@),
{
    Path::new(p) < Path::new(q)
}

/// Relies on `Path::parent`; the parent of a text path is text.
#[verifier::external_body]
pub(crate) fn parent_of(p: &str) -> (r: Option<String>)
    ensures
        match r {
            Some(q) => path_parent(p@) == Some(q@),
            None => path_parent(p@) is None,
        },
{
    Path::new(p).parent().map(|q| q.to_string_lossy().into_owned())
}

/// Relies on `Path::file_name`; the components of a text path are text.
#[verifier::external_body]
pub(crate) fn file_name_of(p: &str) -> (r: Option<String>)
    ensures
        match r {
            Some(q) => path_file_name(p@) == Some(q@),
            None => path_file_name(p@) is None,
        },
{
    Path::new(p).file_name().map(|q| q.to_string_lossy().into_owned())
}

/// Relies on `Path::extension`; the components of a text path are text.
#[verifier::external_body]
pub(crate) fn extension_of(p: &str) -> (r: Option<String>)
    ensures
        match r {
            Some(q) => path_extension(p@) == Some(q@),
            None => path_extension(p@) is None,
        },
{
    Path::new(p).extension().map(|q| q.to_string_lossy().into_owned())
}

/// Relies on `Path::join`; joining text paths gives a text path.
#[verifier::external_body]
pub(crate) fn join(p: &str, q: &str) -> (r: String)
    ensures
        r@ == path_join(p@, q@),
{
    Path::new(p).join(q).to_string_lossy().into_owned()
}

/// Relies on `Path::with_file_name`; replacing a component of a text path by text gives a
/// text path.
#[verifier::external_body]
pub(crate) fn with_file_name(p: &str, name: &str) -> (r: String)
    ensures
        r@ == path_with_file_name(p@, name@),
{
    Path::new(p).with_file_name(name).to_string_lossy().into_owned()
}

} // verus!
