//! File paths, through `std::path`.
use vstd::prelude::*;

use crate::frontmatter::opt_text;

verus! {

/// The extension of the last component of a path, as `Path::extension`
/// gives it.
pub uninterp spec fn path_extension(path: Seq<char>) -> Option<Seq<char>>;

/// `Path::join`: `base` with `part` appended as a component.
pub uninterp spec fn joined_path(base: Seq<char>, part: Seq<char>) -> Seq<char>;

/// `Path::with_file_name`: `path` with its last component replaced by
/// `name`.
pub uninterp spec fn path_with_file_name(path: Seq<char>, name: Seq<char>) -> Seq<char>;

/// `Path::parent`: `path` without its last component, where it has one.
pub uninterp spec fn path_parent(path: Seq<char>) -> Option<Seq<char>>;

/// `Path::extension` of `path`. Claimed: the result depends on the path
/// text alone.
#[verifier::external_body]
pub fn extension_of(path: &str) -> (r: Option<String>)
    ensures
        opt_text(r) == path_extension(path@),
{
    std::path::Path::new(path).extension().map(|e| e.to_string_lossy().into_owned())
}

/// `Path::join` of `base` and `part`. Claimed: the result depends on the
/// two texts alone.
#[verifier::external_body]
pub fn join_path(base: &str, part: &str) -> (r: String)
    ensures
        r@ == joined_path(base@, part@),
{
    std::path::Path::new(base).join(part).to_string_lossy().into_owned()
}

/// `Path::with_file_name` of `path` and `name`. Claimed: the result
/// depends on the two texts alone.
#[verifier::external_body]
pub fn with_file_name(path: &str, name: &str) -> (r: String)
    ensures
        r@ == path_with_file_name(path@, name@),
{
    std::path::Path::new(path).with_file_name(name).to_string_lossy().into_owned()
}

/// `Path::parent` of `path`. Claimed: the result depends on the path text
/// alone.
#[verifier::external_body]
pub fn parent_of(path: &str) -> (r: Option<String>)
    ensures
        opt_text(r) == path_parent(path@),
{
    std::path::Path::new(path).parent().map(|p| p.to_string_lossy().into_owned())
}

} // verus!
