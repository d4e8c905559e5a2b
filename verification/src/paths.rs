//! Paths of the host, as text. The platform decides what divides a path and
//! which paths are absolute, so one text may be taken apart in more than one
//! way. Each relation here holds of a path and of what some platform makes of it.

use vstd::prelude::*;

use crate::text::opt_text;

verus! {

/// On some platform `std::path::Path::join` of `base` and `path` gives `r`.
pub uninterp spec fn joins_to(base: Seq<char>, path: Seq<char>, r: Seq<char>) -> bool;

/// `std::path::Path::join`: `path` taken relative to `base`, and `path` itself
/// where it is absolute. Which text that is on a given platform is left unsaid.
#[verifier::external_body]
pub(crate) fn join_path(base: &str, path: &str) -> (r: String)
    ensures
        joins_to(base@, path@, r@),
{
    std::path::Path::new(base).join(path).to_string_lossy().into_owned()
}

/// On some platform `std::path::Path::extension` of `path` gives `r`.
pub uninterp spec fn extension_is(path: Seq<char>, r: Option<Seq<char>>) -> bool;

/// `std::path::Path::extension`: what follows the last dot of the file name, as
/// text. How a given platform divides the path is left unsaid.
#[verifier::external_body]
pub(crate) fn path_extension(path: &str) -> (r: Option<String>)
    ensures
        extension_is(path@, opt_text(r)),
{
    std::path::Path::new(path).extension().and_then(|e| e.to_str()).map(|e| e.to_owned())
}

/// On some platform `std::path::Path::file_stem` of `path` gives `r`.
pub uninterp spec fn stem_is(path: Seq<char>, r: Option<Seq<char>>) -> bool;

/// `std::path::Path::file_stem`: what comes before the last dot of the file
/// name, as text. How a given platform divides the path is left unsaid.
#[verifier::external_body]
pub(crate) fn path_stem(path: &str) -> (r: Option<String>)
    ensures
        stem_is(path@, opt_text(r)),
{
    std::path::Path::new(path).file_stem().and_then(|e| e.to_str()).map(|e| e.to_owned())
}

/// On some platform `std::path::Path::file_name` of `path` gives `r`.
pub uninterp spec fn file_name_is(path: Seq<char>, r: Option<Seq<char>>) -> bool;

/// `std::path::Path::file_name`: the last component of a path, as text, and
/// nothing where the path ends in no name. How a given platform divides the path
/// is left unsaid.
#[verifier::external_body]
pub(crate) fn path_file_name(path: &str) -> (r: Option<String>)
    ensures
        file_name_is(path@, opt_text(r)),
{
    std::path::Path::new(path).file_name().and_then(|n| n.to_str()).map(|n| n.to_owned())
}

} // verus!
