//! The parts of `std::path::Path` the library reads, for paths given as text.
//! Each result is named: `Path`'s component rules (separators, `.` and `..`,
//! leading dots of file names) are what these names stand for.

use vstd::prelude::*;
use crate::text::opt_view;

verus! {

/// What `Path::new(p).extension()` gives, as text.
pub uninterp spec fn extension_of(p: Seq<char>) -> Option<Seq<char>>;

/// What `Path::new(p).parent()` gives, as text.
pub uninterp spec fn parent_of(p: Seq<char>) -> Option<Seq<char>>;

/// What `Path::new(p).file_stem()` gives, as text.
pub uninterp spec fn file_stem_of(p: Seq<char>) -> Option<Seq<char>>;

/// What `Path::new(p).file_name()` gives, as text.
pub uninterp spec fn file_name_of(p: Seq<char>) -> Option<Seq<char>>;

/// What `Path::new(p).is_absolute()` gives.
pub uninterp spec fn is_absolute_path(p: Seq<char>) -> bool;

/// What `Path::new(p).strip_prefix(base)` gives, as text (`None` for its error).
pub uninterp spec fn stripped(p: Seq<char>, base: Seq<char>) -> Option<Seq<char>>;

/// What `Path::new(base).join(rel)` gives, as text.
pub uninterp spec fn joined(base: Seq<char>, rel: Seq<char>) -> Seq<char>;

/// `Path::extension`; a path made from UTF-8 text always converts back.
#[verifier::external_body]
pub(crate) fn path_extension(p: &str) -> (r: Option<String>)
    ensures
        opt_view(r) == extension_of(p@),
{
    std::path::Path::new(p).extension().and_then(|e| e.to_str()).map(|e| e.to_string())
}

/// `Path::parent`.
#[verifier::external_body]
pub(crate) fn path_parent(p: &str) -> (r: Option<String>)
    ensures
        opt_view(r) == parent_of(p@),
{
    std::path::Path::new(p).parent().and_then(|e| e.to_str()).map(|e| e.to_string())
}

/// `Path::file_stem`.
#[verifier::external_body]
pub(crate) fn path_file_stem(p: &str) -> (r: Option<String>)
    ensures
        opt_view(r) == file_stem_of(p@),
{
    std::path::Path::new(p).file_stem().and_then(|e| e.to_str()).map(|e| e.to_string())
}

/// `Path::file_name`.
#[verifier::external_body]
pub(crate) fn path_file_name(p: &str) -> (r: Option<String>)
    ensures
        opt_view(r) == file_name_of(p@),
{
    std::path::Path::new(p).file_name().and_then(|e| e.to_str()).map(|e| e.to_string())
}

/// `Path::join`, read back with `to_string_lossy` (lossless for text input).
#[verifier::external_body]
pub(crate) fn path_join(base: &str, rel: &str) -> (r: String)
    ensures
        r@ == joined(base@, rel@),
{
    std::path::Path::new(base).join(rel).to_string_lossy().into_owned()
}

/// `Path::is_absolute`.
#[verifier::external_body]
pub(crate) fn path_is_absolute(p: &str) -> (r: bool)
    ensures
        r == is_absolute_path(p@),
{
    std::path::Path::new(p).is_absolute()
}

/// `Path::strip_prefix`, read back with `to_string_lossy` (lossless for text
/// input); its error becomes `None`.
#[verifier::external_body]
pub(crate) fn path_strip_prefix(p: &str, base: &str) -> (r: Option<String>)
    ensures
        opt_view(r) == stripped(p@, base@),
{
    std::path::Path::new(p).strip_prefix(base).ok().map(|r| r.to_string_lossy().into_owned())
}

} // verus!
