use vstd::prelude::*;

verus! {

/// The last component of a path, as `std::path::Path::file_name` gives it
/// (and `OsStr::to_str` keeps it).
pub uninterp spec fn file_name_of(path: Seq<char>) -> Option<Seq<char>>;

/// The last component of a path without its extension, as
/// `std::path::Path::file_stem` gives it.
pub uninterp spec fn file_stem_of(path: Seq<char>) -> Option<Seq<char>>;

/// The extension of a path, as `std::path::Path::extension` gives it.
pub uninterp spec fn extension_of(path: Seq<char>) -> Option<Seq<char>>;

/// `Path::new(path).file_name()`, as a string; named [`file_name_of`].
#[verifier::external_body]
pub(crate) fn file_name(path: &str) -> (r: Option<String>)
    ensures
        opt_chars_of(r) == file_name_of(path@),
{
    std::path::Path::new(path).file_name().and_then(|n| n.to_str()).map(|s| s.to_string())
}

/// `Path::new(path).file_stem()`, as a string; named [`file_stem_of`].
#[verifier::external_body]
pub(crate) fn file_stem(path: &str) -> (r: Option<String>)
    ensures
        opt_chars_of(r) == file_stem_of(path@),
{
    std::path::Path::new(path).file_stem().and_then(|n| n.to_str()).map(|s| s.to_string())
}

/// `Path::new(path).extension()`, as a string; named [`extension_of`].
#[verifier::external_body]
pub(crate) fn extension(path: &str) -> (r: Option<String>)
    ensures
        opt_chars_of(r) == extension_of(path@),
{
    std::path::Path::new(path).extension().and_then(|n| n.to_str()).map(|s| s.to_string())
}

pub open spec fn opt_chars_of(s: Option<String>) -> Option<Seq<char>> {
    crate::types::opt_chars(s)
}

} // verus!
