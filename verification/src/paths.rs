//! File paths of the standard library, which the library only carries and
//! hands to the standard library's own functions.
use vstd::prelude::*;
use std::path::{Path, PathBuf};

verus! {

/// `std::path::Path`, carried as an opaque value.
#[verifier::external_type_specification]
#[verifier::external_body]
pub struct ExPath(Path);

/// `std::path::PathBuf`, carried as an opaque value.
#[verifier::external_type_specification]
#[verifier::external_body]
pub struct ExPathBuf(PathBuf);

/// `PathBuf::clone`: a copy of the path. A `PathBuf` is opaque here, so
/// nothing is stated of the copy.
pub assume_specification[ <PathBuf as Clone>::clone ](path: &PathBuf) -> PathBuf;

/// The file name of `path` as `Path::file_name` gives it, read as text:
/// `None` when the path has no final normal component (it is a root, or
/// ends in `..`) or when that component is not valid Unicode.
pub uninterp spec fn file_name_of(path: &Path) -> Option<Seq<char>>;

/// The text of `path` as `Path::to_string_lossy` gives it.
pub uninterp spec fn path_text_of(path: &Path) -> Seq<char>;

/// The path that `PathBuf::from` makes of `text`.
pub uninterp spec fn path_buf_of(text: Seq<char>) -> PathBuf;

/// `Path::file_name` followed by `OsStr::to_str`: the last component of
/// `path`, if it has one and it is valid Unicode. The `OsStr` in between is
/// not a type the library can name, so the two calls stand together. The
/// result depends on the path alone, and is named [`file_name_of`].
#[verifier::external_body]
pub(crate) fn path_file_name(path: &Path) -> (r: Option<&str>)
    ensures
        r matches Some(n) ==> file_name_of(path) == Some(n@),
        r is None ==> file_name_of(path) is None,
{
    path.file_name()?.to_str()
}

/// `PathBuf::from(String)`: the path whose text is `text`, named
/// [`path_buf_of`].
#[verifier::external_body]
pub(crate) fn path_buf_from(text: String) -> (r: PathBuf)
    ensures
        r == path_buf_of(text@),
{
    PathBuf::from(text)
}

/// `Path::to_string_lossy`: the text of `path`, with any part that is not
/// valid Unicode replaced by U+FFFD; the `Cow` it gives is made an owned
/// `String`. The result depends on the path alone, and is named
/// [`path_text_of`].
#[verifier::external_body]
pub(crate) fn path_text(path: &Path) -> (r: String)
    ensures
        r@ == path_text_of(path),
{
    path.to_string_lossy().into_owned()
}

} // verus!
