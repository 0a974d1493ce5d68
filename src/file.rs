//! Names derived from file paths.

use vstd::prelude::*;
use crate::error::Error;

verus! {

/// What `Path::file_stem` gives for the path.
pub uninterp spec fn file_stem_of(path: Seq<char>) -> Option<Seq<char>>;

/// Relies on `Path::file_stem`: the last component without its extension, `None` when the
/// path has no file name. The stem of a UTF-8 path is UTF-8, so `OsStr::to_str` keeps it.
#[verifier::external_body]
fn path_file_stem(path: &str) -> (r: Option<&str>)
    ensures
        match r {
            Some(s) => file_stem_of(path@) == Some(s@),
            None => file_stem_of(path@) is None,
        },
{
    std::path::Path::new(path).file_stem().and_then(|s| s.to_str())
}

/// The name of a fixture: its file name without the extension.
pub fn get_file_name(file_path: &str) -> (r: Result<&str, Error>)
    ensures
        match r {
            Ok(s) => file_stem_of(file_path@) == Some(s@),
            Err(e) => file_stem_of(file_path@) is None && e is Internal,
        },
{
    match path_file_stem(file_path) {
        Some(s) => Ok(s),
        None => Err(Error::Internal("Failed to get file name in get_file_name".to_string())),
    }
}

} // verus!
