//! Output paths and the HTML viewer.

pub mod encoding;
pub mod viewer;

use vstd::prelude::*;

verus! {

/// Why an output path cannot be written.
#[derive(Debug, PartialEq, Eq)]
pub enum OutputPathError {
    /// The path is empty.
    EmptyPath,
    /// The path names an existing directory.
    IsDirectory,
}

/// Checks that an output path can name a file: an empty path is refused,
/// and so is a path that names a directory. `is_dir` tells whether the
/// path names an existing directory.
pub fn validate_path(path: &str, is_dir: bool) -> (r: Result<(), OutputPathError>)
    ensures
        r is Ok <==> path@.len() > 0 && !is_dir,
        r == Err::<(), OutputPathError>(OutputPathError::EmptyPath) <==> path@.len() == 0,
        r == Err::<(), OutputPathError>(OutputPathError::IsDirectory) <==> path@.len() > 0 && is_dir,
{
    if path.is_empty() {
        Err(OutputPathError::EmptyPath)
    } else if is_dir {
        Err(OutputPathError::IsDirectory)
    } else {
        Ok(())
    }
}

} // verus!
