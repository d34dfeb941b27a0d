//! A verified loader and consistency validator for a hand-authored content
//! directory: a set of items grouped by tags, read from per-record files.
//!
//! The loader turns an abstract file source into a [`directory::Directory`],
//! rejecting malformed records eagerly; the validator then checks the loaded
//! directory for cross-entity consistency and reports every violation found.

pub mod directory;
pub mod laws;
pub mod loader;
pub mod naming;
pub mod validate;

use vstd::prelude::*;

verus! {

use crate::directory::{Directory, DirectoryError};
use crate::loader::{load_directory, spec_load_directory, FileSource};

/// Loads a directory from the given source and discards it, reporting only
/// whether loading succeeded.
pub fn _a_fonction_to_use_everything(source: &FileSource) -> (r: Result<(), DirectoryError>)
    ensures
        r is Ok <==> spec_load_directory(source@) is Ok,
        r matches Err(e) ==> spec_load_directory(source@) == Err::<crate::directory::DirectoryView, _>(e@),
{
    match load_directory(source) {
        Ok(_directory) => Ok(()),
        Err(e) => Err(e),
    }
}

} // verus!
