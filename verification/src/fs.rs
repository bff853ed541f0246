//! Workspace file data as the analysis receives it, and the up-front check
//! that every changed file exists.
//!
//! The filesystem itself is read by the caller; the library works on the
//! paths and flags handed to it.

use vstd::prelude::*;

use crate::paths::append_str;

verus! {

/// One directory entry of a lookup root, with the facts the component
/// filter needs: whether it is a file or a directory, and whether the
/// directory holds a package marker.
#[derive(Debug)]
pub struct DirEntryInfo {
    pub path: String,
    pub is_file: bool,
    pub is_dir: bool,
    pub has_init: bool,
}

/// A changed file that does not exist on disk.
#[derive(Debug)]
pub struct MissingFileError {
    pub path: String,
}

impl MissingFileError {
    /// A one-line description of the failure.
    pub fn message(&self) -> (r: String)
        ensures
            r@ == "File "@ + self.path@ + " does not exist"@,
    {
        let head = append_str("File ", self.path.as_str());
        append_str(head.as_str(), " does not exist")
    }
}

/// Checks that every changed file exists, where `exists` reports, entry by
/// entry, what the filesystem said; the first missing file is the error.
pub fn check_files_exist(files: &Vec<String>, exists: &Vec<bool>) -> (r: Result<
    (),
    MissingFileError,
>)
    requires
        files.len() == exists.len(),
    ensures
        r is Ok <==> (forall|i: int| 0 <= i < exists.len() ==> exists@[i]),
        r matches Err(e) ==> exists|i: int|
            0 <= i < exists.len() && !exists@[i] && e.path@ == files.deep_view()[i] && (forall|
                j: int,
            |
                0 <= j < i ==> exists@[j]),
{
    let mut i: usize = 0;
    while i < files.len()
        invariant
            0 <= i <= files.len(),
            files.len() == exists.len(),
            forall|j: int| 0 <= j < i ==> exists@[j],
        decreases files.len() - i,
    {
        if !exists[i] {
            return Err(MissingFileError { path: files[i].clone() });
        }
        i = i + 1;
    }
    Ok(())
}

} // verus!
