//! The counts of stored entities.
use vstd::prelude::*;

use crate::database::{boilerplate, dir, file, Database};

verus! {

/// How many files, directories and boilerplates are stored.
#[derive(Debug, Clone, Copy, PartialEq, Eq)]
pub struct Status {
    pub files: usize,
    pub directories: usize,
    pub boilerplates: usize,
}

/// The number of rows of each table.
pub fn get(db: &Database) -> (r: Status)
    ensures
        r.files == db@.files.len(),
        r.directories == db@.dirs.len(),
        r.boilerplates == db@.boilerplates.len(),
{
    Status { files: file::count(db), directories: dir::count(db), boilerplates: boilerplate::count(db) }
}

} // verus!
