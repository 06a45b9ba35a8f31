//! A single entry of a directory.
use crate::clock::has_date;
use crate::path::DirPath;
use vstd::prelude::*;

verus! {

/// A file or a directory in a listing.
///
/// It holds plain data only. Text for display is made where a row is made, so that
/// ordering and filtering work on the data themselves.
#[derive(Debug)]
pub struct FileEntry {
    /// The name to display, without the path to it.
    pub name: String,
    /// The whole path.
    pub path: DirPath,
    /// Is it a directory?
    pub is_dir: bool,
    /// The size in bytes; 0 for a directory, for which a size means nothing.
    pub size: u64,
    /// The time of the last change, in nanoseconds since the start of 1970 in UTC.
    pub modified: Option<i128>,
}

impl FileEntry {
    /// Can the time of the last change be shown?
    pub open spec fn has_datable_time(&self) -> bool {
        self.modified is Some ==> has_date(self.modified->0 as int)
    }

    /// Do the two entries hold the same data?
    pub open spec fn same_data(&self, other: &FileEntry) -> bool {
        &&& self.name@ == other.name@
        &&& self.path@ == other.path@
        &&& self.is_dir == other.is_dir
        &&& self.size == other.size
        &&& self.modified == other.modified
    }
}

impl Clone for FileEntry {
    fn clone(&self) -> (res: FileEntry)
        ensures
            res.same_data(self),
    {
        FileEntry {
            name: self.name.clone(),
            path: self.path.clone(),
            is_dir: self.is_dir,
            size: self.size,
            modified: self.modified,
        }
    }
}

/// A copy of an entry agrees with it in everything.
pub proof fn copy_agrees_in_everything(copy: FileEntry, entry: FileEntry)
    requires
        copy.same_data(&entry),
    ensures
        copy.name@ == entry.name@,
        copy.path@ == entry.path@,
        copy.is_dir == entry.is_dir,
        copy.size == entry.size,
        copy.modified == entry.modified,
{
}

} // verus!
