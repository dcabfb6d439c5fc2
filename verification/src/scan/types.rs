//! Shared data types for the scan command.
use vstd::prelude::*;

verus! {

/// One file found by the walk.
#[derive(Debug, Clone)]
pub struct FileEntry {
    pub path: String,
    pub size: u64,
    pub age_secs: u64,
}

impl FileEntry {
    /// A field-by-field copy.
    pub fn duplicate(&self) -> (r: FileEntry)
        ensures
            r == *self,
    {
        FileEntry { path: self.path.clone(), size: self.size, age_secs: self.age_secs }
    }
}

/// What a scan found: the roots walked, every file, and the files over the size and
/// age thresholds.
#[derive(Debug, Default)]
pub struct ScanData {
    pub roots: Vec<String>,
    pub all_files: Vec<FileEntry>,
    pub large: Vec<FileEntry>,
    pub old: Vec<FileEntry>,
}

} // verus!
