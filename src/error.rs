use vstd::prelude::*;

verus! {

/// Why a crawl, a load or a save failed.
#[derive(Debug)]
pub enum BackupError {
    /// A path is missing, unreadable or unwritable.
    Io(String),
    /// A path that should hold a directory holds something else.
    NotADirectory(String),
    /// A saved catalog does not have the expected structure.
    Parse(String),
}

} // verus!
