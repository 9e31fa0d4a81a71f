//! The plain data that the rest of the crate speaks of.

use vstd::prelude::*;

verus! {

/// The settings of one run.
#[derive(Debug, Clone, PartialEq, Eq)]
pub struct Env {
    /// Where the store is reached.
    pub database: String,
    /// The table that holds the counters.
    pub table: String,
    /// The directory under which numbered directories are made.
    pub root: String,
}

/// One row of the counter table.
#[derive(Debug, Clone, PartialEq, Eq)]
pub struct Record {
    /// Identifier given by the store.
    pub dir_id: i64,
    /// Base name of the tracked root directory, the key of the row.
    pub dir_name: String,
    /// The counter value last written.
    pub current_number: i64,
}

/// What a row is: its identifier, its key and its counter.
pub struct RecordView {
    pub dir_id: i64,
    pub dir_name: Seq<char>,
    pub current_number: i64,
}

impl View for Record {
    type V = RecordView;

    open spec fn view(&self) -> RecordView {
        RecordView {
            dir_id: self.dir_id,
            dir_name: self.dir_name@,
            current_number: self.current_number,
        }
    }
}

/// Why a step of a run failed.
#[derive(Debug, Clone, Copy, PartialEq, Eq, Structural)]
pub enum Failure {
    /// A path could not be resolved, or ends in nothing that names a directory.
    Path,
    /// The leading segment of a directory name is no counter.
    Parse,
    /// The store could not be opened or reached.
    StorageConnection,
    /// No row is kept under the directory name that was asked for.
    NotFound,
    /// The store refused to add or change a row.
    StorageWrite,
    /// A directory could not be made.
    DirectoryCreate,
}

} // verus!
