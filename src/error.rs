use vstd::prelude::*;

verus! {

/// Identity of a task record.
pub type TaskID = i64;

/// The ways a store operation can fail.
#[derive(Clone, Copy, Debug, PartialEq, Eq, Structural)]
pub enum Error {
    /// A lookup, update or link referred to an id that no task carries.
    NotFound(TaskID),
    /// A persisted schedule or date string did not parse.
    InvalidEncoding,
    /// A schema upgrade step could not complete.
    MigrationFailed,
    /// The persistence engine reported a lower-level fault.
    BackendFailure,
}

} // verus!
