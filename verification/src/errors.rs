use vstd::prelude::*;

verus! {

/// The error taxonomy of the synchronizer.
///
/// All three are fatal at the point of a run: there is no retry logic and no
/// partial-progress checkpointing.
#[derive(Clone, Copy, Debug, PartialEq, Eq, Structural)]
pub enum SyncError {
    /// A subprocess could not be spawned, or its output is not valid text.
    ExternalToolError,
    /// The persisted record could not be created, read, or written.
    StorageError,
    /// A path lacks the structure required to derive a parent directory.
    MalformedPathError,
}

} // verus!
