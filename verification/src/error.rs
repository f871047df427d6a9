//! Error taxonomy of the snapshot engine.

use vstd::prelude::*;

verus! {

/// Every failure the engine can report.
///
/// The variants that carry a `String` describe failures of the underlying
/// snapshot tooling; the string holds the tool's diagnostic output, which is
/// never silently dropped.
#[derive(Clone, Debug, PartialEq, Eq)]
pub enum Error {
    /// A configuration field is out of its accepted range and cannot be
    /// corrected by clamping.
    ConfigurationInvalid,
    /// No backend technology recognises the volume.
    NoBackendDetected,
    /// The requested capability is not available under the configured
    /// backend mode.
    UnsupportedOperation,
    /// The underlying tool failed while creating a snapshot.
    SnapshotCreateFailed(String),
    /// The underlying tool failed while deleting a snapshot.
    SnapshotDeleteFailed(String),
    /// The rollback target height is not present in the snapshot set.
    TargetNotFound,
    /// Strict mode refused a rollback that would discard newer snapshots.
    StrictRollbackRejected,
    /// The underlying tool failed during rollback; the volume must be
    /// treated as being in an indeterminate state.
    RollbackFailed(String),
}

} // verus!
