//! The failures that the repair engine tells apart.

use vstd::prelude::*;

verus! {

/// Why a window or a name could not be resolved, or a missing piece was passed over.
#[derive(Debug, Clone, Copy, PartialEq, Eq, Structural)]
pub enum RepairError {
    /// The window starts at or after the end of the job's last file.
    AddressOutOfRange,
    /// No file of the job, or no name of any equivalence pair, matches.
    FileNotFound,
    /// The block starts after the end of its file.
    OffsetBeyondFile,
    /// The destination file has no counterpart in the source job.
    NoEquivalentFile,
    /// A source piece that the window needs is not downloaded.
    SourceUnavailable,
    /// The merged source window does not cover the destination block.
    ContainmentViolation,
    /// The bytes read do not hash to the expected digest.
    DigestMismatch,
    /// Opening, reading or writing a file failed.
    IOFailure,
}

} // verus!
