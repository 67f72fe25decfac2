//! Configuration and failures of file-backed databases.

use crate::backend::Durability;
use crate::database::DatabaseOptions;
use crate::file::manifest::ManifestError;
use crate::file::segment::SegmentHeaderError;
use crate::record;
use crate::record::RecordLimits;
use crate::replay::RecoveryError;
use crate::snapshot::limits;
use crate::snapshot::limits::{SnapshotError, SnapshotLimits};
use std::io::ErrorKind;
use std::path::PathBuf;
use vstd::prelude::*;

verus! {

/// Default target size for a WAL segment (256 MiB).
pub const DEFAULT_SEGMENT_TARGET: u64 = 268_435_456;

/// Smallest accepted segment target: one header plus one minimum-sized record.
pub const MIN_SEGMENT_TARGET: u64 = 112;

/// Failure while creating or opening a locked file database.
#[allow(inconsistent_fields)]
#[derive(Debug, Clone, PartialEq, Eq)]
pub enum FileDatabaseError {
    /// The database directory already exists during creation.
    AlreadyExists(PathBuf),
    /// The database directory is already locked by another open coordinator.
    AlreadyOpen(PathBuf),
    /// Acquiring the stable lock failed for a reason other than contention.
    Lock {
        /// Stable lock-file path.
        path: PathBuf,
        /// Portable I/O error category.
        kind: ErrorKind,
        /// Original lock error detail.
        message: String,
    },
    /// A path-specific filesystem operation failed.
    Io {
        /// Filesystem path involved in the failed operation.
        path: PathBuf,
        /// Operation attempted on the path.
        operation: &'static str,
        /// Portable I/O error category.
        kind: ErrorKind,
        /// Original I/O error detail.
        message: String,
    },
    /// The manifest is structurally invalid.
    Manifest(ManifestError),
    /// The requested record limit differs from the durable manifest value.
    RecordLimitsMismatch {
        /// Maximum record length stored in the manifest.
        persisted: u32,
        /// Maximum record length requested by the opener.
        requested: u32,
    },
    /// Requested snapshot limits differ from the durable manifest values.
    SnapshotLimitsMismatch {
        /// Limits stored in the manifest.
        persisted: SnapshotLimits,
        /// Limits requested by the opener.
        requested: SnapshotLimits,
    },
    /// The operational segment target is too small.
    InvalidSegmentTarget {
        /// Requested operational segment target.
        target: u64,
        /// Smallest accepted segment target.
        minimum: u64,
    },
    /// A WAL directory entry is not a canonical segment or recognized temp file.
    InvalidSegmentName(PathBuf),
    /// No WAL segments exist.
    MissingSegments(PathBuf),
    /// A segment header is invalid.
    SegmentHeader {
        /// Segment containing the invalid header.
        path: PathBuf,
        /// Structured header validation failure.
        source: SegmentHeaderError,
    },
    /// A segment filename and its header disagree.
    SegmentNameSequence {
        /// Segment whose canonical name and header disagree.
        path: PathBuf,
        /// First sequence encoded by the filename.
        filename_sequence: u64,
        /// First sequence encoded by the segment header.
        header_sequence: u64,
    },
    /// A segment does not begin at the next expected global record sequence.
    SegmentSequence {
        /// Segment beginning at the unexpected sequence.
        path: PathBuf,
        /// Next global sequence required by preceding segments.
        expected: Option<u64>,
        /// First sequence declared by this segment.
        actual: u64,
    },
    /// Snapshot selection, framing, or state validation failed.
    Snapshot {
        /// Snapshot path being opened.
        path: PathBuf,
        /// Structured snapshot failure.
        source: SnapshotError,
    },
    /// A snapshot was installed, but obsolete-file cleanup did not complete.
    SnapshotCommittedCleanup {
        /// Installed canonical snapshot path.
        path: PathBuf,
        /// Installed WAL watermark.
        watermark: u64,
        /// Cleanup operation that failed.
        operation: &'static str,
        /// Portable I/O error category.
        kind: ErrorKind,
        /// Original I/O error detail.
        message: String,
    },
    /// Snapshot creation is forbidden after an indeterminate write.
    SnapshotPoisoned,
    /// Record decoding or effect installation failed in a segment.
    SegmentRecovery {
        /// Segment where recovery stopped.
        path: PathBuf,
        /// Physical file offset of the failing record or boundary.
        physical_offset: u64,
        /// Whether a later segment makes this segment immutable.
        sealed: bool,
        /// Structured record or effect recovery failure.
        source: RecoveryError,
    },
}

/// Successful snapshot installation and compaction statistics.
#[derive(Debug, Clone, PartialEq, Eq)]
pub struct SnapshotOutcome {
    /// Installed canonical snapshot path.
    pub path: PathBuf,
    /// Last WAL record represented by the snapshot.
    pub watermark: u64,
    /// Number of fully covered WAL segments removed.
    pub segments_removed: usize,
    /// Number of older snapshots removed.
    pub older_snapshots_removed: usize,
    /// Complete snapshot file size.
    pub bytes: u64,
}

/// Configuration for a locked file-backed database.
#[derive(Debug, Clone, Copy, PartialEq, Eq)]
pub struct FileDatabaseOptions {
    /// Durability operation applied after each nonempty group append.
    pub durability: Durability,
    /// Persisted maximum record size. Opening requires an exact manifest match.
    pub record_limits: RecordLimits,
    /// Operational segment rotation target. This value is intentionally not persisted.
    pub segment_target: u64,
    /// Persisted snapshot decoding and allocation limits.
    pub snapshot_limits: SnapshotLimits,
}

impl Default for FileDatabaseOptions {
    fn default() -> (out: FileDatabaseOptions)
        ensures
            out.durability == Durability::Sync,
            out.record_limits@ == record::DEFAULT_MAX_RECORD_LEN,
            out.segment_target == DEFAULT_SEGMENT_TARGET,
            out.snapshot_limits == (SnapshotLimits {
                max_total_bytes: 536_870_912,
                max_collection_items: 4_000_000,
                max_string_bytes: 16_777_216,
                max_nested_items: 4_000_000,
            }),
            options_fault(out) is None,
    {
        FileDatabaseOptions {
            durability: Durability::Sync,
            record_limits: RecordLimits::default(),
            segment_target: DEFAULT_SEGMENT_TARGET,
            snapshot_limits: SnapshotLimits::default(),
        }
    }
}

/// What is wrong with options, if anything.
pub open spec fn options_fault(options: FileDatabaseOptions) -> Option<FileDatabaseError> {
    if limits::limits_fault(options.snapshot_limits) is Some {
        Some(FileDatabaseError::Manifest(ManifestError::InvalidSnapshotLimits))
    } else if options.segment_target < MIN_SEGMENT_TARGET {
        Some(
            FileDatabaseError::InvalidSegmentTarget {
                target: options.segment_target,
                minimum: MIN_SEGMENT_TARGET,
            },
        )
    } else {
        None
    }
}

impl FileDatabaseOptions {
    /// Validates options before anything is created or opened with them.
    pub fn validate(self) -> (out: Result<FileDatabaseOptions, FileDatabaseError>)
        ensures
            out == match options_fault(self) {
                Some(error) => Err(error),
                None => Ok(self),
            },
    {
        if self.snapshot_limits.validate().is_err() {
            return Err(FileDatabaseError::Manifest(ManifestError::InvalidSnapshotLimits));
        }
        if self.segment_target < MIN_SEGMENT_TARGET {
            return Err(
                FileDatabaseError::InvalidSegmentTarget {
                    target: self.segment_target,
                    minimum: MIN_SEGMENT_TARGET,
                },
            );
        }
        Ok(self)
    }

    /// Returns the part of the configuration that the coordinator needs.
    pub fn database_options(self) -> (out: DatabaseOptions)
        ensures
            out.durability == self.durability,
            out.record_limits == self.record_limits,
    {
        DatabaseOptions { durability: self.durability, record_limits: self.record_limits }
    }
}

} // verus!
