//! Snapshot failures and the budgets that decoding and encoding keep.

use crate::error::StorageError;
use crate::file::identity::DatabaseUuid;
use std::path::PathBuf;
use vstd::prelude::*;

verus! {

/// Snapshot framing, compatibility, budget, or payload validation failure.
#[allow(inconsistent_fields)]
#[derive(Debug, Clone, PartialEq, Eq)]
pub enum SnapshotError {
    /// The file is shorter than its declared framing requires.
    Truncated {
        /// Complete length required by framing.
        expected: u64,
        /// Physical bytes available.
        actual: u64,
    },
    /// The snapshot magic is invalid.
    InvalidMagic([u8; 4]),
    /// The snapshot format version is unsupported.
    UnsupportedVersion(u8),
    /// Header flags are unsupported.
    UnsupportedFlags(u8),
    /// A fixed framing field is non-canonical.
    MalformedHeader(&'static str),
    /// Reserved header bytes are non-zero.
    NonZeroReserved,
    /// The state-machine semantics version is unsupported.
    UnsupportedSemanticsVersion(u32),
    /// The database identity differs from the manifest.
    DatabaseUuidMismatch {
        /// Durable database identity from the manifest.
        expected: DatabaseUuid,
        /// Identity encoded by the snapshot.
        actual: DatabaseUuid,
    },
    /// The filename watermark differs from the header.
    FilenameWatermarkMismatch {
        /// Watermark encoded by the canonical filename.
        filename: u64,
        /// Watermark encoded by the fixed header.
        header: u64,
    },
    /// The complete BLAKE3 checksum does not match.
    ChecksumMismatch,
    /// Configured limits are internally invalid.
    InvalidLimits {
        /// Invalid limit field.
        field: &'static str,
        /// Configured value.
        value: u64,
        /// Smallest accepted value.
        minimum: u64,
    },
    /// A configured budget was exceeded before allocation.
    Limit {
        /// Budgeted field or collection.
        field: &'static str,
        /// Declared or requested value.
        value: u64,
        /// Configured or platform maximum.
        maximum: u64,
    },
    /// Memory reservation failed before writing or decoding values.
    Allocation {
        /// Buffer or collection being reserved.
        field: &'static str,
        /// Number of bytes or entries requested.
        requested: u64,
    },
    /// The canonical payload is malformed.
    MalformedPayload(StorageError),
    /// Decoded authoritative state is internally inconsistent.
    InvalidEngineState,
    /// A snapshot directory entry has a non-canonical name.
    InvalidFilename(PathBuf),
}

/// Smallest possible snapshot: the fixed header and the checksum trailer.
pub const MIN_SNAPSHOT_BYTES: u64 = 160;

/// Explicit allocation and nesting limits for snapshot files.
#[derive(Debug, Clone, Copy, PartialEq, Eq, Structural)]
pub struct SnapshotLimits {
    /// Maximum complete file size, including header and checksum trailer.
    pub max_total_bytes: u64,
    /// Maximum number of entries in any top-level collection.
    pub max_collection_items: u32,
    /// Maximum UTF-8 string length.
    pub max_string_bytes: u32,
    /// Maximum number of entries in any nested collection.
    pub max_nested_items: u32,
}

/// What is wrong with a limit that must be positive, if anything.
pub open spec fn positive_fault(field: &'static str, value: u32) -> Option<SnapshotError> {
    if value == 0 {
        Some(SnapshotError::InvalidLimits { field, value: 0, minimum: 1 })
    } else {
        None
    }
}

/// What is wrong with limits, if anything.
pub open spec fn limits_fault(limits: SnapshotLimits) -> Option<SnapshotError> {
    if limits.max_total_bytes < MIN_SNAPSHOT_BYTES {
        Some(
            SnapshotError::InvalidLimits {
                field: "maximum total bytes",
                value: limits.max_total_bytes,
                minimum: MIN_SNAPSHOT_BYTES,
            },
        )
    } else if limits.max_total_bytes > usize::MAX {
        Some(
            SnapshotError::Limit {
                field: "maximum total bytes",
                value: limits.max_total_bytes,
                maximum: usize::MAX as u64,
            },
        )
    } else if limits.max_collection_items == 0 {
        positive_fault("maximum collection items", limits.max_collection_items)
    } else if limits.max_string_bytes == 0 {
        positive_fault("maximum string bytes", limits.max_string_bytes)
    } else {
        positive_fault("maximum nested items", limits.max_nested_items)
    }
}

impl SnapshotLimits {
    /// Validates limits before they are persisted or used for allocation.
    pub fn validate(self) -> (out: Result<SnapshotLimits, SnapshotError>)
        ensures
            out == match limits_fault(self) {
                Some(error) => Err(error),
                None => Ok(self),
            },
    {
        if self.max_total_bytes < MIN_SNAPSHOT_BYTES {
            return Err(
                SnapshotError::InvalidLimits {
                    field: "maximum total bytes",
                    value: self.max_total_bytes,
                    minimum: MIN_SNAPSHOT_BYTES,
                },
            );
        }
        if self.max_total_bytes > usize::MAX as u64 {
            return Err(
                SnapshotError::Limit {
                    field: "maximum total bytes",
                    value: self.max_total_bytes,
                    maximum: usize::MAX as u64,
                },
            );
        }
        if self.max_collection_items == 0 {
            return Err(
                SnapshotError::InvalidLimits {
                    field: "maximum collection items",
                    value: 0,
                    minimum: 1,
                },
            );
        }
        if self.max_string_bytes == 0 {
            return Err(
                SnapshotError::InvalidLimits {
                    field: "maximum string bytes",
                    value: 0,
                    minimum: 1,
                },
            );
        }
        if self.max_nested_items == 0 {
            return Err(
                SnapshotError::InvalidLimits {
                    field: "maximum nested items",
                    value: 0,
                    minimum: 1,
                },
            );
        }
        Ok(self)
    }
}

impl Default for SnapshotLimits {
    fn default() -> (out: SnapshotLimits)
        ensures
            out == (SnapshotLimits {
                max_total_bytes: 536_870_912,
                max_collection_items: 4_000_000,
                max_string_bytes: 16_777_216,
                max_nested_items: 4_000_000,
            }),
            limits_fault(out) is None,
    {
        SnapshotLimits {
            max_total_bytes: 536_870_912,
            max_collection_items: 4_000_000,
            max_string_bytes: 16_777_216,
            max_nested_items: 4_000_000,
        }
    }
}

} // verus!
