//! Failures reported by domain rules, codecs, record framing and log backends.

use std::io::ErrorKind;
use vstd::prelude::*;

verus! {

/// Portable category of an I/O failure. The value is only carried, never inspected.
#[verifier::external_type_specification]
#[verifier::external_body]
pub struct ExErrorKind(std::io::ErrorKind);

/// A file system path. The value is only carried, never inspected.
#[verifier::external_type_specification]
#[verifier::external_body]
pub struct ExPathBuf(std::path::PathBuf);

/// Cloning an [`std::io::ErrorKind`], which is a plain `Copy` enum, gives the same category.
pub assume_specification[ <std::io::ErrorKind as Clone>::clone ](kind: &std::io::ErrorKind) -> (out:
    std::io::ErrorKind)
    ensures
        out == *kind,
;

/// Cloning a [`std::path::PathBuf`] gives the same path.
pub assume_specification[ <std::path::PathBuf as Clone>::clone ](path: &std::path::PathBuf) -> (out:
    std::path::PathBuf)
    ensures
        out == *path,
;

/// A violated rule of the commitment domain.
#[derive(Debug, Clone, Copy, PartialEq, Eq, Structural)]
pub enum DomainError {
    /// An interval does not end after it starts.
    InvalidInterval,
    /// Capacity segments are not ordered by their start.
    UnsortedCapacitySegments,
    /// Two capacity segments overlap.
    OverlappingCapacitySegments,
    /// A unit has no name.
    InvalidUnitName,
    /// A unit has no subunits.
    InvalidUnitScale,
    /// A quantity is zero.
    InvalidQuantity,
    /// A quantity cannot be represented.
    QuantityOutOfRange,
    /// A sum of quantities overflows.
    QuantityOverflow,
    /// An internal index overflows.
    IndexOverflow,
    /// An expiration is not in the future.
    InvalidExpiration,
    /// A bundle holds no claim.
    EmptyBundle,
    /// A relative bundle holds no claim.
    EmptyRelativeBundle,
    /// A choice holds no alternative.
    EmptyChoice,
    /// A slot search range is empty.
    InvalidSearchRange,
    /// A slot search step is not positive.
    InvalidStep,
    /// A timestamp computation overflows.
    TimestampOverflow,
    /// The resource pool exists already.
    ResourcePoolAlreadyExists,
    /// The resource pool does not exist.
    ResourcePoolNotFound,
    /// A request exceeds the capacity of a pool.
    CapacityExceeded,
    /// A strict capacity revision would create a deficit.
    CapacityRevisionCreatesDeficit,
    /// The promise exists already.
    PromiseAlreadyExists,
    /// The promise does not exist.
    PromiseNotFound,
    /// The promise is in another state than the operation needs.
    InvalidPromiseState,
    /// An idempotency key was used before for another command.
    IdempotencyConflict,
    /// The promise has another version than the command expects.
    VersionConflict,
    /// A promise version overflows.
    VersionOverflow,
    /// The domain sequence overflows.
    SequenceOverflow,
    /// The system clock is out of range.
    SystemTimeOutOfRange,
    /// The hold has expired.
    HoldExpired,
    /// The hold has not expired.
    HoldNotExpired,
    /// A promise was updated before it was created.
    InvalidPromiseHistory,
    /// The publication revision overflows.
    PublicationRevisionOverflow,
}

/// The structural reason a complete WAL record was rejected.
#[derive(Debug, Clone, PartialEq, Eq)]
pub enum RecordCorruption {
    /// The four-byte record signature did not match `PDBW`.
    InvalidMagic([u8; 4]),
    /// Version 1 requires all flags to be zero.
    UnsupportedFlags(u8),
    /// The encoded fixed-header length was not 32 bytes.
    InvalidHeaderLength(u16),
    /// The total record length was below the minimum or was not 8-byte aligned.
    InvalidRecordLength(u32),
    /// The payload length was inconsistent with the total length and required padding.
    InvalidPayloadLength {
        /// Total encoded record length.
        record_len: u32,
        /// Encoded payload length.
        payload_len: u32,
    },
    /// A record encoded sequence zero, which is reserved for an empty WAL.
    InvalidSequence(u64),
    /// The encoded sequence was not the next expected WAL sequence.
    SequenceMismatch {
        /// Sequence required at this position.
        expected: u64,
        /// Sequence found in the record.
        actual: u64,
    },
    /// A record followed sequence `u64::MAX`, for which no successor exists.
    SequenceOverflow,
    /// Alignment padding contained a non-zero byte.
    NonZeroPadding {
        /// Zero-based byte index within the padding.
        index: u8,
        /// Invalid byte value.
        value: u8,
    },
    /// The stored BLAKE3-128 checksum did not match the framed bytes.
    ChecksumMismatch,
}

/// An error produced by payload codecs, WAL backends, or recovery.
#[allow(inconsistent_fields)]
#[derive(Debug, Clone, PartialEq, Eq)]
pub enum StorageError {
    /// An I/O operation failed.
    Io {
        /// Portable category of the failure.
        kind: ErrorKind,
        /// Human-readable detail of the failure.
        message: String,
    },
    /// A command payload uses a codec version this crate does not understand.
    UnsupportedVersion(u8),
    /// A durable-transition payload uses an unsupported format version.
    UnsupportedTransitionVersion(u8),
    /// A WAL record uses a framing version this crate does not understand.
    UnsupportedRecordVersion {
        /// Byte offset at which the record starts.
        offset: u64,
        /// Unsupported framing version.
        version: u8,
    },
    /// A byte tag is not valid for the named encoded value.
    InvalidTag {
        /// Encoded value whose tag was invalid.
        kind: &'static str,
        /// Invalid tag byte.
        tag: u8,
    },
    /// A length prefix cannot be represented or safely consumed.
    InvalidLength {
        /// Encoded field with the invalid length.
        field: &'static str,
        /// Invalid encoded or requested length.
        length: u64,
    },
    /// An append cannot be represented in the active segment's `u64` physical length.
    SegmentLengthOverflow {
        /// Tracked physical length before the append.
        current: u64,
        /// Number of bytes requested by the append.
        append: usize,
    },
    /// A configured record limit is below 48, unaligned, or above the format ceiling.
    InvalidRecordLimit(u64),
    /// A record exceeds the configured total record-size limit.
    RecordTooLarge {
        /// Byte offset at which the record starts (zero while encoding a standalone record).
        offset: u64,
        /// Declared or requested total record length.
        length: u64,
        /// Configured maximum total record length.
        max: u32,
    },
    /// A length-prefixed string is not valid UTF-8.
    InvalidUtf8,
    /// A payload ended before all declared fields were available.
    TruncatedPayload,
    /// A complete payload failed codec validation.
    CorruptRecord(&'static str),
    /// A complete WAL record failed structural, sequence, padding, or checksum validation.
    CorruptWalRecord {
        /// Byte offset at which the rejected record starts.
        offset: u64,
        /// Structured rejection reason.
        reason: RecordCorruption,
    },
    /// A WAL ended after a record began but before all declared bytes were available.
    PartialTail {
        /// Byte offset at which the partial record starts.
        offset: u64,
        /// Number of bytes required for the current framing stage.
        expected: u64,
        /// Number of bytes available from the start of this record.
        actual: u64,
    },
    /// Decoded bytes violate a domain invariant.
    Domain(DomainError),
}

impl From<DomainError> for StorageError {
    fn from(error: DomainError) -> (out: Self) {
        StorageError::Domain(error)
    }
}

impl vstd::std_specs::convert::FromSpecImpl<DomainError> for StorageError {
    open spec fn obeys_from_spec() -> bool {
        true
    }

    open spec fn from_spec(error: DomainError) -> Self {
        StorageError::Domain(error)
    }
}

} // verus!
