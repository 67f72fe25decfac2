//! Laws of failures in words.

use crate::database::{DatabaseError, DatabasePreparationError};
use crate::engine::RecoveryInstallError;
use crate::error::{DomainError, RecordCorruption, StorageError};
use crate::file::manifest::ManifestError;
use crate::file::options::FileDatabaseError;
use crate::file::segment::SegmentHeaderError;
use crate::message;
use crate::replay::RecoveryError;
use crate::snapshot::limits::SnapshotError;
use vstd::prelude::*;
use vstd::string::*;

verus! {

/// The value of a decimal or hexadecimal digit.
pub open spec fn digit_value(c: char) -> int {
    if c <= '9' {
        c as int - '0' as int
    } else {
        c as int - 'a' as int + 10
    }
}

/// The number that decimal digits stand for.
pub open spec fn decimal_value(digits: Seq<char>) -> int
    decreases digits.len(),
{
    if digits.len() == 0 {
        0
    } else {
        10 * decimal_value(digits.drop_last()) + digit_value(digits.last())
    }
}

/// A number is written in decimal digits that stand for it, and starts with a zero only where it
/// is zero.
pub proof fn law_numbers_are_read_back(value: nat)
    ensures
        decimal_value(message::number(value)) == value,
        message::number(value).len() > 0,
        message::number(value)[0] == '0' <==> value == 0,
        forall|i: int|
            0 <= i < message::number(value).len() ==> '0' <= #[trigger] message::number(value)[i]
                <= '9',
    decreases value,
{
    let digits = message::number(value);
    if value < 10 {
        assert(digits.drop_last() =~= seq![]);
        assert(decimal_value(digits.drop_last()) == 0);
    } else {
        law_numbers_are_read_back(value / 10);
        assert(digits.drop_last() =~= message::number(value / 10));
    }
}

/// A negative number is the number without the sign behind a hyphen.
pub proof fn law_signed_numbers(value: int)
    ensures
        value >= 0 ==> message::signed(value) == message::number(value as nat),
        value < 0 ==> message::signed(value) == seq!['-'] + message::number((-value) as nat),
{
    reveal_strlit("-");
    assert("-"@ =~= seq!['-']);
}

/// Two characters are the digits of a byte in lower case.
pub open spec fn shows_byte(high: char, low: char, byte: u8) -> bool {
    &&& ('0' <= high <= '9' || 'a' <= high <= 'f')
    &&& ('0' <= low <= '9' || 'a' <= low <= 'f')
    &&& 16 * digit_value(high) + digit_value(low) == byte
}

/// A byte is written in two hexadecimal digits that stand for it.
pub proof fn law_bytes_are_read_back(value: u8)
    ensures
        message::hex_byte(value).len() == 4,
        message::hex_byte(value)[0] == '0',
        message::hex_byte(value)[1] == 'x',
        shows_byte(message::hex_byte(value)[2], message::hex_byte(value)[3], value),
        message::hex_pair(value).len() == 2,
        shows_byte(message::hex_pair(value)[0], message::hex_pair(value)[1], value),
{
    reveal_strlit("0x");
}

/// Bytes are written in two digits each, in their order.
pub proof fn law_runs_of_bytes_are_read_back(bytes: Seq<u8>)
    ensures
        message::hex_run(bytes).len() == 2 * bytes.len(),
        forall|i: int|
            0 <= i < bytes.len() ==> shows_byte(
                message::hex_run(bytes)[2 * i],
                message::hex_run(bytes)[2 * i + 1],
                #[trigger] bytes[i],
            ),
    decreases bytes.len(),
{
    if bytes.len() > 0 {
        let front = bytes.drop_last();
        law_runs_of_bytes_are_read_back(front);
        law_bytes_are_read_back(bytes.last());
        assert forall|i: int| 0 <= i < bytes.len() implies shows_byte(
            message::hex_run(bytes)[2 * i],
            message::hex_run(bytes)[2 * i + 1],
            #[trigger] bytes[i],
        ) by {
            if i < front.len() {
                assert(front[i] == bytes[i]);
                assert(message::hex_run(bytes)[2 * i] == message::hex_run(front)[2 * i]);
                assert(message::hex_run(bytes)[2 * i + 1] == message::hex_run(front)[2 * i + 1]);
            }
        }
    }
}

/// Where the digits of a byte stand in a hyphenated UUID.
pub open spec fn identity_column(i: int) -> int {
    if i < 4 {
        2 * i
    } else if i < 6 {
        2 * i + 1
    } else if i < 8 {
        2 * i + 2
    } else if i < 10 {
        2 * i + 3
    } else {
        2 * i + 4
    }
}

/// A UUID is written in two digits a byte, with hyphens behind the fourth, sixth, eighth and
/// tenth byte.
pub proof fn law_identities_are_read_back(bytes: Seq<u8>)
    requires
        bytes.len() == 16,
    ensures
        message::identity_text(bytes).len() == 36,
        message::identity_text(bytes)[8] == '-',
        message::identity_text(bytes)[13] == '-',
        message::identity_text(bytes)[18] == '-',
        message::identity_text(bytes)[23] == '-',
        forall|i: int|
            0 <= i < 16 ==> shows_byte(
                message::identity_text(bytes)[identity_column(i)],
                message::identity_text(bytes)[identity_column(i) + 1],
                #[trigger] bytes[i],
            ),
{
    law_runs_of_bytes_are_read_back(bytes.subrange(0, 4));
    law_runs_of_bytes_are_read_back(bytes.subrange(4, 6));
    law_runs_of_bytes_are_read_back(bytes.subrange(6, 8));
    law_runs_of_bytes_are_read_back(bytes.subrange(8, 10));
    law_runs_of_bytes_are_read_back(bytes.subrange(10, 16));
    assert forall|i: int| 0 <= i < 16 implies shows_byte(
        message::identity_text(bytes)[identity_column(i)],
        message::identity_text(bytes)[identity_column(i) + 1],
        #[trigger] bytes[i],
    ) by {
        if i < 4 {
            assert(bytes.subrange(0, 4)[i] == bytes[i]);
        } else if i < 6 {
            assert(bytes.subrange(4, 6)[i - 4] == bytes[i]);
        } else if i < 8 {
            assert(bytes.subrange(6, 8)[i - 6] == bytes[i]);
        } else if i < 10 {
            assert(bytes.subrange(8, 10)[i - 8] == bytes[i]);
        } else {
            assert(bytes.subrange(10, 16)[i - 10] == bytes[i]);
        }
    }
}

/// Lists, missing numbers, truth values, limits and classes are written as their parts are.
pub proof fn law_parts_of_messages(
    bytes: [u8; 4],
    value: u64,
    limits: crate::snapshot::limits::SnapshotLimits,
)
    ensures
        message::four_bytes(bytes) == "["@ + message::number(bytes@[0] as nat) + ", "@
            + message::number(bytes@[1] as nat) + ", "@ + message::number(bytes@[2] as nat) + ", "@
            + message::number(bytes@[3] as nat) + "]"@,
        message::optional(None) == "None"@,
        message::optional(Some(value)) == "Some("@ + message::number(value as nat) + ")"@,
        message::truth(true) == "true"@,
        message::truth(false) == "false"@,
        message::limits_text(limits) == "SnapshotLimits { max_total_bytes: "@ + message::number(
            limits.max_total_bytes as nat,
        ) + ", max_collection_items: "@ + message::number(limits.max_collection_items as nat)
            + ", max_string_bytes: "@ + message::number(limits.max_string_bytes as nat)
            + ", max_nested_items: "@ + message::number(limits.max_nested_items as nat) + " }"@,
        message::preparation_text(DatabasePreparationError::StaleRevision) == "StaleRevision"@,
        message::preparation_text(DatabasePreparationError::RevisionOverflow)
            == "RevisionOverflow"@,
{
}

/// What is wrong with a record is said with the numbers that the report holds.
pub proof fn law_corruption_messages(
    error: &RecordCorruption,
    out: String,
)
    requires
        call_ensures(message::corruption_message, (error,), out),
    ensures
        out@ == (match *error {
            RecordCorruption::InvalidMagic(magic) => "invalid magic "@ + message::four_bytes(magic),
            RecordCorruption::UnsupportedFlags(flags) => "unsupported flags "@ + message::hex_byte(flags),
            RecordCorruption::InvalidHeaderLength(length) => "invalid header length "@
                + message::number(length as nat),
            RecordCorruption::InvalidRecordLength(length) => "invalid total record length "@
                + message::number(length as nat),
            RecordCorruption::InvalidPayloadLength { record_len, payload_len } => "payload length "@
                + message::number(payload_len as nat) + " is inconsistent with record length "@
                + message::number(record_len as nat),
            RecordCorruption::InvalidSequence(sequence) => "invalid record sequence "@
                + message::number(sequence as nat),
            RecordCorruption::SequenceMismatch {
                expected,
                actual,
            } => "record sequence mismatch: expected "@
                + message::number(expected as nat) + ", found "@ + message::number(actual as nat),
            RecordCorruption::SequenceOverflow => "record sequence overflow"@,
            RecordCorruption::NonZeroPadding { index, value } => "non-zero padding byte at index "@
                + message::number(index as nat) + ": "@ + message::hex_byte(value),
            RecordCorruption::ChecksumMismatch => "checksum mismatch"@,
        }),
{
}

/// A storage failure is said with the numbers that the report holds.
pub proof fn law_storage_messages(
    error: &StorageError,
    detail: &str,
    out: String,
)
    requires
        call_ensures(message::storage_message, (error, detail), out),
    ensures
        out@ == (match *error {
            StorageError::Io { message, .. } => "I/O error ("@ + detail@ + "): "@ + message@,
            StorageError::UnsupportedVersion(version) => "unsupported command format version "@
                + message::number(version as nat),
            StorageError::UnsupportedTransitionVersion(version) =>
                "unsupported transition format version "@
                + message::number(version as nat),
            StorageError::UnsupportedRecordVersion {
                offset,
                version,
            } => "unsupported WAL record format version "@
                + message::number(version as nat) + " at offset "@ + message::number(offset as nat),
            StorageError::InvalidTag { kind, tag } => "invalid "@ + kind@ + " tag "@
                + message::number(tag as nat),
            StorageError::InvalidLength { field, length } => "invalid length "@ + message::number(length as nat)
                + " for "@ + field@,
            StorageError::SegmentLengthOverflow {
                current,
                append,
            } => "segment length overflow: cannot append "@
                + message::number(append as nat) + " bytes to physical length "@ + message::number(current as nat),
            StorageError::InvalidRecordLimit(limit) => "invalid maximum WAL record length "@
                + message::number(limit as nat),
            StorageError::RecordTooLarge { offset, length, max } => "WAL record at offset "@
                + message::number(offset as nat) + " has length "@ + message::number(length as nat)
                + ", exceeding limit "@ + message::number(max as nat),
            StorageError::InvalidUtf8 => "encoded string is not valid UTF-8"@,
            StorageError::TruncatedPayload => "encoded payload is truncated"@,
            StorageError::CorruptRecord(reason) => "corrupt command payload: "@ + reason@,
            StorageError::CorruptWalRecord { offset, reason } => "corrupt WAL record at offset "@
                + message::number(offset as nat) + ": "@ + message::corruption_text(reason),
            StorageError::PartialTail { offset, expected, actual } => "WAL record at offset "@
                + message::number(offset as nat) + " is partial: expected "@ + message::number(expected as nat)
                + " bytes, found "@ + message::number(actual as nat),
            StorageError::Domain(_) => "decoded value violates domain rules: "@ + detail@,
        }),
{
}

/// A database failure is said with what it rests on.
pub proof fn law_database_messages(
    error: &DatabaseError,
    detail: &str,
    out: String,
)
    requires
        call_ensures(message::database_message, (error, detail), out),
    ensures
        out@ == (match *error {
            DatabaseError::Storage(_) => "storage preparation failed: "@ + detail@,
            DatabaseError::Preparation(class) => "engine preparation failed: "@
                + message::preparation_text(class),
            DatabaseError::Recovery(_) => "database recovery failed: "@ + detail@,
            DatabaseError::Indeterminate(_) => "durable write outcome is indeterminate: "@ + detail@,
            DatabaseError::Poisoned => "database writes are poisoned"@,
            DatabaseError::SequenceExhausted => "WAL record sequence is exhausted"@,
            DatabaseError::CoordinatorInvariant => "database response cardinality invariant failed"@,
        }),
{
}

/// What is wrong with a manifest is said with the numbers that the report holds.
pub proof fn law_manifest_messages(
    error: &ManifestError,
    out: String,
)
    requires
        call_ensures(message::manifest_message, (error,), out),
    ensures
        out@ == (match *error {
            ManifestError::InvalidLength(length) => "invalid manifest length "@ + message::number(length as nat),
            ManifestError::InvalidMagic(magic) => "invalid manifest magic "@ + message::four_bytes(magic),
            ManifestError::UnsupportedVersion(version) => "unsupported manifest version "@
                + message::number(version as nat),
            ManifestError::InvalidHeaderLength(length) => "invalid manifest header length "@
                + message::number(length as nat),
            ManifestError::NonZeroReserved => "manifest reserved bytes are non-zero"@,
            ManifestError::InvalidDatabaseUuid => "invalid manifest database UUID"@,
            ManifestError::UnsupportedSemanticsVersion(version) =>
                "unsupported state-machine semantics version "@
                + message::number(version as nat),
            ManifestError::ChecksumMismatch => "manifest checksum mismatch"@,
            ManifestError::InvalidRecordLimit(limit) => "invalid persisted record limit "@
                + message::number(limit as nat),
            ManifestError::InvalidSnapshotLimits => "invalid persisted snapshot limits"@,
        }),
{
}

/// What is wrong with a segment header is said with the numbers that the report holds.
pub proof fn law_segment_header_messages(
    error: &SegmentHeaderError,
    out: String,
)
    requires
        call_ensures(message::segment_header_message, (error,), out),
    ensures
        out@ == (match *error {
            SegmentHeaderError::Truncated { expected, actual } => "partial segment header: expected "@
                + message::number(expected as nat) + " bytes, found "@ + message::number(actual as nat),
            SegmentHeaderError::InvalidMagic(magic) => "invalid segment magic "@ + message::four_bytes(magic),
            SegmentHeaderError::UnsupportedVersion(version) => "unsupported segment version "@
                + message::number(version as nat),
            SegmentHeaderError::UnsupportedFlags(flags) => "unsupported segment flags "@
                + message::hex_byte(flags),
            SegmentHeaderError::InvalidHeaderLength(length) => "invalid segment header length "@
                + message::number(length as nat),
            SegmentHeaderError::DatabaseUuidMismatch { expected, actual } => "segment database UUID "@
                + message::identity_text(actual@) + " differs from manifest UUID "@ + message::identity_text(expected@),
            SegmentHeaderError::InvalidFirstSequence(sequence) => "invalid segment first sequence "@
                + message::number(sequence as nat),
            SegmentHeaderError::NonZeroReserved => "segment reserved bytes are non-zero"@,
            SegmentHeaderError::ChecksumMismatch => "segment header checksum mismatch"@,
        }),
{
}

/// What is wrong with a snapshot is said with the numbers that the report holds.
pub proof fn law_snapshot_messages(
    error: &SnapshotError,
    detail: &str,
    out: String,
)
    requires
        call_ensures(message::snapshot_message, (error, detail), out),
    ensures
        out@ == (match *error {
            SnapshotError::Truncated { expected, actual } => "snapshot truncated: expected "@
                + message::number(expected as nat) + " bytes, found "@ + message::number(actual as nat),
            SnapshotError::InvalidMagic(value) => "invalid snapshot magic "@ + message::four_bytes(value),
            SnapshotError::UnsupportedVersion(value) => "unsupported snapshot version "@
                + message::number(value as nat),
            SnapshotError::UnsupportedFlags(value) => "unsupported snapshot flags "@ + message::hex_byte(value),
            SnapshotError::MalformedHeader(field) => "malformed snapshot header field "@ + field@,
            SnapshotError::NonZeroReserved => "snapshot reserved bytes are non-zero"@,
            SnapshotError::UnsupportedSemanticsVersion(value) =>
                "unsupported state-machine semantics version "@
                + message::number(value as nat),
            SnapshotError::DatabaseUuidMismatch { expected, actual } => "snapshot database UUID "@
                + message::identity_text(actual@) + " differs from manifest UUID "@ + message::identity_text(expected@),
            SnapshotError::FilenameWatermarkMismatch {
                filename,
                header,
            } => "snapshot filename watermark "@
                + message::number(filename as nat) + " differs from header watermark "@ + message::number(header as nat),
            SnapshotError::ChecksumMismatch => "snapshot checksum mismatch"@,
            SnapshotError::InvalidLimits { field, value, minimum } => "snapshot limit "@ + field@
                + " is "@ + message::number(value as nat) + ", below required minimum "@
                + message::number(minimum as nat),
            SnapshotError::Limit { field, value, maximum } => "snapshot "@ + field@ + " "@
                + message::number(value as nat) + " exceeds limit "@ + message::number(maximum as nat),
            SnapshotError::Allocation { field, requested } => "cannot reserve "@
                + message::number(requested as nat) + " bytes or entries for snapshot "@ + field@,
            SnapshotError::MalformedPayload(_) => "malformed canonical snapshot payload: "@ + detail@,
            SnapshotError::InvalidEngineState => "snapshot authoritative state is inconsistent"@,
            SnapshotError::InvalidFilename(_) => "non-canonical snapshot filename: "@ + detail@,
        }),
{
}

/// A failure of a file database is said with the path and the numbers that the report holds.
pub proof fn law_file_database_messages(
    error: &FileDatabaseError,
    path: &str,
    detail: &str,
    out: String,
)
    requires
        call_ensures(message::file_database_message, (error, path, detail), out),
    ensures
        out@ == (match *error {
            FileDatabaseError::AlreadyExists(_) => "database already exists: "@ + path@,
            FileDatabaseError::AlreadyOpen(_) => "database is already open: "@ + path@,
            FileDatabaseError::Lock { message, .. } => "cannot lock "@ + path@ + ": "@ + message@,
            FileDatabaseError::Io { operation, message, .. } => "cannot "@ + operation@ + " "@ + path@
                + ": "@ + message@,
            FileDatabaseError::Manifest(_) => "invalid database manifest: "@ + detail@,
            FileDatabaseError::RecordLimitsMismatch {
                persisted,
                requested,
            } => "record limit mismatch: manifest requires "@
                + message::number(persisted as nat) + ", requested "@ + message::number(requested as nat),
            FileDatabaseError::SnapshotLimitsMismatch {
                persisted,
                requested,
            } => "snapshot limits mismatch: manifest requires "@
                + message::limits_text(persisted) + ", requested "@ + message::limits_text(requested),
            FileDatabaseError::InvalidSegmentTarget { target, minimum } => "segment target "@
                + message::number(target as nat) + " is below minimum "@ + message::number(minimum as nat),
            FileDatabaseError::InvalidSegmentName(_) => "non-canonical WAL segment name: "@ + path@,
            FileDatabaseError::MissingSegments(_) => "WAL directory has no segments: "@ + path@,
            FileDatabaseError::SegmentHeader { .. } => "invalid segment header in "@ + path@ + ": "@
                + detail@,
            FileDatabaseError::SegmentNameSequence {
                filename_sequence,
                header_sequence,
                ..
            } => "segment "@
                + path@ + " names sequence "@ + message::number(filename_sequence as nat) + " but header names "@
                + message::number(header_sequence as nat),
            FileDatabaseError::SegmentSequence { expected, actual, .. } => "segment "@ + path@
                + " begins at "@ + message::number(actual as nat) + ", expected "@ + message::optional(expected),
            FileDatabaseError::Snapshot { .. } => "invalid snapshot "@ + path@ + ": "@ + detail@,
            FileDatabaseError::SnapshotCommittedCleanup {
                watermark,
                operation,
                message,
                ..
            } => "snapshot "@
                + path@ + " at watermark "@ + message::number(watermark as nat) + " was committed, but "@
                + operation@ + " failed: "@ + message@,
            FileDatabaseError::SnapshotPoisoned =>
                "snapshot creation is disabled because database writes are poisoned"@,
            FileDatabaseError::SegmentRecovery { physical_offset, sealed, .. } => "recovery failed in "@
                + path@ + " at physical offset "@ + message::number(physical_offset as nat) + " (sealed="@
                + message::truth(sealed) + "): "@ + detail@,
        }),
{
}

/// Each violated rule has its own words.
pub proof fn law_domain_messages(error: DomainError, out: &'static str)
    requires
        call_ensures(message::domain_message, (error,), out),
    ensures
        out@ == (match error {
            DomainError::InvalidInterval => "an interval does not end after it starts"@,
            DomainError::UnsortedCapacitySegments => "capacity segments are not ordered by their start"@,
            DomainError::OverlappingCapacitySegments => "two capacity segments overlap"@,
            DomainError::InvalidUnitName => "a unit has no name"@,
            DomainError::InvalidUnitScale => "a unit has no subunits"@,
            DomainError::InvalidQuantity => "a quantity is zero"@,
            DomainError::QuantityOutOfRange => "a quantity cannot be represented"@,
            DomainError::QuantityOverflow => "a sum of quantities overflows"@,
            DomainError::IndexOverflow => "an internal index overflows"@,
            DomainError::InvalidExpiration => "an expiration is not in the future"@,
            DomainError::EmptyBundle => "a bundle holds no claim"@,
            DomainError::EmptyRelativeBundle => "a relative bundle holds no claim"@,
            DomainError::EmptyChoice => "a choice holds no alternative"@,
            DomainError::InvalidSearchRange => "a slot search range is empty"@,
            DomainError::InvalidStep => "a slot search step is not positive"@,
            DomainError::TimestampOverflow => "a timestamp computation overflows"@,
            DomainError::ResourcePoolAlreadyExists => "the resource pool exists already"@,
            DomainError::ResourcePoolNotFound => "the resource pool does not exist"@,
            DomainError::CapacityExceeded => "a request exceeds the capacity of a pool"@,
            DomainError::CapacityRevisionCreatesDeficit => "a strict capacity revision would create a deficit"@,
            DomainError::PromiseAlreadyExists => "the promise exists already"@,
            DomainError::PromiseNotFound => "the promise does not exist"@,
            DomainError::InvalidPromiseState => "the promise is in another state than the operation needs"@,
            DomainError::IdempotencyConflict => "an idempotency key was used before for another command"@,
            DomainError::VersionConflict => "the promise has another version than the command expects"@,
            DomainError::VersionOverflow => "a promise version overflows"@,
            DomainError::SequenceOverflow => "the domain sequence overflows"@,
            DomainError::SystemTimeOutOfRange => "the system clock is out of range"@,
            DomainError::HoldExpired => "the hold has expired"@,
            DomainError::HoldNotExpired => "the hold has not expired"@,
            DomainError::InvalidPromiseHistory => "a promise was updated before it was created"@,
            DomainError::PublicationRevisionOverflow => "the publication revision overflows"@,
        }),
{
}

/// Each failure to install a transition has its own words.
pub proof fn law_install_messages(error: RecoveryInstallError, out: &'static str)
    requires
        call_ensures(message::install_message, (error,), out),
    ensures
        out@ == (match error {
            RecoveryInstallError::Sequence => "the transition does not continue the domain sequence"@,
            RecoveryInstallError::InconsistentState =>
                "the transition contradicts the state before it"@,
            RecoveryInstallError::Index =>
                "the indexes over the recovered state cannot be built"@,
        }),
{
}

/// Describing a storage failure says what its message says with the category of the I/O failure
/// or with the words of the violated rule, and no other failure needs either.
pub proof fn law_describe_storage(
    error: &StorageError,
    category: &str,
    detail: &'static str,
    given: &str,
    out: String,
    said: String,
)
    requires
        call_ensures(message::describe_storage, (error, category), out),
        call_ensures(message::storage_message, (error, given), said),
        *error is Io ==> given@ == category@,
        *error matches StorageError::Domain(rule) ==> call_ensures(
            message::domain_message,
            (rule,),
            detail,
        ) && given@ == detail@,
    ensures
        out@ == said@,
{
}

/// Describing a failed replay gives the offset behind which it stopped and the reason: the words
/// of the storage failure, both timestamps, or the words of the failed installation.
pub proof fn law_describe_recovery(
    error: &RecoveryError,
    category: &str,
    source: String,
    installed: &'static str,
    out: String,
)
    requires
        call_ensures(message::describe_recovery, (error, category), out),
        *error matches RecoveryError::Storage { source: inner, .. } ==> call_ensures(
            message::describe_storage,
            (&inner, category),
            source,
        ),
        *error matches RecoveryError::Install { source: inner, .. } ==> call_ensures(
            message::install_message,
            (inner,),
            installed,
        ),
    ensures
        out@ == "replay stopped behind offset "@ + (match *error {
            RecoveryError::Storage { last_valid_offset, .. } => message::number(
                last_valid_offset as nat,
            ) + ": "@ + source@,
            RecoveryError::TimestampMismatch {
                last_valid_offset,
                record_sequence,
                record_timestamp,
                event_timestamp,
            } => message::number(last_valid_offset as nat) + ": record "@ + message::number(
                record_sequence as nat,
            ) + " has timestamp "@ + message::signed(record_timestamp as int)
                + ", its event has "@ + message::signed(event_timestamp as int),
            RecoveryError::Install { last_valid_offset, .. } => message::number(
                last_valid_offset as nat,
            ) + ": "@ + installed@,
        }),
{
}

/// Describing a database failure says what its message says with the description of the failure
/// below.
pub proof fn law_describe_database(
    error: &DatabaseError,
    category: &str,
    below: String,
    given: &str,
    out: String,
    said: String,
)
    requires
        call_ensures(message::describe_database, (error, category), out),
        call_ensures(message::database_message, (error, given), said),
        *error matches DatabaseError::Storage(inner) ==> call_ensures(
            message::describe_storage,
            (&inner, category),
            below,
        ) && given@ == below@,
        *error matches DatabaseError::Indeterminate(inner) ==> call_ensures(
            message::describe_storage,
            (&inner, category),
            below,
        ) && given@ == below@,
        *error matches DatabaseError::Recovery(inner) ==> call_ensures(
            message::describe_recovery,
            (&inner, category),
            below,
        ) && given@ == below@,
    ensures
        out@ == said@,
{
}

/// Describing what is wrong with a snapshot says what its message says with the description of
/// the payload failure or with the path of the file.
pub proof fn law_describe_snapshot(
    error: &SnapshotError,
    path: &str,
    category: &str,
    below: String,
    given: &str,
    out: String,
    said: String,
)
    requires
        call_ensures(message::describe_snapshot, (error, path, category), out),
        call_ensures(message::snapshot_message, (error, given), said),
        *error matches SnapshotError::MalformedPayload(inner) ==> call_ensures(
            message::describe_storage,
            (&inner, category),
            below,
        ) && given@ == below@,
        *error is InvalidFilename ==> given@ == path@,
    ensures
        out@ == said@,
{
}

/// Describing a failure of a file database says what its message says with the path and the
/// description of the failure below.
pub proof fn law_describe_file_database(
    error: &FileDatabaseError,
    path: &str,
    inner: &str,
    category: &str,
    below: String,
    given: &str,
    out: String,
    said: String,
)
    requires
        call_ensures(message::describe_file_database, (error, path, inner, category), out),
        call_ensures(message::file_database_message, (error, path, given), said),
        *error matches FileDatabaseError::Manifest(source) ==> call_ensures(
            message::manifest_message,
            (&source,),
            below,
        ) && given@ == below@,
        *error matches FileDatabaseError::SegmentHeader { source, .. } ==> call_ensures(
            message::segment_header_message,
            (&source,),
            below,
        ) && given@ == below@,
        *error matches FileDatabaseError::Snapshot { source, .. } ==> call_ensures(
            message::describe_snapshot,
            (&source, inner, category),
            below,
        ) && given@ == below@,
        *error matches FileDatabaseError::SegmentRecovery { source, .. } ==> call_ensures(
            message::describe_recovery,
            (&source, category),
            below,
        ) && given@ == below@,
    ensures
        out@ == said@,
{
}

} // verus!
