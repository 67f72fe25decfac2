//! Failures in words.

use crate::database::{DatabaseError, DatabasePreparationError};
use crate::engine::RecoveryInstallError;
use crate::error::{DomainError, RecordCorruption, StorageError};
use crate::file::manifest::ManifestError;
use crate::file::options::FileDatabaseError;
use crate::file::segment::SegmentHeaderError;
use crate::replay::RecoveryError;
use crate::snapshot::limits::{SnapshotError, SnapshotLimits};
use vstd::prelude::*;
use vstd::string::*;

verus! {

/// A decimal or hexadecimal digit.
pub open spec fn digit(value: nat) -> char {
    if value < 10 {
        (48 + value) as char
    } else {
        (87 + value) as char
    }
}

/// A number in decimal digits without leading zeros.
pub open spec fn number(value: nat) -> Seq<char>
    decreases value,
{
    if value < 10 {
        seq![digit(value)]
    } else {
        number(value / 10).push(digit(value % 10))
    }
}

/// The two hexadecimal digits of a byte.
pub open spec fn hex_pair(value: u8) -> Seq<char> {
    seq![digit(value as nat / 16), digit(value as nat % 16)]
}

/// A byte in hexadecimal notation.
pub open spec fn hex_byte(value: u8) -> Seq<char> {
    "0x"@ + hex_pair(value)
}

/// Four bytes as a list.
pub open spec fn four_bytes(bytes: [u8; 4]) -> Seq<char> {
    "["@ + number(bytes[0] as nat) + ", "@ + number(bytes[1] as nat) + ", "@ + number(
        bytes[2] as nat,
    ) + ", "@ + number(bytes[3] as nat) + "]"@
}

/// A number that may be missing.
pub open spec fn optional(value: Option<u64>) -> Seq<char> {
    match value {
        Some(value) => "Some("@ + number(value as nat) + ")"@,
        None => "None"@,
    }
}

/// A truth value.
pub open spec fn truth(value: bool) -> Seq<char> {
    if value {
        "true"@
    } else {
        "false"@
    }
}

/// The hexadecimal digits of bytes.
pub open spec fn hex_run(bytes: Seq<u8>) -> Seq<char>
    decreases bytes.len(),
{
    if bytes.len() == 0 {
        seq![]
    } else {
        hex_run(bytes.drop_last()) + hex_pair(bytes.last())
    }
}

/// The hyphenated notation of a UUID.
pub open spec fn identity_text(bytes: Seq<u8>) -> Seq<char> {
    hex_run(bytes.subrange(0, 4)) + seq!['-'] + hex_run(bytes.subrange(4, 6)) + seq!['-'] + hex_run(
        bytes.subrange(6, 8),
    ) + seq!['-'] + hex_run(bytes.subrange(8, 10)) + seq!['-'] + hex_run(bytes.subrange(10, 16))
}

/// Snapshot limits by their names.
pub open spec fn limits_text(limits: SnapshotLimits) -> Seq<char> {
    "SnapshotLimits { max_total_bytes: "@ + number(limits.max_total_bytes as nat)
        + ", max_collection_items: "@ + number(limits.max_collection_items as nat)
        + ", max_string_bytes: "@ + number(limits.max_string_bytes as nat)
        + ", max_nested_items: "@ + number(limits.max_nested_items as nat) + " }"@
}

/// The name of a class of preparation failures.
pub open spec fn preparation_text(class: DatabasePreparationError) -> Seq<char> {
    match class {
        DatabasePreparationError::StaleRevision => "StaleRevision"@,
        DatabasePreparationError::RevisionOverflow => "RevisionOverflow"@,
    }
}

/// The `Display` notation of a [`uuid::Uuid`] is the hyphenated one, in lower case.
#[verifier::external_body]
fn uuid_text(bytes: [u8; 16]) -> (out: String)
    ensures
        out@ == identity_text(bytes@),
{
    uuid::Uuid::from_bytes(bytes).to_string()
}

/// Returns a decimal or hexadecimal digit.
fn digit_str(value: u8) -> (out: &'static str)
    requires
        value < 16,
    ensures
        out@ == seq![digit(value as nat)],
{
    proof {
        reveal_strlit("0");
        reveal_strlit("1");
        reveal_strlit("2");
        reveal_strlit("3");
        reveal_strlit("4");
        reveal_strlit("5");
        reveal_strlit("6");
        reveal_strlit("7");
        reveal_strlit("8");
        reveal_strlit("9");
        reveal_strlit("a");
        reveal_strlit("b");
        reveal_strlit("c");
        reveal_strlit("d");
        reveal_strlit("e");
        reveal_strlit("f");
    }
    match value {
        0 => "0",
        1 => "1",
        2 => "2",
        3 => "3",
        4 => "4",
        5 => "5",
        6 => "6",
        7 => "7",
        8 => "8",
        9 => "9",
        10 => "a",
        11 => "b",
        12 => "c",
        13 => "d",
        14 => "e",
        _ => "f",
    }
}

/// Appends a number.
fn put_number(text: &mut String, value: u64)
    ensures
        final(text)@ == old(text)@ + number(value as nat),
    decreases value,
{
    if value >= 10 {
        put_number(text, value / 10);
    }
    text.append(digit_str((value % 10) as u8));
    proof {
        if value >= 10 {
            assert(text@ =~= old(text)@ + number(value as nat));
        }
    }
}

/// Appends a byte in hexadecimal notation.
fn put_hex_byte(text: &mut String, value: u8)
    ensures
        final(text)@ == old(text)@ + hex_byte(value),
{
    text.append("0x");
    text.append(digit_str(value / 16));
    text.append(digit_str(value % 16));
    assert(text@ =~= old(text)@ + hex_byte(value));
}

/// Appends four bytes as a list.
fn put_four_bytes(text: &mut String, bytes: [u8; 4])
    ensures
        final(text)@ == old(text)@ + four_bytes(bytes),
{
    text.append("[");
    put_number(text, bytes[0] as u64);
    text.append(", ");
    put_number(text, bytes[1] as u64);
    text.append(", ");
    put_number(text, bytes[2] as u64);
    text.append(", ");
    put_number(text, bytes[3] as u64);
    text.append("]");
    assert(text@ =~= old(text)@ + four_bytes(bytes));
}

/// Appends a number that may be missing.
fn put_optional(text: &mut String, value: Option<u64>)
    ensures
        final(text)@ == old(text)@ + optional(value),
{
    match value {
        Some(number) => {
            text.append("Some(");
            put_number(text, number);
            text.append(")");
        },
        None => {
            text.append("None");
        },
    }
    assert(text@ =~= old(text)@ + optional(value));
}

/// Appends a truth value.
fn put_truth(text: &mut String, value: bool)
    ensures
        final(text)@ == old(text)@ + truth(value),
{
    if value {
        text.append("true");
    } else {
        text.append("false");
    }
}

/// Appends snapshot limits.
fn put_limits(text: &mut String, limits: SnapshotLimits)
    ensures
        final(text)@ == old(text)@ + limits_text(limits),
{
    text.append("SnapshotLimits { max_total_bytes: ");
    put_number(text, limits.max_total_bytes);
    text.append(", max_collection_items: ");
    put_number(text, limits.max_collection_items as u64);
    text.append(", max_string_bytes: ");
    put_number(text, limits.max_string_bytes as u64);
    text.append(", max_nested_items: ");
    put_number(text, limits.max_nested_items as u64);
    text.append(" }");
    assert(text@ =~= old(text)@ + limits_text(limits));
}

/// Returns the name of a class of preparation failures.
fn preparation_label(class: DatabasePreparationError) -> (out: &'static str)
    ensures
        out@ == preparation_text(class),
{
    match class {
        DatabasePreparationError::StaleRevision => "StaleRevision",
        DatabasePreparationError::RevisionOverflow => "RevisionOverflow",
    }
}

/// What is wrong with a record, in words.
pub open spec fn corruption_text(error: RecordCorruption) -> Seq<char> {
    match error {
        RecordCorruption::InvalidMagic(magic) => "invalid magic "@ + four_bytes(magic),
        RecordCorruption::UnsupportedFlags(flags) => "unsupported flags "@ + hex_byte(flags),
        RecordCorruption::InvalidHeaderLength(length) => "invalid header length "@
            + number(length as nat),
        RecordCorruption::InvalidRecordLength(length) => "invalid total record length "@
            + number(length as nat),
        RecordCorruption::InvalidPayloadLength { record_len, payload_len } => "payload length "@
            + number(payload_len as nat) + " is inconsistent with record length "@
            + number(record_len as nat),
        RecordCorruption::InvalidSequence(sequence) => "invalid record sequence "@
            + number(sequence as nat),
        RecordCorruption::SequenceMismatch {
            expected,
            actual,
        } => "record sequence mismatch: expected "@
            + number(expected as nat) + ", found "@ + number(actual as nat),
        RecordCorruption::SequenceOverflow => "record sequence overflow"@,
        RecordCorruption::NonZeroPadding { index, value } => "non-zero padding byte at index "@
            + number(index as nat) + ": "@ + hex_byte(value),
        RecordCorruption::ChecksumMismatch => "checksum mismatch"@,
    }
}

/// Returns what is wrong with a record, in words.
pub fn corruption_message(error: &RecordCorruption) -> (out: String)
    ensures
        out@ == corruption_text(*error),
{
    match error {
        RecordCorruption::InvalidMagic(magic) => {
            let mut text = "invalid magic ".to_owned();
            put_four_bytes(&mut text, *magic);
            text
        },
        RecordCorruption::UnsupportedFlags(flags) => {
            let mut text = "unsupported flags ".to_owned();
            put_hex_byte(&mut text, *flags);
            text
        },
        RecordCorruption::InvalidHeaderLength(length) => {
            let mut text = "invalid header length ".to_owned();
            put_number(&mut text, *length as u64);
            text
        },
        RecordCorruption::InvalidRecordLength(length) => {
            let mut text = "invalid total record length ".to_owned();
            put_number(&mut text, *length as u64);
            text
        },
        RecordCorruption::InvalidPayloadLength { record_len, payload_len } => {
            let mut text = "payload length ".to_owned();
            put_number(&mut text, *payload_len as u64);
            text.append(" is inconsistent with record length ");
            put_number(&mut text, *record_len as u64);
            text
        },
        RecordCorruption::InvalidSequence(sequence) => {
            let mut text = "invalid record sequence ".to_owned();
            put_number(&mut text, *sequence as u64);
            text
        },
        RecordCorruption::SequenceMismatch { expected, actual } => {
            let mut text = "record sequence mismatch: expected ".to_owned();
            put_number(&mut text, *expected as u64);
            text.append(", found ");
            put_number(&mut text, *actual as u64);
            text
        },
        RecordCorruption::SequenceOverflow => {
            "record sequence overflow".to_owned()
        },
        RecordCorruption::NonZeroPadding { index, value } => {
            let mut text = "non-zero padding byte at index ".to_owned();
            put_number(&mut text, *index as u64);
            text.append(": ");
            put_hex_byte(&mut text, *value);
            text
        },
        RecordCorruption::ChecksumMismatch => {
            "checksum mismatch".to_owned()
        },
    }
}

/// A storage failure in words. `detail` is the category of an I/O failure or the violated rule.
pub open spec fn storage_text(error: StorageError, detail: Seq<char>) -> Seq<char> {
    match error {
        StorageError::Io { message, .. } => "I/O error ("@ + detail + "): "@ + message@,
        StorageError::UnsupportedVersion(version) => "unsupported command format version "@
            + number(version as nat),
        StorageError::UnsupportedTransitionVersion(version) =>
            "unsupported transition format version "@
            + number(version as nat),
        StorageError::UnsupportedRecordVersion {
            offset,
            version,
        } => "unsupported WAL record format version "@
            + number(version as nat) + " at offset "@ + number(offset as nat),
        StorageError::InvalidTag { kind, tag } => "invalid "@ + kind@ + " tag "@
            + number(tag as nat),
        StorageError::InvalidLength { field, length } => "invalid length "@ + number(length as nat)
            + " for "@ + field@,
        StorageError::SegmentLengthOverflow {
            current,
            append,
        } => "segment length overflow: cannot append "@
            + number(append as nat) + " bytes to physical length "@ + number(current as nat),
        StorageError::InvalidRecordLimit(limit) => "invalid maximum WAL record length "@
            + number(limit as nat),
        StorageError::RecordTooLarge { offset, length, max } => "WAL record at offset "@
            + number(offset as nat) + " has length "@ + number(length as nat)
            + ", exceeding limit "@ + number(max as nat),
        StorageError::InvalidUtf8 => "encoded string is not valid UTF-8"@,
        StorageError::TruncatedPayload => "encoded payload is truncated"@,
        StorageError::CorruptRecord(reason) => "corrupt command payload: "@ + reason@,
        StorageError::CorruptWalRecord { offset, reason } => "corrupt WAL record at offset "@
            + number(offset as nat) + ": "@ + corruption_text(reason),
        StorageError::PartialTail { offset, expected, actual } => "WAL record at offset "@
            + number(offset as nat) + " is partial: expected "@ + number(expected as nat)
            + " bytes, found "@ + number(actual as nat),
        StorageError::Domain(_) => "decoded value violates domain rules: "@ + detail,
    }
}

/// Returns a storage failure in words. `detail` is the category of an I/O failure or the
/// violated rule, as they describe themselves.
pub fn storage_message(error: &StorageError, detail: &str) -> (out: String)
    ensures
        out@ == storage_text(*error, detail@),
{
    match error {
        StorageError::Io { message, .. } => {
            let mut text = "I/O error (".to_owned();
            text.append(detail);
            text.append("): ");
            text.append(message.as_str());
            text
        },
        StorageError::UnsupportedVersion(version) => {
            let mut text = "unsupported command format version ".to_owned();
            put_number(&mut text, *version as u64);
            text
        },
        StorageError::UnsupportedTransitionVersion(version) => {
            let mut text = "unsupported transition format version ".to_owned();
            put_number(&mut text, *version as u64);
            text
        },
        StorageError::UnsupportedRecordVersion { offset, version } => {
            let mut text = "unsupported WAL record format version ".to_owned();
            put_number(&mut text, *version as u64);
            text.append(" at offset ");
            put_number(&mut text, *offset as u64);
            text
        },
        StorageError::InvalidTag { kind, tag } => {
            let mut text = "invalid ".to_owned();
            text.append(kind);
            text.append(" tag ");
            put_number(&mut text, *tag as u64);
            text
        },
        StorageError::InvalidLength { field, length } => {
            let mut text = "invalid length ".to_owned();
            put_number(&mut text, *length as u64);
            text.append(" for ");
            text.append(field);
            text
        },
        StorageError::SegmentLengthOverflow { current, append } => {
            let mut text = "segment length overflow: cannot append ".to_owned();
            put_number(&mut text, *append as u64);
            text.append(" bytes to physical length ");
            put_number(&mut text, *current as u64);
            text
        },
        StorageError::InvalidRecordLimit(limit) => {
            let mut text = "invalid maximum WAL record length ".to_owned();
            put_number(&mut text, *limit as u64);
            text
        },
        StorageError::RecordTooLarge { offset, length, max } => {
            let mut text = "WAL record at offset ".to_owned();
            put_number(&mut text, *offset as u64);
            text.append(" has length ");
            put_number(&mut text, *length as u64);
            text.append(", exceeding limit ");
            put_number(&mut text, *max as u64);
            text
        },
        StorageError::InvalidUtf8 => {
            "encoded string is not valid UTF-8".to_owned()
        },
        StorageError::TruncatedPayload => {
            "encoded payload is truncated".to_owned()
        },
        StorageError::CorruptRecord(reason) => {
            let mut text = "corrupt command payload: ".to_owned();
            text.append(reason);
            text
        },
        StorageError::CorruptWalRecord { offset, reason } => {
            let mut text = "corrupt WAL record at offset ".to_owned();
            put_number(&mut text, *offset as u64);
            text.append(": ");
            text.append(corruption_message(reason).as_str());
            text
        },
        StorageError::PartialTail { offset, expected, actual } => {
            let mut text = "WAL record at offset ".to_owned();
            put_number(&mut text, *offset as u64);
            text.append(" is partial: expected ");
            put_number(&mut text, *expected as u64);
            text.append(" bytes, found ");
            put_number(&mut text, *actual as u64);
            text
        },
        StorageError::Domain(_) => {
            let mut text = "decoded value violates domain rules: ".to_owned();
            text.append(detail);
            text
        },
    }
}

/// A database failure in words. `detail` is the underlying failure.
pub open spec fn database_text(error: DatabaseError, detail: Seq<char>) -> Seq<char> {
    match error {
        DatabaseError::Storage(_) => "storage preparation failed: "@ + detail,
        DatabaseError::Preparation(class) => "engine preparation failed: "@
            + preparation_text(class),
        DatabaseError::Recovery(_) => "database recovery failed: "@ + detail,
        DatabaseError::Indeterminate(_) => "durable write outcome is indeterminate: "@ + detail,
        DatabaseError::Poisoned => "database writes are poisoned"@,
        DatabaseError::SequenceExhausted => "WAL record sequence is exhausted"@,
        DatabaseError::CoordinatorInvariant => "database response cardinality invariant failed"@,
    }
}

/// Returns a database failure in words. `detail` is the underlying failure in words.
pub fn database_message(error: &DatabaseError, detail: &str) -> (out: String)
    ensures
        out@ == database_text(*error, detail@),
{
    match error {
        DatabaseError::Storage(_) => {
            let mut text = "storage preparation failed: ".to_owned();
            text.append(detail);
            text
        },
        DatabaseError::Preparation(class) => {
            let mut text = "engine preparation failed: ".to_owned();
            text.append(preparation_label(*class));
            text
        },
        DatabaseError::Recovery(_) => {
            let mut text = "database recovery failed: ".to_owned();
            text.append(detail);
            text
        },
        DatabaseError::Indeterminate(_) => {
            let mut text = "durable write outcome is indeterminate: ".to_owned();
            text.append(detail);
            text
        },
        DatabaseError::Poisoned => {
            "database writes are poisoned".to_owned()
        },
        DatabaseError::SequenceExhausted => {
            "WAL record sequence is exhausted".to_owned()
        },
        DatabaseError::CoordinatorInvariant => {
            "database response cardinality invariant failed".to_owned()
        },
    }
}

/// What is wrong with a manifest, in words.
pub open spec fn manifest_text(error: ManifestError) -> Seq<char> {
    match error {
        ManifestError::InvalidLength(length) => "invalid manifest length "@ + number(length as nat),
        ManifestError::InvalidMagic(magic) => "invalid manifest magic "@ + four_bytes(magic),
        ManifestError::UnsupportedVersion(version) => "unsupported manifest version "@
            + number(version as nat),
        ManifestError::InvalidHeaderLength(length) => "invalid manifest header length "@
            + number(length as nat),
        ManifestError::NonZeroReserved => "manifest reserved bytes are non-zero"@,
        ManifestError::InvalidDatabaseUuid => "invalid manifest database UUID"@,
        ManifestError::UnsupportedSemanticsVersion(version) =>
            "unsupported state-machine semantics version "@
            + number(version as nat),
        ManifestError::ChecksumMismatch => "manifest checksum mismatch"@,
        ManifestError::InvalidRecordLimit(limit) => "invalid persisted record limit "@
            + number(limit as nat),
        ManifestError::InvalidSnapshotLimits => "invalid persisted snapshot limits"@,
    }
}

/// Returns what is wrong with a manifest, in words.
pub fn manifest_message(error: &ManifestError) -> (out: String)
    ensures
        out@ == manifest_text(*error),
{
    match error {
        ManifestError::InvalidLength(length) => {
            let mut text = "invalid manifest length ".to_owned();
            put_number(&mut text, *length as u64);
            text
        },
        ManifestError::InvalidMagic(magic) => {
            let mut text = "invalid manifest magic ".to_owned();
            put_four_bytes(&mut text, *magic);
            text
        },
        ManifestError::UnsupportedVersion(version) => {
            let mut text = "unsupported manifest version ".to_owned();
            put_number(&mut text, *version as u64);
            text
        },
        ManifestError::InvalidHeaderLength(length) => {
            let mut text = "invalid manifest header length ".to_owned();
            put_number(&mut text, *length as u64);
            text
        },
        ManifestError::NonZeroReserved => {
            "manifest reserved bytes are non-zero".to_owned()
        },
        ManifestError::InvalidDatabaseUuid => {
            "invalid manifest database UUID".to_owned()
        },
        ManifestError::UnsupportedSemanticsVersion(version) => {
            let mut text = "unsupported state-machine semantics version ".to_owned();
            put_number(&mut text, *version as u64);
            text
        },
        ManifestError::ChecksumMismatch => {
            "manifest checksum mismatch".to_owned()
        },
        ManifestError::InvalidRecordLimit(limit) => {
            let mut text = "invalid persisted record limit ".to_owned();
            put_number(&mut text, *limit as u64);
            text
        },
        ManifestError::InvalidSnapshotLimits => {
            "invalid persisted snapshot limits".to_owned()
        },
    }
}

/// What is wrong with a segment header, in words.
pub open spec fn segment_header_text(error: SegmentHeaderError) -> Seq<char> {
    match error {
        SegmentHeaderError::Truncated { expected, actual } => "partial segment header: expected "@
            + number(expected as nat) + " bytes, found "@ + number(actual as nat),
        SegmentHeaderError::InvalidMagic(magic) => "invalid segment magic "@ + four_bytes(magic),
        SegmentHeaderError::UnsupportedVersion(version) => "unsupported segment version "@
            + number(version as nat),
        SegmentHeaderError::UnsupportedFlags(flags) => "unsupported segment flags "@
            + hex_byte(flags),
        SegmentHeaderError::InvalidHeaderLength(length) => "invalid segment header length "@
            + number(length as nat),
        SegmentHeaderError::DatabaseUuidMismatch { expected, actual } => "segment database UUID "@
            + identity_text(actual@) + " differs from manifest UUID "@ + identity_text(expected@),
        SegmentHeaderError::InvalidFirstSequence(sequence) => "invalid segment first sequence "@
            + number(sequence as nat),
        SegmentHeaderError::NonZeroReserved => "segment reserved bytes are non-zero"@,
        SegmentHeaderError::ChecksumMismatch => "segment header checksum mismatch"@,
    }
}

/// Returns what is wrong with a segment header, in words.
pub fn segment_header_message(error: &SegmentHeaderError) -> (out: String)
    ensures
        out@ == segment_header_text(*error),
{
    match error {
        SegmentHeaderError::Truncated { expected, actual } => {
            let mut text = "partial segment header: expected ".to_owned();
            put_number(&mut text, *expected as u64);
            text.append(" bytes, found ");
            put_number(&mut text, *actual as u64);
            text
        },
        SegmentHeaderError::InvalidMagic(magic) => {
            let mut text = "invalid segment magic ".to_owned();
            put_four_bytes(&mut text, *magic);
            text
        },
        SegmentHeaderError::UnsupportedVersion(version) => {
            let mut text = "unsupported segment version ".to_owned();
            put_number(&mut text, *version as u64);
            text
        },
        SegmentHeaderError::UnsupportedFlags(flags) => {
            let mut text = "unsupported segment flags ".to_owned();
            put_hex_byte(&mut text, *flags);
            text
        },
        SegmentHeaderError::InvalidHeaderLength(length) => {
            let mut text = "invalid segment header length ".to_owned();
            put_number(&mut text, *length as u64);
            text
        },
        SegmentHeaderError::DatabaseUuidMismatch { expected, actual } => {
            let mut text = "segment database UUID ".to_owned();
            text.append(uuid_text(*actual.as_bytes()).as_str());
            text.append(" differs from manifest UUID ");
            text.append(uuid_text(*expected.as_bytes()).as_str());
            text
        },
        SegmentHeaderError::InvalidFirstSequence(sequence) => {
            let mut text = "invalid segment first sequence ".to_owned();
            put_number(&mut text, *sequence as u64);
            text
        },
        SegmentHeaderError::NonZeroReserved => {
            "segment reserved bytes are non-zero".to_owned()
        },
        SegmentHeaderError::ChecksumMismatch => {
            "segment header checksum mismatch".to_owned()
        },
    }
}

/// What is wrong with a snapshot, in words. `detail` is the payload failure or the path.
pub open spec fn snapshot_text(error: SnapshotError, detail: Seq<char>) -> Seq<char> {
    match error {
        SnapshotError::Truncated { expected, actual } => "snapshot truncated: expected "@
            + number(expected as nat) + " bytes, found "@ + number(actual as nat),
        SnapshotError::InvalidMagic(value) => "invalid snapshot magic "@ + four_bytes(value),
        SnapshotError::UnsupportedVersion(value) => "unsupported snapshot version "@
            + number(value as nat),
        SnapshotError::UnsupportedFlags(value) => "unsupported snapshot flags "@ + hex_byte(value),
        SnapshotError::MalformedHeader(field) => "malformed snapshot header field "@ + field@,
        SnapshotError::NonZeroReserved => "snapshot reserved bytes are non-zero"@,
        SnapshotError::UnsupportedSemanticsVersion(value) =>
            "unsupported state-machine semantics version "@
            + number(value as nat),
        SnapshotError::DatabaseUuidMismatch { expected, actual } => "snapshot database UUID "@
            + identity_text(actual@) + " differs from manifest UUID "@ + identity_text(expected@),
        SnapshotError::FilenameWatermarkMismatch {
            filename,
            header,
        } => "snapshot filename watermark "@
            + number(filename as nat) + " differs from header watermark "@ + number(header as nat),
        SnapshotError::ChecksumMismatch => "snapshot checksum mismatch"@,
        SnapshotError::InvalidLimits { field, value, minimum } => "snapshot limit "@ + field@
            + " is "@ + number(value as nat) + ", below required minimum "@
            + number(minimum as nat),
        SnapshotError::Limit { field, value, maximum } => "snapshot "@ + field@ + " "@
            + number(value as nat) + " exceeds limit "@ + number(maximum as nat),
        SnapshotError::Allocation { field, requested } => "cannot reserve "@
            + number(requested as nat) + " bytes or entries for snapshot "@ + field@,
        SnapshotError::MalformedPayload(_) => "malformed canonical snapshot payload: "@ + detail,
        SnapshotError::InvalidEngineState => "snapshot authoritative state is inconsistent"@,
        SnapshotError::InvalidFilename(_) => "non-canonical snapshot filename: "@ + detail,
    }
}

/// Returns what is wrong with a snapshot, in words. `detail` is the payload failure in words or
/// the path of the entry.
pub fn snapshot_message(error: &SnapshotError, detail: &str) -> (out: String)
    ensures
        out@ == snapshot_text(*error, detail@),
{
    match error {
        SnapshotError::Truncated { expected, actual } => {
            let mut text = "snapshot truncated: expected ".to_owned();
            put_number(&mut text, *expected as u64);
            text.append(" bytes, found ");
            put_number(&mut text, *actual as u64);
            text
        },
        SnapshotError::InvalidMagic(value) => {
            let mut text = "invalid snapshot magic ".to_owned();
            put_four_bytes(&mut text, *value);
            text
        },
        SnapshotError::UnsupportedVersion(value) => {
            let mut text = "unsupported snapshot version ".to_owned();
            put_number(&mut text, *value as u64);
            text
        },
        SnapshotError::UnsupportedFlags(value) => {
            let mut text = "unsupported snapshot flags ".to_owned();
            put_hex_byte(&mut text, *value);
            text
        },
        SnapshotError::MalformedHeader(field) => {
            let mut text = "malformed snapshot header field ".to_owned();
            text.append(field);
            text
        },
        SnapshotError::NonZeroReserved => {
            "snapshot reserved bytes are non-zero".to_owned()
        },
        SnapshotError::UnsupportedSemanticsVersion(value) => {
            let mut text = "unsupported state-machine semantics version ".to_owned();
            put_number(&mut text, *value as u64);
            text
        },
        SnapshotError::DatabaseUuidMismatch { expected, actual } => {
            let mut text = "snapshot database UUID ".to_owned();
            text.append(uuid_text(*actual.as_bytes()).as_str());
            text.append(" differs from manifest UUID ");
            text.append(uuid_text(*expected.as_bytes()).as_str());
            text
        },
        SnapshotError::FilenameWatermarkMismatch { filename, header } => {
            let mut text = "snapshot filename watermark ".to_owned();
            put_number(&mut text, *filename as u64);
            text.append(" differs from header watermark ");
            put_number(&mut text, *header as u64);
            text
        },
        SnapshotError::ChecksumMismatch => {
            "snapshot checksum mismatch".to_owned()
        },
        SnapshotError::InvalidLimits { field, value, minimum } => {
            let mut text = "snapshot limit ".to_owned();
            text.append(field);
            text.append(" is ");
            put_number(&mut text, *value as u64);
            text.append(", below required minimum ");
            put_number(&mut text, *minimum as u64);
            text
        },
        SnapshotError::Limit { field, value, maximum } => {
            let mut text = "snapshot ".to_owned();
            text.append(field);
            text.append(" ");
            put_number(&mut text, *value as u64);
            text.append(" exceeds limit ");
            put_number(&mut text, *maximum as u64);
            text
        },
        SnapshotError::Allocation { field, requested } => {
            let mut text = "cannot reserve ".to_owned();
            put_number(&mut text, *requested as u64);
            text.append(" bytes or entries for snapshot ");
            text.append(field);
            text
        },
        SnapshotError::MalformedPayload(_) => {
            let mut text = "malformed canonical snapshot payload: ".to_owned();
            text.append(detail);
            text
        },
        SnapshotError::InvalidEngineState => {
            "snapshot authoritative state is inconsistent".to_owned()
        },
        SnapshotError::InvalidFilename(_) => {
            let mut text = "non-canonical snapshot filename: ".to_owned();
            text.append(detail);
            text
        },
    }
}

/// A failure of a file database in words. `path` is the path that it names, and `detail` the
/// underlying failure.
pub open spec fn file_database_text(
    error: FileDatabaseError,
    path: Seq<char>,
    detail: Seq<char>,
) -> Seq<char> {
    match error {
        FileDatabaseError::AlreadyExists(_) => "database already exists: "@ + path,
        FileDatabaseError::AlreadyOpen(_) => "database is already open: "@ + path,
        FileDatabaseError::Lock { message, .. } => "cannot lock "@ + path + ": "@ + message@,
        FileDatabaseError::Io { operation, message, .. } => "cannot "@ + operation@ + " "@ + path
            + ": "@ + message@,
        FileDatabaseError::Manifest(_) => "invalid database manifest: "@ + detail,
        FileDatabaseError::RecordLimitsMismatch {
            persisted,
            requested,
        } => "record limit mismatch: manifest requires "@
            + number(persisted as nat) + ", requested "@ + number(requested as nat),
        FileDatabaseError::SnapshotLimitsMismatch {
            persisted,
            requested,
        } => "snapshot limits mismatch: manifest requires "@
            + limits_text(persisted) + ", requested "@ + limits_text(requested),
        FileDatabaseError::InvalidSegmentTarget { target, minimum } => "segment target "@
            + number(target as nat) + " is below minimum "@ + number(minimum as nat),
        FileDatabaseError::InvalidSegmentName(_) => "non-canonical WAL segment name: "@ + path,
        FileDatabaseError::MissingSegments(_) => "WAL directory has no segments: "@ + path,
        FileDatabaseError::SegmentHeader { .. } => "invalid segment header in "@ + path + ": "@
            + detail,
        FileDatabaseError::SegmentNameSequence {
            filename_sequence,
            header_sequence,
            ..
        } => "segment "@
            + path + " names sequence "@ + number(filename_sequence as nat) + " but header names "@
            + number(header_sequence as nat),
        FileDatabaseError::SegmentSequence { expected, actual, .. } => "segment "@ + path
            + " begins at "@ + number(actual as nat) + ", expected "@ + optional(expected),
        FileDatabaseError::Snapshot { .. } => "invalid snapshot "@ + path + ": "@ + detail,
        FileDatabaseError::SnapshotCommittedCleanup {
            watermark,
            operation,
            message,
            ..
        } => "snapshot "@
            + path + " at watermark "@ + number(watermark as nat) + " was committed, but "@
            + operation@ + " failed: "@ + message@,
        FileDatabaseError::SnapshotPoisoned =>
            "snapshot creation is disabled because database writes are poisoned"@,
        FileDatabaseError::SegmentRecovery { physical_offset, sealed, .. } => "recovery failed in "@
            + path + " at physical offset "@ + number(physical_offset as nat) + " (sealed="@
            + truth(sealed) + "): "@ + detail,
    }
}

/// Returns a failure of a file database in words. `path` is the path that it names, and `detail`
/// the underlying failure in words.
pub fn file_database_message(error: &FileDatabaseError, path: &str, detail: &str) -> (out: String)
    ensures
        out@ == file_database_text(*error, path@, detail@),
{
    match error {
        FileDatabaseError::AlreadyExists(_) => {
            let mut text = "database already exists: ".to_owned();
            text.append(path);
            text
        },
        FileDatabaseError::AlreadyOpen(_) => {
            let mut text = "database is already open: ".to_owned();
            text.append(path);
            text
        },
        FileDatabaseError::Lock { message, .. } => {
            let mut text = "cannot lock ".to_owned();
            text.append(path);
            text.append(": ");
            text.append(message.as_str());
            text
        },
        FileDatabaseError::Io { operation, message, .. } => {
            let mut text = "cannot ".to_owned();
            text.append(operation);
            text.append(" ");
            text.append(path);
            text.append(": ");
            text.append(message.as_str());
            text
        },
        FileDatabaseError::Manifest(_) => {
            let mut text = "invalid database manifest: ".to_owned();
            text.append(detail);
            text
        },
        FileDatabaseError::RecordLimitsMismatch { persisted, requested } => {
            let mut text = "record limit mismatch: manifest requires ".to_owned();
            put_number(&mut text, *persisted as u64);
            text.append(", requested ");
            put_number(&mut text, *requested as u64);
            text
        },
        FileDatabaseError::SnapshotLimitsMismatch { persisted, requested } => {
            let mut text = "snapshot limits mismatch: manifest requires ".to_owned();
            put_limits(&mut text, *persisted);
            text.append(", requested ");
            put_limits(&mut text, *requested);
            text
        },
        FileDatabaseError::InvalidSegmentTarget { target, minimum } => {
            let mut text = "segment target ".to_owned();
            put_number(&mut text, *target as u64);
            text.append(" is below minimum ");
            put_number(&mut text, *minimum as u64);
            text
        },
        FileDatabaseError::InvalidSegmentName(_) => {
            let mut text = "non-canonical WAL segment name: ".to_owned();
            text.append(path);
            text
        },
        FileDatabaseError::MissingSegments(_) => {
            let mut text = "WAL directory has no segments: ".to_owned();
            text.append(path);
            text
        },
        FileDatabaseError::SegmentHeader { .. } => {
            let mut text = "invalid segment header in ".to_owned();
            text.append(path);
            text.append(": ");
            text.append(detail);
            text
        },
        FileDatabaseError::SegmentNameSequence { filename_sequence, header_sequence, .. } => {
            let mut text = "segment ".to_owned();
            text.append(path);
            text.append(" names sequence ");
            put_number(&mut text, *filename_sequence as u64);
            text.append(" but header names ");
            put_number(&mut text, *header_sequence as u64);
            text
        },
        FileDatabaseError::SegmentSequence { expected, actual, .. } => {
            let mut text = "segment ".to_owned();
            text.append(path);
            text.append(" begins at ");
            put_number(&mut text, *actual as u64);
            text.append(", expected ");
            put_optional(&mut text, *expected);
            text
        },
        FileDatabaseError::Snapshot { .. } => {
            let mut text = "invalid snapshot ".to_owned();
            text.append(path);
            text.append(": ");
            text.append(detail);
            text
        },
        FileDatabaseError::SnapshotCommittedCleanup { watermark, operation, message, .. } => {
            let mut text = "snapshot ".to_owned();
            text.append(path);
            text.append(" at watermark ");
            put_number(&mut text, *watermark as u64);
            text.append(" was committed, but ");
            text.append(operation);
            text.append(" failed: ");
            text.append(message.as_str());
            text
        },
        FileDatabaseError::SnapshotPoisoned => {
            "snapshot creation is disabled because database writes are poisoned".to_owned()
        },
        FileDatabaseError::SegmentRecovery { physical_offset, sealed, .. } => {
            let mut text = "recovery failed in ".to_owned();
            text.append(path);
            text.append(" at physical offset ");
            put_number(&mut text, *physical_offset as u64);
            text.append(" (sealed=");
            put_truth(&mut text, *sealed);
            text.append("): ");
            text.append(detail);
            text
        },
    }
}

/// A violated domain rule in words.
pub open spec fn domain_text(error: DomainError) -> Seq<char> {
    match error {
        DomainError::InvalidInterval => "an interval does not end after it starts"@,
        DomainError::UnsortedCapacitySegments => "capacity segments are not ordered by their start"@,
        DomainError::OverlappingCapacitySegments => "two capacity segments overlap"@,
        DomainError::InvalidUnitName => "a unit has no name"@,
        DomainError::InvalidUnitScale => "a unit has no subunits"@,
        DomainError::InvalidQuantity => "a quantity is zero"@,
        DomainError::QuantityOutOfRange => "a quantity cannot be represented"@,
        DomainError::QuantityOverflow => "a sum of quantities overflows"@,
        DomainError::IndexOverflow => "an internal index overflows"@,
        DomainError::InvalidExpiration => "an expiration is not in the future"@,
        DomainError::EmptyBundle => "a bundle holds no claim"@,
        DomainError::EmptyRelativeBundle => "a relative bundle holds no claim"@,
        DomainError::EmptyChoice => "a choice holds no alternative"@,
        DomainError::InvalidSearchRange => "a slot search range is empty"@,
        DomainError::InvalidStep => "a slot search step is not positive"@,
        DomainError::TimestampOverflow => "a timestamp computation overflows"@,
        DomainError::ResourcePoolAlreadyExists => "the resource pool exists already"@,
        DomainError::ResourcePoolNotFound => "the resource pool does not exist"@,
        DomainError::CapacityExceeded => "a request exceeds the capacity of a pool"@,
        DomainError::CapacityRevisionCreatesDeficit => "a strict capacity revision would create a deficit"@,
        DomainError::PromiseAlreadyExists => "the promise exists already"@,
        DomainError::PromiseNotFound => "the promise does not exist"@,
        DomainError::InvalidPromiseState => "the promise is in another state than the operation needs"@,
        DomainError::IdempotencyConflict => "an idempotency key was used before for another command"@,
        DomainError::VersionConflict => "the promise has another version than the command expects"@,
        DomainError::VersionOverflow => "a promise version overflows"@,
        DomainError::SequenceOverflow => "the domain sequence overflows"@,
        DomainError::SystemTimeOutOfRange => "the system clock is out of range"@,
        DomainError::HoldExpired => "the hold has expired"@,
        DomainError::HoldNotExpired => "the hold has not expired"@,
        DomainError::InvalidPromiseHistory => "a promise was updated before it was created"@,
        DomainError::PublicationRevisionOverflow => "the publication revision overflows"@,
    }
}

/// Returns a violated domain rule in words.
pub fn domain_message(error: DomainError) -> (out: &'static str)
    ensures
        out@ == domain_text(error),
{
    match error {
        DomainError::InvalidInterval => "an interval does not end after it starts",
        DomainError::UnsortedCapacitySegments => "capacity segments are not ordered by their start",
        DomainError::OverlappingCapacitySegments => "two capacity segments overlap",
        DomainError::InvalidUnitName => "a unit has no name",
        DomainError::InvalidUnitScale => "a unit has no subunits",
        DomainError::InvalidQuantity => "a quantity is zero",
        DomainError::QuantityOutOfRange => "a quantity cannot be represented",
        DomainError::QuantityOverflow => "a sum of quantities overflows",
        DomainError::IndexOverflow => "an internal index overflows",
        DomainError::InvalidExpiration => "an expiration is not in the future",
        DomainError::EmptyBundle => "a bundle holds no claim",
        DomainError::EmptyRelativeBundle => "a relative bundle holds no claim",
        DomainError::EmptyChoice => "a choice holds no alternative",
        DomainError::InvalidSearchRange => "a slot search range is empty",
        DomainError::InvalidStep => "a slot search step is not positive",
        DomainError::TimestampOverflow => "a timestamp computation overflows",
        DomainError::ResourcePoolAlreadyExists => "the resource pool exists already",
        DomainError::ResourcePoolNotFound => "the resource pool does not exist",
        DomainError::CapacityExceeded => "a request exceeds the capacity of a pool",
        DomainError::CapacityRevisionCreatesDeficit => "a strict capacity revision would create a deficit",
        DomainError::PromiseAlreadyExists => "the promise exists already",
        DomainError::PromiseNotFound => "the promise does not exist",
        DomainError::InvalidPromiseState => "the promise is in another state than the operation needs",
        DomainError::IdempotencyConflict => "an idempotency key was used before for another command",
        DomainError::VersionConflict => "the promise has another version than the command expects",
        DomainError::VersionOverflow => "a promise version overflows",
        DomainError::SequenceOverflow => "the domain sequence overflows",
        DomainError::SystemTimeOutOfRange => "the system clock is out of range",
        DomainError::HoldExpired => "the hold has expired",
        DomainError::HoldNotExpired => "the hold has not expired",
        DomainError::InvalidPromiseHistory => "a promise was updated before it was created",
        DomainError::PublicationRevisionOverflow => "the publication revision overflows",
    }
}

/// Why a recovered transition cannot be installed, in words.
pub open spec fn install_text(error: RecoveryInstallError) -> Seq<char> {
    match error {
        RecoveryInstallError::Sequence => "the transition does not continue the domain sequence"@,
        RecoveryInstallError::InconsistentState =>
            "the transition contradicts the state before it"@,
        RecoveryInstallError::Index =>
            "the indexes over the recovered state cannot be built"@,
    }
}

/// Returns why a recovered transition cannot be installed, in words.
pub fn install_message(error: RecoveryInstallError) -> (out: &'static str)
    ensures
        out@ == install_text(error),
{
    match error {
        RecoveryInstallError::Sequence => "the transition does not continue the domain sequence",
        RecoveryInstallError::InconsistentState => {
            "the transition contradicts the state before it"
        },
        RecoveryInstallError::Index => "the indexes over the recovered state cannot be built",
    }
}

/// What a storage failure rests on, in words: the category of an I/O failure, or the violated
/// domain rule.
pub open spec fn storage_detail(error: StorageError, category: Seq<char>) -> Seq<char> {
    match error {
        StorageError::Io { .. } => category,
        StorageError::Domain(rule) => domain_text(rule),
        _ => seq![],
    }
}

/// A storage failure with what it rests on, in words. `category` is the category of an I/O
/// failure.
pub open spec fn storage_description(error: StorageError, category: Seq<char>) -> Seq<char> {
    storage_text(error, storage_detail(error, category))
}

/// Returns a storage failure with what it rests on, in words. `category` is the category of an
/// I/O failure.
pub fn describe_storage(error: &StorageError, category: &str) -> (out: String)
    ensures
        out@ == storage_description(*error, category@),
{
    match error {
        StorageError::Io { .. } => storage_message(error, category),
        StorageError::Domain(rule) => storage_message(error, domain_message(*rule)),
        _ => {
            proof {
                reveal_strlit("");
                assert(""@ =~= seq![]);
            }
            storage_message(error, "")
        },
    }
}

/// A signed decimal number.
pub open spec fn signed(value: int) -> Seq<char> {
    if value < 0 {
        "-"@ + number((0 - value) as nat)
    } else {
        number(value as nat)
    }
}

/// Appends a signed decimal number.
fn put_signed(text: &mut String, value: i64)
    ensures
        final(text)@ == old(text)@ + signed(value as int),
{
    if value < 0 {
        text.append("-");
        let magnitude = (0 - (value + 1)) as u64 + 1;
        put_number(text, magnitude);
    } else {
        put_number(text, value as u64);
    }
    assert(text@ =~= old(text)@ + signed(value as int));
}

/// Why a log cannot be replayed, in words. `category` is the category of an I/O failure.
pub open spec fn recovery_description(error: RecoveryError, category: Seq<char>) -> Seq<char> {
    match error {
        RecoveryError::Storage { last_valid_offset, source } => "replay stopped behind offset "@
            + number(last_valid_offset as nat) + ": "@ + storage_description(source, category),
        RecoveryError::TimestampMismatch {
            last_valid_offset,
            record_sequence,
            record_timestamp,
            event_timestamp,
        } => "replay stopped behind offset "@ + number(last_valid_offset as nat) + ": record "@
            + number(record_sequence as nat) + " has timestamp "@ + signed(record_timestamp as int)
            + ", its event has "@ + signed(event_timestamp as int),
        RecoveryError::Install { last_valid_offset, source } => "replay stopped behind offset "@
            + number(last_valid_offset as nat) + ": "@ + install_text(source),
    }
}

/// Returns why a log cannot be replayed, in words. `category` is the category of an I/O failure.
pub fn describe_recovery(error: &RecoveryError, category: &str) -> (out: String)
    ensures
        out@ == recovery_description(*error, category@),
{
    let mut text = "replay stopped behind offset ".to_owned();
    match error {
        RecoveryError::Storage { last_valid_offset, source } => {
            put_number(&mut text, *last_valid_offset);
            text.append(": ");
            let detail = describe_storage(source, category);
            text.append(detail.as_str());
        },
        RecoveryError::TimestampMismatch {
            last_valid_offset,
            record_sequence,
            record_timestamp,
            event_timestamp,
        } => {
            put_number(&mut text, *last_valid_offset);
            text.append(": record ");
            put_number(&mut text, *record_sequence);
            text.append(" has timestamp ");
            put_signed(&mut text, *record_timestamp);
            text.append(", its event has ");
            put_signed(&mut text, *event_timestamp);
        },
        RecoveryError::Install { last_valid_offset, source } => {
            put_number(&mut text, *last_valid_offset);
            text.append(": ");
            text.append(install_message(*source));
        },
    }
    text
}

/// A database failure with what it rests on, in words. `category` is the category of an I/O
/// failure.
pub open spec fn database_description(error: DatabaseError, category: Seq<char>) -> Seq<char> {
    match error {
        DatabaseError::Storage(source) => database_text(
            error,
            storage_description(source, category),
        ),
        DatabaseError::Indeterminate(source) => database_text(
            error,
            storage_description(source, category),
        ),
        DatabaseError::Recovery(source) => database_text(
            error,
            recovery_description(source, category),
        ),
        _ => database_text(error, seq![]),
    }
}

/// Returns a database failure with what it rests on, in words. `category` is the category of an
/// I/O failure.
pub fn describe_database(error: &DatabaseError, category: &str) -> (out: String)
    ensures
        out@ == database_description(*error, category@),
{
    match error {
        DatabaseError::Storage(source) => {
            let detail = describe_storage(source, category);
            database_message(error, detail.as_str())
        },
        DatabaseError::Indeterminate(source) => {
            let detail = describe_storage(source, category);
            database_message(error, detail.as_str())
        },
        DatabaseError::Recovery(source) => {
            let detail = describe_recovery(source, category);
            database_message(error, detail.as_str())
        },
        _ => {
            proof {
                reveal_strlit("");
                assert(""@ =~= seq![]);
            }
            database_message(error, "")
        },
    }
}

/// What is wrong with a snapshot and why, in words. `path` is the path of a file that is named
/// otherwise than a snapshot, and `category` the category of an I/O failure.
pub open spec fn snapshot_description(
    error: SnapshotError,
    path: Seq<char>,
    category: Seq<char>,
) -> Seq<char> {
    match error {
        SnapshotError::MalformedPayload(source) => snapshot_text(
            error,
            storage_description(source, category),
        ),
        SnapshotError::InvalidFilename(_) => snapshot_text(error, path),
        _ => snapshot_text(error, seq![]),
    }
}

/// Returns what is wrong with a snapshot and why, in words. `path` is the path of a file that is
/// named otherwise than a snapshot, and `category` the category of an I/O failure.
pub fn describe_snapshot(error: &SnapshotError, path: &str, category: &str) -> (out: String)
    ensures
        out@ == snapshot_description(*error, path@, category@),
{
    match error {
        SnapshotError::MalformedPayload(source) => {
            let detail = describe_storage(source, category);
            snapshot_message(error, detail.as_str())
        },
        SnapshotError::InvalidFilename(_) => snapshot_message(error, path),
        _ => {
            proof {
                reveal_strlit("");
                assert(""@ =~= seq![]);
            }
            snapshot_message(error, "")
        },
    }
}

/// A failure of a file database with what it rests on, in words. `path` is the path that it
/// names, `inner` that of a file that is named otherwise than a snapshot, and `category` the
/// category of an I/O failure.
pub open spec fn file_database_description(
    error: FileDatabaseError,
    path: Seq<char>,
    inner: Seq<char>,
    category: Seq<char>,
) -> Seq<char> {
    match error {
        FileDatabaseError::Manifest(source) => file_database_text(
            error,
            path,
            manifest_text(source),
        ),
        FileDatabaseError::SegmentHeader { source, .. } => file_database_text(
            error,
            path,
            segment_header_text(source),
        ),
        FileDatabaseError::Snapshot { source, .. } => file_database_text(
            error,
            path,
            snapshot_description(source, inner, category),
        ),
        FileDatabaseError::SegmentRecovery { source, .. } => file_database_text(
            error,
            path,
            recovery_description(source, category),
        ),
        _ => file_database_text(error, path, seq![]),
    }
}

/// Returns a failure of a file database with what it rests on, in words. `path` is the path that
/// it names, `inner` that of a file that is named otherwise than a snapshot, and `category` the
/// category of an I/O failure.
pub fn describe_file_database(
    error: &FileDatabaseError,
    path: &str,
    inner: &str,
    category: &str,
) -> (out: String)
    ensures
        out@ == file_database_description(*error, path@, inner@, category@),
{
    match error {
        FileDatabaseError::Manifest(source) => {
            let detail = manifest_message(source);
            file_database_message(error, path, detail.as_str())
        },
        FileDatabaseError::SegmentHeader { source, .. } => {
            let detail = segment_header_message(source);
            file_database_message(error, path, detail.as_str())
        },
        FileDatabaseError::Snapshot { source, .. } => {
            let detail = describe_snapshot(source, inner, category);
            file_database_message(error, path, detail.as_str())
        },
        FileDatabaseError::SegmentRecovery { source, .. } => {
            let detail = describe_recovery(source, category);
            file_database_message(error, path, detail.as_str())
        },
        _ => {
            proof {
                reveal_strlit("");
                assert(""@ =~= seq![]);
            }
            file_database_message(error, path, "")
        },
    }
}

} // verus!
