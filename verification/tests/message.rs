//! Failures in words.

use promisedb::database::{DatabaseError, DatabasePreparationError};
use promisedb::engine::RecoveryInstallError;
use promisedb::error::{DomainError, RecordCorruption, StorageError};
use promisedb::file::identity::DatabaseUuid;
use promisedb::file::manifest::ManifestError;
use promisedb::file::options::FileDatabaseError;
use promisedb::file::segment::SegmentHeaderError;
use promisedb::message::{
    corruption_message, database_message, describe_database, describe_file_database,
    describe_recovery, describe_snapshot, describe_storage, domain_message, file_database_message,
    install_message, manifest_message, segment_header_message, snapshot_message, storage_message,
};
use promisedb::replay::RecoveryError;
use promisedb::snapshot::limits::{SnapshotError, SnapshotLimits};
use std::path::PathBuf;

#[test]
fn corruptions_are_described() {
    let cases = [
        (
            RecordCorruption::InvalidMagic(*b"QDBW"),
            "invalid magic [81, 68, 66, 87]",
        ),
        (
            RecordCorruption::UnsupportedFlags(7),
            "unsupported flags 0x07",
        ),
        (
            RecordCorruption::InvalidHeaderLength(33),
            "invalid header length 33",
        ),
        (
            RecordCorruption::InvalidRecordLength(0),
            "invalid total record length 0",
        ),
        (
            RecordCorruption::InvalidPayloadLength {
                record_len: 56,
                payload_len: 9,
            },
            "payload length 9 is inconsistent with record length 56",
        ),
        (
            RecordCorruption::InvalidSequence(0),
            "invalid record sequence 0",
        ),
        (
            RecordCorruption::SequenceMismatch {
                expected: 10,
                actual: u64::MAX,
            },
            "record sequence mismatch: expected 10, found 18446744073709551615",
        ),
        (
            RecordCorruption::SequenceOverflow,
            "record sequence overflow",
        ),
        (
            RecordCorruption::NonZeroPadding {
                index: 2,
                value: 0xaf,
            },
            "non-zero padding byte at index 2: 0xaf",
        ),
        (RecordCorruption::ChecksumMismatch, "checksum mismatch"),
    ];
    for (reason, expected) in cases {
        assert_eq!(corruption_message(&reason), expected);
    }
}

#[test]
fn storage_failures_are_described() {
    let plain = [
        (
            StorageError::UnsupportedVersion(2),
            "unsupported command format version 2",
        ),
        (
            StorageError::UnsupportedTransitionVersion(3),
            "unsupported transition format version 3",
        ),
        (
            StorageError::UnsupportedRecordVersion {
                offset: 5,
                version: 2,
            },
            "unsupported WAL record format version 2 at offset 5",
        ),
        (
            StorageError::InvalidTag {
                kind: "command",
                tag: 200,
            },
            "invalid command tag 200",
        ),
        (
            StorageError::InvalidLength {
                field: "events",
                length: 9,
            },
            "invalid length 9 for events",
        ),
        (
            StorageError::SegmentLengthOverflow {
                current: 64,
                append: 48,
            },
            "segment length overflow: cannot append 48 bytes to physical length 64",
        ),
        (
            StorageError::InvalidRecordLimit(47),
            "invalid maximum WAL record length 47",
        ),
        (
            StorageError::RecordTooLarge {
                offset: 1,
                length: 56,
                max: 48,
            },
            "WAL record at offset 1 has length 56, exceeding limit 48",
        ),
        (
            StorageError::InvalidUtf8,
            "encoded string is not valid UTF-8",
        ),
        (
            StorageError::TruncatedPayload,
            "encoded payload is truncated",
        ),
        (
            StorageError::CorruptRecord("zero"),
            "corrupt command payload: zero",
        ),
        (
            StorageError::CorruptWalRecord {
                offset: 12,
                reason: RecordCorruption::ChecksumMismatch,
            },
            "corrupt WAL record at offset 12: checksum mismatch",
        ),
        (
            StorageError::PartialTail {
                offset: 3,
                expected: 32,
                actual: 4,
            },
            "WAL record at offset 3 is partial: expected 32 bytes, found 4",
        ),
    ];
    for (error, expected) in plain {
        assert_eq!(storage_message(&error, "unused"), expected);
    }
    assert_eq!(
        storage_message(
            &StorageError::Io {
                kind: std::io::ErrorKind::Other,
                message: "disk".to_string(),
            },
            "Other"
        ),
        "I/O error (Other): disk"
    );
    assert_eq!(
        storage_message(&StorageError::Domain(DomainError::EmptyBundle), "no claim"),
        "decoded value violates domain rules: no claim"
    );
}

#[test]
fn database_failures_are_described() {
    let inner = StorageError::InvalidUtf8;
    let cases = [
        (
            DatabaseError::Storage(inner.clone()),
            "storage preparation failed: why",
        ),
        (
            DatabaseError::Preparation(DatabasePreparationError::StaleRevision),
            "engine preparation failed: StaleRevision",
        ),
        (
            DatabaseError::Preparation(DatabasePreparationError::RevisionOverflow),
            "engine preparation failed: RevisionOverflow",
        ),
        (
            DatabaseError::Recovery(RecoveryError::Storage {
                last_valid_offset: 0,
                source: inner.clone(),
            }),
            "database recovery failed: why",
        ),
        (
            DatabaseError::Indeterminate(inner),
            "durable write outcome is indeterminate: why",
        ),
        (DatabaseError::Poisoned, "database writes are poisoned"),
        (
            DatabaseError::SequenceExhausted,
            "WAL record sequence is exhausted",
        ),
        (
            DatabaseError::CoordinatorInvariant,
            "database response cardinality invariant failed",
        ),
    ];
    for (error, expected) in cases {
        assert_eq!(database_message(&error, "why"), expected);
    }
}

#[test]
fn manifest_and_segment_failures_are_described() {
    assert_eq!(
        manifest_message(&ManifestError::InvalidMagic([0, 1, 20, 255])),
        "invalid manifest magic [0, 1, 20, 255]"
    );
    assert_eq!(
        manifest_message(&ManifestError::InvalidLength(95)),
        "invalid manifest length 95"
    );
    assert_eq!(
        manifest_message(&ManifestError::UnsupportedSemanticsVersion(4)),
        "unsupported state-machine semantics version 4"
    );
    let identity = DatabaseUuid::from_bytes([
        0x01, 0x23, 0x45, 0x67, 0x89, 0xab, 0xcd, 0xef, 0xfe, 0xdc, 0xba, 0x98, 0x76, 0x54, 0x32,
        0x10,
    ]);
    assert_eq!(
        segment_header_message(&SegmentHeaderError::DatabaseUuidMismatch {
            expected: DatabaseUuid::from_bytes([0; 16]),
            actual: identity,
        }),
        "segment database UUID 01234567-89ab-cdef-fedc-ba9876543210 differs from manifest UUID \
         00000000-0000-0000-0000-000000000000"
    );
    assert_eq!(
        segment_header_message(&SegmentHeaderError::UnsupportedFlags(0x10)),
        "unsupported segment flags 0x10"
    );
    assert_eq!(
        segment_header_message(&SegmentHeaderError::Truncated {
            expected: 64,
            actual: 3,
        }),
        "partial segment header: expected 64 bytes, found 3"
    );
}

#[test]
fn snapshot_failures_are_described() {
    assert_eq!(
        snapshot_message(
            &SnapshotError::Limit {
                field: "total bytes",
                value: 201,
                maximum: 200,
            },
            ""
        ),
        "snapshot total bytes 201 exceeds limit 200"
    );
    assert_eq!(
        snapshot_message(
            &SnapshotError::InvalidLimits {
                field: "maximum total bytes",
                value: 1,
                minimum: 160,
            },
            ""
        ),
        "snapshot limit maximum total bytes is 1, below required minimum 160"
    );
    assert_eq!(
        snapshot_message(
            &SnapshotError::Allocation {
                field: "events",
                requested: 5,
            },
            ""
        ),
        "cannot reserve 5 bytes or entries for snapshot events"
    );
    assert_eq!(
        snapshot_message(
            &SnapshotError::InvalidFilename(PathBuf::from("x")),
            "snapshots/x"
        ),
        "non-canonical snapshot filename: snapshots/x"
    );
    assert_eq!(
        snapshot_message(
            &SnapshotError::FilenameWatermarkMismatch {
                filename: 3,
                header: 4,
            },
            ""
        ),
        "snapshot filename watermark 3 differs from header watermark 4"
    );
    assert_eq!(
        snapshot_message(
            &SnapshotError::MalformedPayload(StorageError::InvalidUtf8),
            "encoded string is not valid UTF-8"
        ),
        "malformed canonical snapshot payload: encoded string is not valid UTF-8"
    );
}

#[test]
fn directory_failures_are_described() {
    let path = || PathBuf::from("p");
    assert_eq!(
        file_database_message(&FileDatabaseError::AlreadyOpen(path()), "/db", ""),
        "database is already open: /db"
    );
    assert_eq!(
        file_database_message(
            &FileDatabaseError::Io {
                path: path(),
                operation: "read manifest",
                kind: std::io::ErrorKind::NotFound,
                message: "gone".to_string(),
            },
            "/db/MANIFEST",
            ""
        ),
        "cannot read manifest /db/MANIFEST: gone"
    );
    assert_eq!(
        file_database_message(
            &FileDatabaseError::SnapshotLimitsMismatch {
                persisted: SnapshotLimits::default(),
                requested: SnapshotLimits {
                    max_total_bytes: 4096,
                    max_collection_items: 1,
                    max_string_bytes: 2,
                    max_nested_items: 3,
                },
            },
            "",
            ""
        ),
        format!(
            "snapshot limits mismatch: manifest requires {:?}, requested {:?}",
            SnapshotLimits::default(),
            SnapshotLimits {
                max_total_bytes: 4096,
                max_collection_items: 1,
                max_string_bytes: 2,
                max_nested_items: 3,
            }
        )
    );
    for expected in [None, Some(12)] {
        assert_eq!(
            file_database_message(
                &FileDatabaseError::SegmentSequence {
                    path: path(),
                    expected,
                    actual: 3,
                },
                "segment",
                ""
            ),
            format!("segment segment begins at 3, expected {expected:?}")
        );
    }
    assert_eq!(
        file_database_message(
            &FileDatabaseError::SegmentRecovery {
                path: path(),
                physical_offset: 160,
                sealed: true,
                source: RecoveryError::Storage {
                    last_valid_offset: 96,
                    source: StorageError::InvalidUtf8,
                },
            },
            "segment",
            "broken"
        ),
        "recovery failed in segment at physical offset 160 (sealed=true): broken"
    );
    assert_eq!(
        file_database_message(
            &FileDatabaseError::SnapshotCommittedCleanup {
                path: path(),
                watermark: 8,
                operation: "remove older snapshot",
                kind: std::io::ErrorKind::Other,
                message: "denied".to_string(),
            },
            "snapshot",
            ""
        ),
        "snapshot snapshot at watermark 8 was committed, but remove older snapshot failed: denied"
    );
    assert_eq!(
        file_database_message(&FileDatabaseError::SnapshotPoisoned, "", ""),
        "snapshot creation is disabled because database writes are poisoned"
    );
}

#[test]
fn nested_failures_are_described_whole() {
    let io = || StorageError::Io {
        kind: std::io::ErrorKind::NotFound,
        message: "gone".to_string(),
    };
    assert_eq!(describe_storage(&io(), "NotFound"), "I/O error (NotFound): gone");
    assert_eq!(
        describe_storage(&StorageError::Domain(DomainError::EmptyBundle), "ignored"),
        "decoded value violates domain rules: a bundle holds no claim"
    );
    assert_eq!(
        describe_storage(&StorageError::InvalidUtf8, "ignored"),
        "encoded string is not valid UTF-8"
    );
    assert_eq!(
        domain_message(DomainError::PublicationRevisionOverflow),
        "the publication revision overflows"
    );
    assert_eq!(
        install_message(RecoveryInstallError::Index),
        "the indexes over the recovered state cannot be built"
    );
    let storage = || RecoveryError::Storage {
        last_valid_offset: 48,
        source: io(),
    };
    assert_eq!(
        describe_recovery(&storage(), "NotFound"),
        "replay stopped behind offset 48: I/O error (NotFound): gone"
    );
    assert_eq!(
        describe_recovery(
            &RecoveryError::TimestampMismatch {
                last_valid_offset: 0,
                record_sequence: 3,
                record_timestamp: i64::MIN,
                event_timestamp: 7,
            },
            "",
        ),
        "replay stopped behind offset 0: record 3 has timestamp -9223372036854775808, its event has 7"
    );
    assert_eq!(
        describe_recovery(
            &RecoveryError::Install {
                last_valid_offset: 9,
                source: RecoveryInstallError::Sequence,
            },
            "",
        ),
        "replay stopped behind offset 9: the transition does not continue the domain sequence"
    );
    assert_eq!(
        describe_database(&DatabaseError::Indeterminate(io()), "NotFound"),
        "durable write outcome is indeterminate: I/O error (NotFound): gone"
    );
    assert_eq!(
        describe_database(&DatabaseError::Recovery(storage()), "NotFound"),
        "database recovery failed: replay stopped behind offset 48: I/O error (NotFound): gone"
    );
    assert_eq!(
        describe_database(&DatabaseError::Poisoned, "ignored"),
        "database writes are poisoned"
    );
    let payload = || SnapshotError::MalformedPayload(StorageError::TruncatedPayload);
    assert_eq!(
        describe_snapshot(&payload(), "ignored", ""),
        "malformed canonical snapshot payload: encoded payload is truncated"
    );
    assert_eq!(
        describe_snapshot(
            &SnapshotError::InvalidFilename(PathBuf::from("odd")),
            "odd",
            "",
        ),
        "non-canonical snapshot filename: odd"
    );
    assert_eq!(
        describe_file_database(
            &FileDatabaseError::Snapshot {
                path: PathBuf::from("s"),
                source: payload(),
            },
            "s",
            "ignored",
            "",
        ),
        "invalid snapshot s: malformed canonical snapshot payload: encoded payload is truncated"
    );
    let manifest = ManifestError::ChecksumMismatch;
    let words = format!("invalid database manifest: {}", manifest_message(&manifest));
    assert_eq!(
        describe_file_database(&FileDatabaseError::Manifest(manifest), "", "", ""),
        words
    );
    assert_eq!(
        describe_file_database(
            &FileDatabaseError::SegmentRecovery {
                path: PathBuf::from("w"),
                physical_offset: 112,
                sealed: true,
                source: storage(),
            },
            "w",
            "",
            "NotFound",
        ),
        "recovery failed in w at physical offset 112 (sealed=true): replay stopped behind offset 48: I/O error (NotFound): gone"
    );
    assert_eq!(
        describe_file_database(
            &FileDatabaseError::AlreadyOpen(PathBuf::from("d")),
            "d",
            "",
            "",
        ),
        "database is already open: d"
    );
}
