//! What stands in a database directory.

use promisedb::error::{RecordCorruption, StorageError};
use promisedb::file::compaction::{is_covered, is_superseded, Compaction};
use promisedb::file::identity::DatabaseUuid;
use promisedb::file::manifest::{manifest_bytes, parse_manifest, Manifest, ManifestError};
use promisedb::file::manifest_v1;
use promisedb::file::names::{
    is_segment_temp, parse_segment_name, parse_snapshot_name, segment_name, segment_temp_name,
    snapshot_name,
};
use promisedb::file::opening::{
    after_feed, check_segment, check_segment_sequence, check_snapshot_length, classify_segment,
    is_later_snapshot, note_snapshot, order_segments, FeedDecision, SegmentEntry, SegmentInfo,
};
use promisedb::file::options::{FileDatabaseError, SnapshotOutcome};
use promisedb::file::segment::{
    parse_segment_header, segment_header, SegmentHeaderError, SEGMENT_HEADER_LEN,
};
use promisedb::file::segmented::{ActiveSegment, AppendPlan};
use promisedb::record::{encode, Record, RecordLimits, RecordSequence};
use promisedb::replay::{recovery_error_offset, RecoveryError};
use promisedb::snapshot::limits::{SnapshotError, SnapshotLimits};
use std::path::PathBuf;

fn uuid() -> DatabaseUuid {
    DatabaseUuid::from_bytes([0x40; 16])
}

fn sequence(value: u64) -> RecordSequence {
    RecordSequence::new(value).unwrap()
}

fn manifest() -> Manifest {
    Manifest {
        database_uuid: uuid(),
        record_limits: RecordLimits::default(),
        snapshot_limits: SnapshotLimits::default(),
    }
}

fn resign(bytes: &mut [u8], start: usize) {
    let checksum = blake3::hash(&bytes[..start]);
    let width = bytes.len() - start;
    bytes[start..].copy_from_slice(&checksum.as_bytes()[..width]);
}

#[test]
fn identities_are_random_version_four_uuids() {
    let first = DatabaseUuid::generate();
    let second = DatabaseUuid::generate();
    assert!(first.is_valid());
    assert!(!first.same(&second));
    assert_eq!(first.as_bytes()[6] >> 4, 4);
    assert_eq!(first.as_bytes()[8] >> 6, 2);
    assert!(!DatabaseUuid::from_bytes([0; 16]).is_valid());
    assert!(!DatabaseUuid::from_bytes([0x10; 16]).is_valid());
    assert!(uuid().is_valid());
}

#[test]
fn manifests_round_trip_and_report_every_defect() {
    let bytes = manifest_bytes(manifest());
    assert_eq!(bytes.len(), 96);
    assert_eq!(&bytes[0..4], b"PDBM");
    assert_eq!(parse_manifest(&bytes), Ok(manifest()));

    assert_eq!(
        parse_manifest(&bytes[..95]),
        Err(ManifestError::InvalidLength(95))
    );
    let changed = |index: usize, value: u8, signed: bool| {
        let mut bytes = manifest_bytes(manifest());
        bytes[index] = value;
        if signed {
            resign(&mut bytes, 64);
        }
        parse_manifest(&bytes)
    };
    assert_eq!(
        changed(0, b'Q', true),
        Err(ManifestError::InvalidMagic(*b"QDBM"))
    );
    assert_eq!(
        changed(4, 3, true),
        Err(ManifestError::UnsupportedVersion(3))
    );
    assert_eq!(
        changed(6, 95, true),
        Err(ManifestError::InvalidHeaderLength(95))
    );
    assert_eq!(changed(5, 1, true), Err(ManifestError::NonZeroReserved));
    assert_eq!(changed(63, 1, true), Err(ManifestError::NonZeroReserved));
    assert_eq!(changed(48, 1, false), Err(ManifestError::ChecksumMismatch));
    assert_eq!(
        changed(14, 0x10, true),
        Err(ManifestError::InvalidDatabaseUuid)
    );
    assert_eq!(
        changed(28, 2, true),
        Err(ManifestError::UnsupportedSemanticsVersion(2))
    );
    assert_eq!(
        changed(24, 1, true),
        Err(ManifestError::InvalidRecordLimit(0x0400_0001))
    );
    let mut limits = manifest_bytes(manifest());
    limits[44..48].copy_from_slice(&[0; 4]);
    resign(&mut limits, 64);
    assert_eq!(
        parse_manifest(&limits),
        Err(ManifestError::InvalidSnapshotLimits)
    );
}

#[test]
fn manifests_without_snapshots_round_trip() {
    let manifest = manifest_v1::Manifest {
        database_uuid: uuid(),
        record_limits: RecordLimits::new(1024).unwrap(),
    };
    let bytes = manifest_v1::manifest_bytes(manifest);
    assert_eq!(bytes.len(), 64);
    assert_eq!(manifest_v1::parse_manifest(&bytes), Ok(manifest));
    assert_eq!(
        parse_manifest(&bytes),
        Err(ManifestError::InvalidLength(64))
    );
    let mut changed = bytes;
    changed[63] ^= 1;
    assert_eq!(
        manifest_v1::parse_manifest(&changed),
        Err(ManifestError::ChecksumMismatch)
    );
}

#[test]
fn segment_headers_round_trip_and_report_every_defect() {
    let bytes = segment_header(uuid(), sequence(9));
    assert_eq!(bytes.len() as u64, SEGMENT_HEADER_LEN);
    assert_eq!(parse_segment_header(&bytes, uuid()), Ok(sequence(9)));
    let mut longer = bytes.clone();
    longer.extend_from_slice(&[1, 2, 3]);
    assert_eq!(parse_segment_header(&longer, uuid()), Ok(sequence(9)));

    assert_eq!(
        parse_segment_header(&bytes[..10], uuid()),
        Err(SegmentHeaderError::Truncated {
            expected: 64,
            actual: 10,
        })
    );
    let changed = |index: usize, value: u8, signed: bool| {
        let mut bytes = segment_header(uuid(), sequence(9));
        bytes[index] = value;
        if signed {
            resign(&mut bytes, 48);
        }
        parse_segment_header(&bytes, uuid())
    };
    assert_eq!(
        changed(3, b'Q', true),
        Err(SegmentHeaderError::InvalidMagic(*b"PDBQ"))
    );
    assert_eq!(
        changed(4, 2, true),
        Err(SegmentHeaderError::UnsupportedVersion(2))
    );
    assert_eq!(
        changed(5, 2, true),
        Err(SegmentHeaderError::UnsupportedFlags(2))
    );
    assert_eq!(
        changed(6, 65, true),
        Err(SegmentHeaderError::InvalidHeaderLength(65))
    );
    assert_eq!(
        changed(40, 1, true),
        Err(SegmentHeaderError::NonZeroReserved)
    );
    assert_eq!(
        changed(24, 8, false),
        Err(SegmentHeaderError::ChecksumMismatch)
    );
    assert_eq!(
        changed(24, 0, true),
        Err(SegmentHeaderError::InvalidFirstSequence(0))
    );
    assert!(matches!(
        changed(8, 1, true),
        Err(SegmentHeaderError::DatabaseUuidMismatch { .. })
    ));
}

#[test]
fn names_are_canonical() {
    assert_eq!(segment_name(sequence(12)), "00000000000000000012.wal");
    assert_eq!(
        segment_name(sequence(u64::MAX)),
        "18446744073709551615.wal"
    );
    assert_eq!(
        segment_temp_name(sequence(12)),
        "00000000000000000012.wal.tmp"
    );
    assert_eq!(snapshot_name(0), "00000000000000000000.snapshot");
    assert_eq!(
        parse_segment_name("00000000000000000012.wal"),
        Some(sequence(12))
    );
    for name in [
        "",
        "12.wal",
        "00000000000000000000.wal",
        "00000000000000000012.wax",
        "0000000000000000001x.wal",
        "99999999999999999999.wal",
        "+0000000000000000012.wal",
        "00000000000000000012.wal.tmp",
        "\u{e9}\u{e9}\u{e9}\u{e9}\u{e9}\u{e9}\u{e9}\u{e9}\u{e9}\u{e9}.wal",
    ] {
        assert_eq!(parse_segment_name(name), None);
    }
    assert_eq!(
        parse_snapshot_name("00000000000000000000.snapshot"),
        Some(0)
    );
    assert_eq!(
        parse_snapshot_name("18446744073709551615.snapshot"),
        Some(u64::MAX)
    );
    assert_eq!(parse_snapshot_name("18446744073709551616.snapshot"), None);
    assert_eq!(parse_snapshot_name("SNAPSHOT.tmp"), None);
    assert!(is_segment_temp("x.wal.tmp"));
    assert!(!is_segment_temp("wal.tmp"));
    assert!(!is_segment_temp("x.wal"));
}

#[test]
fn directory_entries_are_classified() {
    let name = segment_name(sequence(5));
    assert_eq!(
        classify_segment(Some(&name), true, 5),
        SegmentEntry::Live(sequence(5))
    );
    assert_eq!(
        classify_segment(Some(&name), true, 6),
        SegmentEntry::Obsolete
    );
    assert_eq!(
        classify_segment(Some(&name), false, 5),
        SegmentEntry::Foreign
    );
    assert_eq!(
        classify_segment(Some("LOCK"), true, 5),
        SegmentEntry::Foreign
    );
    assert_eq!(classify_segment(None, true, 5), SegmentEntry::Foreign);
}

#[test]
fn segments_are_ordered_and_agree_with_their_names() {
    let info = |value: u64| SegmentInfo {
        path: PathBuf::from(segment_name(sequence(value))),
        first_sequence: sequence(value),
    };
    let ordered = order_segments(
        PathBuf::from("wal"),
        vec![info(9), info(1), info(30), info(4)],
    )
    .unwrap();
    assert_eq!(ordered, vec![info(1), info(4), info(9), info(30)]);
    assert_eq!(
        order_segments(PathBuf::from("wal"), Vec::new()),
        Err(FileDatabaseError::MissingSegments(PathBuf::from("wal")))
    );

    let path = PathBuf::from("segment");
    assert_eq!(
        check_segment(path.clone(), sequence(4), Ok(sequence(4)))
            .unwrap()
            .first_sequence,
        sequence(4)
    );
    assert_eq!(
        check_segment(path.clone(), sequence(4), Ok(sequence(5))),
        Err(FileDatabaseError::SegmentNameSequence {
            path: path.clone(),
            filename_sequence: 4,
            header_sequence: 5,
        })
    );
    assert_eq!(
        check_segment(
            path.clone(),
            sequence(4),
            Err(SegmentHeaderError::ChecksumMismatch)
        ),
        Err(FileDatabaseError::SegmentHeader {
            path: path.clone(),
            source: SegmentHeaderError::ChecksumMismatch,
        })
    );
    assert_eq!(
        check_segment_sequence(path.clone(), Some(sequence(4)), sequence(4)),
        Ok(())
    );
    assert_eq!(
        check_segment_sequence(path.clone(), None, sequence(4)),
        Err(FileDatabaseError::SegmentSequence {
            path,
            expected: None,
            actual: 4,
        })
    );
}

#[test]
fn only_the_last_segment_is_repaired() {
    let path = PathBuf::from("segment");
    let partial = || RecoveryError::Storage {
        last_valid_offset: 96,
        source: StorageError::PartialTail {
            offset: 96,
            expected: 32,
            actual: 10,
        },
    };
    assert_eq!(
        after_feed(path.clone(), false, Ok(48)),
        FeedDecision::Advance(48)
    );
    assert_eq!(
        after_feed(path.clone(), false, Err(partial())),
        FeedDecision::Repair {
            valid_offset: 96,
            physical_length: 160,
        }
    );
    assert_eq!(
        after_feed(path.clone(), true, Err(partial())),
        FeedDecision::Fail(FileDatabaseError::SegmentRecovery {
            path,
            physical_offset: 160,
            sealed: true,
            source: partial(),
        })
    );
    assert_eq!(
        recovery_error_offset(&RecoveryError::Storage {
            last_valid_offset: 5,
            source: StorageError::TruncatedPayload,
        }),
        5
    );
    assert_eq!(
        recovery_error_offset(&RecoveryError::Storage {
            last_valid_offset: 5,
            source: StorageError::UnsupportedRecordVersion {
                offset: 7,
                version: 2,
            },
        }),
        7
    );
}

#[test]
fn the_latest_snapshot_is_read_within_its_budget() {
    assert!(is_later_snapshot(None, 0));
    assert!(is_later_snapshot(Some(3), 4));
    assert!(!is_later_snapshot(Some(4), 4));
    let three = snapshot_name(3);
    assert_eq!(note_snapshot(None, Some(&three), true), Ok(Some(3)));
    assert_eq!(note_snapshot(Some(2), Some(&three), true), Ok(Some(3)));
    assert_eq!(note_snapshot(Some(4), Some(&three), true), Ok(Some(4)));
    assert_eq!(note_snapshot(Some(4), Some(&three), false), Err(()));
    assert_eq!(note_snapshot(Some(4), Some("3.snapshot"), true), Err(()));
    assert_eq!(note_snapshot(None, None, true), Err(()));
    let limits = SnapshotLimits {
        max_total_bytes: 200,
        ..SnapshotLimits::default()
    };
    assert_eq!(check_snapshot_length(200, limits), Ok(200));
    assert_eq!(
        check_snapshot_length(201, limits),
        Err(SnapshotError::Limit {
            field: "total bytes",
            value: 201,
            maximum: 200,
        })
    );
}

fn group(first: u64, count: u64) -> Vec<u8> {
    let mut bytes = Vec::new();
    for value in first..first + count {
        let record = Record::new(sequence(value), 0, Vec::new());
        bytes.extend_from_slice(&encode(&record, RecordLimits::default()).unwrap());
    }
    bytes
}

#[test]
fn groups_are_placed_whole() {
    let mut active = ActiveSegment::fresh(160, RecordLimits::default());
    let plan = active.plan_append(&group(1, 3)).unwrap();
    assert_eq!(
        plan,
        AppendPlan {
            rotate_to: None,
            resulting_len: 208,
            next_sequence: Some(sequence(4)),
        }
    );
    active.appended(plan);
    assert_eq!(active.len(), 208);
    assert!(active.has_records());

    let plan = active.plan_append(&group(4, 1)).unwrap();
    assert_eq!(plan.rotate_to, Some(sequence(4)));
    assert_eq!(plan.resulting_len, 112);
    active.rotated();
    assert_eq!(active.len(), 64);
    assert!(!active.has_records());
    active.appended(plan);
    assert_eq!(active.expected_sequence(), Some(sequence(5)));

    let plan = active.plan_append(&group(5, 1)).unwrap();
    assert_eq!(plan.rotate_to, None);
    assert_eq!(plan.resulting_len, active.segment_target());
}

#[test]
fn groups_must_continue_the_log() {
    let active = ActiveSegment::fresh(160, RecordLimits::default());
    assert_eq!(
        active.plan_append(&[]),
        Err(StorageError::InvalidLength {
            field: "WAL append batch",
            length: 0,
        })
    );
    assert_eq!(
        active.plan_append(&group(2, 1)),
        Err(StorageError::CorruptWalRecord {
            offset: 0,
            reason: RecordCorruption::SequenceMismatch {
                expected: 1,
                actual: 2,
            },
        })
    );
    let exhausted = ActiveSegment::resumed(112, 160, RecordLimits::default(), None);
    assert!(exhausted.has_records());
    assert_eq!(
        exhausted.plan_append(&group(1, 1)),
        Err(StorageError::CorruptWalRecord {
            offset: 0,
            reason: RecordCorruption::SequenceOverflow,
        })
    );
}

#[test]
fn refused_memory_ends_the_inspection_of_a_group() {
    let active = ActiveSegment::fresh(160, RecordLimits::default());
    let bytes = group(1, 2);
    let refused = StorageError::InvalidLength {
        field: "WAL record allocation",
        length: 48,
    };
    assert_eq!(
        active.inspect_batch(&bytes),
        Ok((sequence(1), Some(sequence(3))))
    );
    assert_eq!(
        active.inspect_granted(&bytes, &[]),
        active.inspect_batch(&bytes)
    );
    assert_eq!(
        active.inspect_granted(&bytes, &[true, false]),
        Err(refused.clone())
    );
    assert_eq!(active.plan_granted(&bytes, &[false]), Err(refused));
    assert_eq!(
        active.plan_granted(&bytes, &[true, true]),
        active.plan_append(&bytes)
    );
    assert_eq!(
        active.inspect_granted(&[], &[false]),
        Err(StorageError::InvalidLength {
            field: "WAL append batch",
            length: 0,
        })
    );
    let exhausted = ActiveSegment::resumed(112, 160, RecordLimits::default(), None);
    assert_eq!(
        exhausted.inspect_granted(&bytes, &[false]),
        Err(StorageError::CorruptWalRecord {
            offset: 0,
            reason: RecordCorruption::SequenceOverflow,
        })
    );
}

#[test]
fn compaction_keeps_the_active_segment_and_the_installed_snapshot() {
    let active = sequence(4);
    assert!(!is_covered(&segment_name(active), active));
    assert!(is_covered(&segment_name(sequence(3)), active));
    assert!(is_covered(&segment_temp_name(active), active));
    assert!(is_covered("4.wal", active));
    assert!(!is_superseded(&snapshot_name(3), 3));
    assert!(is_superseded(&snapshot_name(4), 3));
    assert!(is_superseded("SNAPSHOT.tmp", 3));

    let mut compaction = Compaction::new(active, 3);
    let mut kept = 0;
    for first in 1..=5 {
        if !compaction.removes_segment(Some(&segment_name(sequence(first)))) {
            assert_eq!(first, 4);
            kept += 1;
        }
    }
    assert!(compaction.removes_segment(None));
    assert_eq!(kept, 1);
    assert_eq!(compaction.segments_removed(), 5);
    assert!(compaction.removes_snapshot(Some(&snapshot_name(2))));
    assert!(!compaction.removes_snapshot(Some(&snapshot_name(3))));
    assert!(compaction.removes_snapshot(None));
    assert_eq!(compaction.older_snapshots_removed(), 2);
    assert_eq!(
        compaction.outcome(PathBuf::from("kept"), 160),
        SnapshotOutcome {
            path: PathBuf::from("kept"),
            watermark: 3,
            segments_removed: 5,
            older_snapshots_removed: 2,
            bytes: 160,
        }
    );
}
