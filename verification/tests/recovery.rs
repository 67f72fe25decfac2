//! Scanning a log.

use promisedb::error::{RecordCorruption, StorageError};
use promisedb::record::{encode, Record, RecordLimits, RecordSequence};
use promisedb::recovery::{recover, recover_granted};

fn bytes(sequence: u64, payload: &[u8]) -> Vec<u8> {
    encode(
        &Record::new(
            RecordSequence::new(sequence).unwrap(),
            sequence as i64,
            payload.to_vec(),
        ),
        RecordLimits::default(),
    )
    .unwrap()
}

#[test]
fn returns_opaque_records_in_strict_order() {
    let mut wal = bytes(1, b"first");
    wal.extend_from_slice(&bytes(2, b"second"));
    let records = recover(&wal, RecordLimits::default()).unwrap();
    assert_eq!(records.len(), 2);
    assert_eq!(records[0].payload(), b"first");
    assert_eq!(records[1].payload(), b"second");
}

#[test]
fn rejects_gaps_and_duplicates_at_their_record_offset() {
    for second_sequence in [1, 3] {
        let first = bytes(1, b"");
        let offset = first.len() as u64;
        let mut wal = first;
        wal.extend_from_slice(&bytes(second_sequence, b""));
        assert_eq!(
            recover(&wal, RecordLimits::default()),
            Err(StorageError::CorruptWalRecord {
                offset,
                reason: RecordCorruption::SequenceMismatch {
                    expected: 2,
                    actual: second_sequence,
                },
            })
        );
    }
}

#[test]
fn a_cut_record_is_reported_where_it_starts() {
    let mut wal = bytes(1, b"first");
    let offset = wal.len() as u64;
    wal.extend_from_slice(&bytes(2, b"second")[..40]);
    assert_eq!(
        recover(&wal, RecordLimits::default()),
        Err(StorageError::PartialTail {
            offset,
            expected: 56,
            actual: 40,
        })
    );
}

#[test]
fn an_empty_log_has_no_records() {
    assert_eq!(recover(&[], RecordLimits::default()), Ok(Vec::new()));
}

fn refused(length: usize) -> StorageError {
    StorageError::InvalidLength {
        field: "WAL record allocation",
        length: length as u64,
    }
}

#[test]
fn refused_memory_ends_a_scan_at_the_record() {
    let first = bytes(1, b"first");
    let second = bytes(2, b"the second record");
    let mut wal = first.clone();
    wal.extend_from_slice(&second);
    let limits = RecordLimits::default();
    assert_eq!(recover_granted(&wal, limits, &[]), recover(&wal, limits));
    assert_eq!(
        recover_granted(&wal, limits, &[true, true, false]),
        recover(&wal, limits)
    );
    assert_eq!(
        recover_granted(&wal, limits, &[false]),
        Err(refused(first.len()))
    );
    assert_eq!(
        recover_granted(&wal, limits, &[true, false]),
        Err(refused(second.len()))
    );
    assert_eq!(recover_granted(&[], limits, &[false]), Ok(Vec::new()));
    assert_eq!(
        recover_granted(&second, limits, &[false]),
        Err(StorageError::CorruptWalRecord {
            offset: 0,
            reason: RecordCorruption::SequenceMismatch {
                expected: 1,
                actual: 2,
            },
        })
    );
    assert_eq!(
        recover_granted(&first[..31], limits, &[false]),
        Err(StorageError::PartialTail {
            offset: 0,
            expected: 32,
            actual: 31,
        })
    );
}

#[test]
fn an_accepted_log_is_numbered_from_one() {
    let mut wal = Vec::new();
    for sequence in 1..=4 {
        wal.extend_from_slice(&bytes(sequence, b"payload"));
    }
    let records = recover(&wal, RecordLimits::default()).unwrap();
    let mut framed = Vec::new();
    for (index, record) in records.iter().enumerate() {
        assert_eq!(record.record_sequence().get(), index as u64 + 1);
        framed.extend_from_slice(&encode(record, RecordLimits::default()).unwrap());
    }
    assert_eq!(framed, wal);
}
