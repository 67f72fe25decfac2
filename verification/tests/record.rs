//! Record framing.

use promisedb::error::{RecordCorruption, StorageError};
use promisedb::record::{
    encode, encode_into, encoded_len, next_read, padding_len, ReadEvent, ReadStep, Record,
    RecordCursor, RecordLimits, RecordReader, RecordSequence, CHECKSUM_LEN, FLAGS_OFFSET,
    FORMAT_MAX_RECORD_LEN, FORMAT_VERSION, FORMAT_VERSION_OFFSET, HEADER_LEN, HEADER_LENGTH_RANGE,
    LENGTH_WIDTH, MAGIC, MAGIC_RANGE, MIN_RECORD_LEN, PAYLOAD_LENGTH_RANGE, RECORD_LENGTH_RANGE,
    RECORD_SEQUENCE_RANGE, TIMESTAMP_RANGE,
};
use std::io::{self, Cursor, Read};

fn corrupt(offset: u64, reason: RecordCorruption) -> StorageError {
    StorageError::CorruptWalRecord { offset, reason }
}

fn record(sequence: u64, payload: &[u8]) -> Record {
    Record::new(
        RecordSequence::new(sequence).unwrap(),
        -1_234_567_890,
        payload.to_vec(),
    )
}

fn encoded(sequence: u64, payload: &[u8]) -> Vec<u8> {
    encode(&record(sequence, payload), RecordLimits::default()).unwrap()
}

fn resign(bytes: &mut [u8]) {
    let checksum_start = bytes.len() - CHECKSUM_LEN;
    let checksum = blake3::hash(&bytes[..checksum_start]);
    bytes[checksum_start..].copy_from_slice(&checksum.as_bytes()[..CHECKSUM_LEN]);
}

#[test]
fn golden_layout_and_checksum_are_stable() {
    let bytes = encoded(1, &[0xaa, 0xbb, 0xcc]);
    assert_eq!(bytes.len(), 56);
    assert_eq!(&bytes[0..4], b"PDBW");
    assert_eq!(bytes[4], 1);
    assert_eq!(bytes[5], 0);
    assert_eq!(&bytes[6..8], &32_u16.to_le_bytes());
    assert_eq!(&bytes[8..12], &56_u32.to_le_bytes());
    assert_eq!(&bytes[12..16], &3_u32.to_le_bytes());
    assert_eq!(&bytes[16..24], &1_u64.to_le_bytes());
    assert_eq!(&bytes[24..32], &(-1_234_567_890_i64).to_le_bytes());
    assert_eq!(&bytes[32..35], &[0xaa, 0xbb, 0xcc]);
    assert_eq!(&bytes[35..40], &[0; 5]);
    assert_eq!(
        &bytes[40..56],
        &[
            0x45, 0x94, 0x7f, 0x40, 0xdf, 0x44, 0x19, 0x07, 0x53, 0x1a, 0xbd, 0xc7, 0x6c, 0xc4,
            0xba, 0xd8,
        ]
    );
}

#[test]
fn every_truncated_prefix_is_a_partial_tail_and_empty_is_clean_eof() {
    let bytes = encoded(1, b"truncation coverage");
    for length in 0..bytes.len() {
        let mut reader =
            RecordReader::new(&bytes[..length], RecordLimits::default());
        if length == 0 {
            assert_eq!(reader.read_next(), Ok(None));
        } else {
            assert!(matches!(
                reader.read_next(),
                Err(StorageError::PartialTail { offset: 0, actual, .. }) if actual == length as u64
            ));
        }
    }
    let mut reader = RecordReader::new(&bytes, RecordLimits::default());
    assert!(reader.read_next().unwrap().is_some());
    assert_eq!(reader.read_next(), Ok(None));
}

struct ShortReader<R> {
    inner: R,
    max: usize,
    interrupt_once: bool,
}

impl<R: Read> Read for ShortReader<R> {
    fn read(&mut self, buffer: &mut [u8]) -> io::Result<usize> {
        if self.interrupt_once {
            self.interrupt_once = false;
            return Err(io::ErrorKind::Interrupted.into());
        }
        let limit = buffer.len().min(self.max);
        self.inner.read(&mut buffer[..limit])
    }
}

fn fill<R: Read>(source: &mut R, buffer: &mut [u8]) -> Result<usize, StorageError> {
    let mut filled = 0;
    while filled < buffer.len() {
        let wanted = buffer.len();
        let event = match source.read(&mut buffer[filled..]) {
            Ok(count) => ReadEvent::Count(count),
            Err(error) if error.kind() == io::ErrorKind::Interrupted => ReadEvent::Interrupted,
            Err(error) => ReadEvent::Failed {
                kind: error.kind(),
                message: error.to_string(),
            },
        };
        match next_read(filled, wanted, event) {
            ReadStep::Again(count) => filled = count,
            ReadStep::Done(count) => return Ok(count),
            ReadStep::Fail(error) => return Err(error),
        }
    }
    Ok(filled)
}

fn read_record<R: Read>(
    source: &mut R,
    cursor: &mut RecordCursor,
) -> Result<Option<Record>, StorageError> {
    let mut header = [0_u8; HEADER_LEN];
    let filled = fill(source, &mut header)?;
    let Some(fields) = cursor.header(&header[..filled])? else {
        return Ok(None);
    };
    let mut body = vec![0_u8; fields.body_len()];
    let filled = fill(source, &mut body)?;
    body.truncate(filled);
    cursor.body(&header, &fields, body).map(Some)
}

#[test]
fn handles_short_reads_and_interrupted_reads() {
    let expected = record(1, b"opaque");
    let bytes = encode(&expected, RecordLimits::default()).unwrap();
    let mut source = ShortReader {
        inner: Cursor::new(bytes),
        max: 1,
        interrupt_once: true,
    };
    let mut cursor = RecordCursor::new(RecordLimits::default(), Some(RecordSequence::first()));
    assert_eq!(read_record(&mut source, &mut cursor), Ok(Some(expected)));
}

#[test]
fn detects_checksum_corruption_in_header_and_payload() {
    for index in [24, 32] {
        let mut bytes = encoded(1, b"payload");
        bytes[index] ^= 0x80;
        let mut reader = RecordReader::new(&bytes, RecordLimits::default());
        assert_eq!(
            reader.read_next(),
            Err(corrupt(0, RecordCorruption::ChecksumMismatch))
        );
    }
    let mut bytes = encoded(1, b"payload");
    let last = bytes.len() - 1;
    bytes[last] ^= 1;
    let mut reader = RecordReader::new(&bytes, RecordLimits::default());
    assert_eq!(
        reader.read_next(),
        Err(corrupt(0, RecordCorruption::ChecksumMismatch))
    );
}

#[test]
fn detects_structural_header_and_padding_corruption() {
    let cases = [
        (0, RecordCorruption::InvalidMagic(*b"QDBW")),
        (5, RecordCorruption::UnsupportedFlags(1)),
    ];
    for (index, reason) in cases {
        let mut bytes = encoded(1, b"abc");
        bytes[index] ^= 1;
        let mut reader = RecordReader::new(&bytes, RecordLimits::default());
        assert_eq!(reader.read_next(), Err(corrupt(0, reason)));
    }

    let mut bytes = encoded(1, b"abc");
    bytes[35] = 7;
    resign(&mut bytes);
    let mut reader = RecordReader::new(&bytes, RecordLimits::default());
    assert_eq!(
        reader.read_next(),
        Err(corrupt(
            0,
            RecordCorruption::NonZeroPadding { index: 0, value: 7 }
        ))
    );
}

#[test]
fn distinguishes_record_versions_and_sequence_errors() {
    let mut version = encoded(1, b"");
    version[4] = 2;
    let mut reader = RecordReader::new(&version, RecordLimits::default());
    assert_eq!(
        reader.read_next(),
        Err(StorageError::UnsupportedRecordVersion {
            offset: 0,
            version: 2
        })
    );

    for (actual, expected) in [(2, 1), (1, 2)] {
        let bytes = encoded(actual, b"");
        let mut reader = RecordReader::with_expected_sequence(
            &bytes,
            RecordLimits::default(),
            RecordSequence::new(expected).unwrap(),
        );
        assert_eq!(
            reader.read_next(),
            Err(corrupt(
                0,
                RecordCorruption::SequenceMismatch { expected, actual }
            ))
        );
    }
}

#[test]
fn tracks_offsets_and_sequences_across_records() {
    let first = encoded(1, b"one");
    let second = encoded(2, b"two");
    let first_len = first.len() as u64;
    let mut wal = first;
    wal.extend_from_slice(&second);
    let mut reader = RecordReader::new(&wal, RecordLimits::default());
    assert_eq!(reader.read_next().unwrap().unwrap().payload(), b"one");
    assert_eq!(reader.offset(), first_len);
    assert_eq!(reader.expected_sequence().unwrap().get(), 2);
    assert_eq!(reader.read_next().unwrap().unwrap().payload(), b"two");
    assert_eq!(reader.read_next(), Ok(None));
}

#[test]
fn validates_limits_and_rejects_declared_size_before_body_allocation() {
    assert_eq!(
        RecordLimits::new(47),
        Err(StorageError::InvalidRecordLimit(47))
    );
    assert_eq!(
        RecordLimits::new(49),
        Err(StorageError::InvalidRecordLimit(49))
    );
    assert!(RecordLimits::new(FORMAT_MAX_RECORD_LEN).is_ok());
    assert_eq!(RecordLimits::default().max_record_len(), 64 * 1024 * 1024);

    let limits = RecordLimits::new(MIN_RECORD_LEN).unwrap();
    assert_eq!(
        encode(&record(1, b"x"), limits),
        Err(StorageError::RecordTooLarge {
            offset: 0,
            length: 56,
            max: 48
        })
    );

    let mut header = [0_u8; HEADER_LEN];
    header[0..4].copy_from_slice(&MAGIC);
    header[4] = FORMAT_VERSION;
    header[6..8].copy_from_slice(&(HEADER_LEN as u16).to_le_bytes());
    header[8..12].copy_from_slice(&56_u32.to_le_bytes());
    header[12..16].copy_from_slice(&1_u32.to_le_bytes());
    header[16..24].copy_from_slice(&1_u64.to_le_bytes());
    let mut reader = RecordReader::new(&header, limits);
    assert_eq!(
        reader.read_next(),
        Err(StorageError::RecordTooLarge {
            offset: 0,
            length: 56,
            max: 48
        })
    );
}

#[test]
fn public_layout_constants_match_version_one() {
    assert_eq!(LENGTH_WIDTH, 4);
    assert_eq!(MAGIC_RANGE, 0..4);
    assert_eq!(FORMAT_VERSION_OFFSET, 4);
    assert_eq!(FLAGS_OFFSET, 5);
    assert_eq!(HEADER_LENGTH_RANGE, 6..8);
    assert_eq!(RECORD_LENGTH_RANGE, 8..12);
    assert_eq!(PAYLOAD_LENGTH_RANGE, 12..16);
    assert_eq!(RECORD_SEQUENCE_RANGE, 16..24);
    assert_eq!(TIMESTAMP_RANGE, 24..32);
    assert_eq!(RecordSequence::new(0), None);
    assert_eq!(RecordSequence::first().next().unwrap().get(), 2);
    assert_eq!(RecordSequence::new(u64::MAX).unwrap().next(), None);
}

#[test]
fn padding_aligns_every_payload_length() {
    assert_eq!(padding_len(0), 0);
    assert_eq!(padding_len(1), 7);
    assert_eq!(padding_len(7), 1);
    assert_eq!(padding_len(8), 0);
    assert_eq!(encoded_len(0, RecordLimits::default()), Ok(48));
    assert_eq!(encoded_len(1, RecordLimits::default()), Ok(56));
    assert_eq!(encoded_len(8, RecordLimits::default()), Ok(56));
    assert_eq!(encoded_len(9, RecordLimits::default()), Ok(64));
    assert_eq!(
        encoded_len(usize::MAX, RecordLimits::default()),
        Err(StorageError::InvalidLength {
            field: "record payload",
            length: u64::MAX,
        })
    );
}

#[test]
fn encode_into_appends_and_leaves_the_buffer_alone_on_failure() {
    let first = record(1, b"one");
    let mut buffer = vec![7, 8];
    encode_into(&first, RecordLimits::default(), &mut buffer).unwrap();
    assert_eq!(&buffer[..2], &[7, 8]);
    assert_eq!(&buffer[2..], &encoded(1, b"one")[..]);

    let before = buffer.clone();
    let limits = RecordLimits::new(MIN_RECORD_LEN).unwrap();
    assert!(encode_into(&first, limits, &mut buffer).is_err());
    assert_eq!(buffer, before);
}

#[test]
fn declared_lengths_must_agree() {
    let mut header_len = encoded(1, b"abc");
    header_len[6] = 33;
    assert_eq!(
        RecordReader::new(&header_len, RecordLimits::default()).read_next(),
        Err(corrupt(0, RecordCorruption::InvalidHeaderLength(33)))
    );

    let mut record_len = encoded(1, b"abc");
    record_len[8] = 57;
    assert_eq!(
        RecordReader::new(&record_len, RecordLimits::default()).read_next(),
        Err(corrupt(0, RecordCorruption::InvalidRecordLength(57)))
    );

    let mut payload_len = encoded(1, b"abc");
    payload_len[12] = 9;
    assert!(matches!(
        RecordReader::new(&payload_len, RecordLimits::default()).read_next(),
        Err(StorageError::CorruptWalRecord { offset: 0, .. })
    ));
}

#[test]
fn sequences_end_at_the_largest_value() {
    let bytes = encode(
        &Record::new(RecordSequence::new(u64::MAX).unwrap(), 5, Vec::new()),
        RecordLimits::default(),
    )
    .unwrap();
    let mut wal = bytes.clone();
    wal.extend_from_slice(&bytes);
    let mut reader = RecordReader::with_expected_sequence(
        &wal,
        RecordLimits::default(),
        RecordSequence::new(u64::MAX).unwrap(),
    );
    assert_eq!(reader.read_next().unwrap().unwrap().timestamp(), 5);
    assert_eq!(reader.expected_sequence(), None);
    assert!(reader.read_next().is_err());
    assert_eq!(reader.offset(), 48);
    assert_eq!(reader.into_inner().len(), 16);
}

#[test]
fn record_parts_are_given_back() {
    let value = record(3, b"payload");
    assert_eq!(value.record_sequence().get(), 3);
    assert_eq!(value.timestamp(), -1_234_567_890);
    assert_eq!(value.payload(), b"payload");
    assert_eq!(value.into_payload(), b"payload".to_vec());
}

#[test]
fn a_reader_that_is_refused_memory_stands_behind_the_header() {
    let bytes = encoded(1, b"payload");
    let mut reader = RecordReader::new(&bytes, RecordLimits::default());
    assert_eq!(
        reader.read_next_granted(false),
        Err(StorageError::InvalidLength {
            field: "WAL record allocation",
            length: bytes.len() as u64,
        })
    );
    assert_eq!(reader.offset(), 0);
    assert_eq!(reader.into_inner(), &bytes[32..]);

    let mut reader = RecordReader::new(&bytes, RecordLimits::default());
    assert_eq!(
        reader.read_next_granted(true),
        Ok(Some(record(1, b"payload")))
    );
    assert_eq!(reader.read_next_granted(false), Ok(None));
}

#[test]
fn nothing_is_read_ahead_of_the_last_record() {
    let lengths = [0_usize, 5, 16, 33];
    let mut wal = Vec::new();
    let mut ends = Vec::new();
    for (index, length) in lengths.iter().enumerate() {
        wal.extend_from_slice(&encoded(index as u64 + 1, &vec![7; *length]));
        ends.push(wal.len());
    }
    for count in 0..=lengths.len() {
        let mut reader = RecordReader::new(&wal, RecordLimits::default());
        for sequence in 1..=count as u64 {
            let read = reader.read_next().unwrap().unwrap();
            assert_eq!(read.record_sequence().get(), sequence);
        }
        let end = if count == 0 { 0 } else { ends[count - 1] };
        assert_eq!(reader.offset(), end as u64);
        assert_eq!(reader.expected_sequence().unwrap().get(), count as u64 + 1);
        assert_eq!(reader.into_inner(), &wal[end..]);
    }
}
