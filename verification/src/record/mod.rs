//! Versioned, bounded WAL record framing.
//!
//! A record is a fixed 32-byte header, an opaque payload, zero padding to a multiple of eight
//! bytes, and the first 16 bytes of the BLAKE3 hash over all of that.

pub mod frame;

use crate::bytes::{reserve_exact, same_bytes};
use crate::digest::short_digest;
use crate::error::{RecordCorruption, StorageError};
use crate::layout::{get_field, put_zeros};
use crate::wire::model;
use crate::wire::reader::i64_of_bits;
use crate::wire::writer::{bits_of_i64, put_le};
use core::ops::Range;
use frame::{HeaderView, ReaderView, RecordView};
use std::io::ErrorKind;
use vstd::prelude::*;
use vstd::slice::*;

verus! {

/// Instant in the domain's unit of time.
pub type Timestamp = i64;

/// Four-byte signature at the beginning of every record, `PDBW`.
pub const MAGIC: [u8; 4] = [0x50, 0x44, 0x42, 0x57];

/// Current record format version.
pub const FORMAT_VERSION: u8 = 1;

/// Flags accepted by format version 1.
pub const FORMAT_FLAGS: u8 = 0;

/// Serialized width of the fixed record header.
pub const HEADER_LEN: usize = 32;

/// Serialized width of the trailing BLAKE3 checksum.
pub const CHECKSUM_LEN: usize = 16;

/// Smallest possible serialized record.
pub const MIN_RECORD_LEN: u32 = 48;

/// Largest 8-byte-aligned length representable by the format's `u32` field.
pub const FORMAT_MAX_RECORD_LEN: u32 = 0xffff_fff8;

/// Default maximum total record size (64 MiB).
pub const DEFAULT_MAX_RECORD_LEN: u32 = 0x0400_0000;

/// Width in bytes of a serialized `u32` length field.
pub const LENGTH_WIDTH: usize = 4;

/// Byte range containing [`MAGIC`].
pub const MAGIC_RANGE: Range<usize> = 0..4;

/// Byte offset containing [`FORMAT_VERSION`].
pub const FORMAT_VERSION_OFFSET: usize = 4;

/// Byte offset containing [`FORMAT_FLAGS`].
pub const FLAGS_OFFSET: usize = 5;

/// Byte range containing the little-endian fixed-header length.
pub const HEADER_LENGTH_RANGE: Range<usize> = 6..8;

/// Byte range containing the little-endian total record length.
pub const RECORD_LENGTH_RANGE: Range<usize> = 8..12;

/// Byte range containing the little-endian payload length.
pub const PAYLOAD_LENGTH_RANGE: Range<usize> = 12..16;

/// Byte range containing the little-endian record sequence.
pub const RECORD_SEQUENCE_RANGE: Range<usize> = 16..24;

/// Byte range containing the little-endian timestamp.
pub const TIMESTAMP_RANGE: Range<usize> = 24..32;

/// A non-zero position in the logical WAL record order.
#[derive(Debug, Clone, Copy, PartialEq, Eq, PartialOrd, Ord, Hash, Structural)]
pub struct RecordSequence {
    value: u64,
}

impl View for RecordSequence {
    type V = u64;

    closed spec fn view(&self) -> u64 {
        self.value
    }
}

impl RecordSequence {
    /// The number is not zero.
    #[verifier::type_invariant]
    spec fn inv(self) -> bool {
        self.value != 0
    }

    /// Returns the sequence assigned to the first WAL record.
    pub fn first() -> (out: RecordSequence)
        ensures
            out@ == 1,
    {
        RecordSequence { value: 1 }
    }

    /// Creates a record sequence, returning `None` for zero.
    pub fn new(value: u64) -> (out: Option<RecordSequence>)
        ensures
            match out {
                Some(sequence) => value != 0 && sequence@ == value,
                None => value == 0,
            },
    {
        if value == 0 {
            None
        } else {
            Some(RecordSequence { value })
        }
    }

    /// Returns the numeric representation.
    pub fn get(self) -> (out: u64)
        ensures
            out == self@,
            out != 0,
    {
        proof {
            use_type_invariant(&self);
        }
        self.value
    }

    /// Returns the following record sequence, or `None` on overflow.
    pub fn next(self) -> (out: Option<RecordSequence>)
        ensures
            sequence_view(out) == frame::next_sequence(self@),
    {
        if self.value == u64::MAX {
            None
        } else {
            Some(RecordSequence { value: self.value + 1 })
        }
    }
}

/// The model of an optional sequence.
pub open spec fn sequence_view(sequence: Option<RecordSequence>) -> Option<u64> {
    match sequence {
        Some(sequence) => Some(sequence@),
        None => None,
    }
}

/// Limits applied before allocating storage for a record.
#[derive(Debug, Clone, Copy, PartialEq, Eq, Structural)]
pub struct RecordLimits {
    max_record_len: u32,
}

impl View for RecordLimits {
    type V = u32;

    closed spec fn view(&self) -> u32 {
        self.max_record_len
    }
}

/// A record limit is at least the smallest record, at most the format ceiling, and aligned.
pub open spec fn limit_ok(max_record_len: u32) -> bool {
    MIN_RECORD_LEN <= max_record_len <= FORMAT_MAX_RECORD_LEN && max_record_len % 8 == 0
}

impl RecordLimits {
    /// Creates limits with the given maximum total encoded record length.
    pub fn new(max_record_len: u32) -> (out: Result<RecordLimits, StorageError>)
        ensures
            match out {
                Ok(limits) => limit_ok(max_record_len) && limits@ == max_record_len,
                Err(error) => !limit_ok(max_record_len) && error
                    == StorageError::InvalidRecordLimit(max_record_len as u64),
            },
    {
        if max_record_len < MIN_RECORD_LEN || max_record_len > FORMAT_MAX_RECORD_LEN
            || max_record_len % 8 != 0 {
            return Err(StorageError::InvalidRecordLimit(max_record_len as u64));
        }
        Ok(RecordLimits { max_record_len })
    }

    /// Returns the maximum permitted total encoded record length.
    pub fn max_record_len(self) -> (out: u32)
        ensures
            out == self@,
    {
        self.max_record_len
    }
}

impl Default for RecordLimits {
    fn default() -> (out: RecordLimits)
        ensures
            out@ == DEFAULT_MAX_RECORD_LEN,
            limit_ok(out@),
    {
        RecordLimits { max_record_len: DEFAULT_MAX_RECORD_LEN }
    }
}

/// Logical content framed as one WAL record.
#[derive(Debug, Clone, PartialEq, Eq)]
pub struct Record {
    record_sequence: RecordSequence,
    timestamp: Timestamp,
    payload: Vec<u8>,
}

impl View for Record {
    type V = RecordView;

    closed spec fn view(&self) -> RecordView {
        RecordView {
            sequence: self.record_sequence@,
            timestamp: self.timestamp,
            payload: self.payload@,
        }
    }
}

impl Record {
    /// Creates a logical record around an owned opaque payload.
    pub fn new(record_sequence: RecordSequence, timestamp: Timestamp, payload: Vec<u8>) -> (out:
        Record)
        ensures
            out@ == (RecordView {
                sequence: record_sequence@,
                timestamp,
                payload: payload@,
            }),
            out@.sequence != 0,
    {
        proof {
            use_type_invariant(&record_sequence);
        }
        Record { record_sequence, timestamp, payload }
    }

    /// Returns this record's position in logical WAL order.
    pub fn record_sequence(&self) -> (out: RecordSequence)
        ensures
            out@ == self@.sequence,
            out@ != 0,
    {
        proof {
            use_type_invariant(&self.record_sequence);
        }
        self.record_sequence
    }

    /// Returns the deterministic timestamp associated with this record.
    pub fn timestamp(&self) -> (out: Timestamp)
        ensures
            out == self@.timestamp,
    {
        self.timestamp
    }

    /// Returns the opaque record payload.
    pub fn payload(&self) -> (out: &[u8])
        ensures
            out@ == self@.payload,
    {
        self.payload.as_slice()
    }

    /// Consumes the record and returns its opaque payload.
    pub fn into_payload(self) -> (out: Vec<u8>)
        ensures
            out@ == self@.payload,
    {
        self.payload
    }
}

/// Returns the number of zero bytes that align a payload to eight bytes.
pub fn padding_len(payload_len: u32) -> (out: usize)
    ensures
        out == frame::padding(payload_len as nat),
        out < 8,
{
    ((8 - payload_len % 8) % 8) as usize
}

/// Returns the total length of a record around `payload_len` payload bytes.
pub fn encoded_len(payload_len: usize, limits: RecordLimits) -> (out: Result<u32, StorageError>)
    ensures
        match frame::frame_fault(payload_len as nat, limits@) {
            Some(error) => out == Err::<u32, StorageError>(error),
            None => out == Ok::<u32, StorageError>(frame::framed_len(payload_len as nat) as u32),
        },
{
    if payload_len as u64 > u32::MAX as u64 {
        return Err(
            StorageError::InvalidLength { field: "record payload", length: payload_len as u64 },
        );
    }
    let length = payload_len as u32;
    let total: u64 = MIN_RECORD_LEN as u64 + length as u64 + padding_len(length) as u64;
    if total > FORMAT_MAX_RECORD_LEN as u64 {
        return Err(
            StorageError::InvalidLength {
                field: "WAL record",
                length: length as u64 + MIN_RECORD_LEN as u64,
            },
        );
    }
    if total > limits.max_record_len as u64 {
        return Err(
            StorageError::RecordTooLarge { offset: 0, length: total, max: limits.max_record_len },
        );
    }
    Ok(total as u32)
}

/// Encodes one record using format version 1.
///
/// The checksum is the first 16 bytes of BLAKE3 over the contiguous header, payload and zero
/// padding. The result is the frame of the record, the fault of its length, or the report that
/// the memory for the frame cannot be had.
pub fn encode(record: &Record, limits: RecordLimits) -> (out: Result<Vec<u8>, StorageError>)
    ensures
        match frame::frame_fault(record@.payload.len(), limits@) {
            Some(error) => out == Err::<Vec<u8>, StorageError>(error),
            None => match out {
                Ok(bytes) => bytes@ == frame::frame(record@),
                Err(error) => error == frame::refused(
                    frame::framed_len(record@.payload.len()) as u32,
                ),
            },
        },
{
    let record_len = encoded_len(record.payload.len(), limits)?;
    let mut buffer: Vec<u8> = Vec::new();
    let granted = reserve_exact(&mut buffer, record_len as usize);
    encode_granted(record, record_len, buffer, granted)
}

/// Appends one encoded record to an existing buffer, or leaves the buffer as it is where
/// [`encode`] fails.
pub fn encode_into(
    record: &Record,
    limits: RecordLimits,
    destination: &mut Vec<u8>,
) -> (out: Result<
    (),
    StorageError,
>)
    ensures
        match frame::frame_fault(record@.payload.len(), limits@) {
            Some(error) => out == Err::<(), StorageError>(error),
            None => out is Ok || out == Err::<(), StorageError>(
                frame::refused(frame::framed_len(record@.payload.len()) as u32),
            ),
        },
        final(destination)@ == if out is Ok {
            old(destination)@ + frame::frame(record@)
        } else {
            old(destination)@
        },
{
    let (out, _) = encode_into_with(record, limits, destination, None);
    out
}

/// Appends one encoded record to an existing buffer. Memory for it is granted as told, or else
/// asked for. Whether it was granted is returned.
pub(crate) fn encode_into_with(
    record: &Record,
    limits: RecordLimits,
    destination: &mut Vec<u8>,
    told: Option<bool>,
) -> (out: (Result<(), StorageError>, Ghost<bool>))
    ensures
        match frame::frame_fault_with(record@.payload.len(), limits@, out.1@) {
            Some(error) => out.0 == Err::<(), StorageError>(error) && final(destination)@ == old(
                destination,
            )@,
            None => out.0 is Ok && final(destination)@ == old(destination)@ + frame::frame(record@),
        },
        told matches Some(granted) ==> out.1@ == granted,
{
    let ghost otherwise = match told {
        Some(granted) => granted,
        None => true,
    };
    let record_len = match encoded_len(record.payload.len(), limits) {
        Ok(record_len) => record_len,
        Err(error) => {
            return (Err(error), Ghost(otherwise));
        },
    };
    let mut buffer: Vec<u8> = Vec::new();
    let granted = match told {
        Some(granted) => granted,
        None => reserve_exact(&mut buffer, record_len as usize),
    };
    match encode_granted(record, record_len, buffer, granted) {
        Ok(encoded) => {
            let mut encoded = encoded;
            destination.append(&mut encoded);
            (Ok(()), Ghost(granted))
        },
        Err(error) => (Err(error), Ghost(granted)),
    }
}

/// Encodes one record of known length into an empty buffer, unless the memory for it was not
/// granted.
pub fn encode_granted(
    record: &Record,
    record_len: u32,
    buffer: Vec<u8>,
    granted: bool,
) -> (out: Result<Vec<u8>, StorageError>)
    requires
        buffer@.len() == 0,
        record_len == frame::framed_len(record@.payload.len()),
    ensures
        match out {
            Ok(bytes) => granted && bytes@ == frame::frame(record@),
            Err(error) => !granted && error == frame::refused(record_len),
        },
{
    if !granted {
        return Err(
            StorageError::InvalidLength {
                field: "WAL record allocation",
                length: record_len as u64,
            },
        );
    }
    let mut encoded = buffer;
    put_header(&mut encoded, record, record_len);
    assert(encoded@ =~= frame::header_bytes(record@));
    encoded.extend_from_slice(record.payload.as_slice());
    let ghost with_payload = encoded@;
    assert(with_payload =~= frame::header_bytes(record@) + record@.payload);
    let padding = padding_len(record.payload.len() as u32);
    put_zeros(&mut encoded, padding);
    assert(encoded@ =~= frame::signed_bytes(record@));
    let mut checksum = short_digest(encoded.as_slice());
    encoded.append(&mut checksum);
    assert(encoded@ =~= frame::frame(record@));
    Ok(encoded)
}

/// Appends the header of a record.
fn put_header(encoded: &mut Vec<u8>, record: &Record, record_len: u32)
    requires
        record_len == frame::framed_len(record@.payload.len()),
    ensures
        final(encoded)@ == old(encoded)@ + frame::header_bytes(record@),
{
    encoded.push(MAGIC[0]);
    encoded.push(MAGIC[1]);
    encoded.push(MAGIC[2]);
    encoded.push(MAGIC[3]);
    encoded.push(FORMAT_VERSION);
    encoded.push(FORMAT_FLAGS);
    assert(encoded@ =~= old(encoded)@ + frame::preamble());
    put_le(encoded, HEADER_LEN as u128, 2);
    put_le(encoded, record_len as u128, 4);
    put_le(encoded, record.payload.len() as u128, 4);
    put_le(encoded, record.record_sequence.get() as u128, 8);
    put_le(encoded, bits_of_i64(record.timestamp) as u128, 8);
    assert(encoded@ =~= old(encoded)@ + frame::header_bytes(record@));
}

/// Validated fields of a record header.
#[derive(Debug, Clone, Copy, PartialEq, Eq)]
pub struct RecordHeader {
    record_len: u32,
    payload_len: u32,
    sequence: RecordSequence,
    timestamp: Timestamp,
}

impl View for RecordHeader {
    type V = HeaderView;

    closed spec fn view(&self) -> HeaderView {
        HeaderView {
            record_len: self.record_len,
            payload_len: self.payload_len,
            sequence: self.sequence@,
            timestamp: self.timestamp,
        }
    }
}

impl RecordHeader {
    /// Returns the number of bytes behind the header.
    pub fn body_len(&self) -> (out: usize)
        requires
            self@.record_len >= MIN_RECORD_LEN,
        ensures
            out == self@.record_len - 32,
    {
        self.record_len as usize - HEADER_LEN
    }

    /// Returns the failure where the memory for the record cannot be had.
    pub fn refused(&self) -> (out: StorageError)
        ensures
            out == frame::refused(self@.record_len),
    {
        StorageError::InvalidLength {
            field: "WAL record allocation",
            length: self.record_len as u64,
        }
    }
}

/// The model of a decoded header.
pub open spec fn header_view(out: Result<RecordHeader, StorageError>) -> Result<
    HeaderView,
    StorageError,
> {
    match out {
        Ok(header) => Ok(header@),
        Err(error) => Err(error),
    }
}

fn corrupt(offset: u64, reason: RecordCorruption) -> (out: StorageError)
    ensures
        out == frame::corrupt(offset, reason),
{
    StorageError::CorruptWalRecord { offset, reason }
}

/// Validates the header of a record that starts at `offset`.
pub fn parse_header(
    header: &[u8],
    offset: u64,
    limits: RecordLimits,
    expected_sequence: Option<RecordSequence>,
) -> (out: Result<RecordHeader, StorageError>)
    requires
        header@.len() == HEADER_LEN,
    ensures
        header_view(out) == frame::read_header(
            header@,
            offset,
            limits@,
            sequence_view(expected_sequence),
        ),
{
    proof {
        model::lemma_spans();
    }
    let magic: [u8; 4] = [header[0], header[1], header[2], header[3]];
    if header[0] != MAGIC[0] || header[1] != MAGIC[1] || header[2] != MAGIC[2] || header[3]
        != MAGIC[3] {
        proof {
            assert(header@.subrange(0, 4) != frame::preamble().subrange(0, 4)) by {
                let a = header@.subrange(0, 4);
                let b = frame::preamble().subrange(0, 4);
                assert(a[0] != b[0] || a[1] != b[1] || a[2] != b[2] || a[3] != b[3]);
            }
        }
        return Err(corrupt(offset, RecordCorruption::InvalidMagic(magic)));
    }
    assert(header@.subrange(0, 4) =~= frame::preamble().subrange(0, 4));
    let version = header[FORMAT_VERSION_OFFSET];
    if version != FORMAT_VERSION {
        return Err(StorageError::UnsupportedRecordVersion { offset, version });
    }
    let flags = header[FLAGS_OFFSET];
    if flags != FORMAT_FLAGS {
        return Err(corrupt(offset, RecordCorruption::UnsupportedFlags(flags)));
    }
    let header_len = get_field(header, 6, 8) as u16;
    if header_len as usize != HEADER_LEN {
        return Err(corrupt(offset, RecordCorruption::InvalidHeaderLength(header_len)));
    }
    let record_len = get_field(header, 8, 12) as u32;
    if record_len < MIN_RECORD_LEN || record_len > FORMAT_MAX_RECORD_LEN || record_len % 8 != 0 {
        return Err(corrupt(offset, RecordCorruption::InvalidRecordLength(record_len)));
    }
    if record_len > limits.max_record_len {
        return Err(
            StorageError::RecordTooLarge {
                offset,
                length: record_len as u64,
                max: limits.max_record_len,
            },
        );
    }
    let payload_len = get_field(header, 12, 16) as u32;
    let expected_len: u64 = MIN_RECORD_LEN as u64 + payload_len as u64 + padding_len(
        payload_len,
    ) as u64;
    if expected_len != record_len as u64 {
        return Err(
            corrupt(
                offset,
                RecordCorruption::InvalidPayloadLength { record_len, payload_len },
            ),
        );
    }
    let sequence_value = get_field(header, 16, 24) as u64;
    let sequence = match RecordSequence::new(sequence_value) {
        Some(sequence) => sequence,
        None => {
            return Err(corrupt(offset, RecordCorruption::InvalidSequence(sequence_value)));
        },
    };
    match expected_sequence {
        Some(expected) => {
            if sequence_value != expected.get() {
                return Err(
                    corrupt(
                        offset,
                        RecordCorruption::SequenceMismatch {
                            expected: expected.get(),
                            actual: sequence_value,
                        },
                    ),
                );
            }
        },
        None => {
            return Err(corrupt(offset, RecordCorruption::SequenceOverflow));
        },
    }
    let timestamp = i64_of_bits(get_field(header, 24, 32) as u64);
    Ok(RecordHeader { record_len, payload_len, sequence, timestamp })
}

/// The model of a decoded record.
pub open spec fn record_view(
    out: Result<Record,
    StorageError>,
) -> Result<RecordView, StorageError> {
    match out {
        Ok(record) => Ok(record@),
        Err(error) => Err(error),
    }
}

/// Validates the bytes behind the header of a record that starts at `offset`.
pub fn parse_body(header: &[u8], fields: &RecordHeader, body: Vec<u8>, offset: u64) -> (out: Result<
    Record,
    StorageError,
>)
    requires
        header@.len() == HEADER_LEN,
        fields@.record_len == frame::framed_len(fields@.payload_len as nat),
        body@.len() <= fields@.record_len - 32,
    ensures
        record_view(out) == frame::read_body(header@, fields@, body@, offset),
{
    if body.len() != fields.body_len() {
        return Err(
            StorageError::PartialTail {
                offset,
                expected: fields.record_len as u64,
                actual: (HEADER_LEN + body.len()) as u64,
            },
        );
    }
    let payload_len = fields.payload_len as usize;
    let padding = padding_len(fields.payload_len);
    let signed_len = payload_len + padding;
    let ghost pad = body@.subrange(payload_len as int, signed_len as int);
    let mut index: usize = 0;
    while index < padding
        invariant
            index <= padding < 8,
            signed_len == payload_len + padding,
            signed_len <= body@.len(),
            pad == body@.subrange(payload_len as int, signed_len as int),
            frame::nonzero_from(pad, 0) == frame::nonzero_from(pad, index as int),
            header@.len() == HEADER_LEN,
            body@.len() == fields@.record_len - 32,
            payload_len == fields@.payload_len,
            padding == frame::padding(fields@.payload_len as nat),
        decreases padding - index,
    {
        let value = body[payload_len + index];
        if value != 0 {
            return Err(
                corrupt(
                    offset,
                    RecordCorruption::NonZeroPadding { index: index as u8, value },
                ),
            );
        }
        index += 1;
    }
    let mut signed: Vec<u8> = slice_to_vec(header);
    let covered = slice_subrange(body.as_slice(), 0, signed_len);
    signed.extend_from_slice(covered);
    assert(signed@ =~= header@ + body@.take(signed_len as int));
    let checksum = short_digest(signed.as_slice());
    let stored = slice_subrange(body.as_slice(), signed_len, body.len());
    if !same_bytes(stored, checksum.as_slice()) {
        return Err(corrupt(offset, RecordCorruption::ChecksumMismatch));
    }
    let mut payload = body;
    payload.truncate(payload_len);
    assert(payload@ =~= body@.take(payload_len as int));
    Ok(Record::new(fields.sequence, fields.timestamp, payload))
}

/// What one attempt to read from an input gave.
pub enum ReadEvent {
    /// So many bytes were read.
    Count(usize),
    /// The attempt was interrupted.
    Interrupted,
    /// The input has ended.
    EndOfInput,
    /// The attempt failed.
    Failed {
        /// Portable category of the failure.
        kind: ErrorKind,
        /// Human-readable detail of the failure.
        message: String,
    },
}

/// What to do after an attempt to read.
pub enum ReadStep {
    /// Try again behind so many bytes.
    Again(usize),
    /// Go on with so many bytes.
    Done(usize),
    /// Give up.
    Fail(StorageError),
}

/// Decides how to go on filling a buffer of `wanted` bytes of which `filled` are there.
pub fn next_read(filled: usize, wanted: usize, event: ReadEvent) -> (out: ReadStep)
    requires
        filled < wanted,
        event matches ReadEvent::Count(count) ==> count <= wanted - filled,
    ensures
        out == match event {
            ReadEvent::Count(count) => if count == 0 || filled + count == wanted {
                ReadStep::Done((filled + count) as usize)
            } else {
                ReadStep::Again((filled + count) as usize)
            },
            ReadEvent::Interrupted => ReadStep::Again(filled),
            ReadEvent::EndOfInput => ReadStep::Done(filled),
            ReadEvent::Failed { kind, message } => ReadStep::Fail(
                StorageError::Io { kind, message },
            ),
        },
{
    match event {
        ReadEvent::Count(count) => {
            let read = filled + count;
            if count == 0 || read == wanted {
                ReadStep::Done(read)
            } else {
                ReadStep::Again(read)
            }
        },
        ReadEvent::Interrupted => ReadStep::Again(filled),
        ReadEvent::EndOfInput => ReadStep::Done(filled),
        ReadEvent::Failed { kind, message } => ReadStep::Fail(StorageError::Io { kind, message }),
    }
}

/// Position of a reader in the logical record order, apart from where its bytes come from.
#[derive(Debug, Clone, Copy, PartialEq, Eq)]
pub struct RecordCursor {
    limits: RecordLimits,
    offset: u64,
    expected_sequence: Option<RecordSequence>,
}

impl RecordCursor {
    /// The limit in bytes.
    pub closed spec fn max(self) -> u32 {
        self.limits@
    }

    /// Byte offset at the next record boundary.
    pub closed spec fn at(self) -> u64 {
        self.offset
    }

    /// The next sequence, if there is one.
    pub closed spec fn expected(self) -> Option<u64> {
        sequence_view(self.expected_sequence)
    }

    /// Creates a cursor at offset zero that expects the given sequence, or no record at all.
    pub fn new(limits: RecordLimits, expected_sequence: Option<RecordSequence>) -> (out:
        RecordCursor)
        ensures
            out.max() == limits@,
            out.at() == 0,
            out.expected() == sequence_view(expected_sequence),
    {
        RecordCursor { limits, offset: 0, expected_sequence }
    }

    /// Returns the byte offset at the next record boundary.
    pub fn offset(&self) -> (out: u64)
        ensures
            out == self.at(),
    {
        self.offset
    }

    /// Returns the next expected sequence, or `None` after sequence exhaustion.
    pub fn expected_sequence(&self) -> (out: Option<RecordSequence>)
        ensures
            sequence_view(out) == self.expected(),
    {
        self.expected_sequence
    }

    /// Validates as much of a header as could be read. No bytes at all are a clean end.
    pub fn header(&self, header: &[u8]) -> (out: Result<Option<RecordHeader>, StorageError>)
        requires
            header@.len() <= HEADER_LEN,
        ensures
            if header@.len() == 0 {
                out == Ok::<Option<RecordHeader>, StorageError>(None)
            } else if header@.len() < HEADER_LEN {
                out == Err::<Option<RecordHeader>, StorageError>(
                    StorageError::PartialTail {
                        offset: self.at(),
                        expected: 32,
                        actual: header@.len() as u64,
                    },
                )
            } else {
                match (
                    out,
                    frame::read_header(header@, self.at(), self.max(), self.expected()),
                ) {
                    (Ok(Some(fields)), Ok(parsed)) => fields@ == parsed,
                    (Err(error), Err(fault)) => error == fault,
                    _ => false,
                }
            },
    {
        if header.len() == 0 {
            return Ok(None);
        }
        if header.len() != HEADER_LEN {
            return Err(
                StorageError::PartialTail {
                    offset: self.offset,
                    expected: HEADER_LEN as u64,
                    actual: header.len() as u64,
                },
            );
        }
        match parse_header(header, self.offset, self.limits, self.expected_sequence) {
            Ok(fields) => Ok(Some(fields)),
            Err(error) => Err(error),
        }
    }

    /// Validates as much of the bytes behind a header as could be read, and moves behind the
    /// record where it is valid.
    pub fn body(&mut self, header: &[u8], fields: &RecordHeader, body: Vec<u8>) -> (out: Result<
        Record,
        StorageError,
    >)
        requires
            header@.len() == HEADER_LEN,
            fields@.record_len == frame::framed_len(fields@.payload_len as nat),
            body@.len() <= fields@.record_len - 32,
            body@.len() == fields@.record_len - 32 ==> old(self).at() + fields@.record_len
                <= u64::MAX,
        ensures
            record_view(out) == frame::read_body(header@, fields@, body@, old(self).at()),
            final(self).max() == old(self).max(),
            final(self).at() == if out is Ok {
                (old(self).at() + fields@.record_len) as u64
            } else {
                old(self).at()
            },
            final(self).expected() == if out is Ok {
                frame::next_sequence(fields@.sequence)
            } else {
                old(self).expected()
            },
    {
        let record = parse_body(header, fields, body, self.offset)?;
        self.offset = self.offset + fields.record_len as u64;
        self.expected_sequence = fields.sequence.next();
        Ok(record)
    }
}

/// A bounded, non-resynchronizing reader for a sequence of WAL records in memory.
#[derive(Debug)]
pub struct RecordReader<'a> {
    source: &'a [u8],
    cursor: RecordCursor,
}

impl<'a> View for RecordReader<'a> {
    type V = ReaderView;

    closed spec fn view(&self) -> ReaderView {
        ReaderView {
            rest: self.source@,
            offset: self.cursor.at(),
            expected: self.cursor.expected(),
            max: self.cursor.max(),
        }
    }
}

/// The model of what reading returned.
pub open spec fn read_view(out: Result<Option<Record>, StorageError>) -> Result<
    Option<RecordView>,
    StorageError,
> {
    match out {
        Ok(Some(record)) => Ok(Some(record@)),
        Ok(None) => Ok(None),
        Err(error) => Err(error),
    }
}

impl<'a> RecordReader<'a> {
    /// Creates a reader positioned at offset zero and expecting the first sequence.
    pub fn new(source: &'a [u8], limits: RecordLimits) -> (out: RecordReader<'a>)
        ensures
            out@ == frame::reader_at_start(source@, limits@),
            out@.wf(),
    {
        RecordReader::with_expected_sequence(source, limits, RecordSequence::first())
    }

    /// Creates a reader positioned at offset zero and expecting an explicit sequence.
    pub fn with_expected_sequence(
        source: &'a [u8],
        limits: RecordLimits,
        expected_sequence: RecordSequence,
    ) -> (out: RecordReader<'a>)
        ensures
            out@ == (ReaderView {
                rest: source@,
                offset: 0,
                expected: Some(expected_sequence@),
                max: limits@,
            }),
            out@.wf(),
    {
        RecordReader::resume(source, limits, Some(expected_sequence))
    }

    /// Creates a reader positioned at offset zero and expecting an explicit sequence, or no
    /// record at all.
    pub fn resume(
        source: &'a [u8],
        limits: RecordLimits,
        expected_sequence: Option<RecordSequence>,
    ) -> (out: RecordReader<'a>)
        ensures
            out@ == (ReaderView {
                rest: source@,
                offset: 0,
                expected: sequence_view(expected_sequence),
                max: limits@,
            }),
            out@.wf(),
    {
        assert(source@.len() == source.len());
        RecordReader { source, cursor: RecordCursor::new(limits, expected_sequence) }
    }

    /// Returns the byte offset at the next record boundary.
    pub fn offset(&self) -> (out: u64)
        ensures
            out == self@.offset,
    {
        self.cursor.offset()
    }

    /// Returns the next expected sequence, or `None` after sequence exhaustion.
    pub fn expected_sequence(&self) -> (out: Option<RecordSequence>)
        ensures
            sequence_view(out) == self@.expected,
    {
        self.cursor.expected_sequence()
    }

    /// Returns the bytes that were not consumed.
    pub fn into_inner(self) -> (out: &'a [u8])
        ensures
            out@ == self@.rest,
    {
        self.source
    }

    /// Consumes at most the next `count` bytes.
    fn consume(&mut self, count: usize) -> (out: &'a [u8])
        ensures
            out@ == frame::front(old(self)@.rest, count as nat),
            final(self)@ == old(self)@.skip(out@.len() as int),
    {
        let length = if self.source.len() < count {
            self.source.len()
        } else {
            count
        };
        let taken = slice_subrange(self.source, 0, length);
        self.source = slice_subrange(self.source, length, self.source.len());
        assert(taken@ =~= frame::front(old(self)@.rest, count as nat));
        assert(self.source@ =~= old(self)@.rest.skip(length as int));
        taken
    }

    /// Reads the next record. Memory for its body is granted as told, or else asked for. Whether
    /// it was granted is returned.
    pub(crate) fn read_next_with(&mut self, told: Option<bool>) -> (out: (
        Result<Option<Record>, StorageError>,
        Ghost<bool>,
    ))
        requires
            old(self)@.wf(),
        ensures
            final(self)@.wf(),
            (read_view(out.0), final(self)@) == frame::read_step_with(old(self)@, out.1@),
            told matches Some(granted) ==> out.1@ == granted,
    {
        reveal(frame::read_step);
        reveal(frame::asked);
        let ghost otherwise = match told {
            Some(granted) => granted,
            None => true,
        };
        let header = self.consume(HEADER_LEN);
        let fields = match self.cursor.header(header) {
            Ok(Some(fields)) => fields,
            Ok(None) => {
                assert(self@ =~= old(self)@);
                return (Ok(None), Ghost(otherwise));
            },
            Err(error) => {
                return (Err(error), Ghost(otherwise));
            },
        };
        let mut body: Vec<u8> = Vec::new();
        let granted = match told {
            Some(granted) => granted,
            None => reserve_exact(&mut body, fields.body_len()),
        };
        if !granted {
            return (Err(fields.refused()), Ghost(granted));
        }
        let part = self.consume(fields.body_len());
        body.extend_from_slice(part);
        assert(body@ =~= part@);
        match self.cursor.body(header, &fields, body) {
            Ok(record) => (Ok(Some(record)), Ghost(granted)),
            Err(error) => (Err(error), Ghost(granted)),
        }
    }

    /// Reads and validates the next record without attempting resynchronization.
    ///
    /// A clean end is reported only at a record boundary. Any shorter prefix is a
    /// [`StorageError::PartialTail`]. Size limits and structural header fields are checked
    /// before the memory for the record body is asked for; where that cannot be had, the
    /// reader stands behind the header and reports it.
    pub fn read_next(&mut self) -> (out: Result<Option<Record>, StorageError>)
        requires
            old(self)@.wf(),
        ensures
            final(self)@.wf(),
            exists|granted: bool|
                (read_view(out), final(self)@) == #[trigger] frame::read_step_with(
                    old(self)@,
                    granted,
                ),
    {
        let (out, granted) = self.read_next_with(None);
        out
    }

    /// Reads and validates the next record as if memory for its body were granted or refused.
    pub fn read_next_granted(&mut self, granted: bool) -> (out: Result<
        Option<Record>,
        StorageError,
    >)
        requires
            old(self)@.wf(),
        ensures
            final(self)@.wf(),
            (read_view(out), final(self)@) == frame::read_step_with(old(self)@, granted),
    {
        let (out, _) = self.read_next_with(Some(granted));
        out
    }
}

} // verus!
