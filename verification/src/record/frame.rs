//! The mathematical model of framed records.

use crate::bytes;
use crate::digest;
use crate::error::{RecordCorruption, StorageError};
use crate::layout;
use crate::wire::model;
use vstd::prelude::*;

verus! {

/// The model of a record.
#[verifier::ext_equal]
pub struct RecordView {
    /// Position in the logical order.
    pub sequence: u64,
    /// Deterministic timestamp.
    pub timestamp: i64,
    /// Opaque payload.
    pub payload: Seq<u8>,
}

/// The number of zero bytes that align a payload to eight bytes.
pub open spec fn padding(len: nat) -> nat {
    ((8 - len % 8) % 8) as nat
}

/// The number of bytes of a record around a payload of the given length.
pub open spec fn framed_len(len: nat) -> nat {
    48 + len + padding(len)
}

/// The record signature, the version and the flags.
pub open spec fn preamble() -> Seq<u8> {
    seq![0x50u8, 0x44, 0x42, 0x57, 1, 0]
}

/// The fixed header of a record.
pub open spec fn header_bytes(record: RecordView) -> Seq<u8> {
    preamble() + model::le(32, 2) + model::le(framed_len(record.payload.len()), 4) + model::le(
        record.payload.len(),
        4,
    ) + model::le(record.sequence as nat, 8) + model::le(model::i64_bits(record.timestamp), 8)
}

/// Everything that the checksum of a record covers.
pub open spec fn signed_bytes(record: RecordView) -> Seq<u8> {
    header_bytes(record) + (record.payload + layout::zeros(padding(record.payload.len())))
}

/// The complete encoding of a record.
pub open spec fn frame(record: RecordView) -> Seq<u8> {
    signed_bytes(record) + digest::short_hash(signed_bytes(record))
}

/// The position behind `sequence`, if there is one.
pub open spec fn next_sequence(sequence: u64) -> Option<u64> {
    if sequence == u64::MAX {
        None
    } else {
        Some((sequence + 1) as u64)
    }
}

/// Why a payload of the given length cannot be framed, if it cannot.
pub open spec fn frame_fault(len: nat, max: u32) -> Option<StorageError> {
    if len > u32::MAX {
        Some(StorageError::InvalidLength { field: "record payload", length: len as u64 })
    } else if framed_len(len) > 0xffff_fff8 {
        Some(StorageError::InvalidLength { field: "WAL record", length: (len + 48) as u64 })
    } else if framed_len(len) > max {
        Some(StorageError::RecordTooLarge { offset: 0, length: framed_len(len) as u64, max })
    } else {
        None
    }
}

/// The failure where the memory for a record of the given length cannot be had.
pub open spec fn refused(record_len: u32) -> StorageError {
    StorageError::InvalidLength { field: "WAL record allocation", length: record_len as u64 }
}

/// The fields of a valid header.
pub struct HeaderView {
    /// Total record length.
    pub record_len: u32,
    /// Payload length.
    pub payload_len: u32,
    /// Position in the logical order.
    pub sequence: u64,
    /// Deterministic timestamp.
    pub timestamp: i64,
}

/// Why a payload of the given length is not framed, if memory for the frame is granted or
/// refused.
pub open spec fn frame_fault_with(len: nat, max: u32, granted: bool) -> Option<StorageError> {
    match frame_fault(len, max) {
        Some(error) => Some(error),
        None => if granted {
            None
        } else {
            Some(refused(framed_len(len) as u32))
        },
    }
}

/// A rejected record.
pub open spec fn corrupt(offset: u64, reason: RecordCorruption) -> StorageError {
    StorageError::CorruptWalRecord { offset, reason }
}

/// The fields of the 32 header bytes of a record that starts at `offset`.
pub open spec fn read_header(
    header: Seq<u8>,
    offset: u64,
    max: u32,
    expected: Option<u64>,
) -> Result<HeaderView, StorageError> {
    let record_len = layout::field(header, 8, 12) as u32;
    let payload_len = layout::field(header, 12, 16) as u32;
    let sequence = layout::field(header, 16, 24) as u64;
    if header.subrange(0, 4) != preamble().subrange(0, 4) {
        Err(corrupt(offset, RecordCorruption::InvalidMagic(layout::first_four(header))))
    } else if header[4] != 1 {
        Err(StorageError::UnsupportedRecordVersion { offset, version: header[4] })
    } else if header[5] != 0 {
        Err(corrupt(offset, RecordCorruption::UnsupportedFlags(header[5])))
    } else if layout::field(header, 6, 8) != 32 {
        Err(
            corrupt(
                offset,
                RecordCorruption::InvalidHeaderLength(layout::field(header, 6, 8) as u16),
            ),
        )
    } else if !(48 <= record_len <= 0xffff_fff8) || record_len % 8 != 0 {
        Err(corrupt(offset, RecordCorruption::InvalidRecordLength(record_len)))
    } else if record_len > max {
        Err(StorageError::RecordTooLarge { offset, length: record_len as u64, max })
    } else if framed_len(payload_len as nat) != record_len {
        Err(
            corrupt(
                offset,
                RecordCorruption::InvalidPayloadLength { record_len, payload_len },
            ),
        )
    } else if sequence == 0 {
        Err(corrupt(offset, RecordCorruption::InvalidSequence(sequence)))
    } else {
        match expected {
            None => Err(corrupt(offset, RecordCorruption::SequenceOverflow)),
            Some(expected) => if sequence != expected {
                Err(
                    corrupt(
                        offset,
                        RecordCorruption::SequenceMismatch { expected, actual: sequence },
                    ),
                )
            } else {
                Ok(
                    HeaderView {
                        record_len,
                        payload_len,
                        sequence,
                        timestamp: model::bits_i64(layout::field(header, 24, 32)),
                    },
                )
            },
        }
    }
}

/// The index of the first byte from `from` on that is not zero.
pub open spec fn nonzero_from(bytes: Seq<u8>, from: int) -> Option<int>
    decreases bytes.len() - from,
{
    if from >= bytes.len() {
        None
    } else if bytes[from] != 0 {
        Some(from)
    } else {
        nonzero_from(bytes, from + 1)
    }
}

/// The record with a valid header and the given bytes behind the header.
pub open spec fn read_body(
    header: Seq<u8>,
    fields: HeaderView,
    body: Seq<u8>,
    offset: u64,
) -> Result<RecordView, StorageError> {
    let payload_len = fields.payload_len as int;
    let signed_len = payload_len + padding(fields.payload_len as nat);
    if body.len() != fields.record_len - 32 {
        Err(
            StorageError::PartialTail {
                offset,
                expected: fields.record_len as u64,
                actual: (32 + body.len()) as u64,
            },
        )
    } else {
        let pad = body.subrange(payload_len, signed_len);
        match nonzero_from(pad, 0) {
            Some(index) => Err(
                corrupt(
                    offset,
                    RecordCorruption::NonZeroPadding { index: index as u8, value: pad[index] },
                ),
            ),
            None => if body.subrange(signed_len, body.len() as int) != digest::short_hash(
                header + body.take(signed_len),
            ) {
                Err(corrupt(offset, RecordCorruption::ChecksumMismatch))
            } else {
                Ok(
                    RecordView {
                        sequence: fields.sequence,
                        timestamp: fields.timestamp,
                        payload: body.take(payload_len),
                    },
                )
            },
        }
    }
}

/// The model of a record reader.
#[verifier::ext_equal]
pub struct ReaderView {
    /// Bytes that were not consumed yet.
    pub rest: Seq<u8>,
    /// Byte offset at the next record boundary.
    pub offset: u64,
    /// The next sequence, if there is one.
    pub expected: Option<u64>,
    /// Maximum total record length.
    pub max: u32,
}

impl ReaderView {
    /// The same reader with `count` fewer bytes.
    pub open spec fn skip(self, count: int) -> ReaderView {
        ReaderView { rest: self.rest.skip(count), ..self }
    }

    /// Positions can be counted up to the end.
    pub open spec fn wf(self) -> bool {
        self.offset + self.rest.len() <= u64::MAX
    }
}

/// At most the first `count` bytes.
pub open spec fn front(bytes: Seq<u8>, count: nat) -> Seq<u8> {
    if bytes.len() < count {
        bytes
    } else {
        bytes.take(count as int)
    }
}

/// What reading one record gives, and the reader after it.
#[verifier::opaque]
pub open spec fn read_step(reader: ReaderView) -> (
    Result<Option<RecordView>, StorageError>,
    ReaderView,
) {
    let header = front(reader.rest, 32);
    if header.len() == 0 {
        (Ok(None), reader)
    } else if header.len() < 32 {
        (
            Err(
                StorageError::PartialTail {
                    offset: reader.offset,
                    expected: 32,
                    actual: header.len() as u64,
                },
            ),
            reader.skip(header.len() as int),
        )
    } else {
        let behind = reader.skip(32);
        match read_header(header, reader.offset, reader.max, reader.expected) {
            Err(error) => (Err(error), behind),
            Ok(fields) => {
                let body = front(behind.rest, (fields.record_len - 32) as nat);
                let after = behind.skip(body.len() as int);
                match read_body(header, fields, body, reader.offset) {
                    Err(error) => (Err(error), after),
                    Ok(record) => (
                        Ok(Some(record)),
                        ReaderView {
                            offset: (reader.offset + fields.record_len) as u64,
                            expected: next_sequence(fields.sequence),
                            ..after
                        },
                    ),
                }
            },
        }
    }
}

/// The length of the next record, if the reader asks for memory for its body.
#[verifier::opaque]
pub open spec fn asked(reader: ReaderView) -> Option<u32> {
    if reader.rest.len() < 32 {
        None
    } else {
        match read_header(reader.rest.take(32), reader.offset, reader.max, reader.expected) {
            Err(_) => None,
            Ok(fields) => Some(fields.record_len),
        }
    }
}

/// What reading one record gives, and the reader after it, if memory for its body is granted or
/// refused. A reader that is refused memory stands behind the header.
pub open spec fn read_step_with(reader: ReaderView, granted: bool) -> (
    Result<Option<RecordView>, StorageError>,
    ReaderView,
) {
    match asked(reader) {
        Some(record_len) => if granted {
            read_step(reader)
        } else {
            (Err(refused(record_len)), reader.skip(32))
        },
        None => read_step(reader),
    }
}

/// Reading a record consumes its bytes.
pub proof fn lemma_step_consumes(reader: ReaderView)
    ensures
        read_step(reader).0 matches Ok(Some(_)) ==> read_step(reader).1.rest.len()
            < reader.rest.len(),
        read_step(reader).0 matches Ok(None) ==> reader.rest.len() == 0 && read_step(reader).1
            == reader,
{
    reveal(read_step);
}

/// All records up to the end, or the first failure.
pub open spec fn recovered(reader: ReaderView) -> Result<Seq<RecordView>, StorageError>
    decreases reader.rest.len(),
{
    let (out, next) = read_step(reader);
    proof {
        lemma_step_consumes(reader);
    }
    match out {
        Err(error) => Err(error),
        Ok(None) => Ok(seq![]),
        Ok(Some(record)) => match recovered(next) {
            Err(error) => Err(error),
            Ok(records) => Ok(seq![record] + records),
        },
    }
}

/// What a scan gives, if memory for the records is granted as listed from `number` on.
pub open spec fn recovered_with(reader: ReaderView, grants: Seq<bool>, number: nat) -> Result<
    Seq<RecordView>,
    StorageError,
>
    decreases reader.rest.len(),
{
    let (out, next) = read_step_with(reader, bytes::granted(grants, number));
    proof {
        lemma_step_consumes(reader);
    }
    match out {
        Err(error) => Err(error),
        Ok(None) => Ok(seq![]),
        Ok(Some(record)) => match recovered_with(next, grants, number + 1) {
            Err(error) => Err(error),
            Ok(records) => Ok(seq![record] + records),
        },
    }
}

/// The reader behind the given number of records.
pub open spec fn reader_behind(reader: ReaderView, records: nat) -> ReaderView
    decreases records,
{
    if records == 0 {
        reader
    } else {
        read_step(reader_behind(reader, (records - 1) as nat)).1
    }
}

/// Each of the first `count` steps gives a record.
pub open spec fn read_through(reader: ReaderView, count: nat) -> bool {
    forall|k: nat|
        k < count ==> (read_step(#[trigger] reader_behind(reader, k)).0 matches Ok(Some(_)))
}

/// The first `count` requests are granted, the next one is not.
pub open spec fn refused_after(count: nat) -> Seq<bool> {
    Seq::new(count + 1, |k: int| k < count)
}

/// The first `done` records are read, and memory for the one behind them cannot be had.
pub open spec fn refused_behind(
    reader: ReaderView,
    done: nat,
    out: Result<Seq<RecordView>, StorageError>,
) -> bool {
    &&& read_through(reader, done)
    &&& asked(reader_behind(reader, done)) matches Some(record_len) && out == Err::<
        Seq<RecordView>,
        StorageError,
    >(refused(record_len))
}

/// The reader behind a record and more is the reader behind those, from behind the record.
pub proof fn lemma_behind_shift(reader: ReaderView, records: nat)
    ensures
        reader_behind(read_step(reader).1, records) == reader_behind(reader, records + 1),
    decreases records,
{
    if records > 0 {
        lemma_behind_shift(reader, (records - 1) as nat);
    } else {
        assert(reader_behind(reader, 0) == reader);
    }
}

/// Records are read through behind the first one.
pub proof fn lemma_through_shift(reader: ReaderView, count: nat)
    requires
        read_through(reader, count + 1),
    ensures
        read_step(reader).0 matches Ok(Some(_)),
        read_through(read_step(reader).1, count),
{
    assert(reader_behind(reader, 0) == reader);
    assert forall|k: nat| k < count implies (read_step(
        #[trigger] reader_behind(read_step(reader).1, k),
    ).0 matches Ok(Some(_))) by {
        lemma_behind_shift(reader, k);
        assert(reader_behind(reader, k + 1) == reader_behind(read_step(reader).1, k));
    }
}

/// A scan whose memory is granted gives what a scan gives.
pub proof fn lemma_recovered_granted(reader: ReaderView, number: nat)
    ensures
        recovered_with(reader, seq![], number) == recovered(reader),
    decreases reader.rest.len(),
{
    lemma_step_consumes(reader);
    if let Ok(Some(_)) = read_step(reader).0 {
        lemma_recovered_granted(read_step(reader).1, number + 1);
    }
}

/// A scan that is refused memory for a record ends there.
pub proof fn lemma_recovered_refused(reader: ReaderView, number: nat, done: nat)
    requires
        number <= done,
        read_through(reader, (done - number) as nat),
        asked(reader_behind(reader, (done - number) as nat)) is Some,
    ensures
        recovered_with(reader, refused_after(done), number) == Err::<Seq<RecordView>, StorageError>(
            refused(asked(reader_behind(reader, (done - number) as nat))->0),
        ),
    decreases done - number,
{
    lemma_step_consumes(reader);
    if number < done {
        let left = (done - number - 1) as nat;
        lemma_through_shift(reader, left);
        lemma_behind_shift(reader, left);
        lemma_recovered_refused(read_step(reader).1, number + 1, done);
    }
}

/// Whatever memory is granted, a scan gives what it gives where all is granted, or ends with the
/// report that memory for the record behind the last one it read cannot be had.
pub proof fn law_scan_is_complete_or_refused_at_a_record(
    reader: ReaderView,
    grants: Seq<bool>,
    number: nat,
)
    ensures
        recovered_with(reader, grants, number) == recovered(reader) || exists|done: nat| #[trigger]
            refused_behind(reader, done, recovered_with(reader, grants, number)),
    decreases reader.rest.len(),
{
    let granted = bytes::granted(grants, number);
    let out = recovered_with(reader, grants, number);
    lemma_step_consumes(reader);
    if asked(reader) is Some && !granted {
        assert(reader_behind(reader, 0) == reader);
        assert(refused_behind(reader, 0, out));
    } else if let Ok(Some(_)) = read_step(reader).0 {
        let next = read_step(reader).1;
        law_scan_is_complete_or_refused_at_a_record(next, grants, number + 1);
        let rest = recovered_with(next, grants, number + 1);
        if rest != recovered(next) {
            let done = choose|done: nat| #[trigger] refused_behind(next, done, rest);
            lemma_behind_shift(reader, done);
            assert forall|k: nat| k < done + 1 implies (read_step(
                #[trigger] reader_behind(reader, k),
            ).0 matches Ok(Some(_))) by {
                if k > 0 {
                    lemma_behind_shift(reader, (k - 1) as nat);
                    assert(reader_behind(next, (k - 1) as nat) == reader_behind(reader, k));
                }
            }
            assert(refused_behind(reader, done + 1, out));
        }
    }
}

/// A reader at the start of `bytes`.
pub open spec fn reader_at_start(bytes: Seq<u8>, max: u32) -> ReaderView {
    ReaderView { rest: bytes, offset: 0, expected: Some(1), max }
}

proof fn lemma_header_layout(record: RecordView)
    ensures
        header_bytes(record).len() == 32,
        header_bytes(record).subrange(0, 6) == preamble(),
        header_bytes(record).subrange(6, 8) == model::le(32, 2),
        header_bytes(record).subrange(8, 12) == model::le(framed_len(record.payload.len()), 4),
        header_bytes(record).subrange(12, 16) == model::le(record.payload.len(), 4),
        header_bytes(record).subrange(16, 24) == model::le(record.sequence as nat, 8),
        header_bytes(record).subrange(24, 32) == model::le(model::i64_bits(record.timestamp), 8),
{
    broadcast use model::lemma_le_len;

    let header = header_bytes(record);
    assert(header.subrange(0, 6) =~= preamble());
    assert(header.subrange(6, 8) =~= model::le(32, 2));
    assert(header.subrange(8, 12) =~= model::le(framed_len(record.payload.len()), 4));
    assert(header.subrange(12, 16) =~= model::le(record.payload.len(), 4));
    assert(header.subrange(16, 24) =~= model::le(record.sequence as nat, 8));
    assert(header.subrange(24, 32) =~= model::le(model::i64_bits(record.timestamp), 8));
}

proof fn lemma_header_fields(record: RecordView, offset: u64, max: u32)
    requires
        record.sequence != 0,
        frame_fault(record.payload.len(), max) is None,
    ensures
        read_header(header_bytes(record), offset, max, Some(record.sequence)) == Ok::<
            HeaderView,
            StorageError,
        >(
            HeaderView {
                record_len: framed_len(record.payload.len()) as u32,
                payload_len: record.payload.len() as u32,
                sequence: record.sequence,
                timestamp: record.timestamp,
            },
        ),
{
    let header = header_bytes(record);
    lemma_header_layout(record);
    model::lemma_spans();
    model::lemma_un_le_of_le(32, 2);
    model::lemma_un_le_of_le(framed_len(record.payload.len()), 4);
    model::lemma_un_le_of_le(record.payload.len(), 4);
    model::lemma_un_le_of_le(record.sequence as nat, 8);
    model::lemma_un_le_of_le(model::i64_bits(record.timestamp), 8);
    assert(header[4] == header.subrange(0, 6)[4]);
    assert(header[5] == header.subrange(0, 6)[5]);
    assert(header.subrange(0, 4) =~= header.subrange(0, 6).subrange(0, 4));
}

proof fn lemma_zeros(count: nat, from: int)
    requires
        0 <= from,
    ensures
        nonzero_from(layout::zeros(count), from) is None,
    decreases count - from,
{
    if from < count {
        lemma_zeros(count, from + 1);
    }
}

proof fn lemma_all_zeros(bytes: Seq<u8>, from: int)
    requires
        0 <= from,
        nonzero_from(bytes, from) is None,
    ensures
        forall|i: int| from <= i < bytes.len() ==> bytes[i] == 0,
    decreases bytes.len() - from,
{
    if from < bytes.len() {
        lemma_all_zeros(bytes, from + 1);
    }
}

/// The bytes of a frame from its header on.
proof fn lemma_frame_parts(record: RecordView)
    ensures
        frame(record).len() == framed_len(record.payload.len()),
        frame(record).take(32) == header_bytes(record),
        frame(record).skip(32) == record.payload + layout::zeros(padding(record.payload.len()))
            + digest::short_hash(signed_bytes(record)),
{
    lemma_header_layout(record);
    assert(frame(record).take(32) =~= header_bytes(record));
    assert(frame(record).skip(32) =~= record.payload + layout::zeros(padding(record.payload.len()))
        + digest::short_hash(signed_bytes(record)));
}

/// The length of a frame.
pub proof fn lemma_frame_len(record: RecordView)
    ensures
        frame(record).len() == framed_len(record.payload.len()),
{
    lemma_frame_parts(record);
}

/// Reading at the end is a clean end.
pub proof fn lemma_step_at_end(reader: ReaderView)
    requires
        reader.rest.len() == 0,
    ensures
        read_step(reader) == (Ok::<Option<RecordView>, StorageError>(None), reader),
{
    reveal(read_step);
}

/// Behind a record the following sequence is expected.
pub proof fn lemma_step_expects(reader: ReaderView)
    ensures
        read_step(reader).0 matches Ok(Some(record)) ==> read_step(reader).1.expected
            == next_sequence(record.sequence),
{
    reveal(read_step);
}

/// A framed record is read back as it was, whatever follows it.
pub proof fn law_record_round_trip(record: RecordView, tail: Seq<u8>, offset: u64, max: u32)
    requires
        record.sequence != 0,
        frame_fault(record.payload.len(), max) is None,
        offset + framed_len(record.payload.len()) <= u64::MAX,
    ensures
        read_step(
            ReaderView {
                rest: frame(record) + tail,
                offset,
                expected: Some(record.sequence),
                max,
            },
        ) == (
            Ok::<Option<RecordView>, StorageError>(Some(record)),
            ReaderView {
                rest: tail,
                offset: (offset + framed_len(record.payload.len())) as u64,
                expected: next_sequence(record.sequence),
                max,
            },
        ),
{
    reveal(read_step);
    let rest = frame(record) + tail;
    let len = record.payload.len();
    let signed_len = len + padding(len);
    lemma_frame_parts(record);
    lemma_header_layout(record);
    lemma_header_fields(record, offset, max);
    let header = front(rest, 32);
    assert(header =~= frame(record).take(32));
    let body = front(rest.skip(32), (framed_len(len) - 32) as nat);
    assert(body =~= frame(record).skip(32));
    assert(body.subrange(len as int, signed_len as int) =~= layout::zeros(padding(len)));
    lemma_zeros(padding(len), 0);
    assert(header + body.take(signed_len as int) =~= signed_bytes(record));
    assert(body.subrange(signed_len as int, body.len() as int) =~= digest::short_hash(
        signed_bytes(record),
    ));
    assert(body.take(len as int) =~= record.payload);
    assert(rest.skip(32).skip(body.len() as int) =~= tail);
}

/// A frame that misses some of its last bytes is a partial tail.
pub proof fn law_cut_record_is_partial_tail(record: RecordView, cut: int, offset: u64, max: u32)
    requires
        record.sequence != 0,
        frame_fault(record.payload.len(), max) is None,
        0 < cut < frame(record).len(),
    ensures
        read_step(
            ReaderView {
                rest: frame(record).take(cut),
                offset,
                expected: Some(record.sequence),
                max,
            },
        ).0 == Err::<Option<RecordView>, StorageError>(
            StorageError::PartialTail {
                offset,
                expected: if cut < 32 {
                    32
                } else {
                    framed_len(record.payload.len()) as u64
                },
                actual: cut as u64,
            },
        ),
{
    reveal(read_step);
    let rest = frame(record).take(cut);
    lemma_frame_parts(record);
    lemma_header_layout(record);
    if cut >= 32 {
        lemma_header_fields(record, offset, max);
        assert(front(rest, 32) =~= header_bytes(record));
        let body = front(rest.skip(32), (framed_len(record.payload.len()) - 32) as nat);
        assert(body =~= rest.skip(32));
        assert(body.len() == cut - 32);
    }
}

/// Only frames are accepted: what is read is the record whose frame stands there, with the
/// expected sequence and within the limit.
pub proof fn law_accepted_record_is_its_frame(reader: ReaderView)
    ensures
        read_step(reader).0 matches Ok(Some(record)) ==> {
            &&& record.sequence != 0
            &&& reader.expected == Some(record.sequence)
            &&& frame_fault(record.payload.len(), reader.max) is None
            &&& frame(record).len() <= reader.rest.len()
            &&& reader.rest.take(frame(record).len() as int) == frame(record)
            &&& read_step(reader).1.rest == reader.rest.skip(frame(record).len() as int)
        },
{
    reveal(read_step);
    if let Ok(Some(record)) = read_step(reader).0 {
        let header = front(reader.rest, 32);
        let fields = read_header(header, reader.offset, reader.max, reader.expected)->Ok_0;
        let body = front(reader.rest.skip(32), (fields.record_len - 32) as nat);
        let len = fields.payload_len as nat;
        let signed_len = len + padding(len);
        model::lemma_spans();
        model::lemma_le_of_un_le(header.subrange(6, 8));
        model::lemma_le_of_un_le(header.subrange(8, 12));
        model::lemma_le_of_un_le(header.subrange(12, 16));
        model::lemma_le_of_un_le(header.subrange(16, 24));
        model::lemma_le_of_un_le(header.subrange(24, 32));
        lemma_header_layout(record);
        let built = header_bytes(record);
        assert(record.payload.len() == len);
        assert(header.subrange(0, 6) =~= preamble()) by {
            assert(header.subrange(0, 4) == preamble().subrange(0, 4));
            assert forall|i: int| 0 <= i < 4 implies header[i] == preamble()[i] by {
                assert(header.subrange(0, 4)[i] == preamble().subrange(0, 4)[i]);
            }
        }
        assert(built.subrange(24, 32) == header.subrange(24, 32));
        assert(header =~= header.subrange(0, 6) + header.subrange(6, 8) + header.subrange(8, 12)
            + header.subrange(12, 16) + header.subrange(16, 24) + header.subrange(24, 32));
        assert(header =~= built);
        let pad = body.subrange(len as int, signed_len as int);
        lemma_all_zeros(pad, 0);
        assert(pad =~= layout::zeros(padding(len)));
        assert(body.take(signed_len as int) =~= record.payload + pad);
        assert(header + body.take(signed_len as int) =~= signed_bytes(record));
        lemma_frame_parts(record);
        assert(reader.rest.take(frame(record).len() as int) =~= header + body);
        assert(body =~= body.take(signed_len as int) + body.subrange(
            signed_len as int,
            body.len() as int,
        ));
        assert(reader.rest.take(frame(record).len() as int) =~= frame(record));
        assert(reader.rest.skip(32).skip(body.len() as int) =~= reader.rest.skip(
            frame(record).len() as int,
        ));
    }
}

/// The frames of records one after the other.
pub open spec fn frames(records: Seq<RecordView>) -> Seq<u8>
    decreases records.len(),
{
    if records.len() == 0 {
        seq![]
    } else {
        frame(records[0]) + frames(records.drop_first())
    }
}

/// The records follow each other from `expected` on, and each fits the limit.
pub open spec fn consecutive(records: Seq<RecordView>, expected: Option<u64>, max: u32) -> bool
    decreases records.len(),
{
    records.len() > 0 ==> {
        &&& records[0].sequence != 0
        &&& expected == Some(records[0].sequence)
        &&& frame_fault(records[0].payload.len(), max) is None
        &&& consecutive(records.drop_first(), next_sequence(records[0].sequence), max)
    }
}

/// The next sequence behind records from `expected` on.
pub open spec fn expected_after(records: Seq<RecordView>, expected: Option<u64>) -> Option<u64> {
    if records.len() == 0 {
        expected
    } else {
        next_sequence(records.last().sequence)
    }
}

/// Reading a log of consecutive frames reads each record and goes on behind them.
pub proof fn law_recovery_reads_what_was_framed(
    records: Seq<RecordView>,
    tail: Seq<u8>,
    offset: u64,
    expected: Option<u64>,
    max: u32,
)
    requires
        consecutive(records, expected, max),
        offset + frames(records).len() + tail.len() <= u64::MAX,
    ensures
        recovered(
            ReaderView { rest: frames(records) + tail, offset, expected, max },
        ) == match recovered(
            ReaderView {
                rest: tail,
                offset: (offset + frames(records).len()) as u64,
                expected: expected_after(records, expected),
                max,
            },
        ) {
            Ok(more) => Ok::<Seq<RecordView>, StorageError>(records + more),
            Err(error) => Err(error),
        },
    decreases records.len(),
{
    let reader = ReaderView { rest: frames(records) + tail, offset, expected, max };
    if records.len() == 0 {
        assert(reader.rest =~= tail);
        let behind = recovered(reader);
        if let Ok(more) = behind {
            assert(records + more =~= more);
        }
    } else {
        let first = records[0];
        let others = records.drop_first();
        lemma_frame_parts(first);
        assert(reader.rest =~= frame(first) + (frames(others) + tail));
        law_record_round_trip(first, frames(others) + tail, offset, max);
        let next_offset = (offset + framed_len(first.payload.len())) as u64;
        law_recovery_reads_what_was_framed(
            others,
            tail,
            next_offset,
            next_sequence(first.sequence),
            max,
        );
        assert(expected_after(others, next_sequence(first.sequence)) == expected_after(
            records,
            expected,
        ));
        let behind = recovered(
            ReaderView {
                rest: tail,
                offset: (offset + frames(records).len()) as u64,
                expected: expected_after(records, expected),
                max,
            },
        );
        if let Ok(more) = behind {
            assert(seq![first] + (others + more) =~= records + more);
        }
    }
}

/// A log of consecutive frames gives back exactly the framed records.
pub proof fn law_recovery_round_trip(records: Seq<RecordView>, max: u32)
    requires
        consecutive(records, Some(1), max),
        frames(records).len() <= u64::MAX,
    ensures
        recovered(reader_at_start(frames(records), max)) == Ok::<Seq<RecordView>, StorageError>(
            records,
        ),
{
    law_recovery_reads_what_was_framed(records, seq![], 0, Some(1), max);
    assert(recovered(
        ReaderView {
            rest: seq![],
            offset: frames(records).len() as u64,
            expected: expected_after(records, Some(1)),
            max,
        },
    ) == Ok::<Seq<RecordView>, StorageError>(seq![])) by {
        reveal(read_step);
    }
    assert(frames(records) + seq![] =~= frames(records));
    assert(records + seq![] =~= records);
}

/// A log whose last frame was cut off reports the place where the complete frames end, and the
/// log up to there gives back exactly the records before the cut one.
pub proof fn law_partial_tail_ends_the_complete_records(
    records: Seq<RecordView>,
    cut_record: RecordView,
    cut: int,
    max: u32,
)
    requires
        consecutive(records, Some(1), max),
        expected_after(records, Some(1)) == Some(cut_record.sequence),
        cut_record.sequence != 0,
        frame_fault(cut_record.payload.len(), max) is None,
        0 < cut < frame(cut_record).len(),
        frames(records).len() + cut <= u64::MAX,
    ensures
        recovered(reader_at_start(frames(records) + frame(cut_record).take(cut), max)) == Err::<
            Seq<RecordView>,
            StorageError,
        >(
            StorageError::PartialTail {
                offset: frames(records).len() as u64,
                expected: if cut < 32 {
                    32
                } else {
                    framed_len(cut_record.payload.len()) as u64
                },
                actual: cut as u64,
            },
        ),
        recovered(
            reader_at_start(
                (frames(records) + frame(cut_record).take(cut)).take(frames(records).len() as int),
                max,
            ),
        ) == Ok::<Seq<RecordView>, StorageError>(records),
{
    let tail = frame(cut_record).take(cut);
    law_recovery_reads_what_was_framed(records, tail, 0, Some(1), max);
    law_cut_record_is_partial_tail(cut_record, cut, frames(records).len() as u64, max);
    assert((frames(records) + tail).take(frames(records).len() as int) =~= frames(records));
    law_recovery_round_trip(records, max);
}

/// Memory is asked for exactly where a complete header stands that is accepted.
pub proof fn law_only_accepted_headers_ask_for_memory(reader: ReaderView)
    ensures
        asked(reader) is Some <==> reader.rest.len() >= 32 && read_header(
            reader.rest.take(32),
            reader.offset,
            reader.max,
            reader.expected,
        ) is Ok,
{
    reveal(asked);
}

/// An empty log holds no records, whatever memory is granted.
pub proof fn law_empty_log_is_recovered(reader: ReaderView, grants: Seq<bool>, number: nat)
    requires
        reader.rest.len() == 0,
    ensures
        recovered_with(reader, grants, number) == Ok::<Seq<RecordView>, StorageError>(seq![]),
{
    reveal(asked);
    lemma_step_at_end(reader);
}

/// The position with the given number among consecutive ones.
pub proof fn lemma_consecutive_sequence(
    records: Seq<RecordView>,
    expected: Option<u64>,
    max: u32,
    i: int,
)
    requires
        consecutive(records, expected, max),
        0 <= i < records.len(),
    ensures
        expected is Some,
        records[i].sequence == expected->0 + i,
    decreases records.len(),
{
    if i > 0 {
        let others = records.drop_first();
        lemma_consecutive_sequence(others, next_sequence(records[0].sequence), max, i - 1);
        assert(others[i - 1] == records[i]);
    }
}

/// Reading a record moves the reader behind its frame and no further.
proof fn lemma_step_moves(reader: ReaderView)
    requires
        reader.wf(),
    ensures
        read_step(reader).0 matches Ok(Some(record)) ==> {
            &&& read_step(reader).1.offset == reader.offset + frame(record).len()
            &&& read_step(reader).1.max == reader.max
            &&& read_step(reader).1.wf()
        },
{
    law_accepted_record_is_its_frame(reader);
    reveal(read_step);
    if let Ok(Some(record)) = read_step(reader).0 {
        lemma_frame_len(record);
    }
}

/// The first `count` records in front of a reader.
pub open spec fn records_read(reader: ReaderView, count: nat) -> Seq<RecordView> {
    Seq::new(count, |k: int| (read_step(reader_behind(reader, k as nat)).0->Ok_0)->0)
}

/// Behind some records the reader stands at the sum of their lengths and expects the successor
/// of the last. Their frames are what it consumed: nothing is read ahead. They are numbered one
/// after the other from the expected sequence on.
pub proof fn law_reader_advances_record_by_record(reader: ReaderView, count: nat)
    requires
        reader.wf(),
        read_through(reader, count),
    ensures
        ({
            let records = records_read(reader, count);
            let behind = reader_behind(reader, count);
            let consumed = frames(records);
            &&& consecutive(records, reader.expected, reader.max)
            &&& forall|i: int|
                0 <= i < count ==> (#[trigger] records[i]).sequence == reader.expected->0 + i
            &&& consumed.len() <= reader.rest.len()
            &&& reader.rest.take(consumed.len() as int) == consumed
            &&& behind.rest == reader.rest.skip(consumed.len() as int)
            &&& behind.offset == reader.offset + consumed.len()
            &&& behind.expected == expected_after(records, reader.expected)
            &&& behind.max == reader.max
        }),
    decreases count,
{
    let records = records_read(reader, count);
    let consumed = frames(records);
    if count == 0 {
        assert(reader.rest.take(0) =~= consumed);
        assert(reader.rest.skip(0) =~= reader.rest);
    } else {
        let left = (count - 1) as nat;
        let next = read_step(reader).1;
        lemma_through_shift(reader, left);
        lemma_behind_shift(reader, left);
        lemma_step_moves(reader);
        lemma_step_expects(reader);
        law_accepted_record_is_its_frame(reader);
        law_reader_advances_record_by_record(next, left);
        let others = records_read(next, left);
        assert(reader_behind(reader, 0) == reader);
        assert(records.drop_first() =~= others) by {
            assert forall|k: int| 0 <= k < left implies records.drop_first()[k] == others[k] by {
                lemma_behind_shift(reader, k as nat);
            }
        }
        let first = frame(records[0]);
        let later = frames(others);
        assert(consumed == first + later);
        assert(reader.rest.take(consumed.len() as int) =~= first + next.rest.take(
            later.len() as int,
        ));
        assert(next.rest.skip(later.len() as int) =~= reader.rest.skip(consumed.len() as int));
        assert forall|i: int| 0 <= i < count implies (#[trigger] records[i]).sequence
            == reader.expected->0 + i by {
            lemma_consecutive_sequence(records, reader.expected, reader.max, i);
        }
    }
}

proof fn lemma_accepted_log(reader: ReaderView)
    ensures
        recovered(reader) matches Ok(records) ==> {
            &&& consecutive(records, reader.expected, reader.max)
            &&& reader.rest == frames(records)
        },
    decreases reader.rest.len(),
{
    lemma_step_consumes(reader);
    if let Ok(records) = recovered(reader) {
        if let Ok(Some(record)) = read_step(reader).0 {
            let next = read_step(reader).1;
            lemma_accepted_log(next);
            lemma_step_expects(reader);
            law_accepted_record_is_its_frame(reader);
            assert(next.max == reader.max) by {
                reveal(read_step);
            }
            let others = recovered(next)->Ok_0;
            assert(records.drop_first() =~= others);
            assert(reader.rest =~= frame(record) + next.rest);
        } else {
            assert(reader.rest =~= seq![]);
        }
    }
}

/// A log that is accepted consists of the frames of the records that it gives, and they are
/// numbered from one.
pub proof fn law_accepted_log_is_numbered_from_one(bytes: Seq<u8>, max: u32, grants: Seq<bool>)
    ensures
        recovered_with(reader_at_start(bytes, max), grants, 0) matches Ok(records) ==> {
            &&& bytes == frames(records)
            &&& consecutive(records, Some(1), max)
            &&& forall|i: int| 0 <= i < records.len() ==> (#[trigger] records[i]).sequence == i + 1
        },
{
    let reader = reader_at_start(bytes, max);
    law_scan_is_complete_or_refused_at_a_record(reader, grants, 0);
    lemma_accepted_log(reader);
    if let Ok(records) = recovered_with(reader, grants, 0) {
        assert forall|i: int| 0 <= i < records.len() implies (#[trigger] records[i]).sequence == i
            + 1 by {
            lemma_consecutive_sequence(records, Some(1), max, i);
        }
    }
}

} // verus!
