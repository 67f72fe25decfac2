//! Log records.

use crate::digest;
use crate::error::{RecordCorruption, StorageError};
use crate::layout;
use crate::record::frame;
use crate::record::frame::{ReaderView, RecordView};
use crate::record::{
    ReadEvent, ReadStep, Record, RecordCursor, RecordHeader, RecordLimits, RecordReader,
    RecordSequence,
};
use crate::wire::model;
use vstd::prelude::*;

verus! {

/// The bytes are the complete encoding of a record: a header with the total length, the payload
/// length, the position and the timestamp; the payload; zeros up to a multiple of eight; and
/// the first half of the BLAKE3 hash of everything in front of it.
#[verifier::opaque]
pub open spec fn is_frame(bytes: Seq<u8>, record: RecordView) -> bool {
    let len = record.payload.len() as int;
    let end = bytes.len() - 16;
    let bits = if record.timestamp >= 0 {
        record.timestamp as int
    } else {
        record.timestamp + 0x1_0000_0000_0000_0000
    };
    &&& bytes.len() % 8 == 0
    &&& 48 + len <= bytes.len() < 56 + len
    &&& bytes.subrange(0, 4) == seq![0x50u8, 0x44, 0x42, 0x57]
    &&& bytes[4] == 1
    &&& bytes[5] == 0
    &&& bytes.subrange(6, 8) == model::le(32, 2)
    &&& bytes.subrange(8, 12) == model::le(bytes.len(), 4)
    &&& bytes.subrange(12, 16) == model::le(len as nat, 4)
    &&& bytes.subrange(16, 24) == model::le(record.sequence as nat, 8)
    &&& bytes.subrange(24, 32) == model::le(bits as nat, 8)
    &&& bytes.subrange(32, 32 + len) == record.payload
    &&& forall|i: int| 32 + len <= i < end ==> (#[trigger] bytes[i]) == 0
    &&& forall|i: int|
        0 <= i < 16 ==> (#[trigger] bytes[end + i]) == digest::blake3_hash(bytes.take(end))[i]
}

/// The model of framing lays records out like this.
pub proof fn law_frames_are_laid_out(record: RecordView, bytes: Seq<u8>)
    ensures
        is_frame(bytes, record) <==> bytes == frame::frame(record),
{
    broadcast use model::lemma_le_len;

    reveal(is_frame);
    let len = record.payload.len() as int;
    let framed = frame::frame(record);
    let signed = frame::signed_bytes(record);
    let header = frame::header_bytes(record);
    let total = frame::framed_len(record.payload.len()) as int;
    let end = total - 16;
    assert(header.len() == 32);
    assert(framed.len() == total);
    assert(framed.take(end) =~= signed);
    assert(framed.subrange(0, 4) =~= seq![0x50u8, 0x44, 0x42, 0x57]);
    assert(framed[4] == 1 && framed[5] == 0);
    assert(framed.subrange(6, 8) =~= model::le(32, 2));
    assert(framed.subrange(8, 12) =~= model::le(total as nat, 4));
    assert(framed.subrange(12, 16) =~= model::le(len as nat, 4));
    assert(framed.subrange(16, 24) =~= model::le(record.sequence as nat, 8));
    assert(framed.subrange(24, 32) =~= model::le(model::i64_bits(record.timestamp), 8));
    assert(framed.subrange(32, 32 + len) =~= record.payload);
    assert forall|i: int| 0 <= i < 16 implies (#[trigger] framed[end + i]) == digest::blake3_hash(
        framed.take(end),
    )[i] by {
        assert(framed[end + i] == digest::short_hash(signed)[i]);
    }
    assert(is_frame(framed, record));
    if is_frame(bytes, record) {
        assert(bytes.len() == total);
        assert(bytes.take(end) =~= signed) by {
            assert forall|i: int| 0 <= i < end implies bytes[i] == framed[i] by {
                if i < 4 {
                    assert(bytes.subrange(0, 4)[i] == framed.subrange(0, 4)[i]);
                } else if i < 6 {
                } else if i < 8 {
                    assert(bytes.subrange(6, 8)[i - 6] == framed.subrange(6, 8)[i - 6]);
                } else if i < 12 {
                    assert(bytes.subrange(8, 12)[i - 8] == framed.subrange(8, 12)[i - 8]);
                } else if i < 16 {
                    assert(bytes.subrange(12, 16)[i - 12] == framed.subrange(12, 16)[i - 12]);
                } else if i < 24 {
                    assert(bytes.subrange(16, 24)[i - 16] == framed.subrange(16, 24)[i - 16]);
                } else if i < 32 {
                    assert(bytes.subrange(24, 32)[i - 24] == framed.subrange(24, 32)[i - 24]);
                } else if i < 32 + len {
                    assert(bytes.subrange(32, 32 + len)[i - 32] == framed.subrange(32, 32 + len)[i
                        - 32]);
                }
            }
        }
        assert forall|i: int| 0 <= i < total implies bytes[i] == framed[i] by {
            if i < end {
                assert(bytes.take(end)[i] == signed[i]);
            } else {
                let k = i - end;
                assert(bytes[end + k] == digest::blake3_hash(bytes.take(end))[k]);
                assert(framed[end + k] == digest::blake3_hash(framed.take(end))[k]);
            }
        }
        assert(bytes =~= framed);
    }
}

/// Why a payload of `len` bytes cannot be framed: `total` is the next multiple of eight that
/// leaves room for 48 bytes around it.
pub open spec fn length_fault(len: int, total: int, max: u32) -> Option<StorageError> {
    if len > 0xffff_ffff {
        Some(StorageError::InvalidLength { field: "record payload", length: len as u64 })
    } else if total > 0xffff_fff8 {
        Some(StorageError::InvalidLength { field: "WAL record", length: (len + 48) as u64 })
    } else if total > max {
        Some(StorageError::RecordTooLarge { offset: 0, length: total as u64, max })
    } else {
        None
    }
}

/// A payload is refused for its length exactly if its record exceeds the format or the limit.
pub proof fn law_only_records_over_the_limit_are_refused(len: nat, total: int, max: u32)
    requires
        total % 8 == 0,
        48 + len <= total < 56 + len,
    ensures
        frame::framed_len(len) == total,
        frame::frame_fault(len, max) == length_fault(len as int, total, max),
        frame::frame_fault(len, max) is None <==> total <= max && total <= 0xffff_fff8,
{
}

/// The length of a record is the next multiple of eight that leaves room for 48 bytes.
pub proof fn law_encoded_len(
    payload_len: usize,
    limits: RecordLimits,
    total: int,
    out: Result<u32, StorageError>,
)
    requires
        call_ensures(crate::record::encoded_len, (payload_len, limits), out),
        total % 8 == 0,
        48 + payload_len <= total < 56 + payload_len,
    ensures
        match length_fault(payload_len as int, total, limits@) {
            None => out matches Ok(len) && len == total,
            Some(error) => out == Err::<u32, StorageError>(error),
        },
{
}

/// Padding is the smallest number of bytes that aligns a payload to eight.
pub proof fn law_padding_aligns(payload_len: u32, out: usize)
    requires
        call_ensures(crate::record::padding_len, (payload_len,), out),
    ensures
        out < 8,
        (payload_len + out) % 8 == 0,
{
}

/// Encoding gives the frame of the record, or refuses it for its length, or reports that memory
/// for the frame cannot be had.
pub proof fn law_encode_frames_the_record(
    record: &Record,
    limits: RecordLimits,
    total: int,
    out: Result<Vec<u8>, StorageError>,
)
    requires
        call_ensures(crate::record::encode, (record, limits), out),
        total % 8 == 0,
        48 + record@.payload.len() <= total < 56 + record@.payload.len(),
    ensures
        match out {
            Ok(bytes) => is_frame(bytes@, record@) && bytes@.len() == total && total <= limits@,
            Err(error) => match length_fault(record@.payload.len() as int, total, limits@) {
                Some(fault) => error == fault,
                None => error == (StorageError::InvalidLength {
                    field: "WAL record allocation",
                    length: total as u64,
                }),
            },
        },
{
    law_only_records_over_the_limit_are_refused(record@.payload.len(), total, limits@);
    if let Ok(bytes) = out {
        law_frames_are_laid_out(record@, bytes@);
        frame::lemma_frame_len(record@);
    }
}

/// Appending a record appends its frame, or leaves the buffer alone.
pub proof fn law_encode_into_appends_the_frame(
    record: &Record,
    limits: RecordLimits,
    destination: &mut Vec<u8>,
    total: int,
    out: Result<(), StorageError>,
)
    requires
        call_ensures(crate::record::encode_into, (record, limits, destination), out),
        total % 8 == 0,
        48 + record@.payload.len() <= total < 56 + record@.payload.len(),
    ensures
        match out {
            Ok(_) => {
                let start = old(destination)@.len() as int;
                &&& total <= limits@
                &&& final(destination)@.len() == start + total
                &&& final(destination)@.take(start) == old(destination)@
                &&& is_frame(final(destination)@.skip(start), record@)
            },
            Err(error) => {
                &&& final(destination)@ == old(destination)@
                &&& match length_fault(record@.payload.len() as int, total, limits@) {
                    Some(fault) => error == fault,
                    None => error == (StorageError::InvalidLength {
                        field: "WAL record allocation",
                        length: total as u64,
                    }),
                }
            },
        },
{
    law_only_records_over_the_limit_are_refused(record@.payload.len(), total, limits@);
    if out is Ok {
        let start = old(destination)@.len() as int;
        let bytes = frame::frame(record@);
        frame::lemma_frame_len(record@);
        law_frames_are_laid_out(record@, bytes);
        assert(final(destination)@.take(start) =~= old(destination)@);
        assert(final(destination)@.skip(start) =~= bytes);
    }
}

/// A record holds what it was made of.
pub proof fn law_records_keep_their_parts(
    sequence: RecordSequence,
    timestamp: i64,
    payload: Vec<u8>,
    record: Record,
    bytes: &[u8],
    position: RecordSequence,
    stamp: i64,
)
    requires
        call_ensures(Record::new, (sequence, timestamp, payload), record),
        call_ensures(Record::payload, (&record,), bytes),
        call_ensures(Record::record_sequence, (&record,), position),
        call_ensures(Record::timestamp, (&record,), stamp),
    ensures
        bytes@ == payload@,
        position@ == sequence@,
        stamp == timestamp,
        record@ == (RecordView { sequence: sequence@, timestamp, payload: payload@ }),
{
}

/// Positions are the numbers from one on, each followed by its successor.
pub proof fn law_positions_count_up(
    value: u64,
    made: Option<RecordSequence>,
    sequence: RecordSequence,
    next: Option<RecordSequence>,
    first: RecordSequence,
    number: u64,
)
    requires
        call_ensures(RecordSequence::new, (value,), made),
        call_ensures(RecordSequence::next, (sequence,), next),
        call_ensures(RecordSequence::first, (), first),
        call_ensures(RecordSequence::get, (sequence,), number),
    ensures
        made is None <==> value == 0,
        made matches Some(position) ==> position@ == value,
        next is None <==> sequence@ == u64::MAX,
        next matches Some(position) ==> position@ == sequence@ + 1,
        first@ == 1,
        number == sequence@,
{
}

/// The successor of a position, as the models count it.
pub proof fn law_next_sequence(sequence: u64)
    ensures
        frame::next_sequence(sequence) is None <==> sequence == u64::MAX,
        frame::next_sequence(sequence) matches Some(next) ==> next == sequence + 1,
{
}

/// Limits are multiples of eight from the smallest record to the largest that can be written.
pub proof fn law_record_limits(max: u32, out: Result<RecordLimits, StorageError>, read: u32)
    requires
        call_ensures(RecordLimits::new, (max,), out),
        out matches Ok(limits) ==> call_ensures(RecordLimits::max_record_len, (limits,), read),
    ensures
        match out {
            Ok(limits) => 48 <= max <= 0xffff_fff8 && max % 8 == 0 && read == max && limits@ == max,
            Err(error) => !(48 <= max <= 0xffff_fff8 && max % 8 == 0) && error
                == StorageError::InvalidRecordLimit(max as u64),
        },
{
}

/// What a header says, or the first thing that is wrong with it.
pub open spec fn header_verdict(
    header: Seq<u8>,
    offset: u64,
    max: u32,
    expected: Option<u64>,
    out: Result<frame::HeaderView, StorageError>,
) -> bool {
    let header_len = model::un_le(header.subrange(6, 8));
    let record_len = model::un_le(header.subrange(8, 12));
    let payload_len = model::un_le(header.subrange(12, 16));
    let sequence = model::un_le(header.subrange(16, 24));
    let stamp = model::un_le(header.subrange(24, 32));
    match out {
        Ok(fields) => {
            &&& header.subrange(0, 4) == seq![0x50u8, 0x44, 0x42, 0x57]
            &&& header[4] == 1
            &&& header[5] == 0
            &&& header_len == 32
            &&& fields.record_len == record_len
            &&& fields.payload_len == payload_len
            &&& fields.sequence == sequence
            &&& fields.timestamp == if stamp < 0x8000_0000_0000_0000 {
                stamp as int
            } else {
                stamp - 0x1_0000_0000_0000_0000
            }
            &&& record_len % 8 == 0
            &&& 48 + payload_len <= record_len < 56 + payload_len
            &&& record_len <= max
            &&& record_len <= 0xffff_fff8
            &&& sequence != 0
            &&& expected == Some(sequence as u64)
        },
        Err(StorageError::UnsupportedRecordVersion { offset: at, version }) => {
            &&& at == offset
            &&& header.subrange(0, 4) == seq![0x50u8, 0x44, 0x42, 0x57]
            &&& version == header[4] && version != 1
        },
        Err(StorageError::RecordTooLarge { offset: at, length, max: limit }) => {
            &&& at == offset
            &&& header.subrange(0, 4) == seq![0x50u8, 0x44, 0x42, 0x57]
            &&& header[4] == 1
            &&& header[5] == 0
            &&& header_len == 32
            &&& length == record_len
            &&& limit == max
            &&& 48 <= record_len <= 0xffff_fff8
            &&& record_len % 8 == 0
            &&& record_len > max
        },
        Err(StorageError::CorruptWalRecord { offset: at, reason }) => {
            &&& at == offset
            &&& match reason {
                RecordCorruption::InvalidMagic(found) => {
                    &&& header.subrange(0, 4) != seq![0x50u8, 0x44, 0x42, 0x57]
                    &&& found@ == header.subrange(0, 4)
                },
                RecordCorruption::UnsupportedFlags(flags) => {
                    &&& header[4] == 1
                    &&& flags == header[5] && flags != 0
                },
                RecordCorruption::InvalidHeaderLength(found) => {
                    &&& header[5] == 0
                    &&& found == header_len && found != 32
                },
                RecordCorruption::InvalidRecordLength(found) => {
                    &&& header_len == 32
                    &&& found == record_len
                    &&& record_len < 48 || record_len > 0xffff_fff8 || record_len % 8 != 0
                },
                RecordCorruption::InvalidPayloadLength { record_len: total, payload_len: len } => {
                    &&& total == record_len
                    &&& len == payload_len
                    &&& 48 <= record_len <= max
                    &&& record_len % 8 == 0
                    &&& !(48 + payload_len <= record_len < 56 + payload_len)
                },
                RecordCorruption::InvalidSequence(found) => {
                    &&& 48 + payload_len <= record_len < 56 + payload_len
                    &&& found == sequence == 0
                },
                RecordCorruption::SequenceOverflow => {
                    &&& 48 + payload_len <= record_len < 56 + payload_len
                    &&& sequence != 0
                    &&& expected is None
                },
                RecordCorruption::SequenceMismatch { expected: wanted, actual } => {
                    &&& 48 + payload_len <= record_len < 56 + payload_len
                    &&& sequence != 0
                    &&& actual == sequence
                    &&& expected == Some(wanted)
                    &&& wanted != actual
                },
                _ => false,
            }
        },
        Err(_) => false,
    }
}

/// A header is accepted, or refused for the first thing that is wrong with it.
pub proof fn law_headers_are_judged(
    header: Seq<u8>,
    offset: u64,
    max: u32,
    expected: Option<u64>,
)
    requires
        header.len() == 32,
    ensures
        header_verdict(
            header,
            offset,
            max,
            expected,
            frame::read_header(header, offset, max, expected),
        ),
{
    model::lemma_spans();
    model::lemma_le_of_un_le(header.subrange(6, 8));
    model::lemma_le_of_un_le(header.subrange(8, 12));
    model::lemma_le_of_un_le(header.subrange(12, 16));
    model::lemma_le_of_un_le(header.subrange(16, 24));
    model::lemma_le_of_un_le(header.subrange(24, 32));
    assert(frame::preamble().subrange(0, 4) =~= seq![0x50u8, 0x44, 0x42, 0x57]);
    assert(layout::first_four(header)@ =~= header.subrange(0, 4));
    let payload_len = model::un_le(header.subrange(12, 16));
    let record_len = model::un_le(header.subrange(8, 12));
    assert(record_len % 8 == 0 ==> (frame::framed_len(payload_len) == record_len <==> 48
        + payload_len <= record_len < 56 + payload_len));
}

/// Parsing a header judges it.
pub proof fn law_parse_header(
    header: &[u8],
    offset: u64,
    limits: RecordLimits,
    expected: Option<RecordSequence>,
    out: Result<RecordHeader, StorageError>,
)
    requires
        header@.len() == 32,
        call_ensures(crate::record::parse_header, (header, offset, limits, expected), out),
    ensures
        header_verdict(
            header@,
            offset,
            limits@,
            match expected {
                Some(sequence) => Some(sequence@),
                None => None,
            },
            match out {
                Ok(fields) => Ok(fields@),
                Err(error) => Err(error),
            },
        ),
{
    law_headers_are_judged(
        header@,
        offset,
        limits@,
        match expected {
            Some(sequence) => Some(sequence@),
            None => None,
        },
    );
}

/// What the bytes behind a header say, or the first thing that is wrong with them.
pub open spec fn body_verdict(
    header: Seq<u8>,
    fields: frame::HeaderView,
    body: Seq<u8>,
    offset: u64,
    out: Result<RecordView, StorageError>,
) -> bool {
    let len = fields.payload_len as int;
    let end = fields.record_len - 48;
    let hash = digest::blake3_hash(header + body.take(end));
    match out {
        Ok(record) => {
            &&& body.len() == fields.record_len - 32
            &&& record.payload == body.take(len)
            &&& record.sequence == fields.sequence
            &&& record.timestamp == fields.timestamp
            &&& forall|i: int| len <= i < end ==> (#[trigger] body[i]) == 0
            &&& forall|i: int| 0 <= i < 16 ==> (#[trigger] body[end + i]) == hash[i]
        },
        Err(StorageError::PartialTail { offset: at, expected, actual }) => {
            &&& at == offset
            &&& expected == fields.record_len
            &&& actual == 32 + body.len()
            &&& body.len() != fields.record_len - 32
        },
        Err(StorageError::CorruptWalRecord { offset: at, reason }) => {
            &&& at == offset
            &&& body.len() == fields.record_len - 32
            &&& match reason {
                RecordCorruption::NonZeroPadding { index, value } => {
                    &&& len + index < end
                    &&& value == body[len + index] && value != 0
                    &&& forall|i: int| len <= i < len + index ==> (#[trigger] body[i]) == 0
                },
                RecordCorruption::ChecksumMismatch => {
                    &&& forall|i: int| len <= i < end ==> (#[trigger] body[i]) == 0
                    &&& exists|i: int| 0 <= i < 16 && (#[trigger] body[end + i]) != hash[i]
                },
                _ => false,
            }
        },
        Err(_) => false,
    }
}

/// The first byte that is not zero.
proof fn lemma_nonzero(bytes: Seq<u8>, from: int)
    requires
        0 <= from,
    ensures
        match frame::nonzero_from(bytes, from) {
            Some(index) => {
                &&& from <= index < bytes.len()
                &&& bytes[index] != 0
                &&& forall|i: int| from <= i < index ==> (#[trigger] bytes[i]) == 0
            },
            None => forall|i: int| from <= i < bytes.len() ==> (#[trigger] bytes[i]) == 0,
        },
    decreases bytes.len() - from,
{
    if from < bytes.len() && bytes[from] == 0 {
        lemma_nonzero(bytes, from + 1);
    }
}

/// A body is accepted, or refused for the first thing that is wrong with it.
pub proof fn law_bodies_are_judged(
    header: Seq<u8>,
    fields: frame::HeaderView,
    body: Seq<u8>,
    offset: u64,
)
    requires
        fields.record_len % 8 == 0,
        48 + fields.payload_len <= fields.record_len < 56 + fields.payload_len,
        body.len() <= fields.record_len - 32,
    ensures
        body_verdict(header, fields, body, offset, frame::read_body(header, fields, body, offset)),
{
    let len = fields.payload_len as int;
    let end = fields.record_len - 48;
    assert(len + frame::padding(fields.payload_len as nat) == end);
    if body.len() == fields.record_len - 32 {
        let pad = body.subrange(len, end);
        lemma_nonzero(pad, 0);
        let stored = body.subrange(end, body.len() as int);
        let hash = digest::short_hash(header + body.take(end));
        match frame::nonzero_from(pad, 0) {
            Some(index) => {
                assert(body[len + index] == pad[index]);
                assert forall|i: int| len <= i < len + index implies (#[trigger] body[i]) == 0 by {
                    assert(pad[i - len] == body[i]);
                }
            },
            None => {
                assert forall|i: int| len <= i < end implies (#[trigger] body[i]) == 0 by {
                    assert(pad[i - len] == body[i]);
                }
                if stored == hash {
                    assert forall|i: int| 0 <= i < 16 implies (#[trigger] body[end + i])
                        == digest::blake3_hash(header + body.take(end))[i] by {
                        assert(stored[i] == hash[i]);
                    }
                } else {
                    assert(exists|i: int| 0 <= i < 16 && stored[i] != hash[i]) by {
                        if forall|i: int| 0 <= i < 16 ==> stored[i] == hash[i] {
                            assert(stored =~= hash);
                        }
                    }
                    let i = choose|i: int| 0 <= i < 16 && stored[i] != hash[i];
                    assert(body[end + i] != digest::blake3_hash(header + body.take(end))[i]);
                }
            },
        }
    }
}

/// Parsing a body judges it.
pub proof fn law_parse_body(
    header: &[u8],
    fields: &RecordHeader,
    body: Vec<u8>,
    offset: u64,
    out: Result<Record, StorageError>,
)
    requires
        header@.len() == 32,
        fields@.record_len % 8 == 0,
        48 + fields@.payload_len <= fields@.record_len < 56 + fields@.payload_len,
        body@.len() <= fields@.record_len - 32,
        call_ensures(crate::record::parse_body, (header, fields, body, offset), out),
    ensures
        body_verdict(
            header@,
            fields@,
            body@,
            offset,
            match out {
                Ok(record) => Ok(record@),
                Err(error) => Err(error),
            },
        ),
{
    law_bodies_are_judged(header@, fields@, body@, offset);
}

/// A cursor takes no bytes for the end, fewer than a header for a cut record, and judges a
/// complete header.
pub proof fn law_cursor_header(
    cursor: &RecordCursor,
    header: &[u8],
    out: Result<Option<RecordHeader>, StorageError>,
)
    requires
        header@.len() <= 32,
        call_ensures(RecordCursor::header, (cursor, header), out),
    ensures
        out matches Ok(None) <==> header@.len() == 0,
        0 < header@.len() < 32 ==> out == Err::<Option<RecordHeader>, StorageError>(
            StorageError::PartialTail {
                offset: cursor.at(),
                expected: 32,
                actual: header@.len() as u64,
            },
        ),
        header@.len() == 32 ==> header_verdict(
            header@,
            cursor.at(),
            cursor.max(),
            cursor.expected(),
            match out {
                Ok(Some(fields)) => Ok(fields@),
                Ok(None) => Err(StorageError::InvalidUtf8),
                Err(error) => Err(error),
            },
        ),
{
    if header@.len() == 32 {
        law_headers_are_judged(header@, cursor.at(), cursor.max(), cursor.expected());
    }
}

/// A cursor moves behind a record that is accepted, and nowhere else.
pub proof fn law_cursor_body(
    cursor: &mut RecordCursor,
    header: &[u8],
    fields: &RecordHeader,
    body: Vec<u8>,
    out: Result<Record, StorageError>,
)
    requires
        header@.len() == 32,
        fields@.record_len % 8 == 0,
        48 + fields@.payload_len <= fields@.record_len < 56 + fields@.payload_len,
        body@.len() <= fields@.record_len - 32,
        old(cursor).at() + fields@.record_len <= u64::MAX,
        call_ensures(RecordCursor::body, (cursor, header, fields, body), out),
    ensures
        body_verdict(
            header@,
            fields@,
            body@,
            old(cursor).at(),
            match out {
                Ok(record) => Ok(record@),
                Err(error) => Err(error),
            },
        ),
        final(cursor).max() == old(cursor).max(),
        out is Ok ==> final(cursor).at() == old(cursor).at() + fields@.record_len,
        out is Ok && fields@.sequence < u64::MAX ==> final(cursor).expected() == Some(
            (fields@.sequence + 1) as u64,
        ),
        out is Ok && fields@.sequence == u64::MAX ==> final(cursor).expected() is None,
        out is Err ==> final(cursor).at() == old(cursor).at() && final(cursor).expected() == old(
            cursor,
        ).expected(),
{
    law_bodies_are_judged(header@, fields@, body@, old(cursor).at());
}

/// What reading one record means: nothing is there, or a complete frame of the expected record
/// within the limit stands there and the reader moves behind it, or the first thing that is wrong
/// is reported.
pub open spec fn step_verdict(
    before: ReaderView,
    after: ReaderView,
    granted: bool,
    out: Result<Option<RecordView>, StorageError>,
) -> bool {
    let rest = before.rest;
    let header = rest.take(32);
    let record_len = model::un_le(rest.subrange(8, 12));
    if rest.len() == 0 {
        out == Ok::<Option<RecordView>, StorageError>(None) && after == before
    } else if rest.len() < 32 {
        out == Err::<Option<RecordView>, StorageError>(
            StorageError::PartialTail {
                offset: before.offset,
                expected: 32,
                actual: rest.len() as u64,
            },
        )
    } else {
        match out {
            Ok(None) => false,
            Ok(Some(record)) => {
                &&& granted
                &&& record_len <= rest.len()
                &&& record_len <= before.max
                &&& is_frame(rest.take(record_len as int), record)
                &&& record.sequence != 0
                &&& before.expected == Some(record.sequence)
                &&& after.rest == rest.skip(record_len as int)
                &&& after.offset == before.offset + record_len
                &&& after.max == before.max
                &&& record.sequence < u64::MAX ==> after.expected == Some(
                    (record.sequence + 1) as u64,
                )
                &&& record.sequence == u64::MAX ==> after.expected is None
            },
            Err(error) => {
                ||| header_verdict(header, before.offset, before.max, before.expected, Err(error))
                ||| exists|fields: frame::HeaderView| #[trigger]
                    refused_body(before, header, fields, granted, error)
            },
        }
    }
}

/// The header is accepted, and the rest of the record is not: for memory, because it is cut
/// off, or for what it holds.
pub open spec fn refused_body(
    before: ReaderView,
    header: Seq<u8>,
    fields: frame::HeaderView,
    granted: bool,
    error: StorageError,
) -> bool {
    let left = before.rest.skip(32);
    &&& header_verdict(header, before.offset, before.max, before.expected, Ok(fields))
    &&& if !granted {
        error == (StorageError::InvalidLength {
            field: "WAL record allocation",
            length: fields.record_len as u64,
        })
    } else if left.len() < fields.record_len - 32 {
        error == (StorageError::PartialTail {
            offset: before.offset,
            expected: fields.record_len as u64,
            actual: before.rest.len() as u64,
        })
    } else {
        body_verdict(header, fields, left.take(fields.record_len - 32), before.offset, Err(error))
    }
}

/// The model of reading gives these verdicts.
pub proof fn law_steps_are_judged(reader: ReaderView, granted: bool)
    requires
        reader.wf(),
    ensures
        step_verdict(
            reader,
            frame::read_step_with(reader, granted).1,
            granted,
            frame::read_step_with(reader, granted).0,
        ),
{
    reveal(frame::read_step);
    reveal(frame::asked);
    let (out, after) = frame::read_step_with(reader, granted);
    let rest = reader.rest;
    if rest.len() >= 32 {
        let header = rest.take(32);
        law_headers_are_judged(header, reader.offset, reader.max, reader.expected);
        assert(header.subrange(8, 12) =~= rest.subrange(8, 12));
        match frame::read_header(header, reader.offset, reader.max, reader.expected) {
            Err(error) => {},
            Ok(fields) => {
                let left = rest.skip(32);
                let body = frame::front(left, (fields.record_len - 32) as nat);
                law_bodies_are_judged(header, fields, body, reader.offset);
                if !granted {
                    assert(refused_body(reader, header, fields, granted, out->Err_0));
                } else if let Err(error) = out {
                    if left.len() >= fields.record_len - 32 {
                        assert(body =~= left.take(fields.record_len - 32));
                    }
                    assert(refused_body(reader, header, fields, granted, error));
                } else {
                    let record = out->Ok_0->0;
                    frame::law_accepted_record_is_its_frame(reader);
                    frame::lemma_frame_len(record);
                    let len = fields.record_len as int;
                    law_frames_are_laid_out(record, rest.take(len));
                    assert(body.len() == len - 32);
                    assert(record.payload.len() == fields.payload_len);
                    assert(frame::frame(record).len() == len);
                }
            },
        }
    }
}

/// Reading a record gives these verdicts.
pub proof fn law_read_next_granted<'a>(
    reader: &mut RecordReader<'a>,
    granted: bool,
    out: Result<Option<Record>, StorageError>,
)
    requires
        old(reader)@.offset + old(reader)@.rest.len() <= u64::MAX,
        call_ensures(RecordReader::<'a>::read_next_granted, (reader, granted), out),
    ensures
        step_verdict(
            old(reader)@,
            final(reader)@,
            granted,
            match out {
                Ok(Some(record)) => Ok(Some(record@)),
                Ok(None) => Ok(None),
                Err(error) => Err(error),
            },
        ),
{
    law_steps_are_judged(old(reader)@, granted);
}

/// Reading a record gives one of these verdicts, whether memory is granted or refused.
pub proof fn law_read_next<'a>(
    reader: &mut RecordReader<'a>,
    out: Result<Option<Record>, StorageError>,
)
    requires
        old(reader)@.offset + old(reader)@.rest.len() <= u64::MAX,
        call_ensures(RecordReader::<'a>::read_next, (reader,), out),
    ensures
        ({
            let seen = match out {
                Ok(Some(record)) => Ok(Some(record@)),
                Ok(None) => Ok(None),
                Err(error) => Err(error),
            };
            step_verdict(old(reader)@, final(reader)@, true, seen) || step_verdict(
                old(reader)@,
                final(reader)@,
                false,
                seen,
            )
        }),
{
    law_steps_are_judged(old(reader)@, true);
    law_steps_are_judged(old(reader)@, false);
}

/// A frame of the expected record within the limit is read, whatever follows it.
pub proof fn law_a_frame_is_read<'a>(
    reader: &mut RecordReader<'a>,
    record: RecordView,
    len: int,
    out: Result<Option<Record>, StorageError>,
)
    requires
        call_ensures(RecordReader::<'a>::read_next_granted, (reader, true), out),
        old(reader)@.offset + old(reader)@.rest.len() <= u64::MAX,
        0 <= len <= old(reader)@.rest.len(),
        is_frame(old(reader)@.rest.take(len), record),
        record.sequence != 0,
        old(reader)@.expected == Some(record.sequence),
        len <= old(reader)@.max,
        len <= 0xffff_fff8,
    ensures
        out matches Ok(Some(read)) && read@ == record,
        final(reader)@.rest == old(reader)@.rest.skip(len),
        final(reader)@.offset == old(reader)@.offset + len,
{
    let rest = old(reader)@.rest;
    law_frames_are_laid_out(record, rest.take(len));
    assert(len % 8 == 0 && 48 + record.payload.len() <= len < 56 + record.payload.len()) by {
        reveal(is_frame);
    }
    law_only_records_over_the_limit_are_refused(record.payload.len(), len, old(reader)@.max);
    assert(rest =~= frame::frame(record) + rest.skip(len));
    frame::law_record_round_trip(
        record,
        rest.skip(len),
        old(reader)@.offset,
        old(reader)@.max,
    );
    assert(old(reader)@ == (ReaderView {
        rest: frame::frame(record) + rest.skip(len),
        offset: old(reader)@.offset,
        expected: Some(record.sequence),
        max: old(reader)@.max,
    }));
}

/// A reader starts at the beginning of the bytes and expects the first position, or the given
/// one, or none.
pub proof fn law_readers_start<'a>(
    source: &'a [u8],
    limits: RecordLimits,
    sequence: RecordSequence,
    none: Option<RecordSequence>,
    fresh: RecordReader<'a>,
    later: RecordReader<'a>,
    resumed: RecordReader<'a>,
)
    requires
        call_ensures(RecordReader::<'a>::new, (source, limits), fresh),
        call_ensures(
            RecordReader::<'a>::with_expected_sequence,
            (source, limits, sequence),
            later,
        ),
        call_ensures(RecordReader::<'a>::resume, (source, limits, none), resumed),
    ensures
        fresh@ == (ReaderView {
            rest: source@,
            offset: 0,
            expected: Some(1u64),
            max: limits@,
        }),
        later@ == (ReaderView {
            rest: source@,
            offset: 0,
            expected: Some(sequence@),
            max: limits@,
        }),
        resumed@ == (ReaderView {
            rest: source@,
            offset: 0,
            expected: match none {
                Some(sequence) => Some(sequence@),
                None => None,
            },
            max: limits@,
        }),
{
}

/// Reading goes on until the buffer is full or the input has ended. An interruption changes
/// nothing, and a failure ends it.
pub proof fn law_reading_goes_on(filled: usize, wanted: usize, event: ReadEvent, out: ReadStep)
    requires
        filled < wanted,
        event matches ReadEvent::Count(count) ==> count <= wanted - filled,
        call_ensures(crate::record::next_read, (filled, wanted, event), out),
    ensures
        match event {
            ReadEvent::Count(count) => {
                &&& count == 0 ==> out == ReadStep::Done(filled)
                &&& filled + count == wanted ==> out == ReadStep::Done(wanted)
                &&& 0 < count < wanted - filled ==> out == ReadStep::Again((filled + count) as usize)
            },
            ReadEvent::Interrupted => out == ReadStep::Again(filled),
            ReadEvent::EndOfInput => out == ReadStep::Done(filled),
            ReadEvent::Failed { kind, message } => out == ReadStep::Fail(
                StorageError::Io { kind, message },
            ),
        },
{
}

/// What records, headers, cursors and readers show.
pub proof fn law_what_readers_show<'a>(
    record: Record,
    payload: Vec<u8>,
    fields: &RecordHeader,
    behind: usize,
    refusal: StorageError,
    limits: RecordLimits,
    expected: Option<RecordSequence>,
    cursor: RecordCursor,
    cursor_offset: u64,
    cursor_expected: Option<RecordSequence>,
    reader: RecordReader<'a>,
    reader_offset: u64,
    reader_expected: Option<RecordSequence>,
    rest: &'a [u8],
    defaults: RecordLimits,
)
    requires
        fields@.record_len >= 48,
        call_ensures(Record::into_payload, (record,), payload),
        call_ensures(RecordHeader::body_len, (fields,), behind),
        call_ensures(RecordHeader::refused, (fields,), refusal),
        call_ensures(RecordCursor::new, (limits, expected), cursor),
        call_ensures(RecordCursor::offset, (&cursor,), cursor_offset),
        call_ensures(RecordCursor::expected_sequence, (&cursor,), cursor_expected),
        call_ensures(RecordReader::<'a>::offset, (&reader,), reader_offset),
        call_ensures(RecordReader::<'a>::expected_sequence, (&reader,), reader_expected),
        call_ensures(RecordReader::<'a>::into_inner, (reader,), rest),
        call_ensures(<RecordLimits as Default>::default, (), defaults),
    ensures
        payload@ == record@.payload,
        behind == fields@.record_len - 32,
        refusal == (StorageError::InvalidLength {
            field: "WAL record allocation",
            length: fields@.record_len as u64,
        }),
        cursor.max() == limits@,
        cursor.at() == 0,
        cursor_offset == 0,
        cursor_expected is None <==> expected is None,
        cursor_expected matches Some(sequence) ==> sequence@ == expected->0@,
        expected is None ==> cursor.expected() is None,
        expected matches Some(sequence) ==> cursor.expected() == Some(sequence@),
        reader_offset == reader@.offset,
        reader_expected is None <==> reader@.expected is None,
        reader_expected matches Some(sequence) ==> reader@.expected == Some(sequence@),
        rest@ == reader@.rest,
        defaults@ == 0x0400_0000,
{
}

/// Encoding as if memory were granted or refused gives the frame or the refusal.
pub proof fn law_encode_granted(
    record: &Record,
    total: u32,
    buffer: Vec<u8>,
    granted: bool,
    out: Result<Vec<u8>, StorageError>,
)
    requires
        call_ensures(crate::record::encode_granted, (record, total, buffer, granted), out),
        total % 8 == 0,
        48 + record@.payload.len() <= total < 56 + record@.payload.len(),
    ensures
        granted ==> out is Ok,
        out matches Ok(bytes) ==> granted && is_frame(bytes@, record@),
        out matches Err(error) ==> error == (StorageError::InvalidLength {
            field: "WAL record allocation",
            length: total as u64,
        }),
{
    if let Ok(bytes) = out {
        law_frames_are_laid_out(record@, bytes@);
    }
}

} // verus!
