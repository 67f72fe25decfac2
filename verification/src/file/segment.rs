//! Headers of WAL segments.
//!
//! A segment starts with 48 bytes of fields followed by the first 16 bytes of their BLAKE3
//! hash. Records follow.

use crate::bytes::same_bytes;
use crate::digest;
use crate::digest::short_digest;
use crate::file::identity;
use crate::file::identity::DatabaseUuid;
use crate::layout;
use crate::layout::{get_field, get_four, is_zero, put_zeros, starts_with};
use crate::record::RecordSequence;
use crate::wire::model;
use crate::wire::writer::put_le;
use vstd::prelude::*;
use vstd::slice::*;

verus! {

/// Four-byte signature at the beginning of a segment, `PDBS`.
pub const SEGMENT_MAGIC: [u8; 4] = [0x50, 0x44, 0x42, 0x53];

/// Current segment format version.
pub const SEGMENT_VERSION: u8 = 1;

/// Serialized width of a segment header.
pub const SEGMENT_HEADER_LEN: u64 = 64;

/// Segment-header validation failure.
#[allow(inconsistent_fields)]
#[derive(Debug, Clone, PartialEq, Eq)]
pub enum SegmentHeaderError {
    /// The file is shorter than the fixed segment header.
    Truncated {
        /// Required fixed segment-header length.
        expected: u64,
        /// Physical bytes available in the segment file.
        actual: u64,
    },
    /// The segment magic is not `PDBS`.
    InvalidMagic([u8; 4]),
    /// The segment-header version is unsupported.
    UnsupportedVersion(u8),
    /// Version 1 flags are non-zero.
    UnsupportedFlags(u8),
    /// The encoded header length is not 64.
    InvalidHeaderLength(u16),
    /// The header database UUID differs from the manifest.
    DatabaseUuidMismatch {
        /// Durable database identity stored in the manifest.
        expected: DatabaseUuid,
        /// Database identity found in the segment header.
        actual: DatabaseUuid,
    },
    /// The first record sequence is zero.
    InvalidFirstSequence(u64),
    /// Reserved bytes are non-zero.
    NonZeroReserved,
    /// The segment-header checksum does not match.
    ChecksumMismatch,
}

/// The fields of the header of a segment.
pub open spec fn header_fields(uuid: Seq<u8>, first_sequence: u64) -> Seq<u8> {
    seq![0x50u8, 0x44, 0x42, 0x53, 1, 0] + model::le(64, 2) + uuid + model::le(
        first_sequence as nat,
        8,
    ) + layout::zeros(16)
}

/// The complete header of a segment.
pub open spec fn header_enc(uuid: Seq<u8>, first_sequence: u64) -> Seq<u8> {
    header_fields(uuid, first_sequence) + digest::short_hash(header_fields(uuid, first_sequence))
}

/// The first sequence of the segment of a database whose file starts with the given bytes.
pub open spec fn header_dec(bytes: Seq<u8>, uuid: DatabaseUuid) -> Result<u64, SegmentHeaderError> {
    let first_sequence = layout::field(bytes, 24, 32) as u64;
    if bytes.len() < 64 {
        Err(SegmentHeaderError::Truncated { expected: 64, actual: bytes.len() as u64 })
    } else if bytes.subrange(0, 4) != SEGMENT_MAGIC@ {
        Err(SegmentHeaderError::InvalidMagic(layout::first_four(bytes)))
    } else if bytes[4] != 1 {
        Err(SegmentHeaderError::UnsupportedVersion(bytes[4]))
    } else if bytes[5] != 0 {
        Err(SegmentHeaderError::UnsupportedFlags(bytes[5]))
    } else if layout::field(bytes, 6, 8) != 64 {
        Err(SegmentHeaderError::InvalidHeaderLength(layout::field(bytes, 6, 8) as u16))
    } else if !layout::all_zero(bytes.subrange(32, 48)) {
        Err(SegmentHeaderError::NonZeroReserved)
    } else if bytes.subrange(48, 64) != digest::short_hash(bytes.take(48)) {
        Err(SegmentHeaderError::ChecksumMismatch)
    } else if bytes.subrange(8, 24) != uuid@ {
        Err(
            SegmentHeaderError::DatabaseUuidMismatch {
                expected: uuid,
                actual: identity::identity_at(bytes, 8),
            },
        )
    } else if first_sequence == 0 {
        Err(SegmentHeaderError::InvalidFirstSequence(first_sequence))
    } else {
        Ok(first_sequence)
    }
}

pub proof fn lemma_header_layout(uuid: Seq<u8>, first_sequence: u64)
    requires
        uuid.len() == 16,
    ensures
        ({
            let fields = header_fields(uuid, first_sequence);
            &&& fields.len() == 48
            &&& fields.subrange(0, 6) == seq![0x50u8, 0x44, 0x42, 0x53, 1, 0]
            &&& fields.subrange(6, 8) == model::le(64, 2)
            &&& fields.subrange(8, 24) == uuid
            &&& fields.subrange(24, 32) == model::le(first_sequence as nat, 8)
            &&& fields.subrange(32, 48) == layout::zeros(16)
        }),
{
    broadcast use model::lemma_le_len;

    let fields = header_fields(uuid, first_sequence);
    assert(fields.subrange(0, 6) =~= seq![0x50u8, 0x44, 0x42, 0x53, 1, 0]);
    assert(fields.subrange(6, 8) =~= model::le(64, 2));
    assert(fields.subrange(8, 24) =~= uuid);
    assert(fields.subrange(24, 32) =~= model::le(first_sequence as nat, 8));
    assert(fields.subrange(32, 48) =~= layout::zeros(16));
}

/// The header of a segment is accepted by its own database, whatever follows it, and gives back
/// the first sequence.
pub proof fn law_segment_header_round_trip(
    uuid: DatabaseUuid,
    first_sequence: u64,
    records: Seq<u8>,
)
    requires
        first_sequence != 0,
    ensures
        header_dec(header_enc(uuid@, first_sequence) + records, uuid) == Ok::<
            u64,
            SegmentHeaderError,
        >(first_sequence),
{
    let fields = header_fields(uuid@, first_sequence);
    let bytes = header_enc(uuid@, first_sequence) + records;
    lemma_header_layout(uuid@, first_sequence);
    model::lemma_spans();
    assert(bytes.take(48) =~= fields);
    assert(bytes.subrange(48, 64) =~= digest::short_hash(fields));
    assert(bytes.subrange(0, 4) =~= SEGMENT_MAGIC@) by {
        assert forall|i: int| 0 <= i < 6 implies bytes[i] == fields.subrange(0, 6)[i] by {}
    }
    assert(bytes[4] == fields.subrange(0, 6)[4]);
    assert(bytes[5] == fields.subrange(0, 6)[5]);
    assert(bytes.subrange(6, 8) =~= fields.subrange(6, 8));
    assert(bytes.subrange(8, 24) =~= fields.subrange(8, 24));
    assert(bytes.subrange(24, 32) =~= fields.subrange(24, 32));
    assert(bytes.subrange(32, 48) =~= fields.subrange(32, 48));
    model::lemma_un_le_of_le(64, 2);
    model::lemma_un_le_of_le(first_sequence as nat, 8);
}

/// Only a file that starts with the header of a segment of the database is accepted.
pub proof fn law_segment_header_is_canonical(bytes: Seq<u8>, uuid: DatabaseUuid)
    ensures
        header_dec(bytes, uuid) matches Ok(first_sequence) ==> first_sequence != 0 && bytes.take(64)
            == header_enc(uuid@, first_sequence),
{
    if let Ok(first_sequence) = header_dec(bytes, uuid) {
        let fields = header_fields(uuid@, first_sequence);
        lemma_header_layout(uuid@, first_sequence);
        model::lemma_spans();
        model::lemma_le_of_un_le(bytes.subrange(6, 8));
        model::lemma_le_of_un_le(bytes.subrange(24, 32));
        layout::lemma_all_zero(bytes.subrange(32, 48));
        assert(bytes.subrange(0, 6) =~= fields.subrange(0, 6)) by {
            assert forall|i: int| 0 <= i < 4 implies bytes[i] == SEGMENT_MAGIC@[i] by {
                assert(bytes.subrange(0, 4)[i] == SEGMENT_MAGIC@[i]);
            }
        }
        assert(bytes.take(48) =~= bytes.subrange(0, 6) + bytes.subrange(6, 8) + bytes.subrange(
            8,
            24,
        ) + bytes.subrange(24, 32) + bytes.subrange(32, 48));
        assert(bytes.take(48) =~= fields);
        assert(bytes.take(64) =~= bytes.take(48) + bytes.subrange(48, 64));
    }
}

/// Encodes the header of a segment.
pub fn segment_header(database_uuid: DatabaseUuid, first_sequence: RecordSequence) -> (out: Vec<u8>)
    ensures
        out@ == header_enc(database_uuid@, first_sequence@),
        out@.len() == SEGMENT_HEADER_LEN,
{
    let mut bytes: Vec<u8> = Vec::new();
    bytes.push(SEGMENT_MAGIC[0]);
    bytes.push(SEGMENT_MAGIC[1]);
    bytes.push(SEGMENT_MAGIC[2]);
    bytes.push(SEGMENT_MAGIC[3]);
    bytes.push(SEGMENT_VERSION);
    bytes.push(0);
    assert(bytes@ =~= seq![0x50u8, 0x44, 0x42, 0x53, 1, 0]);
    put_le(&mut bytes, SEGMENT_HEADER_LEN as u128, 2);
    bytes.extend_from_slice(database_uuid.as_bytes().as_slice());
    put_le(&mut bytes, first_sequence.get() as u128, 8);
    put_zeros(&mut bytes, 16);
    assert(bytes@ =~= header_fields(database_uuid@, first_sequence@));
    proof {
        lemma_header_layout(database_uuid@, first_sequence@);
    }
    let mut checksum = short_digest(bytes.as_slice());
    bytes.append(&mut checksum);
    bytes
}

/// The model of a decoded header.
pub open spec fn sequence_of(out: Result<RecordSequence, SegmentHeaderError>) -> Result<
    u64,
    SegmentHeaderError,
> {
    match out {
        Ok(sequence) => Ok(sequence@),
        Err(error) => Err(error),
    }
}

/// Decodes and validates the header of a segment of the given database from the bytes that its
/// file starts with.
pub fn parse_segment_header(bytes: &[u8], database_uuid: DatabaseUuid) -> (out: Result<
    RecordSequence,
    SegmentHeaderError,
>)
    ensures
        sequence_of(out) == header_dec(bytes@, database_uuid),
{
    proof {
        model::lemma_spans();
    }
    if bytes.len() < 64 {
        return Err(
            SegmentHeaderError::Truncated {
                expected: SEGMENT_HEADER_LEN,
                actual: bytes.len() as u64,
            },
        );
    }
    if !starts_with(bytes, SEGMENT_MAGIC) {
        return Err(SegmentHeaderError::InvalidMagic(get_four(bytes)));
    }
    if bytes[4] != SEGMENT_VERSION {
        return Err(SegmentHeaderError::UnsupportedVersion(bytes[4]));
    }
    if bytes[5] != 0 {
        return Err(SegmentHeaderError::UnsupportedFlags(bytes[5]));
    }
    let header_len = get_field(bytes, 6, 8) as u16;
    if header_len as u64 != SEGMENT_HEADER_LEN {
        return Err(SegmentHeaderError::InvalidHeaderLength(header_len));
    }
    if !is_zero(bytes, 32, 48) {
        return Err(SegmentHeaderError::NonZeroReserved);
    }
    let fields = slice_subrange(bytes, 0, 48);
    assert(fields@ =~= bytes@.take(48));
    let checksum = short_digest(fields);
    if !same_bytes(slice_subrange(bytes, 48, 64), checksum.as_slice()) {
        return Err(SegmentHeaderError::ChecksumMismatch);
    }
    let actual = DatabaseUuid::from_slice(bytes, 8);
    if !actual.same(&database_uuid) {
        return Err(
            SegmentHeaderError::DatabaseUuidMismatch { expected: database_uuid, actual },
        );
    }
    let first_sequence = get_field(bytes, 24, 32) as u64;
    match RecordSequence::new(first_sequence) {
        Some(sequence) => Ok(sequence),
        None => Err(SegmentHeaderError::InvalidFirstSequence(first_sequence)),
    }
}

} // verus!
