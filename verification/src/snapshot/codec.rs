//! Snapshot encoding and bounded decoding.

use crate::bytes;
use crate::bytes::{is_granted, reserve_exact, same_bytes};
use crate::digest::full_digest;
use crate::domain::promise::SequenceNumber;
use crate::engine::{Engine, EngineSnapshot, EngineSnapshotView};
use crate::error::StorageError;
use crate::file::identity::DatabaseUuid;
use crate::layout::{get_field, get_four, is_zero, put_zeros, starts_with};
use crate::snapshot::budget;
use crate::snapshot::budget::{check_all, check_items};
use crate::snapshot::frame;
use crate::snapshot::frame::{SnapshotFileView, CHECKSUM_LEN, HEADER_LEN, MAGIC, VERSION};
use crate::snapshot::limits::{SnapshotError, SnapshotLimits};
use crate::wire::assured::assure_all;
use crate::wire::model;
use crate::wire::model::Wire;
use crate::wire::reader::{Decode, Reader};
use crate::wire::writer::{put_le, Writer};
use vstd::prelude::*;
use vstd::slice::*;

verus! {

/// Everything that a snapshot file holds.
#[derive(Debug, PartialEq, Eq)]
pub struct SnapshotFile {
    /// Identity of the database.
    pub database_uuid: DatabaseUuid,
    /// Semantics of the state machine.
    pub semantics_version: u32,
    /// Last WAL record that the state represents.
    pub wal_watermark: u64,
    /// The state.
    pub engine: EngineSnapshot,
}

impl View for SnapshotFile {
    type V = SnapshotFileView;

    open spec fn view(&self) -> SnapshotFileView {
        SnapshotFileView {
            uuid: self.database_uuid@,
            semantics: self.semantics_version,
            watermark: self.wal_watermark,
            engine: self.engine@,
        }
    }
}

/// An engine restored from a snapshot.
#[derive(Debug)]
pub struct DecodedSnapshot<E> {
    /// Last WAL record that the state represents.
    pub wal_watermark: u64,
    /// The engine, without indexes.
    pub engine: E,
}

/// Requires that the state keeps its budgets.
pub fn check_engine(engine: &EngineSnapshot, limits: SnapshotLimits) -> (out: Result<
    (),
    SnapshotError,
>)
    ensures
        out == budget::verdict(frame::engine_overrun(engine@, limits)),
{
    let collections = limits.max_collection_items;
    check_items("resource pools", engine.resource_pools.len(), collections)?;
    check_items("promises", engine.promises.len(), collections)?;
    check_items("events", engine.events.len(), collections)?;
    check_items("idempotency records", engine.idempotency_records.len(), collections)?;
    check_all(engine.resource_pools.as_slice(), limits)?;
    check_all(engine.promises.as_slice(), limits)?;
    check_all(engine.events.as_slice(), limits)?;
    check_all(engine.idempotency_records.as_slice(), limits)
}

/// Returns whether every value of the state satisfies the rules of its type.
pub fn is_engine_valid(engine: &EngineSnapshot) -> (out: bool)
    ensures
        out == frame::engine_valid(engine@),
{
    assure_all(engine.resource_pools.as_slice());
    assure_all(engine.promises.as_slice());
    assure_all(engine.events.as_slice());
    let ghost models = model::views(engine.idempotency_records@);
    let mut i: usize = 0;
    while i < engine.idempotency_records.len()
        invariant
            i <= engine.idempotency_records@.len(),
            models == model::views(engine.idempotency_records@),
            forall|k: int| 0 <= k < i ==> (#[trigger] models[k]).valid(),
        decreases engine.idempotency_records.len() - i,
    {
        assert(models[i as int] == engine.idempotency_records@[i as int]@);
        if !engine.idempotency_records[i].is_valid() {
            return false;
        }
        i += 1;
    }
    true
}

/// Appends the payload of a snapshot to an empty buffer.
fn write_payload(engine: &EngineSnapshot, buffer: Vec<u8>) -> (out: Result<Vec<u8>, StorageError>)
    requires
        buffer@.len() == 0,
    ensures
        match out {
            Ok(bytes) => frame::payload_enc(engine@).ok() && bytes@ == frame::payload_enc(
                engine@,
            ).bytes,
            Err(error) => frame::payload_enc(engine@).fail == Some(error),
        },
{
    broadcast use crate::wire::writer::lemma_written_chain;

    let mut writer = Writer::new(buffer);
    writer.list("resource pools", engine.resource_pools.as_slice())?;
    writer.list("promises", engine.promises.as_slice())?;
    writer.list("events", engine.events.as_slice())?;
    writer.list("idempotency records", engine.idempotency_records.as_slice())?;
    let bytes = writer.into_bytes();
    proof {
        reveal(crate::wire::writer::written);
        assert(bytes@ =~= frame::payload_enc(engine@).bytes);
    }
    Ok(bytes)
}

/// Appends the fixed header of a snapshot to an empty buffer.
fn write_header(file: &SnapshotFile, payload_len: u64, buffer: &mut Vec<u8>)
    requires
        payload_len + 160 <= u64::MAX,
        old(buffer)@.len() == 0,
    ensures
        final(buffer)@ == frame::header_bytes(file@, payload_len as nat),
{
    buffer.push(MAGIC[0]);
    buffer.push(MAGIC[1]);
    buffer.push(MAGIC[2]);
    buffer.push(MAGIC[3]);
    buffer.push(VERSION);
    buffer.push(0);
    assert(buffer@ =~= seq![0x50u8, 0x44, 0x42, 0x4e, 1, 0]);
    put_le(buffer, HEADER_LEN as u128, 2);
    put_le(buffer, CHECKSUM_LEN as u128, 2);
    put_zeros(buffer, 6);
    put_le(buffer, payload_len as u128 + 160, 8);
    put_le(buffer, payload_len as u128, 8);
    let ghost before = buffer@;
    buffer.extend_from_slice(file.database_uuid.as_bytes().as_slice());
    assert(buffer@ =~= before + file.database_uuid@);
    put_le(buffer, file.semantics_version as u128, 4);
    put_zeros(buffer, 4);
    put_le(buffer, file.wal_watermark as u128, 8);
    put_le(buffer, file.engine.sequence.get() as u128, 8);
    put_le(buffer, file.engine.publication_revision, 16);
    put_le(buffer, file.engine.events_pruned_through.get() as u128, 8);
    put_zeros(buffer, 32);
}

/// The model of encoded bytes.
pub open spec fn bytes_view(out: Result<Vec<u8>, SnapshotError>) -> Result<
    Seq<u8>,
    SnapshotError,
> {
    match out {
        Ok(bytes) => Ok(bytes@),
        Err(error) => Err(error),
    }
}

/// Requires that a file with a payload of the given length is not too long, and returns its
/// length.
fn check_total(payload_len: u64, limits: SnapshotLimits) -> (out: Result<usize, SnapshotError>)
    ensures
        match out {
            Ok(total_len) => frame::total_overrun(payload_len as nat, limits) is None && total_len
                == payload_len + 160,
            Err(error) => frame::total_overrun(payload_len as nat, limits) == Some(error),
        },
{
    if payload_len > u64::MAX - 160 {
        return Err(
            SnapshotError::Limit {
                field: "total bytes",
                value: u64::MAX,
                maximum: limits.max_total_bytes,
            },
        );
    }
    let total_len = payload_len + 160;
    if total_len > limits.max_total_bytes {
        return Err(
            SnapshotError::Limit {
                field: "total bytes",
                value: total_len,
                maximum: limits.max_total_bytes,
            },
        );
    }
    if total_len > usize::MAX as u64 {
        return Err(
            SnapshotError::Limit {
                field: "total bytes",
                value: total_len,
                maximum: usize::MAX as u64,
            },
        );
    }
    Ok(total_len as usize)
}

/// Puts the header before a payload and the checksum behind it, in an empty buffer whose memory
/// was granted or refused.
pub fn seal_granted(
    file: &SnapshotFile,
    payload: Vec<u8>,
    limits: SnapshotLimits,
    buffer: Vec<u8>,
    granted: bool,
) -> (out: Result<Vec<u8>, SnapshotError>)
    requires
        buffer@.len() == 0,
    ensures
        bytes_view(out) == frame::sealed(file@, payload@, limits, granted),
{
    let mut payload = payload;
    let ghost contents = payload@;
    let payload_len = payload.len() as u64;
    let total_len = check_total(payload_len, limits)?;
    if !granted {
        return Err(
            SnapshotError::Allocation { field: "total bytes", requested: total_len as u64 },
        );
    }
    let mut bytes = buffer;
    write_header(file, payload_len, &mut bytes);
    bytes.append(&mut payload);
    assert(bytes@ =~= frame::header_bytes(file@, contents.len()) + contents);
    let mut checksum = full_digest(bytes.as_slice());
    bytes.append(&mut checksum);
    Ok(bytes)
}

/// Encodes a snapshot. Memory is granted as listed, or else asked for. What was granted is
/// returned.
fn encode_with(file: &SnapshotFile, limits: SnapshotLimits, grants: Option<&[bool]>) -> (out: (
    Result<Vec<u8>, SnapshotError>,
    Ghost<Seq<bool>>,
))
    ensures
        bytes_view(out.0) == frame::encoded(file@, limits, out.1@),
        grants matches Some(listed) ==> out.1@ == listed@,
{
    let ghost listed = match grants {
        Some(listed) => listed@,
        None => seq![],
    };
    let limits = match limits.validate() {
        Ok(limits) => limits,
        Err(error) => {
            return (Err(error), Ghost(listed));
        },
    };
    match check_engine(&file.engine, limits) {
        Ok(done) => {
            assert(done == ());
        },
        Err(error) => {
            return (Err(error), Ghost(listed));
        },
    }
    let mut payload: Vec<u8> = Vec::new();
    let first = match grants {
        Some(listed) => is_granted(listed, 0),
        None => reserve_exact(&mut payload, 16),
    };
    let ghost listed = match grants {
        Some(listed) => listed@,
        None => seq![first],
    };
    if !first {
        return (
            Err(SnapshotError::Allocation { field: "payload bytes", requested: 16 }),
            Ghost(listed),
        );
    }
    let payload = match write_payload(&file.engine, payload) {
        Ok(payload) => payload,
        Err(error) => {
            return (Err(SnapshotError::MalformedPayload(error)), Ghost(listed));
        },
    };
    let total_len = match check_total(payload.len() as u64, limits) {
        Ok(total_len) => total_len,
        Err(error) => {
            return (Err(error), Ghost(listed));
        },
    };
    let mut buffer: Vec<u8> = Vec::new();
    let second = match grants {
        Some(listed) => is_granted(listed, 1),
        None => reserve_exact(&mut buffer, total_len),
    };
    let ghost listed = match grants {
        Some(listed) => listed@,
        None => seq![first, second],
    };
    (seal_granted(file, payload, limits, buffer, second), Ghost(listed))
}

/// Encodes a snapshot. Where the state is valid and no held alternative has a position that the
/// decoder refuses, it decodes to that state. Budgets are checked before anything is written.
pub fn encode(file: &SnapshotFile, limits: SnapshotLimits) -> (out: Result<
    Vec<u8>,
    SnapshotError,
>)
    ensures
        exists|grants: Seq<bool>|
            bytes_view(out) == #[trigger] frame::encoded(file@, limits, grants),
        out matches Ok(bytes) ==> frame::engine_valid(file@.engine) && frame::positions_within(
            file@.engine,
            limits,
        ) ==> frame::snapshot_dec(
            bytes@,
            limits,
            file.database_uuid,
            file.semantics_version,
            file.wal_watermark,
            seq![],
        ) == Ok::<EngineSnapshotView, SnapshotError>(file@.engine),
{
    let (out, grants) = encode_with(file, limits, None);
    proof {
        frame::law_snapshot_is_encoded_or_refused(file@, limits);
        assert(bytes_view(out) == frame::encoded(file@, limits, grants@));
        if out is Ok && frame::engine_valid(file@.engine) && frame::positions_within(
            file@.engine,
            limits,
        ) {
            frame::law_snapshot_round_trip(file@, limits, file.database_uuid);
        }
    }
    out
}

/// Encodes a snapshot as if memory were granted as listed: first that for the first bytes of the
/// payload, then that for the complete file.
pub fn encode_granted(file: &SnapshotFile, limits: SnapshotLimits, grants: &[bool]) -> (out:
    Result<Vec<u8>, SnapshotError>)
    ensures
        bytes_view(out) == frame::encoded(file@, limits, grants@),
{
    let (out, _) = encode_with(file, limits, Some(grants));
    out
}

/// What decoding a top-level list leaves and returns.
pub open spec fn list_got<T: View>(
    before: Reader,
    after: Reader,
    parsed: Result<(Seq<T::V>, int), SnapshotError>,
    out: Result<Vec<T>, SnapshotError>,
) -> bool {
    &&& before.advanced(after)
    &&& match out {
        Ok(items) => parsed == Ok::<(Seq<T::V>, int), SnapshotError>(
            (model::views(items@), after.pos()),
        ),
        Err(error) => parsed == Err::<(Seq<T::V>, int), SnapshotError>(error),
    }
}

/// Decodes the entries of a top-level list of the given length into an empty list, whose memory
/// was granted or refused.
pub fn read_top_granted<T: Decode>(
    reader: &mut Reader,
    field: &'static str,
    count: usize,
    list: Vec<T>,
    granted: bool,
    limits: SnapshotLimits,
) -> (out: Result<Vec<T>, SnapshotError>) where <T as View>::V: Wire
    requires
        old(reader).wf(),
        old(reader).limits() == budget::payload_limits(limits),
        list@.len() == 0,
    ensures
        list_got(
            *old(reader),
            *final(reader),
            frame::top_items::<T::V>(
                old(reader).data(),
                old(reader).pos(),
                limits,
                field,
                count as nat,
                granted,
            ),
            out,
        ),
{
    let capacity = reader.safe_capacity(count);
    if count as u64 > limits.max_collection_items as u64 {
        return Err(
            SnapshotError::Limit {
                field,
                value: count as u64,
                maximum: limits.max_collection_items as u64,
            },
        );
    }
    if !granted {
        return Err(SnapshotError::Allocation { field, requested: capacity as u64 });
    }
    match reader.items_into(list, count) {
        Ok(items) => Ok(items),
        Err(error) => Err(SnapshotError::MalformedPayload(error)),
    }
}

/// Decodes a top-level list. Memory for it is granted as listed under its number, or else asked
/// for. Whether it was granted is returned.
fn read_top<T: Decode>(
    reader: &mut Reader,
    field: &'static str,
    number: usize,
    limits: SnapshotLimits,
    grants: Option<&[bool]>,
) -> (out: (Result<Vec<T>, SnapshotError>, Ghost<bool>)) where <T as View>::V: Wire
    requires
        old(reader).wf(),
        old(reader).limits() == budget::payload_limits(limits),
    ensures
        list_got(
            *old(reader),
            *final(reader),
            frame::top_list::<T::V>(
                old(reader).data(),
                old(reader).pos(),
                limits,
                field,
                out.1@,
            ),
            out.0,
        ),
        grants matches Some(listed) ==> out.1@ == bytes::granted(listed@, number as nat),
{
    let mut list: Vec<T> = Vec::new();
    let listed = match grants {
        Some(listed) => is_granted(listed, number),
        None => true,
    };
    let count = match reader.top_count(field) {
        Ok(count) => count,
        Err(error) => {
            return (Err(SnapshotError::MalformedPayload(error)), Ghost(listed));
        },
    };
    let granted = if grants.is_some() || count as u64 > limits.max_collection_items as u64 {
        listed
    } else {
        let capacity = reader.safe_capacity(count);
        reserve_exact(&mut list, capacity)
    };
    (read_top_granted(reader, field, count, list, granted, limits), Ghost(granted))
}

/// Checks the fixed header and the checksum of a snapshot file.
fn check_header(
    bytes: &[u8],
    limits: SnapshotLimits,
    expected_uuid: DatabaseUuid,
    expected_semantics: u32,
    filename_watermark: u64,
) -> (out: Result<(), SnapshotError>)
    ensures
        out == budget::verdict(
            frame::header_fault(
                bytes@,
                limits,
                expected_uuid,
                expected_semantics,
                filename_watermark,
            ),
        ),
{
    proof {
        model::lemma_spans();
    }
    let actual_len = bytes.len() as u64;
    if actual_len > limits.max_total_bytes {
        return Err(
            SnapshotError::Limit {
                field: "total bytes",
                value: actual_len,
                maximum: limits.max_total_bytes,
            },
        );
    }
    if bytes.len() < HEADER_LEN {
        return Err(SnapshotError::Truncated { expected: HEADER_LEN as u64, actual: actual_len });
    }
    if !starts_with(bytes, MAGIC) {
        return Err(SnapshotError::InvalidMagic(get_four(bytes)));
    }
    if bytes[4] != VERSION {
        return Err(SnapshotError::UnsupportedVersion(bytes[4]));
    }
    if bytes[5] != 0 {
        return Err(SnapshotError::UnsupportedFlags(bytes[5]));
    }
    if get_field(bytes, 6, 8) != HEADER_LEN as u128 {
        return Err(SnapshotError::MalformedHeader("header_len"));
    }
    if get_field(bytes, 8, 10) != CHECKSUM_LEN as u128 {
        return Err(SnapshotError::MalformedHeader("checksum_len"));
    }
    if !is_zero(bytes, 10, 16) || !is_zero(bytes, 52, 56) || !is_zero(bytes, 96, 128) {
        return Err(SnapshotError::NonZeroReserved);
    }
    let total_len = get_field(bytes, 16, 24) as u64;
    let payload_len = get_field(bytes, 24, 32) as u64;
    if total_len > limits.max_total_bytes {
        return Err(
            SnapshotError::Limit {
                field: "total bytes",
                value: total_len,
                maximum: limits.max_total_bytes,
            },
        );
    }
    if payload_len > u64::MAX - 160 {
        return Err(SnapshotError::MalformedHeader("payload_len"));
    }
    if total_len != payload_len + 160 {
        return Err(SnapshotError::MalformedHeader("total_len"));
    }
    if actual_len != total_len {
        return Err(SnapshotError::Truncated { expected: total_len, actual: actual_len });
    }
    let database_uuid = DatabaseUuid::from_slice(bytes, 32);
    if !database_uuid.same(&expected_uuid) {
        return Err(
            SnapshotError::DatabaseUuidMismatch { expected: expected_uuid, actual: database_uuid },
        );
    }
    let semantics_version = get_field(bytes, 48, 52) as u32;
    if semantics_version != expected_semantics {
        return Err(SnapshotError::UnsupportedSemanticsVersion(semantics_version));
    }
    let wal_watermark = get_field(bytes, 56, 64) as u64;
    if wal_watermark != filename_watermark {
        return Err(
            SnapshotError::FilenameWatermarkMismatch {
                filename: filename_watermark,
                header: wal_watermark,
            },
        );
    }
    let signed = slice_subrange(bytes, 0, bytes.len() - CHECKSUM_LEN);
    assert(signed@ =~= bytes@.take(bytes@.len() - 32));
    let checksum = full_digest(signed);
    let trailer = slice_subrange(bytes, bytes.len() - CHECKSUM_LEN, bytes.len());
    assert(trailer@ =~= bytes@.skip(bytes@.len() - 32));
    if !same_bytes(trailer, checksum.as_slice()) {
        return Err(SnapshotError::ChecksumMismatch);
    }
    Ok(())
}

/// The model of decoded contents.
pub open spec fn contents_view(out: Result<EngineSnapshot, SnapshotError>) -> Result<
    EngineSnapshotView,
    SnapshotError,
> {
    match out {
        Ok(engine) => Ok(engine@),
        Err(error) => Err(error),
    }
}

/// Decodes the state in a snapshot file. Memory for its lists is granted as listed, or else asked
/// for. What was granted is returned.
fn decode_with(
    bytes: &[u8],
    limits: SnapshotLimits,
    expected_uuid: DatabaseUuid,
    expected_semantics: u32,
    filename_watermark: u64,
    grants: Option<&[bool]>,
) -> (out: (Result<EngineSnapshot, SnapshotError>, Ghost<Seq<bool>>))
    ensures
        contents_view(out.0) == frame::snapshot_dec(
            bytes@,
            limits,
            expected_uuid,
            expected_semantics,
            filename_watermark,
            out.1@,
        ),
        grants matches Some(listed) ==> out.1@ == listed@,
{
    let ghost mut listed = match grants {
        Some(listed) => listed@,
        None => seq![],
    };
    let limits = match limits.validate() {
        Ok(limits) => limits,
        Err(error) => {
            return (Err(error), Ghost(listed));
        },
    };
    match check_header(
        bytes,
        limits,
        expected_uuid,
        expected_semantics,
        filename_watermark,
    ) {
        Ok(done) => {
            assert(done == ());
        },
        Err(error) => {
            return (Err(error), Ghost(listed));
        },
    }
    proof {
        model::lemma_spans();
    }
    let payload = slice_subrange(bytes, HEADER_LEN, bytes.len() - CHECKSUM_LEN);
    let mut reader = Reader::new_bounded(
        payload,
        limits.max_collection_items as usize,
        limits.max_nested_items as usize,
        limits.max_string_bytes as usize,
    );
    let (resource_pools, first) = read_top(&mut reader, "resource pools", 0, limits, grants);
    proof {
        if grants is None {
            listed = seq![first@];
        }
    }
    let resource_pools = match resource_pools {
        Ok(items) => items,
        Err(error) => {
            return (Err(error), Ghost(listed));
        },
    };
    let (promises, second) = read_top(&mut reader, "promises", 1, limits, grants);
    proof {
        if grants is None {
            listed = seq![first@, second@];
        }
    }
    let promises = match promises {
        Ok(items) => items,
        Err(error) => {
            return (Err(error), Ghost(listed));
        },
    };
    let (events, third) = read_top(&mut reader, "events", 2, limits, grants);
    proof {
        if grants is None {
            listed = seq![first@, second@, third@];
        }
    }
    let events = match events {
        Ok(items) => items,
        Err(error) => {
            return (Err(error), Ghost(listed));
        },
    };
    let (records, fourth) = read_top(&mut reader, "idempotency records", 3, limits, grants);
    proof {
        if grants is None {
            listed = seq![first@, second@, third@, fourth@];
        }
    }
    let idempotency_records = match records {
        Ok(items) => items,
        Err(error) => {
            return (Err(error), Ghost(listed));
        },
    };
    if !reader.is_empty() {
        return (
            Err(
                SnapshotError::MalformedPayload(
                    StorageError::CorruptRecord("trailing snapshot payload bytes"),
                ),
            ),
            Ghost(listed),
        );
    }
    let engine = EngineSnapshot {
        resource_pools,
        promises,
        events,
        idempotency_records,
        sequence: SequenceNumber::new(get_field(bytes, 64, 72) as u64),
        publication_revision: get_field(bytes, 72, 88),
        events_pruned_through: SequenceNumber::new(get_field(bytes, 88, 96) as u64),
    };
    (Ok(engine), Ghost(listed))
}

/// Decodes the state in a snapshot file of the given database with the given watermark in its
/// name. Framing, identity and checksum are checked before the payload is decoded, and declared
/// lengths before memory is reserved for them.
pub fn decode_contents(
    bytes: &[u8],
    limits: SnapshotLimits,
    expected_uuid: DatabaseUuid,
    expected_semantics: u32,
    filename_watermark: u64,
) -> (out: Result<EngineSnapshot, SnapshotError>)
    ensures
        exists|grants: Seq<bool>|
            contents_view(out) == #[trigger] frame::snapshot_dec(
                bytes@,
                limits,
                expected_uuid,
                expected_semantics,
                filename_watermark,
                grants,
            ),
        out matches Ok(engine) ==> frame::engine_within(engine@, limits),
{
    let (out, grants) = decode_with(
        bytes,
        limits,
        expected_uuid,
        expected_semantics,
        filename_watermark,
        None,
    );
    proof {
        frame::law_snapshot_is_canonical(
            bytes@,
            limits,
            expected_uuid,
            expected_semantics,
            filename_watermark,
            grants@,
        );
    }
    out
}

/// Decodes the state in a snapshot file as if memory for its lists were granted as listed.
pub fn decode_contents_granted(
    bytes: &[u8],
    limits: SnapshotLimits,
    expected_uuid: DatabaseUuid,
    expected_semantics: u32,
    filename_watermark: u64,
    grants: &[bool],
) -> (out: Result<EngineSnapshot, SnapshotError>)
    ensures
        contents_view(out) == frame::snapshot_dec(
            bytes@,
            limits,
            expected_uuid,
            expected_semantics,
            filename_watermark,
            grants@,
        ),
{
    let (out, _) = decode_with(
        bytes,
        limits,
        expected_uuid,
        expected_semantics,
        filename_watermark,
        Some(grants),
    );
    out
}

/// What restoring an engine from decoded contents gives, whatever the engine does with them.
pub open spec fn decode_outcome<E: Engine>(
    contents: Result<EngineSnapshotView, SnapshotError>,
    watermark: u64,
    out: Result<DecodedSnapshot<E>, SnapshotError>,
) -> bool {
    match contents {
        Err(error) => out == Err::<DecodedSnapshot<E>, SnapshotError>(error),
        Ok(contents) => match out {
            Ok(decoded) => decoded.wal_watermark == watermark && E::restores(
                contents,
                Some(decoded.engine),
            ),
            Err(error) => error is InvalidEngineState && E::restores(contents, None),
        },
    }
}

/// Restores an engine from decoded contents.
pub fn restore<E: Engine>(contents: EngineSnapshot, wal_watermark: u64) -> (out: Result<
    DecodedSnapshot<E>,
    SnapshotError,
>)
    ensures
        decode_outcome(Ok(contents@), wal_watermark, out),
{
    match E::restore_snapshot(contents) {
        Some(engine) => Ok(DecodedSnapshot { wal_watermark, engine }),
        None => Err(SnapshotError::InvalidEngineState),
    }
}

/// Decodes a snapshot file and restores the engine in it.
pub fn decode<E: Engine>(
    bytes: &[u8],
    limits: SnapshotLimits,
    expected_uuid: DatabaseUuid,
    expected_semantics: u32,
    filename_watermark: u64,
) -> (out: Result<DecodedSnapshot<E>, SnapshotError>)
    ensures
        exists|grants: Seq<bool>|
            decode_outcome(
                #[trigger] frame::snapshot_dec(
                    bytes@,
                    limits,
                    expected_uuid,
                    expected_semantics,
                    filename_watermark,
                    grants,
                ),
                filename_watermark,
                out,
            ),
{
    let contents = decode_contents(
        bytes,
        limits,
        expected_uuid,
        expected_semantics,
        filename_watermark,
    )?;
    restore(contents, filename_watermark)
}

/// Decodes a snapshot file and restores the engine in it as if memory for its lists were granted
/// as listed.
pub fn decode_granted<E: Engine>(
    bytes: &[u8],
    limits: SnapshotLimits,
    expected_uuid: DatabaseUuid,
    expected_semantics: u32,
    filename_watermark: u64,
    grants: &[bool],
) -> (out: Result<DecodedSnapshot<E>, SnapshotError>)
    ensures
        decode_outcome(
            frame::snapshot_dec(
                bytes@,
                limits,
                expected_uuid,
                expected_semantics,
                filename_watermark,
                grants@,
            ),
            filename_watermark,
            out,
        ),
{
    let contents = decode_contents_granted(
        bytes,
        limits,
        expected_uuid,
        expected_semantics,
        filename_watermark,
        grants,
    )?;
    restore(contents, filename_watermark)
}

} // verus!
