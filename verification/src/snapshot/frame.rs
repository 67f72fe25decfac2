//! The mathematical model of snapshot files.
//!
//! A snapshot is a fixed 128-byte header, the canonical payload, and the BLAKE3 hash of both.

use crate::bytes;
use crate::digest;
use crate::domain::promise::{PromiseView, ResourcePoolView};
use crate::engine::{EngineSnapshotView, IdempotencyRecordView};
use crate::error::StorageError;
use crate::event::EventView;
use crate::file::identity;
use crate::file::identity::DatabaseUuid;
use crate::layout;
use crate::outcome::{ChoiceOutcomeView, CommandResultView};
use crate::snapshot::budget;
use crate::snapshot::budget::Measured;
use crate::snapshot::limits;
use crate::snapshot::limits::{SnapshotError, SnapshotLimits};
use crate::wire::model;
use crate::wire::model::{Enc, Wire};
use vstd::prelude::*;

verus! {

/// Four-byte signature at the beginning of a snapshot, `PDBN`.
pub const MAGIC: [u8; 4] = [0x50, 0x44, 0x42, 0x4e];

/// Current snapshot format version.
pub const VERSION: u8 = 1;

/// Serialized width of the fixed header.
pub const HEADER_LEN: usize = 128;

/// Serialized width of the checksum trailer.
pub const CHECKSUM_LEN: usize = 32;

/// The model of a snapshot file.
#[verifier::ext_equal]
pub struct SnapshotFileView {
    /// Identity of the database.
    pub uuid: Seq<u8>,
    /// Semantics of the state machine.
    pub semantics: u32,
    /// Last WAL record that the state represents.
    pub watermark: u64,
    /// The state.
    pub engine: EngineSnapshotView,
}

/// The payload of a snapshot.
pub open spec fn payload_enc(engine: EngineSnapshotView) -> Enc {
    model::enc_list("resource pools", engine.resource_pools).followed_by(
        model::enc_list("promises", engine.promises),
    ).followed_by(model::enc_list("events", engine.events)).followed_by(
        model::enc_list("idempotency records", engine.idempotency_records),
    )
}

/// The fixed header of a snapshot with a payload of the given length.
pub open spec fn header_bytes(file: SnapshotFileView, payload_len: nat) -> Seq<u8> {
    seq![0x50u8, 0x44, 0x42, 0x4e, 1, 0] + model::le(128, 2) + model::le(32, 2) + layout::zeros(6)
        + model::le(payload_len + 160, 8) + model::le(payload_len, 8) + file.uuid + model::le(
        file.semantics as nat,
        4,
    ) + layout::zeros(4) + model::le(file.watermark as nat, 8) + model::le(
        file.engine.sequence as nat,
        8,
    ) + model::le(file.engine.publication_revision as nat, 16) + model::le(
        file.engine.events_pruned_through as nat,
        8,
    ) + layout::zeros(32)
}

/// Everything that the checksum of a snapshot covers.
pub open spec fn signed_bytes(file: SnapshotFileView) -> Seq<u8> {
    header_bytes(file, payload_enc(file.engine).bytes.len()) + payload_enc(file.engine).bytes
}

/// The complete encoding of a snapshot.
pub open spec fn snapshot_enc(file: SnapshotFileView) -> Seq<u8> {
    signed_bytes(file) + digest::full_hash(signed_bytes(file))
}

/// The first budget that the state exceeds, if it exceeds any.
pub open spec fn engine_overrun(engine: EngineSnapshotView, limits: SnapshotLimits) -> Option<
    SnapshotError,
> {
    let collections = limits.max_collection_items;
    let counts = budget::either(
        budget::either(
            budget::either(
                budget::items_overrun(
                    "resource pools",
                    engine.resource_pools.len(),
                    collections,
                ),
                budget::items_overrun("promises", engine.promises.len(), collections),
            ),
            budget::items_overrun("events", engine.events.len(), collections),
        ),
        budget::items_overrun(
            "idempotency records",
            engine.idempotency_records.len(),
            collections,
        ),
    );
    budget::either(
        budget::either(
            budget::either(
                budget::either(counts, budget::first_overrun(engine.resource_pools, limits)),
                budget::first_overrun(engine.promises, limits),
            ),
            budget::first_overrun(engine.events, limits),
        ),
        budget::first_overrun(engine.idempotency_records, limits),
    )
}

/// The report that a payload of the given length is too long, if it is.
pub open spec fn total_overrun(payload_len: nat, limits: SnapshotLimits) -> Option<SnapshotError> {
    if payload_len + 160 > u64::MAX {
        Some(
            SnapshotError::Limit {
                field: "total bytes",
                value: u64::MAX,
                maximum: limits.max_total_bytes,
            },
        )
    } else if payload_len + 160 > limits.max_total_bytes {
        Some(
            SnapshotError::Limit {
                field: "total bytes",
                value: (payload_len + 160) as u64,
                maximum: limits.max_total_bytes,
            },
        )
    } else if payload_len + 160 > usize::MAX {
        Some(
            SnapshotError::Limit {
                field: "total bytes",
                value: (payload_len + 160) as u64,
                maximum: usize::MAX as u64,
            },
        )
    } else {
        None
    }
}

/// Why a snapshot cannot be encoded, if it cannot.
pub open spec fn encode_fault(file: SnapshotFileView, limits: SnapshotLimits) -> Option<
    SnapshotError,
> {
    match limits::limits_fault(limits) {
        Some(error) => Some(error),
        None => match engine_overrun(file.engine, limits) {
            Some(error) => Some(error),
            None => match payload_enc(file.engine).fail {
                Some(error) => Some(SnapshotError::MalformedPayload(error)),
                None => total_overrun(payload_enc(file.engine).bytes.len(), limits),
            },
        },
    }
}

/// Everything that a snapshot file with the given payload holds.
pub open spec fn sealed_bytes(file: SnapshotFileView, payload: Seq<u8>) -> Seq<u8> {
    let signed = header_bytes(file, payload.len()) + payload;
    signed + digest::full_hash(signed)
}

/// What sealing a payload gives, if memory for the file is granted or refused.
pub open spec fn sealed(
    file: SnapshotFileView,
    payload: Seq<u8>,
    limits: SnapshotLimits,
    granted: bool,
) -> Result<Seq<u8>, SnapshotError> {
    match total_overrun(payload.len(), limits) {
        Some(error) => Err(error),
        None => if granted {
            Ok(sealed_bytes(file, payload))
        } else {
            Err(
                SnapshotError::Allocation {
                    field: "total bytes",
                    requested: (payload.len() + 160) as u64,
                },
            )
        },
    }
}

/// What encoding a snapshot gives, if memory is granted as listed: the first request is for the
/// first bytes of the payload, the second for the complete file.
pub open spec fn encoded(
    file: SnapshotFileView,
    limits: SnapshotLimits,
    grants: Seq<bool>,
) -> Result<Seq<u8>, SnapshotError> {
    match limits::limits_fault(limits) {
        Some(error) => Err(error),
        None => match engine_overrun(file.engine, limits) {
            Some(error) => Err(error),
            None => if !bytes::granted(grants, 0) {
                Err(SnapshotError::Allocation { field: "payload bytes", requested: 16 })
            } else {
                match payload_enc(file.engine).fail {
                    Some(error) => Err(SnapshotError::MalformedPayload(error)),
                    None => sealed(
                        file,
                        payload_enc(file.engine).bytes,
                        limits,
                        bytes::granted(grants, 1),
                    ),
                }
            },
        },
    }
}

/// A snapshot that can be encoded is, where memory is granted; one that cannot never is.
pub proof fn law_snapshot_is_encoded_or_refused(file: SnapshotFileView, limits: SnapshotLimits)
    ensures
        encoded(file, limits, seq![]) == match encode_fault(file, limits) {
            Some(error) => Err::<Seq<u8>, SnapshotError>(error),
            None => Ok::<Seq<u8>, SnapshotError>(snapshot_enc(file)),
        },
        forall|grants: Seq<bool>|
            #[trigger]
            encoded(file, limits, grants) matches Ok(bytes) ==> encode_fault(file, limits) is None
                && bytes == snapshot_enc(file),
{
}

/// A top-level list of a payload, if memory for it is granted or refused. No more entries are
/// asked for than there are bytes left.
pub open spec fn top_list<T: Wire>(
    data: Seq<u8>,
    pos: int,
    limits: SnapshotLimits,
    field: &'static str,
    granted: bool,
) -> Result<(Seq<T>, int), SnapshotError> {
    match model::parse_length(data, pos, budget::payload_limits(limits).ceiling(), field) {
        Err(error) => Err(SnapshotError::MalformedPayload(error)),
        Ok((count, start)) => top_items(data, start, limits, field, count, granted),
    }
}

/// The entries of a top-level list of the given length.
pub open spec fn top_items<T: Wire>(
    data: Seq<u8>,
    start: int,
    limits: SnapshotLimits,
    field: &'static str,
    count: nat,
    granted: bool,
) -> Result<(Seq<T>, int), SnapshotError> {
    if count > limits.max_collection_items {
        Err(
            SnapshotError::Limit {
                field,
                value: count as u64,
                maximum: limits.max_collection_items as u64,
            },
        )
    } else if !granted {
        let left = data.len() - start;
        Err(
            SnapshotError::Allocation {
                field,
                requested: if count <= left {
                    count as u64
                } else {
                    left as u64
                },
            },
        )
    } else {
        match model::parse_items::<T>(data, start, budget::payload_limits(limits), count) {
            Err(error) => Err(SnapshotError::MalformedPayload(error)),
            Ok((items, end)) => Ok((items, end)),
        }
    }
}

/// The lists of a payload.
#[verifier::ext_equal]
pub struct PayloadView {
    /// All resource pools.
    pub resource_pools: Seq<ResourcePoolView>,
    /// All promises.
    pub promises: Seq<PromiseView>,
    /// The events that were not pruned.
    pub events: Seq<EventView>,
    /// What commands returned when they were first seen.
    pub idempotency_records: Seq<IdempotencyRecordView>,
}

/// The lists encoded in a payload, if memory for them is granted as listed.
pub open spec fn payload_dec(data: Seq<u8>, limits: SnapshotLimits, grants: Seq<bool>) -> Result<
    PayloadView,
    SnapshotError,
> {
    match top_list::<ResourcePoolView>(
        data,
        0,
        limits,
        "resource pools",
        bytes::granted(grants, 0),
    ) {
        Err(error) => Err(error),
        Ok((resource_pools, p1)) => match top_list::<PromiseView>(
            data,
            p1,
            limits,
            "promises",
            bytes::granted(grants, 1),
        ) {
            Err(error) => Err(error),
            Ok((promises, p2)) => match top_list::<EventView>(
                data,
                p2,
                limits,
                "events",
                bytes::granted(grants, 2),
            ) {
                Err(error) => Err(error),
                Ok((events, p3)) => match top_list::<IdempotencyRecordView>(
                    data,
                    p3,
                    limits,
                    "idempotency records",
                    bytes::granted(grants, 3),
                ) {
                    Err(error) => Err(error),
                    Ok((idempotency_records, end)) => if end == data.len() {
                        Ok(PayloadView { resource_pools, promises, events, idempotency_records })
                    } else {
                        Err(
                            SnapshotError::MalformedPayload(
                                StorageError::CorruptRecord("trailing snapshot payload bytes"),
                            ),
                        )
                    },
                },
            },
        },
    }
}

/// Why the header of a snapshot file is refused, if it is.
pub open spec fn header_fault(
    bytes: Seq<u8>,
    limits: SnapshotLimits,
    uuid: DatabaseUuid,
    semantics: u32,
    watermark: u64,
) -> Option<SnapshotError> {
    let total_len = layout::field(bytes, 16, 24) as u64;
    let payload_len = layout::field(bytes, 24, 32) as u64;
    let found_semantics = layout::field(bytes, 48, 52) as u32;
    let found_watermark = layout::field(bytes, 56, 64) as u64;
    if bytes.len() > limits.max_total_bytes {
        Some(
            SnapshotError::Limit {
                field: "total bytes",
                value: bytes.len() as u64,
                maximum: limits.max_total_bytes,
            },
        )
    } else if bytes.len() < 128 {
        Some(SnapshotError::Truncated { expected: 128, actual: bytes.len() as u64 })
    } else if bytes.subrange(0, 4) != MAGIC@ {
        Some(SnapshotError::InvalidMagic(layout::first_four(bytes)))
    } else if bytes[4] != 1 {
        Some(SnapshotError::UnsupportedVersion(bytes[4]))
    } else if bytes[5] != 0 {
        Some(SnapshotError::UnsupportedFlags(bytes[5]))
    } else if layout::field(bytes, 6, 8) != 128 {
        Some(SnapshotError::MalformedHeader("header_len"))
    } else if layout::field(bytes, 8, 10) != 32 {
        Some(SnapshotError::MalformedHeader("checksum_len"))
    } else if !layout::all_zero(bytes.subrange(10, 16)) || !layout::all_zero(
        bytes.subrange(52, 56),
    ) || !layout::all_zero(bytes.subrange(96, 128)) {
        Some(SnapshotError::NonZeroReserved)
    } else if total_len > limits.max_total_bytes {
        Some(
            SnapshotError::Limit {
                field: "total bytes",
                value: total_len,
                maximum: limits.max_total_bytes,
            },
        )
    } else if payload_len + 160 > u64::MAX {
        Some(SnapshotError::MalformedHeader("payload_len"))
    } else if total_len != payload_len + 160 {
        Some(SnapshotError::MalformedHeader("total_len"))
    } else if bytes.len() != total_len {
        Some(SnapshotError::Truncated { expected: total_len, actual: bytes.len() as u64 })
    } else if bytes.subrange(32, 48) != uuid@ {
        Some(
            SnapshotError::DatabaseUuidMismatch {
                expected: uuid,
                actual: identity::identity_at(bytes, 32),
            },
        )
    } else if found_semantics != semantics {
        Some(SnapshotError::UnsupportedSemanticsVersion(found_semantics))
    } else if found_watermark != watermark {
        Some(
            SnapshotError::FilenameWatermarkMismatch {
                filename: watermark,
                header: found_watermark,
            },
        )
    } else if bytes.skip(bytes.len() - 32) != digest::full_hash(bytes.take(bytes.len() - 32)) {
        Some(SnapshotError::ChecksumMismatch)
    } else {
        None
    }
}

/// The state in a snapshot file of the given database with the given watermark in its name, if
/// memory for its lists is granted as listed.
pub open spec fn snapshot_dec(
    bytes: Seq<u8>,
    limits: SnapshotLimits,
    uuid: DatabaseUuid,
    semantics: u32,
    watermark: u64,
    grants: Seq<bool>,
) -> Result<EngineSnapshotView, SnapshotError> {
    match limits::limits_fault(limits) {
        Some(error) => Err(error),
        None => match header_fault(bytes, limits, uuid, semantics, watermark) {
            Some(error) => Err(error),
            None => match payload_dec(bytes.subrange(128, bytes.len() - 32), limits, grants) {
                Err(error) => Err(error),
                Ok(payload) => Ok(
                    EngineSnapshotView {
                        resource_pools: payload.resource_pools,
                        promises: payload.promises,
                        events: payload.events,
                        idempotency_records: payload.idempotency_records,
                        sequence: layout::field(bytes, 64, 72) as u64,
                        publication_revision: layout::field(bytes, 72, 88) as u128,
                        events_pruned_through: layout::field(bytes, 88, 96) as u64,
                    },
                ),
            },
        },
    }
}

pub proof fn lemma_header_layout(file: SnapshotFileView, payload_len: nat)
    requires
        file.uuid.len() == 16,
    ensures
        ({
            let header = header_bytes(file, payload_len);
            &&& header.len() == 128
            &&& header.subrange(0, 6) == seq![0x50u8, 0x44, 0x42, 0x4e, 1, 0]
            &&& header.subrange(6, 8) == model::le(128, 2)
            &&& header.subrange(8, 10) == model::le(32, 2)
            &&& header.subrange(10, 16) == layout::zeros(6)
            &&& header.subrange(16, 24) == model::le(payload_len + 160, 8)
            &&& header.subrange(24, 32) == model::le(payload_len, 8)
            &&& header.subrange(32, 48) == file.uuid
            &&& header.subrange(48, 52) == model::le(file.semantics as nat, 4)
            &&& header.subrange(52, 56) == layout::zeros(4)
            &&& header.subrange(56, 64) == model::le(file.watermark as nat, 8)
            &&& header.subrange(64, 72) == model::le(file.engine.sequence as nat, 8)
            &&& header.subrange(72, 88) == model::le(file.engine.publication_revision as nat, 16)
            &&& header.subrange(88, 96) == model::le(file.engine.events_pruned_through as nat, 8)
            &&& header.subrange(96, 128) == layout::zeros(32)
        }),
{
    broadcast use model::lemma_le_len;

    let header = header_bytes(file, payload_len);
    assert(header.subrange(0, 6) =~= seq![0x50u8, 0x44, 0x42, 0x4e, 1, 0]);
    assert(header.subrange(6, 8) =~= model::le(128, 2));
    assert(header.subrange(8, 10) =~= model::le(32, 2));
    assert(header.subrange(10, 16) =~= layout::zeros(6));
    assert(header.subrange(16, 24) =~= model::le(payload_len + 160, 8));
    assert(header.subrange(24, 32) =~= model::le(payload_len, 8));
    assert(header.subrange(32, 48) =~= file.uuid);
    assert(header.subrange(48, 52) =~= model::le(file.semantics as nat, 4));
    assert(header.subrange(52, 56) =~= layout::zeros(4));
    assert(header.subrange(56, 64) =~= model::le(file.watermark as nat, 8));
    assert(header.subrange(64, 72) =~= model::le(file.engine.sequence as nat, 8));
    assert(header.subrange(72, 88) =~= model::le(file.engine.publication_revision as nat, 16));
    assert(header.subrange(88, 96) =~= model::le(file.engine.events_pruned_through as nat, 8));
    assert(header.subrange(96, 128) =~= layout::zeros(32));
}

/// Every value of the state satisfies the rules of its type.
pub open spec fn engine_valid(engine: EngineSnapshotView) -> bool {
    &&& model::all_valid(engine.resource_pools)
    &&& model::all_valid(engine.promises)
    &&& model::all_valid(engine.events)
    &&& model::all_valid(engine.idempotency_records)
}

/// Every list and every text of the state is within its budget.
pub open spec fn engine_within(engine: EngineSnapshotView, limits: SnapshotLimits) -> bool {
    &&& engine.resource_pools.len() <= limits.max_collection_items
    &&& engine.promises.len() <= limits.max_collection_items
    &&& engine.events.len() <= limits.max_collection_items
    &&& engine.idempotency_records.len() <= limits.max_collection_items
    &&& model::all_fit(engine.resource_pools, budget::payload_limits(limits))
    &&& model::all_fit(engine.promises, budget::payload_limits(limits))
    &&& model::all_fit(engine.events, budget::payload_limits(limits))
    &&& model::all_fit(engine.idempotency_records, budget::payload_limits(limits))
}

/// The position of every held alternative is one that the decoder accepts: at most the larger of
/// the budgets for top-level and for nested lists. The encoder does not bound it.
pub open spec fn positions_within(engine: EngineSnapshotView, limits: SnapshotLimits) -> bool {
    forall|i: int|
        0 <= i < engine.idempotency_records.len() ==> (
        #[trigger] engine.idempotency_records[i].response matches Ok(
            CommandResultView::ChoiceCompleted(ChoiceOutcomeView::Held { alternative_index, .. }),
        ) ==> alternative_index <= budget::payload_limits(limits).ceiling())
}

/// The encoder accepts exactly the valid states whose lists and texts the decoder accepts.
pub proof fn law_both_directions_keep_the_same_budgets(
    engine: EngineSnapshotView,
    limits: SnapshotLimits,
)
    requires
        engine_valid(engine),
    ensures
        engine_overrun(engine, limits) is None && positions_within(engine, limits)
            <==> engine_within(engine, limits),
{
    let records = engine.idempotency_records;
    assert(positions_within(engine, limits) <==> budget::all_positions_fit(records, limits)) by {
        if budget::all_positions_fit(records, limits) {
            assert forall|i: int| 0 <= i < records.len() implies (
            #[trigger] engine.idempotency_records[i].response matches Ok(
                CommandResultView::ChoiceCompleted(
                    ChoiceOutcomeView::Held { alternative_index, .. },
                ),
            ) ==> alternative_index <= budget::payload_limits(limits).ceiling()) by {
                assert(records[i].positions_fit(limits));
            }
        }
        if positions_within(engine, limits) {
            assert forall|i: int| 0 <= i < records.len() implies (
            #[trigger] records[i]).positions_fit(limits) by {
                assert(engine.idempotency_records[i].response == records[i].response);
            }
        }
    }
    budget::lemma_overruns_fit(engine.resource_pools, limits);
    budget::lemma_overruns_fit(engine.promises, limits);
    budget::lemma_overruns_fit(engine.events, limits);
    budget::lemma_overruns_fit(engine.idempotency_records, limits);
}

proof fn lemma_top_list_enc<T: Wire>(
    items: Seq<T>,
    data: Seq<u8>,
    pos: int,
    limits: SnapshotLimits,
    field: &'static str,
)
    requires
        model::all_valid(items),
        model::all_fit(items, budget::payload_limits(limits)),
        items.len() <= limits.max_collection_items,
        model::enc_list(field, items).ok(),
        model::at(data, pos, model::enc_list(field, items).bytes),
    ensures
        top_list::<T>(data, pos, limits, field, true) == Ok::<(Seq<T>, int), SnapshotError>(
            (items, pos + model::enc_list(field, items).bytes.len()),
        ),
{
    broadcast use model::lemma_at_add;

    let ceiling = budget::payload_limits(limits).ceiling();
    model::lemma_length_enc(items.len(), data, pos, ceiling, field);
    model::lemma_items_enc(items, data, pos + 4, budget::payload_limits(limits));
}

proof fn lemma_parse_top_list<T: Wire>(
    data: Seq<u8>,
    pos: int,
    limits: SnapshotLimits,
    field: &'static str,
    granted: bool,
)
    requires
        0 <= pos <= data.len(),
    ensures
        top_list::<T>(data, pos, limits, field, granted) matches Ok((items, end)) ==> {
            &&& pos <= end <= data.len()
            &&& items.len() <= limits.max_collection_items
            &&& model::all_valid(items)
            &&& model::all_fit(items, budget::payload_limits(limits))
            &&& model::enc_list(field, items).ok()
            &&& end == pos + model::enc_list(field, items).bytes.len()
            &&& model::at(data, pos, model::enc_list(field, items).bytes)
        },
{
    broadcast use model::lemma_at_add;

    let ceiling = budget::payload_limits(limits).ceiling();
    model::lemma_parse_length(data, pos, ceiling, field, pos);
    if let Ok((count, start)) = model::parse_length(data, pos, ceiling, field) {
        model::lemma_parse_items::<T>(data, start, budget::payload_limits(limits), count, start);
    }
}

proof fn lemma_payload_enc(engine: EngineSnapshotView, limits: SnapshotLimits)
    requires
        engine_valid(engine),
        engine_within(engine, limits),
        payload_enc(engine).ok(),
    ensures
        payload_dec(payload_enc(engine).bytes, limits, seq![]) == Ok::<PayloadView, SnapshotError>(
            PayloadView {
                resource_pools: engine.resource_pools,
                promises: engine.promises,
                events: engine.events,
                idempotency_records: engine.idempotency_records,
            },
        ),
{
    broadcast use model::lemma_at_add;

    let data = payload_enc(engine).bytes;
    assert(model::at(data, 0, data)) by {
        reveal(model::at);
        assert(data.subrange(0, data.len() as int) =~= data);
    }
    let p1 = model::enc_list("resource pools", engine.resource_pools).bytes.len() as int;
    let p2 = p1 + model::enc_list("promises", engine.promises).bytes.len();
    let p3 = p2 + model::enc_list("events", engine.events).bytes.len();
    lemma_top_list_enc(engine.resource_pools, data, 0, limits, "resource pools");
    lemma_top_list_enc(engine.promises, data, p1, limits, "promises");
    lemma_top_list_enc(engine.events, data, p2, limits, "events");
    lemma_top_list_enc(engine.idempotency_records, data, p3, limits, "idempotency records");
}

proof fn lemma_parse_payload(
    data: Seq<u8>,
    limits: SnapshotLimits,
    grants: Seq<bool>,
    engine: EngineSnapshotView,
)
    requires
        payload_dec(data, limits, grants) == Ok::<PayloadView, SnapshotError>(
            PayloadView {
                resource_pools: engine.resource_pools,
                promises: engine.promises,
                events: engine.events,
                idempotency_records: engine.idempotency_records,
            },
        ),
    ensures
        engine_valid(engine),
        engine_within(engine, limits),
        payload_enc(engine) == Enc::of(data),
{
    broadcast use model::lemma_at_add;

    let g0 = bytes::granted(grants, 0);
    let g1 = bytes::granted(grants, 1);
    let g2 = bytes::granted(grants, 2);
    let g3 = bytes::granted(grants, 3);
    lemma_parse_top_list::<ResourcePoolView>(data, 0, limits, "resource pools", g0);
    let p1 = model::enc_list("resource pools", engine.resource_pools).bytes.len() as int;
    lemma_parse_top_list::<PromiseView>(data, p1, limits, "promises", g1);
    let p2 = p1 + model::enc_list("promises", engine.promises).bytes.len();
    lemma_parse_top_list::<EventView>(data, p2, limits, "events", g2);
    let p3 = p2 + model::enc_list("events", engine.events).bytes.len();
    lemma_parse_top_list::<IdempotencyRecordView>(data, p3, limits, "idempotency records", g3);
    assert(model::at(data, 0, payload_enc(engine).bytes));
    reveal(model::at);
    assert(data.subrange(0, data.len() as int) =~= data);
}

/// A snapshot of valid values that can be encoded is read back as it was written, where memory
/// is granted and no held alternative has a position that the decoder refuses.
pub proof fn law_snapshot_round_trip(
    file: SnapshotFileView,
    limits: SnapshotLimits,
    uuid: DatabaseUuid,
)
    requires
        file.uuid == uuid@,
        encode_fault(file, limits) is None,
        engine_valid(file.engine),
        positions_within(file.engine, limits),
    ensures
        snapshot_dec(snapshot_enc(file), limits, uuid, file.semantics, file.watermark, seq![])
            == Ok::<EngineSnapshotView, SnapshotError>(file.engine),
{
    let payload = payload_enc(file.engine).bytes;
    let header = header_bytes(file, payload.len());
    let signed = signed_bytes(file);
    let bytes = snapshot_enc(file);
    let engine = file.engine;
    lemma_header_layout(file, payload.len());
    model::lemma_spans();
    assert(bytes.len() == payload.len() + 160);
    assert(bytes.take(bytes.len() - 32) =~= signed);
    assert(bytes.skip(bytes.len() - 32) =~= digest::full_hash(signed));
    assert(bytes.subrange(0, 4) =~= MAGIC@) by {
        assert forall|i: int| 0 <= i < 6 implies bytes[i] == header.subrange(0, 6)[i] by {}
    }
    assert(bytes[4] == header.subrange(0, 6)[4]);
    assert(bytes[5] == header.subrange(0, 6)[5]);
    assert(bytes.subrange(6, 8) =~= header.subrange(6, 8));
    assert(bytes.subrange(8, 10) =~= header.subrange(8, 10));
    assert(bytes.subrange(10, 16) =~= header.subrange(10, 16));
    assert(bytes.subrange(16, 24) =~= header.subrange(16, 24));
    assert(bytes.subrange(24, 32) =~= header.subrange(24, 32));
    assert(bytes.subrange(32, 48) =~= header.subrange(32, 48));
    assert(bytes.subrange(48, 52) =~= header.subrange(48, 52));
    assert(bytes.subrange(52, 56) =~= header.subrange(52, 56));
    assert(bytes.subrange(56, 64) =~= header.subrange(56, 64));
    assert(bytes.subrange(64, 72) =~= header.subrange(64, 72));
    assert(bytes.subrange(72, 88) =~= header.subrange(72, 88));
    assert(bytes.subrange(88, 96) =~= header.subrange(88, 96));
    assert(bytes.subrange(96, 128) =~= header.subrange(96, 128));
    assert(bytes.subrange(128, bytes.len() - 32) =~= payload);
    model::lemma_un_le_of_le(128, 2);
    model::lemma_un_le_of_le(32, 2);
    model::lemma_un_le_of_le(payload.len() + 160, 8);
    model::lemma_un_le_of_le(payload.len(), 8);
    model::lemma_un_le_of_le(file.semantics as nat, 4);
    model::lemma_un_le_of_le(file.watermark as nat, 8);
    model::lemma_un_le_of_le(engine.sequence as nat, 8);
    model::lemma_un_le_of_le(engine.publication_revision as nat, 16);
    model::lemma_un_le_of_le(engine.events_pruned_through as nat, 8);
    law_both_directions_keep_the_same_budgets(engine, limits);
    lemma_payload_enc(engine, limits);
}

/// Only the encoding of a snapshot of the database with the watermark of its name is accepted,
/// and only one that keeps the budgets.
pub proof fn law_snapshot_is_canonical(
    bytes: Seq<u8>,
    limits: SnapshotLimits,
    uuid: DatabaseUuid,
    semantics: u32,
    watermark: u64,
    grants: Seq<bool>,
)
    ensures
        snapshot_dec(bytes, limits, uuid, semantics, watermark, grants) matches Ok(engine) ==> {
            &&& engine_valid(engine)
            &&& engine_within(engine, limits)
            &&& payload_enc(engine).ok()
            &&& bytes == snapshot_enc(
                SnapshotFileView { uuid: uuid@, semantics, watermark, engine },
            )
        },
{
    if let Ok(engine) = snapshot_dec(bytes, limits, uuid, semantics, watermark, grants) {
        let file = SnapshotFileView { uuid: uuid@, semantics, watermark, engine };
        let payload = bytes.subrange(128, bytes.len() - 32);
        let header = header_bytes(file, payload.len());
        lemma_parse_payload(payload, limits, grants, engine);
        lemma_header_layout(file, payload.len());
        model::lemma_spans();
        model::lemma_le_of_un_le(bytes.subrange(6, 8));
        model::lemma_le_of_un_le(bytes.subrange(8, 10));
        model::lemma_le_of_un_le(bytes.subrange(16, 24));
        model::lemma_le_of_un_le(bytes.subrange(24, 32));
        model::lemma_le_of_un_le(bytes.subrange(48, 52));
        model::lemma_le_of_un_le(bytes.subrange(56, 64));
        model::lemma_le_of_un_le(bytes.subrange(64, 72));
        model::lemma_le_of_un_le(bytes.subrange(72, 88));
        model::lemma_le_of_un_le(bytes.subrange(88, 96));
        layout::lemma_all_zero(bytes.subrange(10, 16));
        layout::lemma_all_zero(bytes.subrange(52, 56));
        layout::lemma_all_zero(bytes.subrange(96, 128));
        assert(bytes.subrange(0, 6) =~= header.subrange(0, 6)) by {
            assert forall|i: int| 0 <= i < 4 implies bytes[i] == MAGIC@[i] by {
                assert(bytes.subrange(0, 4)[i] == MAGIC@[i]);
            }
        }
        assert(bytes.take(128) =~= bytes.subrange(0, 6) + bytes.subrange(6, 8) + bytes.subrange(
            8,
            10,
        ) + bytes.subrange(10, 16) + bytes.subrange(16, 24) + bytes.subrange(24, 32)
            + bytes.subrange(32, 48) + bytes.subrange(48, 52) + bytes.subrange(52, 56)
            + bytes.subrange(56, 64) + bytes.subrange(64, 72) + bytes.subrange(72, 88)
            + bytes.subrange(88, 96) + bytes.subrange(96, 128));
        assert(bytes.take(128) =~= header);
        assert(bytes.take(bytes.len() - 32) =~= header + payload);
        assert(bytes =~= bytes.take(bytes.len() - 32) + bytes.skip(bytes.len() - 32));
    }
}

} // verus!
