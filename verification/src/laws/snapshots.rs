//! Snapshot files.

use crate::digest;
use crate::domain::promise::{PromiseView, ResourcePoolView};
use crate::engine::{Engine, EngineSnapshot, EngineSnapshotView, IdempotencyRecordView};
use crate::error::{DomainError, StorageError};
use crate::event::{EventDataView, EventView};
use crate::file::identity::DatabaseUuid;
use crate::laws::wire;
use crate::layout;
use crate::outcome::{
    AvailabilityConflictView, CapacityDeficitView, CapacityRevisionOutcomeView, ChoiceConflictView,
    ChoiceOutcomeView, CommandResultView, HoldOutcomeView, ReplaceOutcomeView,
};
use crate::snapshot::budget;
use crate::snapshot::budget::Budgeted;
use crate::snapshot::codec;
use crate::snapshot::codec::{DecodedSnapshot, SnapshotFile};
use crate::snapshot::frame;
use crate::snapshot::frame::{PayloadView, SnapshotFileView};
use crate::snapshot::limits;
use crate::snapshot::limits::{SnapshotError, SnapshotLimits};
use crate::wire::model;
use crate::wire::model::Wire;
use crate::wire::reader::{Decode, Reader};
use vstd::prelude::*;
use vstd::utf8::*;

verus! {

/// Limits that can be used: files can be complete, fit into memory, and every list and text may
/// hold something.
pub open spec fn usable(limits: SnapshotLimits) -> bool {
    &&& 160 <= limits.max_total_bytes <= usize::MAX
    &&& limits.max_collection_items > 0
    &&& limits.max_string_bytes > 0
    &&& limits.max_nested_items > 0
}

/// Limits are accepted exactly if they can be used. The first one that cannot is named.
pub proof fn law_limits(
    limits: SnapshotLimits,
    out: Result<SnapshotLimits, SnapshotError>,
    defaults: SnapshotLimits,
)
    requires
        call_ensures(SnapshotLimits::validate, (limits,), out),
        call_ensures(<SnapshotLimits as Default>::default, (), defaults),
    ensures
        limits::limits_fault(limits) is None <==> usable(limits),
        out == match limits::limits_fault(limits) {
            None => Ok::<SnapshotLimits, SnapshotError>(limits),
            Some(error) => Err::<SnapshotLimits, SnapshotError>(error),
        },
        usable(limits) <==> out == Ok::<SnapshotLimits, SnapshotError>(limits),
        limits.max_total_bytes < 160 <==> out == Err::<SnapshotLimits, SnapshotError>(
            SnapshotError::InvalidLimits {
                field: "maximum total bytes",
                value: limits.max_total_bytes,
                minimum: 160,
            },
        ),
        160 <= limits.max_total_bytes && limits.max_total_bytes > usize::MAX ==> out == Err::<
            SnapshotLimits,
            SnapshotError,
        >(
            SnapshotError::Limit {
                field: "maximum total bytes",
                value: limits.max_total_bytes,
                maximum: usize::MAX as u64,
            },
        ),
        160 <= limits.max_total_bytes <= usize::MAX && limits.max_collection_items == 0 ==> out
            == Err::<SnapshotLimits, SnapshotError>(
            SnapshotError::InvalidLimits {
                field: "maximum collection items",
                value: 0,
                minimum: 1,
            },
        ),
        160 <= limits.max_total_bytes <= usize::MAX && limits.max_collection_items > 0
            && limits.max_string_bytes == 0 ==> out == Err::<SnapshotLimits, SnapshotError>(
            SnapshotError::InvalidLimits { field: "maximum string bytes", value: 0, minimum: 1 },
        ),
        160 <= limits.max_total_bytes <= usize::MAX && limits.max_collection_items > 0
            && limits.max_string_bytes > 0 && limits.max_nested_items == 0 ==> out == Err::<
            SnapshotLimits,
            SnapshotError,
        >(SnapshotError::InvalidLimits { field: "maximum nested items", value: 0, minimum: 1 }),
        defaults.max_total_bytes == 0x2000_0000,
        defaults.max_collection_items == 4_000_000,
        defaults.max_string_bytes == 0x100_0000,
        defaults.max_nested_items == 4_000_000,
{
}

/// A payload is refused for the length of its file exactly if the file exceeds the budget or
/// what memory can hold.
pub proof fn law_files_within_the_budget_are_not_refused(len: nat, limits: SnapshotLimits)
    ensures
        frame::total_overrun(len, limits) is None <==> len + 160 <= limits.max_total_bytes && len
            + 160 <= usize::MAX,
        len + 160 > limits.max_total_bytes && len + 160 <= u64::MAX ==> frame::total_overrun(
            len,
            limits,
        ) == Some(
            SnapshotError::Limit {
                field: "total bytes",
                value: (len + 160) as u64,
                maximum: limits.max_total_bytes,
            },
        ),
        len + 160 > u64::MAX ==> frame::total_overrun(len, limits) == Some(
            SnapshotError::Limit {
                field: "total bytes",
                value: u64::MAX,
                maximum: limits.max_total_bytes,
            },
        ),
        len + 160 <= limits.max_total_bytes && len + 160 > usize::MAX ==> frame::total_overrun(
            len,
            limits,
        ) == Some(
            SnapshotError::Limit {
                field: "total bytes",
                value: (len + 160) as u64,
                maximum: usize::MAX as u64,
            },
        ),
{
}

/// The fixed part of a snapshot file, around a payload.
#[verifier::opaque]
pub open spec fn is_sealed(bytes: Seq<u8>, file: SnapshotFileView, payload: Seq<u8>) -> bool {
    let len = payload.len();
    let end = bytes.len() - 32;
    &&& bytes.len() == len + 160
    &&& bytes.subrange(0, 6) == seq![0x50u8, 0x44, 0x42, 0x4e, 1, 0]
    &&& bytes.subrange(6, 8) == model::le(128, 2)
    &&& bytes.subrange(8, 10) == model::le(32, 2)
    &&& forall|i: int| 10 <= i < 16 ==> (#[trigger] bytes[i]) == 0
    &&& bytes.subrange(16, 24) == model::le(len + 160, 8)
    &&& bytes.subrange(24, 32) == model::le(len, 8)
    &&& bytes.subrange(32, 48) == file.uuid
    &&& bytes.subrange(48, 52) == model::le(file.semantics as nat, 4)
    &&& forall|i: int| 52 <= i < 56 ==> (#[trigger] bytes[i]) == 0
    &&& bytes.subrange(56, 64) == model::le(file.watermark as nat, 8)
    &&& bytes.subrange(64, 72) == model::le(file.engine.sequence as nat, 8)
    &&& bytes.subrange(72, 88) == model::le(file.engine.publication_revision as nat, 16)
    &&& bytes.subrange(88, 96) == model::le(file.engine.events_pruned_through as nat, 8)
    &&& forall|i: int| 96 <= i < 128 ==> (#[trigger] bytes[i]) == 0
    &&& bytes.subrange(128, end) == payload
    &&& forall|i: int|
        0 <= i < 32 ==> (#[trigger] bytes[end + i]) == digest::blake3_hash(bytes.take(end))[i]
}

/// The model of sealing lays files out like this.
pub proof fn law_files_are_laid_out(file: SnapshotFileView, payload: Seq<u8>, bytes: Seq<u8>)
    requires
        file.uuid.len() == 16,
    ensures
        is_sealed(bytes, file, payload) <==> bytes == frame::sealed_bytes(file, payload),
{
    reveal(is_sealed);
    let len = payload.len();
    let header = frame::header_bytes(file, len);
    frame::lemma_header_layout(file, len);
    let signed = header + payload;
    let sealed = frame::sealed_bytes(file, payload);
    let end = len as int + 128;
    let parts = |b: Seq<u8>|
        b.subrange(0, 6) + b.subrange(6, 8) + b.subrange(8, 10) + b.subrange(10, 16) + b.subrange(
            16,
            24,
        ) + b.subrange(24, 32) + b.subrange(32, 48) + b.subrange(48, 52) + b.subrange(52, 56)
            + b.subrange(56, 64) + b.subrange(64, 72) + b.subrange(72, 88) + b.subrange(88, 96)
            + b.subrange(96, 128);
    assert(sealed.len() == len + 160);
    assert(sealed.subrange(0, 6) =~= header.subrange(0, 6));
    assert(sealed.subrange(6, 8) =~= header.subrange(6, 8));
    assert(sealed.subrange(8, 10) =~= header.subrange(8, 10));
    assert(sealed.subrange(10, 16) =~= header.subrange(10, 16));
    assert(sealed.subrange(16, 24) =~= header.subrange(16, 24));
    assert(sealed.subrange(24, 32) =~= header.subrange(24, 32));
    assert(sealed.subrange(32, 48) =~= header.subrange(32, 48));
    assert(sealed.subrange(48, 52) =~= header.subrange(48, 52));
    assert(sealed.subrange(52, 56) =~= header.subrange(52, 56));
    assert(sealed.subrange(56, 64) =~= header.subrange(56, 64));
    assert(sealed.subrange(64, 72) =~= header.subrange(64, 72));
    assert(sealed.subrange(72, 88) =~= header.subrange(72, 88));
    assert(sealed.subrange(88, 96) =~= header.subrange(88, 96));
    assert(sealed.subrange(96, 128) =~= header.subrange(96, 128));
    assert(sealed.subrange(128, end) =~= payload);
    assert(sealed.take(end) =~= signed);
    assert forall|i: int| 10 <= i < 16 implies (#[trigger] sealed[i]) == 0 by {
        assert(sealed[i] == header.subrange(10, 16)[i - 10]);
    }
    assert forall|i: int| 52 <= i < 56 implies (#[trigger] sealed[i]) == 0 by {
        assert(sealed[i] == header.subrange(52, 56)[i - 52]);
    }
    assert forall|i: int| 96 <= i < 128 implies (#[trigger] sealed[i]) == 0 by {
        assert(sealed[i] == header.subrange(96, 128)[i - 96]);
    }
    assert forall|i: int| 0 <= i < 32 implies (#[trigger] sealed[end + i]) == digest::blake3_hash(
        sealed.take(end),
    )[i] by {
        assert(sealed[end + i] == digest::full_hash(signed)[i]);
    }
    assert(is_sealed(sealed, file, payload));
    if is_sealed(bytes, file, payload) {
        assert(bytes.subrange(10, 16) =~= sealed.subrange(10, 16));
        assert(bytes.subrange(52, 56) =~= sealed.subrange(52, 56));
        assert(bytes.subrange(96, 128) =~= sealed.subrange(96, 128));
        assert(parts(bytes) == parts(sealed));
        assert(bytes.take(128) =~= parts(bytes));
        assert(sealed.take(128) =~= parts(sealed));
        assert(bytes.take(end) =~= bytes.take(128) + bytes.subrange(128, end));
        assert(sealed.take(end) =~= sealed.take(128) + sealed.subrange(128, end));
        assert(bytes.take(end) == sealed.take(end));
        assert forall|i: int| 0 <= i < bytes.len() implies bytes[i] == sealed[i] by {
            if i < end {
                assert(bytes.take(end)[i] == sealed.take(end)[i]);
            } else {
                let k = i - end;
                assert(bytes[end + k] == digest::blake3_hash(bytes.take(end))[k]);
                assert(sealed[end + k] == digest::blake3_hash(sealed.take(end))[k]);
            }
        }
        assert(bytes =~= sealed);
    }
}

/// The payload of a snapshot is its four lists, one behind the other.
pub proof fn law_payload_holds_four_lists(engine: EngineSnapshotView)
    ensures
        ({
            let pools = model::enc_list("resource pools", engine.resource_pools);
            let promises = model::enc_list("promises", engine.promises);
            let events = model::enc_list("events", engine.events);
            let records = model::enc_list("idempotency records", engine.idempotency_records);
            let payload = frame::payload_enc(engine);
            &&& payload.fail is None <==> pools.fail is None && promises.fail is None && events.fail
                is None && records.fail is None
            &&& payload.fail is None ==> payload.bytes == pools.bytes + promises.bytes
                + events.bytes + records.bytes
            &&& pools.fail is Some ==> payload.fail == pools.fail
            &&& pools.fail is None && promises.fail is Some ==> payload.fail == promises.fail
            &&& pools.fail is None && promises.fail is None && events.fail is Some ==> payload.fail
                == events.fail
            &&& pools.fail is None && promises.fail is None && events.fail is None && records.fail
                is Some ==> payload.fail == records.fail
        }),
{
}

/// Sealing puts the header before a payload and the checksum behind it, unless the file is too
/// long or memory for it is refused.
pub proof fn law_seal_granted(
    file: &SnapshotFile,
    payload: Vec<u8>,
    limits: SnapshotLimits,
    buffer: Vec<u8>,
    granted: bool,
    out: Result<Vec<u8>, SnapshotError>,
)
    requires
        call_ensures(codec::seal_granted, (file, payload, limits, buffer, granted), out),
        file@.uuid.len() == 16,
    ensures
        match out {
            Ok(bytes) => {
                &&& granted
                &&& payload@.len() + 160 <= limits.max_total_bytes
                &&& payload@.len() + 160 <= usize::MAX
                &&& is_sealed(bytes@, file@, payload@)
            },
            Err(error) => {
                ||| payload@.len() + 160 > limits.max_total_bytes && error
                    == frame::total_overrun(payload@.len(), limits)->0
                ||| payload@.len() + 160 > usize::MAX && error == frame::total_overrun(
                    payload@.len(),
                    limits,
                )->0
                ||| !granted && payload@.len() + 160 <= limits.max_total_bytes && error == (
                SnapshotError::Allocation {
                    field: "total bytes",
                    requested: (payload@.len() + 160) as u64,
                })
            },
        },
{
    if let Ok(bytes) = out {
        law_files_are_laid_out(file@, payload@, bytes@);
    }
}

/// A list is within its budget.
pub open spec fn conflicts_within(
    conflicts: Seq<AvailabilityConflictView>,
    limits: SnapshotLimits,
) -> bool {
    &&& conflicts.len() <= limits.max_nested_items
    &&& forall|i: int|
        0 <= i < conflicts.len() ==> (#[trigger] conflicts[i]).conflicting_promise_ids.len()
            <= limits.max_nested_items
}

/// Every list of a response is within its budget.
pub open spec fn response_within(
    response: Result<CommandResultView, DomainError>,
    limits: SnapshotLimits,
) -> bool {
    match response {
        Ok(CommandResultView::CapacityRevised(outcome)) => {
            &&& outcome.deficits.len() <= limits.max_nested_items
            &&& outcome.affected_promise_ids.len() <= limits.max_nested_items
            &&& forall|i: int|
                0 <= i < outcome.deficits.len() ==> (
                #[trigger] outcome.deficits[i]).affected_promise_ids.len()
                    <= limits.max_nested_items
        },
        Ok(CommandResultView::HoldCompleted(HoldOutcomeView::Unavailable { conflicts })) => {
            conflicts_within(conflicts, limits)
        },
        Ok(CommandResultView::PromiseReplaced(ReplaceOutcomeView::Unavailable { conflicts })) => {
            conflicts_within(conflicts, limits)
        },
        Ok(CommandResultView::ChoiceCompleted(ChoiceOutcomeView::Unavailable { conflicts })) => {
            &&& conflicts.len() <= limits.max_nested_items
            &&& forall|i: int|
                0 <= i < conflicts.len() ==> conflicts_within(
                    (#[trigger] conflicts[i]).conflicts,
                    limits,
                )
        },
        _ => true,
    }
}

/// Every list and every text of the state is within its budget.
pub open spec fn state_within(engine: EngineSnapshotView, limits: SnapshotLimits) -> bool {
    &&& engine.resource_pools.len() <= limits.max_collection_items
    &&& engine.promises.len() <= limits.max_collection_items
    &&& engine.events.len() <= limits.max_collection_items
    &&& engine.idempotency_records.len() <= limits.max_collection_items
    &&& forall|i: int| #![trigger engine.resource_pools[i]]
        0 <= i < engine.resource_pools.len() ==> encode_utf8(
            engine.resource_pools[i].display_name,
        ).len() <= limits.max_string_bytes && encode_utf8(
            engine.resource_pools[i].unit.name,
        ).len() <= limits.max_string_bytes
            && engine.resource_pools[i].capacity_curve.segments.len() <= limits.max_nested_items
    &&& forall|i: int| #![trigger engine.promises[i]]
        0 <= i < engine.promises.len() ==> engine.promises[i].bundle.claims.len()
            <= limits.max_nested_items
    &&& forall|i: int| #![trigger engine.events[i]]
        0 <= i < engine.events.len() ==> (engine.events[i].subject matches EventDataView::Deficit {
            affected_promise_ids,
            ..
        } ==> affected_promise_ids.len() <= limits.max_nested_items)
    &&& forall|i: int| #![trigger engine.idempotency_records[i]]
        0 <= i < engine.idempotency_records.len() ==> encode_utf8(
            engine.idempotency_records[i].client_id,
        ).len() <= limits.max_string_bytes && encode_utf8(
            engine.idempotency_records[i].idempotency_key,
        ).len() <= limits.max_string_bytes && response_within(
            engine.idempotency_records[i].response,
            limits,
        )
}

/// The first value over its budget decides.
pub proof fn law_first_overrun_decides<T: Budgeted>(items: Seq<T>, limits: SnapshotLimits)
    ensures
        budget::first_overrun(items, limits) is None <==> forall|i: int|
            0 <= i < items.len() ==> (#[trigger] items[i]).overrun(limits) is None,
        budget::first_overrun(items, limits) matches Some(error) ==> exists|i: int|
            0 <= i < items.len() && (#[trigger] items[i]).overrun(limits) == Some(error)
                && forall|k: int|
                0 <= k < i ==> (#[trigger] items[k]).overrun(limits) is None,
    decreases items.len(),
{
    if items.len() > 0 {
        let fewer = items.drop_last();
        law_first_overrun_decides(fewer, limits);
        assert forall|i: int| 0 <= i < fewer.len() implies fewer[i] == items[i] by {}
        match budget::first_overrun(fewer, limits) {
            Some(error) => {
                let i = choose|i: int|
                    0 <= i < fewer.len() && (#[trigger] fewer[i]).overrun(limits) == Some(error)
                        && forall|k: int|
                        0 <= k < i ==> (#[trigger] fewer[k]).overrun(limits) is None;
                assert(items[i].overrun(limits) == Some(error));
                assert forall|k: int| 0 <= k < i implies (#[trigger] items[k]).overrun(limits)
                    is None by {
                    assert(fewer[k].overrun(limits) is None);
                }
            },
            None => {
                assert forall|k: int| 0 <= k < fewer.len() implies (#[trigger] items[k]).overrun(
                    limits,
                ) is None by {
                    assert(fewer[k].overrun(limits) is None);
                }
                let n = fewer.len() as int;
                assert(items[n] == items.last());
            },
        }
    }
}

/// Conflicts exceed no budget exactly if they are within it.
proof fn lemma_conflicts(conflicts: Seq<AvailabilityConflictView>, limits: SnapshotLimits)
    ensures
        budget::nested_overrun("availability conflicts", conflicts, limits) is None
            <==> conflicts_within(conflicts, limits),
{
    law_first_overrun_decides(conflicts, limits);
    if conflicts_within(conflicts, limits) {
        assert forall|i: int| 0 <= i < conflicts.len() implies (#[trigger] conflicts[i]).overrun(
            limits,
        ) is None by {}
    }
    if budget::nested_overrun("availability conflicts", conflicts, limits) is None {
        assert forall|i: int| 0 <= i < conflicts.len() implies (
        #[trigger] conflicts[i]).conflicting_promise_ids.len() <= limits.max_nested_items by {
            assert(conflicts[i].overrun(limits) is None);
        }
    }
}

/// A response exceeds no budget exactly if its lists are within it.
proof fn lemma_response(response: Result<CommandResultView, DomainError>, limits: SnapshotLimits)
    ensures
        response.overrun(limits) is None <==> response_within(response, limits),
{
    match response {
        Ok(CommandResultView::CapacityRevised(outcome)) => {
            let deficits = outcome.deficits;
            law_first_overrun_decides(deficits, limits);
            if response_within(response, limits) {
                assert forall|i: int| 0 <= i < deficits.len() implies (
                #[trigger] deficits[i]).overrun(limits) is None by {
                    assert(outcome.deficits[i].affected_promise_ids.len()
                        <= limits.max_nested_items);
                }
            }
            if response.overrun(limits) is None {
                assert forall|i: int| 0 <= i < deficits.len() implies (
                #[trigger] outcome.deficits[i]).affected_promise_ids.len()
                    <= limits.max_nested_items by {
                    assert(deficits[i].overrun(limits) is None);
                }
            }
        },
        Ok(CommandResultView::HoldCompleted(HoldOutcomeView::Unavailable { conflicts })) => {
            lemma_conflicts(conflicts, limits);
        },
        Ok(CommandResultView::PromiseReplaced(ReplaceOutcomeView::Unavailable { conflicts })) => {
            lemma_conflicts(conflicts, limits);
        },
        Ok(CommandResultView::ChoiceCompleted(ChoiceOutcomeView::Unavailable { conflicts })) => {
            law_first_overrun_decides(conflicts, limits);
            assert forall|i: int| 0 <= i < conflicts.len() implies ((
            #[trigger] conflicts[i]).overrun(limits) is None <==> conflicts_within(
                conflicts[i].conflicts,
                limits,
            )) by {
                lemma_conflicts(conflicts[i].conflicts, limits);
            }
            if response_within(response, limits) {
                assert forall|i: int| 0 <= i < conflicts.len() implies (
                #[trigger] conflicts[i]).overrun(limits) is None by {
                    assert(conflicts_within(conflicts[i].conflicts, limits));
                }
            }
            if response.overrun(limits) is None {
                assert forall|i: int| 0 <= i < conflicts.len() implies conflicts_within(
                    (#[trigger] conflicts[i]).conflicts,
                    limits,
                ) by {
                    assert(conflicts[i].overrun(limits) is None);
                }
            }
        },
        _ => {},
    }
}

/// A state exceeds no budget exactly if every list and every text of it is within its budget.
pub proof fn law_states_within_budgets_are_not_refused(
    engine: EngineSnapshotView,
    limits: SnapshotLimits,
)
    ensures
        frame::engine_overrun(engine, limits) is None <==> state_within(engine, limits),
{
    let pools = engine.resource_pools;
    let promises = engine.promises;
    let events = engine.events;
    let records = engine.idempotency_records;
    law_first_overrun_decides(pools, limits);
    law_first_overrun_decides(promises, limits);
    law_first_overrun_decides(events, limits);
    law_first_overrun_decides(records, limits);
    assert forall|i: int| 0 <= i < records.len() implies ((#[trigger] records[i]).response.overrun(
        limits,
    ) is None <==> response_within(records[i].response, limits)) by {
        lemma_response(records[i].response, limits);
    }
    if state_within(engine, limits) {
        assert forall|i: int| 0 <= i < pools.len() implies (#[trigger] pools[i]).overrun(limits)
            is None by {
            assert(engine.resource_pools[i] == pools[i]);
        }
        assert forall|i: int| 0 <= i < promises.len() implies (#[trigger] promises[i]).overrun(
            limits,
        ) is None by {
            assert(engine.promises[i] == promises[i]);
        }
        assert forall|i: int| 0 <= i < events.len() implies (#[trigger] events[i]).overrun(limits)
            is None by {
            assert(engine.events[i] == events[i]);
        }
        assert forall|i: int| 0 <= i < records.len() implies (#[trigger] records[i]).overrun(limits)
            is None by {
            assert(engine.idempotency_records[i] == records[i]);
        }
    }
    if frame::engine_overrun(engine, limits) is None {
        assert forall|i: int| 0 <= i < pools.len() implies (#[trigger] pools[i]).overrun(limits)
            is None by {}
        assert forall|i: int| 0 <= i < promises.len() implies (#[trigger] promises[i]).overrun(
            limits,
        ) is None by {}
        assert forall|i: int| 0 <= i < events.len() implies (#[trigger] events[i]).overrun(limits)
            is None by {}
        assert forall|i: int| 0 <= i < records.len() implies (#[trigger] records[i]).overrun(limits)
            is None by {}
        assert(state_within(engine, limits)) by {
            assert forall|i: int| #![trigger engine.resource_pools[i]]
                0 <= i < engine.resource_pools.len() implies encode_utf8(
                engine.resource_pools[i].display_name,
            ).len() <= limits.max_string_bytes && encode_utf8(
                engine.resource_pools[i].unit.name,
            ).len() <= limits.max_string_bytes
                && engine.resource_pools[i].capacity_curve.segments.len()
                <= limits.max_nested_items by {
                assert(pools[i].overrun(limits) is None);
            }
            assert forall|i: int| #![trigger engine.promises[i]]
                0 <= i < engine.promises.len() implies engine.promises[i].bundle.claims.len()
                <= limits.max_nested_items by {
                assert(promises[i].overrun(limits) is None);
            }
            assert forall|i: int| #![trigger engine.events[i]] 0 <= i < engine.events.len() implies (
            engine.events[i].subject matches EventDataView::Deficit { affected_promise_ids, .. }
                ==> affected_promise_ids.len() <= limits.max_nested_items) by {
                assert(events[i].overrun(limits) is None);
            }
            assert forall|i: int| #![trigger engine.idempotency_records[i]]
                0 <= i < engine.idempotency_records.len() implies encode_utf8(
                engine.idempotency_records[i].client_id,
            ).len() <= limits.max_string_bytes && encode_utf8(
                engine.idempotency_records[i].idempotency_key,
            ).len() <= limits.max_string_bytes && response_within(
                engine.idempotency_records[i].response,
                limits,
            ) by {
                assert(records[i].overrun(limits) is None);
                assert(records[i].response.overrun(limits) is None);
            }
        }
    }
}

/// A count or a text is reported as too large exactly if it is.
pub proof fn law_budget_checks(
    field: &'static str,
    count: usize,
    maximum: u32,
    text: &str,
    items: Result<(), SnapshotError>,
    string: Result<(), SnapshotError>,
    engine: &EngineSnapshot,
    limits: SnapshotLimits,
    checked: Result<(), SnapshotError>,
)
    requires
        call_ensures(budget::check_items, (field, count, maximum), items),
        call_ensures(budget::check_string, (field, text, maximum), string),
        call_ensures(codec::check_engine, (engine, limits), checked),
    ensures
        items is Ok <==> count <= maximum,
        items matches Err(error) ==> error == (SnapshotError::Limit {
            field,
            value: count as u64,
            maximum: maximum as u64,
        }),
        string is Ok <==> encode_utf8(text@).len() <= maximum,
        string matches Err(error) ==> error == (SnapshotError::Limit {
            field,
            value: encode_utf8(text@).len() as u64,
            maximum: maximum as u64,
        }),
        checked is Ok <==> state_within(engine@, limits),
{
    law_states_within_budgets_are_not_refused(engine@, limits);
}

/// Encoding gives the file, wherever the limits can be used, the state keeps its budgets and can
/// be written, the file is not too long, and memory is granted. Else it says what is wrong.
pub proof fn law_encode_granted(
    file: &SnapshotFile,
    limits: SnapshotLimits,
    grants: &[bool],
    out: Result<Vec<u8>, SnapshotError>,
)
    requires
        call_ensures(codec::encode_granted, (file, limits, grants), out),
        file@.uuid.len() == 16,
    ensures
        ({
            let payload = frame::payload_enc(file@.engine);
            let len = payload.bytes.len();
            let first = grants@.len() > 0 ==> grants@[0];
            let second = grants@.len() > 1 ==> grants@[1];
            let owed = usable(limits) && state_within(file@.engine, limits) && payload.fail is None
                && len + 160 <= limits.max_total_bytes && first && second;
            &&& out is Ok <==> owed
            &&& match out {
                Ok(bytes) => is_sealed(bytes@, file@, payload.bytes),
                Err(error) => {
                    ||| limits::limits_fault(limits) == Some(error)
                    ||| usable(limits) && frame::engine_overrun(file@.engine, limits) == Some(error)
                    ||| usable(limits) && !first && error == (SnapshotError::Allocation {
                        field: "payload bytes",
                        requested: 16,
                    })
                    ||| usable(limits) && payload.fail is Some && error
                        == SnapshotError::MalformedPayload(payload.fail->0)
                    ||| usable(limits) && len + 160 > limits.max_total_bytes
                        && frame::total_overrun(len, limits) == Some(error)
                    ||| usable(limits) && !second && error == (SnapshotError::Allocation {
                        field: "total bytes",
                        requested: (len + 160) as u64,
                    })
                },
            }
        }),
{
    let payload = frame::payload_enc(file@.engine);
    law_states_within_budgets_are_not_refused(file@.engine, limits);
    law_files_within_the_budget_are_not_refused(payload.bytes.len(), limits);
    if let Ok(bytes) = out {
        law_files_are_laid_out(file@, payload.bytes, bytes@);
    }
}

/// What encoding gives is the file, also where memory is asked for.
pub proof fn law_encode(
    file: &SnapshotFile,
    limits: SnapshotLimits,
    out: Result<Vec<u8>, SnapshotError>,
)
    requires
        call_ensures(codec::encode, (file, limits), out),
        file@.uuid.len() == 16,
    ensures
        ({
            let payload = frame::payload_enc(file@.engine);
            let len = payload.bytes.len();
            let owed = usable(limits) && state_within(file@.engine, limits) && payload.fail is None
                && len + 160 <= limits.max_total_bytes;
            match out {
                Ok(bytes) => owed && is_sealed(bytes@, file@, payload.bytes),
                Err(error) => owed ==> error is Allocation,
            }
        }),
{
    let payload = frame::payload_enc(file@.engine);
    law_states_within_budgets_are_not_refused(file@.engine, limits);
    law_files_within_the_budget_are_not_refused(payload.bytes.len(), limits);
    if let Ok(bytes) = out {
        law_files_are_laid_out(file@, payload.bytes, bytes@);
    }
}

/// What the fixed part of a file says, or the first thing that is wrong with it.
pub open spec fn header_verdict(
    bytes: Seq<u8>,
    limits: SnapshotLimits,
    uuid: Seq<u8>,
    semantics: u32,
    watermark: u64,
    fault: Option<SnapshotError>,
) -> bool {
    let total = model::un_le(bytes.subrange(16, 24));
    let payload = model::un_le(bytes.subrange(24, 32));
    let found_semantics = model::un_le(bytes.subrange(48, 52));
    let found_watermark = model::un_le(bytes.subrange(56, 64));
    let start = bytes.len() >= 128 && bytes.len() <= limits.max_total_bytes && bytes.subrange(0, 4)
        == seq![0x50u8, 0x44, 0x42, 0x4e];
    let fixed = start && bytes[4] == 1 && bytes[5] == 0 && model::un_le(bytes.subrange(6, 8)) == 128
        && model::un_le(bytes.subrange(8, 10)) == 32;
    let reserved = forall|i: int|
        10 <= i < 16 || 52 <= i < 56 || 96 <= i < 128 ==> (#[trigger] bytes[i]) == 0;
    let lengths = fixed && reserved && total <= limits.max_total_bytes && total == payload + 160;
    match fault {
        None => {
            &&& lengths
            &&& total == bytes.len()
            &&& bytes.subrange(32, 48) == uuid
            &&& found_semantics == semantics
            &&& found_watermark == watermark
            &&& forall|i: int|
                0 <= i < 32 ==> (#[trigger] bytes[bytes.len() - 32 + i]) == digest::blake3_hash(
                    bytes.take(bytes.len() - 32),
                )[i]
        },
        Some(SnapshotError::Limit { field, value, maximum }) => {
            &&& field == "total bytes"
            &&& maximum == limits.max_total_bytes
            &&& bytes.len() > limits.max_total_bytes && value == bytes.len() as u64 || fixed
                && reserved && total > limits.max_total_bytes && value == total
        },
        Some(SnapshotError::Truncated { expected, actual }) => {
            &&& actual == bytes.len() as u64
            &&& bytes.len() <= limits.max_total_bytes
            &&& bytes.len() < 128 && expected == 128 || lengths && total != bytes.len() && expected
                == total
        },
        Some(SnapshotError::InvalidMagic(found)) => {
            &&& bytes.len() >= 128
            &&& found@ == bytes.subrange(0, 4)
            &&& bytes.subrange(0, 4) != seq![0x50u8, 0x44, 0x42, 0x4e]
        },
        Some(SnapshotError::UnsupportedVersion(version)) => {
            &&& start
            &&& version == bytes[4] && version != 1
        },
        Some(SnapshotError::UnsupportedFlags(flags)) => {
            &&& start
            &&& bytes[4] == 1
            &&& flags == bytes[5] && flags != 0
        },
        Some(SnapshotError::MalformedHeader(field)) => {
            &&& start
            &&& bytes[4] == 1
            &&& bytes[5] == 0
            &&& {
                ||| field == "header_len" && model::un_le(bytes.subrange(6, 8)) != 128
                ||| field == "checksum_len" && model::un_le(bytes.subrange(6, 8)) == 128
                    && model::un_le(bytes.subrange(8, 10)) != 32
                ||| field == "payload_len" && fixed && reserved && payload + 160 > u64::MAX
                ||| field == "total_len" && fixed && reserved && total != payload + 160
            }
        },
        Some(SnapshotError::NonZeroReserved) => fixed && !reserved,
        Some(SnapshotError::DatabaseUuidMismatch { expected, actual }) => {
            &&& lengths
            &&& total == bytes.len()
            &&& expected@ == uuid
            &&& actual@ == bytes.subrange(32, 48)
            &&& expected@ != actual@
        },
        Some(SnapshotError::UnsupportedSemanticsVersion(found)) => {
            &&& lengths
            &&& bytes.subrange(32, 48) == uuid
            &&& found == found_semantics && found != semantics
        },
        Some(SnapshotError::FilenameWatermarkMismatch { filename, header }) => {
            &&& lengths
            &&& bytes.subrange(32, 48) == uuid
            &&& found_semantics == semantics
            &&& filename == watermark
            &&& header == found_watermark && header != watermark
        },
        Some(SnapshotError::ChecksumMismatch) => {
            &&& lengths
            &&& bytes.subrange(32, 48) == uuid
            &&& found_semantics == semantics
            &&& found_watermark == watermark
            &&& exists|i: int|
                0 <= i < 32 && (#[trigger] bytes[bytes.len() - 32 + i]) != digest::blake3_hash(
                    bytes.take(bytes.len() - 32),
                )[i]
        },
        _ => false,
    }
}

/// The fixed part of a file is accepted, or refused for the first thing that is wrong with it.
pub proof fn law_file_headers_are_judged(
    bytes: Seq<u8>,
    limits: SnapshotLimits,
    uuid: DatabaseUuid,
    semantics: u32,
    watermark: u64,
)
    ensures
        header_verdict(
            bytes,
            limits,
            uuid@,
            semantics,
            watermark,
            frame::header_fault(bytes, limits, uuid, semantics, watermark),
        ),
{
    if bytes.len() >= 128 {
        model::lemma_spans();
        model::lemma_le_of_un_le(bytes.subrange(6, 8));
        model::lemma_le_of_un_le(bytes.subrange(8, 10));
        model::lemma_le_of_un_le(bytes.subrange(16, 24));
        model::lemma_le_of_un_le(bytes.subrange(24, 32));
        model::lemma_le_of_un_le(bytes.subrange(48, 52));
        model::lemma_le_of_un_le(bytes.subrange(56, 64));
        assert(frame::MAGIC@ =~= seq![0x50u8, 0x44, 0x42, 0x4e]);
        assert(layout::first_four(bytes)@ =~= bytes.subrange(0, 4));
        assert(crate::file::identity::identity_at(bytes, 32)@ =~= bytes.subrange(32, 48));
        let a = bytes.subrange(10, 16);
        let b = bytes.subrange(52, 56);
        let c = bytes.subrange(96, 128);
        let reserved = forall|i: int|
            10 <= i < 16 || 52 <= i < 56 || 96 <= i < 128 ==> (#[trigger] bytes[i]) == 0;
        if reserved {
            assert(layout::all_zero(a) && layout::all_zero(b) && layout::all_zero(c));
        }
        if layout::all_zero(a) && layout::all_zero(b) && layout::all_zero(c) {
            assert forall|i: int| 10 <= i < 16 || 52 <= i < 56 || 96 <= i < 128 implies (
            #[trigger] bytes[i]) == 0 by {
                if i < 16 {
                    assert(a[i - 10] == bytes[i]);
                } else if i < 56 {
                    assert(b[i - 52] == bytes[i]);
                } else {
                    assert(c[i - 96] == bytes[i]);
                }
            }
        }
        let end = bytes.len() - 32;
        let stored = bytes.skip(end);
        let hash = digest::full_hash(bytes.take(end));
        if stored == hash {
            assert forall|i: int| 0 <= i < 32 implies (#[trigger] bytes[bytes.len() - 32 + i])
                == digest::blake3_hash(bytes.take(bytes.len() - 32))[i] by {
                assert(stored[i] == hash[i]);
            }
        } else {
            assert(exists|i: int| 0 <= i < 32 && stored[i] != hash[i]) by {
                if forall|i: int| 0 <= i < 32 ==> stored[i] == hash[i] {
                    assert(stored =~= hash);
                }
            }
            let i = choose|i: int| 0 <= i < 32 && stored[i] != hash[i];
            assert(bytes[bytes.len() - 32 + i] != digest::blake3_hash(bytes.take(end))[i]);
        }
    }
}

/// What is decoded is the content of a file of the database with the watermark of its name that
/// keeps every budget, and every such file of valid values is decoded.
pub proof fn law_decode_contents_granted(
    bytes: &[u8],
    limits: SnapshotLimits,
    uuid: DatabaseUuid,
    semantics: u32,
    watermark: u64,
    grants: &[bool],
    out: Result<EngineSnapshot, SnapshotError>,
)
    requires
        call_ensures(
            codec::decode_contents_granted,
            (bytes, limits, uuid, semantics, watermark, grants),
            out,
        ),
    ensures
        match out {
            Ok(engine) => {
                let file = SnapshotFileView { uuid: uuid@, semantics, watermark, engine: engine@ };
                &&& usable(limits)
                &&& header_verdict(bytes@, limits, uuid@, semantics, watermark, None)
                &&& frame::payload_enc(engine@).fail is None
                &&& is_sealed(bytes@, file, frame::payload_enc(engine@).bytes)
                &&& state_within(engine@, limits)
            },
            Err(error) => {
                ||| limits::limits_fault(limits) == Some(error)
                ||| usable(limits) && header_verdict(
                    bytes@,
                    limits,
                    uuid@,
                    semantics,
                    watermark,
                    Some(error),
                )
                ||| usable(limits) && header_verdict(
                    bytes@,
                    limits,
                    uuid@,
                    semantics,
                    watermark,
                    None,
                ) && frame::payload_dec(
                    bytes@.subrange(128, bytes@.len() - 32),
                    limits,
                    grants@,
                ) == Err::<frame::PayloadView, SnapshotError>(error)
            },
        },
{
    frame::law_snapshot_is_canonical(bytes@, limits, uuid, semantics, watermark, grants@);
    law_file_headers_are_judged(bytes@, limits, uuid, semantics, watermark);
    if let Ok(engine) = out {
        let file = SnapshotFileView { uuid: uuid@, semantics, watermark, engine: engine@ };
        law_files_are_laid_out(file, frame::payload_enc(engine@).bytes, bytes@);
        frame::law_both_directions_keep_the_same_budgets(engine@, limits);
        law_states_within_budgets_are_not_refused(engine@, limits);
    }
}

/// A file of valid values is decoded to them, wherever the limits can be used, the state keeps
/// its budgets, the positions of held alternatives do too, and memory is granted.
pub proof fn law_a_file_is_decoded(
    bytes: &[u8],
    limits: SnapshotLimits,
    uuid: DatabaseUuid,
    semantics: u32,
    watermark: u64,
    grants: &[bool],
    engine: EngineSnapshotView,
    out: Result<EngineSnapshot, SnapshotError>,
)
    requires
        call_ensures(
            codec::decode_contents_granted,
            (bytes, limits, uuid, semantics, watermark, grants),
            out,
        ),
        grants@.len() == 0,
        usable(limits),
        state_within(engine, limits),
        frame::engine_valid(engine),
        frame::positions_within(engine, limits),
        frame::payload_enc(engine).fail is None,
        frame::payload_enc(engine).bytes.len() + 160 <= limits.max_total_bytes,
        bytes@ == frame::sealed_bytes(
            SnapshotFileView { uuid: uuid@, semantics, watermark, engine },
            frame::payload_enc(engine).bytes,
        ),
    ensures
        out matches Ok(read) && read@ == engine,
{
    let file = SnapshotFileView { uuid: uuid@, semantics, watermark, engine };
    law_states_within_budgets_are_not_refused(engine, limits);
    law_files_within_the_budget_are_not_refused(frame::payload_enc(engine).bytes.len(), limits);
    assert(grants@ =~= seq![]);
    frame::law_snapshot_round_trip(file, limits, uuid);
    assert(frame::snapshot_enc(file) == bytes@);
}

/// Positions of held alternatives are within the larger of the budgets for lists.
pub proof fn law_positions(engine: EngineSnapshotView, limits: SnapshotLimits)
    ensures
        frame::positions_within(engine, limits) <==> forall|i: int|
            0 <= i < engine.idempotency_records.len() ==> (
            (#[trigger] engine.idempotency_records[i]).response matches Ok(
                CommandResultView::ChoiceCompleted(
                    ChoiceOutcomeView::Held { alternative_index, .. },
                ),
            ) ==> alternative_index <= limits.max_collection_items || alternative_index
                <= limits.max_nested_items),
{
    let records = engine.idempotency_records;
    if frame::positions_within(engine, limits) {
        assert forall|i: int| 0 <= i < records.len() implies (
        (#[trigger] engine.idempotency_records[i]).response matches Ok(
            CommandResultView::ChoiceCompleted(ChoiceOutcomeView::Held { alternative_index, .. }),
        ) ==> alternative_index <= limits.max_collection_items || alternative_index
            <= limits.max_nested_items) by {
            assert(engine.idempotency_records[i].response == records[i].response);
        }
    }
}

/// Restoring hands the contents to the engine, and keeps the watermark.
pub proof fn law_restore<E: Engine>(
    contents: EngineSnapshot,
    watermark: u64,
    out: Result<DecodedSnapshot<E>, SnapshotError>,
)
    requires
        call_ensures(codec::restore::<E>, (contents, watermark), out),
    ensures
        match out {
            Ok(decoded) => decoded.wal_watermark == watermark && E::restores(
                contents@,
                Some(decoded.engine),
            ),
            Err(error) => error == SnapshotError::InvalidEngineState && E::restores(
                contents@,
                None,
            ),
        },
{
}

/// Decoding decodes the contents and restores the engine in them.
pub proof fn law_decode_granted<E: Engine>(
    bytes: &[u8],
    limits: SnapshotLimits,
    uuid: DatabaseUuid,
    semantics: u32,
    watermark: u64,
    grants: &[bool],
    contents: Result<EngineSnapshot, SnapshotError>,
    out: Result<DecodedSnapshot<E>, SnapshotError>,
)
    requires
        call_ensures(
            codec::decode_contents_granted,
            (bytes, limits, uuid, semantics, watermark, grants),
            contents,
        ),
        call_ensures(
            codec::decode_granted::<E>,
            (bytes, limits, uuid, semantics, watermark, grants),
            out,
        ),
    ensures
        contents matches Err(error) ==> out == Err::<DecodedSnapshot<E>, SnapshotError>(error),
        contents matches Ok(engine) ==> match out {
            Ok(decoded) => decoded.wal_watermark == watermark && E::restores(
                engine@,
                Some(decoded.engine),
            ),
            Err(error) => error == SnapshotError::InvalidEngineState && E::restores(engine@, None),
        },
{
}

/// What is decoded where memory is asked for is the content of a file of the database with the
/// watermark of its name that keeps every budget.
pub proof fn law_decode_contents(
    bytes: &[u8],
    limits: SnapshotLimits,
    uuid: DatabaseUuid,
    semantics: u32,
    watermark: u64,
    out: Result<EngineSnapshot, SnapshotError>,
)
    requires
        call_ensures(codec::decode_contents, (bytes, limits, uuid, semantics, watermark), out),
    ensures
        match out {
            Ok(engine) => {
                let file = SnapshotFileView { uuid: uuid@, semantics, watermark, engine: engine@ };
                &&& usable(limits)
                &&& header_verdict(bytes@, limits, uuid@, semantics, watermark, None)
                &&& frame::payload_enc(engine@).fail is None
                &&& is_sealed(bytes@, file, frame::payload_enc(engine@).bytes)
                &&& state_within(engine@, limits)
            },
            Err(error) => {
                ||| limits::limits_fault(limits) == Some(error)
                ||| usable(limits) && header_verdict(
                    bytes@,
                    limits,
                    uuid@,
                    semantics,
                    watermark,
                    Some(error),
                )
                ||| usable(limits) && header_verdict(
                    bytes@,
                    limits,
                    uuid@,
                    semantics,
                    watermark,
                    None,
                ) && exists|grants: Seq<bool>| #[trigger]
                    frame::payload_dec(
                        bytes@.subrange(128, bytes@.len() - 32),
                        limits,
                        grants,
                    ) == Err::<frame::PayloadView, SnapshotError>(error)
            },
        },
{
    let grants = choose|grants: Seq<bool>|
        codec::contents_view(out) == #[trigger] frame::snapshot_dec(
            bytes@,
            limits,
            uuid,
            semantics,
            watermark,
            grants,
        );
    frame::law_snapshot_is_canonical(bytes@, limits, uuid, semantics, watermark, grants);
    law_file_headers_are_judged(bytes@, limits, uuid, semantics, watermark);
    if let Ok(engine) = out {
        let file = SnapshotFileView { uuid: uuid@, semantics, watermark, engine: engine@ };
        law_files_are_laid_out(file, frame::payload_enc(engine@).bytes, bytes@);
        frame::law_both_directions_keep_the_same_budgets(engine@, limits);
        law_states_within_budgets_are_not_refused(engine@, limits);
    }
}

/// Decoding where memory is asked for restores an engine from the content of such a file.
pub proof fn law_decode<E: Engine>(
    bytes: &[u8],
    limits: SnapshotLimits,
    uuid: DatabaseUuid,
    semantics: u32,
    watermark: u64,
    out: Result<DecodedSnapshot<E>, SnapshotError>,
)
    requires
        call_ensures(codec::decode::<E>, (bytes, limits, uuid, semantics, watermark), out),
    ensures
        out matches Ok(decoded) ==> decoded.wal_watermark == watermark && exists|
            engine: EngineSnapshotView,
        |
            E::restores(engine, Some(decoded.engine)) && #[trigger] is_sealed(
                bytes@,
                SnapshotFileView { uuid: uuid@, semantics, watermark, engine },
                frame::payload_enc(engine).bytes,
            ),
{
    if let Ok(decoded) = out {
        let grants = choose|grants: Seq<bool>|
            codec::decode_outcome(
                #[trigger] frame::snapshot_dec(bytes@, limits, uuid, semantics, watermark, grants),
                watermark,
                out,
            );
        frame::law_snapshot_is_canonical(bytes@, limits, uuid, semantics, watermark, grants);
        let engine = frame::snapshot_dec(bytes@, limits, uuid, semantics, watermark, grants)->Ok_0;
        let file = SnapshotFileView { uuid: uuid@, semantics, watermark, engine };
        law_files_are_laid_out(file, frame::payload_enc(engine).bytes, bytes@);
        assert(is_sealed(
            bytes@,
            SnapshotFileView { uuid: uuid@, semantics, watermark, engine },
            frame::payload_enc(engine).bytes,
        ));
    }
}

/// A state is valid exactly if every value in it is.
pub proof fn law_states_are_checked(engine: &EngineSnapshot, valid: bool)
    requires
        call_ensures(codec::is_engine_valid, (engine,), valid),
    ensures
        valid <==> frame::engine_valid(engine@),
        frame::engine_valid(engine@) <==> {
            &&& forall|i: int|
                0 <= i < engine@.resource_pools.len() ==> (
                #[trigger] engine@.resource_pools[i]).valid()
            &&& forall|i: int|
                0 <= i < engine@.promises.len() ==> (#[trigger] engine@.promises[i]).valid()
            &&& forall|i: int|
                0 <= i < engine@.events.len() ==> (#[trigger] engine@.events[i]).valid()
            &&& forall|i: int|
                0 <= i < engine@.idempotency_records.len() ==> (
                #[trigger] engine@.idempotency_records[i]).valid()
        },
{
}

/// The contents of a state are the models of its lists and its numbers.
pub proof fn law_states_are_seen(engine: EngineSnapshot)
    ensures
        engine@.resource_pools == model::views(engine.resource_pools@),
        engine@.promises == model::views(engine.promises@),
        engine@.events == model::views(engine.events@),
        engine@.idempotency_records == model::views(engine.idempotency_records@),
        engine@.sequence == engine.sequence@,
        engine@.publication_revision == engine.publication_revision,
        engine@.events_pruned_through == engine.events_pruned_through@,
{
}

/// The lists of a payload are read one behind the other up to its end. Each is refused if it is
/// longer than its budget or memory for it is refused.
pub proof fn law_payload_lists<T: Wire>(
    data: Seq<u8>,
    start: int,
    limits: SnapshotLimits,
    field: &'static str,
    count: nat,
    granted: bool,
)
    requires
        0 <= start <= data.len(),
    ensures
        ({
            let within = model::Limits {
                lists: limits.max_collection_items as nat,
                items: limits.max_nested_items as nat,
                strings: limits.max_string_bytes as nat,
            };
            let out = frame::top_items::<T>(data, start, limits, field, count, granted);
            let left = data.len() - start;
            &&& budget::payload_limits(limits) == within
            &&& count > limits.max_collection_items ==> out == Err::<
                (Seq<T>, int),
                SnapshotError,
            >(
                SnapshotError::Limit {
                    field,
                    value: count as u64,
                    maximum: limits.max_collection_items as u64,
                },
            )
            &&& count <= limits.max_collection_items && !granted ==> out == Err::<
                (Seq<T>, int),
                SnapshotError,
            >(
                SnapshotError::Allocation {
                    field,
                    requested: if count <= left {
                        count as u64
                    } else {
                        left as u64
                    },
                },
            )
            &&& out matches Ok((items, end)) ==> {
                &&& items.len() == count
                &&& model::enc_items(items).fail is None
                &&& end == start + model::enc_items(items).bytes.len()
                &&& end <= data.len()
                &&& data.subrange(start, end) == model::enc_items(items).bytes
            }
        }),
{
    reveal(model::at);
    model::lemma_parse_items::<T>(data, start, budget::payload_limits(limits), count, start);
}

/// A list whose length is known is read where it stands as it is written, if it is within its
/// budget and memory for it is granted. Else the length, the memory or the entries are reported.
pub proof fn law_top_lists_are_read<'a, T: Decode>(
    reader: &mut Reader<'a>,
    field: &'static str,
    count: usize,
    list: Vec<T>,
    granted: bool,
    limits: SnapshotLimits,
    out: Result<Vec<T>, SnapshotError>,
    items: Seq<T::V>,
) where <T as View>::V: Wire
    requires
        old(reader).wf(),
        old(reader).limits() == (model::Limits {
            lists: limits.max_collection_items as nat,
            items: limits.max_nested_items as nat,
            strings: limits.max_string_bytes as nat,
        }),
        list@.len() == 0,
        call_ensures(
            codec::read_top_granted::<T>,
            (reader, field, count, list, granted, limits),
            out,
        ),
    ensures
        ({
            let left = old(reader).data().len() - old(reader).pos();
            let most = limits.max_collection_items;
            &&& count > most ==> out == Err::<Vec<T>, SnapshotError>(
                SnapshotError::Limit { field, value: count as u64, maximum: most as u64 },
            )
            &&& count <= most && !granted ==> out == Err::<Vec<T>, SnapshotError>(
                SnapshotError::Allocation {
                    field,
                    requested: if count <= left {
                        count as u64
                    } else {
                        left as u64
                    },
                },
            )
            &&& count <= most && granted && out is Err ==> out->Err_0 is MalformedPayload
        }),
        out matches Ok(found) ==> {
            let all = model::enc_items(model::views(found@));
            &&& granted
            &&& found@.len() == count
            &&& count <= limits.max_collection_items
            &&& wire::stands(*old(reader), all)
            &&& wire::moved(*old(reader), *final(reader), all.bytes.len() as int)
        },
        count <= limits.max_collection_items && granted && items.len() == count && wire::stands(
            *old(reader),
            model::enc_items(items),
        ) && (forall|i: int|
            0 <= i < items.len() ==> (#[trigger] items[i]).valid() && items[i].fits(
                old(reader).limits(),
            )) ==> (out matches Ok(found) && model::views(found@) == items),
{
    reveal(model::at);
    let data = old(reader).data();
    let pos = old(reader).pos();
    let within = old(reader).limits();
    assert(within == budget::payload_limits(limits));
    assert(0 <= pos <= data.len());
    model::lemma_parse_items::<T::V>(data, pos, within, count as nat, pos);
    if items.len() == count && wire::stands(*old(reader), model::enc_items(items)) && (forall|
        i: int,
    |
        0 <= i < items.len() ==> (#[trigger] items[i]).valid() && items[i].fits(within)) {
        model::lemma_items_enc(items, data, pos, within);
    }
}

/// The first list of a payload that is refused decides what is reported, and what is left behind
/// the last list is refused.
pub proof fn law_the_first_refused_list_is_reported(
    data: Seq<u8>,
    limits: SnapshotLimits,
    grants: Seq<bool>,
    pools: Result<(Seq<ResourcePoolView>, int), SnapshotError>,
    promises: Result<(Seq<PromiseView>, int), SnapshotError>,
    events: Result<(Seq<EventView>, int), SnapshotError>,
    records: Result<(Seq<IdempotencyRecordView>, int), SnapshotError>,
)
    requires
        pools == frame::top_list::<ResourcePoolView>(
            data,
            0,
            limits,
            "resource pools",
            grants.len() <= 0 || grants[0],
        ),
        pools matches Ok((_, p1)) ==> promises == frame::top_list::<PromiseView>(
            data,
            p1,
            limits,
            "promises",
            grants.len() <= 1 || grants[1],
        ),
        promises matches Ok((_, p2)) ==> events == frame::top_list::<EventView>(
            data,
            p2,
            limits,
            "events",
            grants.len() <= 2 || grants[2],
        ),
        events matches Ok((_, p3)) ==> records
            == frame::top_list::<IdempotencyRecordView>(
            data,
            p3,
            limits,
            "idempotency records",
            grants.len() <= 3 || grants[3],
        ),
    ensures
        ({
            let out = frame::payload_dec(data, limits, grants);
            &&& pools matches Err(error) ==> out == Err::<PayloadView, SnapshotError>(error)
            &&& pools is Ok ==> (promises matches Err(error) ==> out == Err::<
                PayloadView,
                SnapshotError,
            >(error))
            &&& pools is Ok && promises is Ok ==> (events matches Err(error) ==> out == Err::<
                PayloadView,
                SnapshotError,
            >(error))
            &&& pools is Ok && promises is Ok && events is Ok ==> (records matches Err(error)
                ==> out == Err::<PayloadView, SnapshotError>(error))
            &&& pools is Ok && promises is Ok && events is Ok ==> (records matches Ok((_, end))
                ==> (end == data.len() <==> out is Ok) && (end != data.len() ==> out == Err::<
                PayloadView,
                SnapshotError,
            >(
                SnapshotError::MalformedPayload(
                    StorageError::CorruptRecord("trailing snapshot payload bytes"),
                ),
            )))
        }),
{
}

/// A list of a payload is refused for its length prefix as the payload decoder refuses it, and
/// else as its entries are behind the prefix.
pub proof fn law_lists_start_with_their_length<T: Wire>(
    data: Seq<u8>,
    pos: int,
    limits: SnapshotLimits,
    field: &'static str,
    granted: bool,
)
    requires
        0 <= pos <= data.len(),
    ensures
        ({
            let out = frame::top_list::<T>(data, pos, limits, field, granted);
            let most = if limits.max_collection_items > limits.max_nested_items {
                limits.max_collection_items
            } else {
                limits.max_nested_items
            };
            let count = layout::field(data, pos, pos + 4);
            &&& pos + 4 > data.len() ==> out == Err::<(Seq<T>, int), SnapshotError>(
                SnapshotError::MalformedPayload(StorageError::TruncatedPayload),
            )
            &&& pos + 4 <= data.len() && count > most ==> out == Err::<
                (Seq<T>, int),
                SnapshotError,
            >(
                SnapshotError::MalformedPayload(
                    StorageError::InvalidLength { field, length: count as u64 },
                ),
            )
            &&& pos + 4 <= data.len() && count <= most ==> out == frame::top_items::<T>(
                data,
                pos + 4,
                limits,
                field,
                count,
                granted,
            )
        }),
{
}

} // verus!
