//! What values are seen as, and what is read of bytes that are no values.

use crate::command::{
    CapacityRevisionMode, CommandOperation, CommandOperationView,
};
use crate::domain::capacity;
use crate::domain::capacity::{CapacityCurveView, CapacitySegmentView, IntervalView, UnitView};
use crate::domain::claims::{BundleView, ChoiceView, ClaimView, RelativeBundleView, RelativeClaimView};
use crate::domain::promise::{PromiseState, PromiseView, ReplacementState};
use crate::error::{DomainError, StorageError};
use crate::event;
use crate::event::{EventData, EventDataView, EventKind, EventView};
use crate::laws::layouts;
use crate::outcome;
use crate::outcome::{
    AvailabilityConflictView, CapacityDeficitView, CapacityRevisionOutcomeView, ChoiceConflictView,
    ChoiceOutcome, ChoiceOutcomeView, CommandResult, CommandResultView, HoldOutcome,
    HoldOutcomeView, ReplaceOutcome, ReplaceOutcomeView, SlotOutcome, SlotOutcomeView,
};
use crate::snapshot::codec::SnapshotFile;
use crate::wire::model;
use crate::wire::model::{Limits, Wire};
use vstd::prelude::*;

verus! {

/// What operations are seen as.
pub proof fn law_operations_are_seen(value: CommandOperation)
    ensures
        value@ == match value {
            CommandOperation::CreateResourcePool {
                resource_pool_id,
                display_name,
                unit,
                capacity_curve,
            } => CommandOperationView::CreateResourcePool {
                resource_pool_id,
                display_name: display_name@,
                unit: unit@,
                capacity_curve: capacity_curve@,
            },
            CommandOperation::ReviseCapacity {
                resource_pool_id,
                capacity_curve,
                mode,
            } => CommandOperationView::ReviseCapacity {
                resource_pool_id,
                capacity_curve: capacity_curve@,
                mode,
            },
            CommandOperation::Hold {
                promise_id,
                bundle,
                expires_at,
            } => CommandOperationView::Hold {
                promise_id,
                bundle: bundle@,
                expires_at,
            },
            CommandOperation::Commit {
                promise_id,
                expected_version,
            } => CommandOperationView::Commit {
                promise_id,
                expected_version: expected_version@,
            },
            CommandOperation::Release {
                promise_id,
                expected_version,
            } => CommandOperationView::Release {
                promise_id,
                expected_version: expected_version@,
            },
            CommandOperation::Replace {
                promise_id,
                expected_version,
                new_bundle,
                new_state,
            } => CommandOperationView::Replace {
                promise_id,
                expected_version: expected_version@,
                new_bundle: new_bundle@,
                new_state,
            },
            CommandOperation::ProcessExpirations => CommandOperationView::ProcessExpirations,
            CommandOperation::HoldOneOf {
                promise_id,
                choice,
                expires_at,
            } => CommandOperationView::HoldOneOf {
                promise_id,
                choice: choice@,
                expires_at,
            },
            CommandOperation::HoldFirstSlot {
                promise_id,
                relative_bundle,
                earliest_start,
                latest_start,
                step,
                expires_at,
            } => CommandOperationView::HoldFirstSlot {
                promise_id,
                relative_bundle: relative_bundle@,
                earliest_start,
                latest_start,
                step,
                expires_at,
            },
        },
{
}

/// What event subjects are seen as.
pub proof fn law_event_subjects_are_seen(value: EventData)
    ensures
        value@ == match value {
            EventData::ResourcePool { resource_pool_id } => EventDataView::ResourcePool {
                resource_pool_id,
            },
            EventData::Promise { promise_id, version } => EventDataView::Promise {
                promise_id,
                version: version@,
            },
            EventData::Deficit {
                resource_pool_id,
                interval,
                quantity,
                affected_promise_ids,
            } => EventDataView::Deficit {
                resource_pool_id,
                interval: interval@,
                quantity,
                affected_promise_ids: affected_promise_ids@,
            },
        },
{
}

/// What hold outcomes are seen as.
pub proof fn law_hold_outcomes_are_seen(value: HoldOutcome)
    ensures
        value@ == match value {
            HoldOutcome::Held(promise_id) => HoldOutcomeView::Held(promise_id),
            HoldOutcome::Unavailable { conflicts } => HoldOutcomeView::Unavailable {
                conflicts: model::views(conflicts@),
            },
        },
{
}

/// What choice outcomes are seen as.
pub proof fn law_choice_outcomes_are_seen(value: ChoiceOutcome)
    ensures
        value@ == match value {
            ChoiceOutcome::Held { promise_id, alternative_index } => ChoiceOutcomeView::Held {
                promise_id,
                alternative_index: alternative_index as nat,
            },
            ChoiceOutcome::Unavailable { conflicts } => ChoiceOutcomeView::Unavailable {
                conflicts: model::views(conflicts@),
            },
        },
{
}

/// What slot outcomes are seen as.
pub proof fn law_slot_outcomes_are_seen(value: SlotOutcome)
    ensures
        value@ == match value {
            SlotOutcome::Held { promise_id, start } => SlotOutcomeView::Held {
                promise_id,
                start,
            },
            SlotOutcome::Unavailable { attempts } => SlotOutcomeView::Unavailable {
                attempts,
            },
        },
{
}

/// What replace outcomes are seen as.
pub proof fn law_replace_outcomes_are_seen(value: ReplaceOutcome)
    ensures
        value@ == match value {
            ReplaceOutcome::Replaced { promise_id, version } => ReplaceOutcomeView::Replaced {
                promise_id,
                version: version@,
            },
            ReplaceOutcome::Unavailable { conflicts } => ReplaceOutcomeView::Unavailable {
                conflicts: model::views(conflicts@),
            },
        },
{
}

/// What results are seen as.
pub proof fn law_results_are_seen(value: CommandResult)
    ensures
        value@ == match value {
            CommandResult::ResourcePoolCreated {
                resource_pool_id,
            } => CommandResultView::ResourcePoolCreated {
                resource_pool_id,
            },
            CommandResult::CapacityRevised(outcome) => CommandResultView::CapacityRevised(outcome@),
            CommandResult::HoldCompleted(outcome) => CommandResultView::HoldCompleted(outcome@),
            CommandResult::ChoiceCompleted(outcome) => CommandResultView::ChoiceCompleted(outcome@),
            CommandResult::SlotCompleted(outcome) => CommandResultView::SlotCompleted(outcome@),
            CommandResult::PromiseCommitted {
                promise_id,
                version,
            } => CommandResultView::PromiseCommitted {
                promise_id,
                version: version@,
            },
            CommandResult::PromiseReleased {
                promise_id,
                version,
            } => CommandResultView::PromiseReleased {
                promise_id,
                version: version@,
            },
            CommandResult::PromiseReplaced(outcome) => CommandResultView::PromiseReplaced(outcome@),
            CommandResult::ExpirationsProcessed {
                expired_count,
            } => CommandResultView::ExpirationsProcessed {
                expired_count,
            },
        },
{
}

/// What a snapshot file is seen as.
pub proof fn law_snapshot_files_are_seen(file: SnapshotFile)
    ensures
        file@.uuid == file.database_uuid.bytes@,
        file@.semantics == file.semantics_version,
        file@.watermark == file.wal_watermark,
        file@.engine == file.engine@,
{
}

/// A byte is read where it stands.
proof fn lemma_byte(data: Seq<u8>, pos: int, limits: Limits)
    requires
        0 <= pos <= data.len(),
    ensures
        pos < data.len() ==> u8::parse(data, pos, limits) == Ok::<(u8, int), StorageError>(
            (data[pos], pos + 1),
        ),
        pos == data.len() ==> u8::parse(data, pos, limits) == Err::<(u8, int), StorageError>(
            StorageError::TruncatedPayload,
        ),
{
    if pos < data.len() {
        let tag = data[pos];
        layouts::law_values_are_read_where_they_stand::<u8>(data, pos, limits, tag, pos + 1);
        layouts::law_numbers(tag, 0, 0, 0, 0, limits);
        assert(data.subrange(pos, pos + 1) =~= seq![tag]);
    }
}

/// An unknown tag of replacement states is reported, and so is a missing one.
pub proof fn law_unknown_replacement_states(data: Seq<u8>, pos: int, limits: Limits)
    requires
        0 <= pos <= data.len(),
    ensures
        pos == data.len() ==> ReplacementState::parse(data, pos, limits) == Err::<(ReplacementState, int), StorageError>(
            StorageError::TruncatedPayload,
        ),
        pos < data.len() && (data[pos] == 0 || data[pos] > 2) ==> ReplacementState::parse(
            data,
            pos,
            limits,
        ) == Err::<(ReplacementState, int), StorageError>(
            StorageError::InvalidTag { kind: "replacement state", tag: data[pos] },
        ),
{
    lemma_byte(data, pos, limits);
    reveal(<ReplacementState as Wire>::parse);
}

/// An unknown tag of promise states is reported, and so is a missing one.
pub proof fn law_unknown_promise_states(data: Seq<u8>, pos: int, limits: Limits)
    requires
        0 <= pos <= data.len(),
    ensures
        pos == data.len() ==> PromiseState::parse(data, pos, limits) == Err::<(PromiseState, int), StorageError>(
            StorageError::TruncatedPayload,
        ),
        pos < data.len() && (data[pos] == 0 || data[pos] > 4) ==> PromiseState::parse(
            data,
            pos,
            limits,
        ) == Err::<(PromiseState, int), StorageError>(
            StorageError::InvalidTag { kind: "promise state", tag: data[pos] },
        ),
{
    lemma_byte(data, pos, limits);
    reveal(<PromiseState as Wire>::parse);
}

/// An unknown tag of event kinds is reported, and so is a missing one.
pub proof fn law_unknown_event_kinds(data: Seq<u8>, pos: int, limits: Limits)
    requires
        0 <= pos <= data.len(),
    ensures
        pos == data.len() ==> EventKind::parse(data, pos, limits) == Err::<(EventKind, int), StorageError>(
            StorageError::TruncatedPayload,
        ),
        pos < data.len() && (data[pos] == 0 || data[pos] > 10) ==> EventKind::parse(
            data,
            pos,
            limits,
        ) == Err::<(EventKind, int), StorageError>(
            StorageError::InvalidTag { kind: "event kind", tag: data[pos] },
        ),
{
    lemma_byte(data, pos, limits);
    reveal(<EventKind as Wire>::parse);
}

/// An unknown tag of event subjects is reported, and so is a missing one.
pub proof fn law_unknown_event_subjects(data: Seq<u8>, pos: int, limits: Limits)
    requires
        0 <= pos <= data.len(),
    ensures
        pos == data.len() ==> EventDataView::parse(data, pos, limits) == Err::<(EventDataView, int), StorageError>(
            StorageError::TruncatedPayload,
        ),
        pos < data.len() && (data[pos] == 0 || data[pos] > 3) ==> EventDataView::parse(
            data,
            pos,
            limits,
        ) == Err::<(EventDataView, int), StorageError>(
            StorageError::InvalidTag { kind: "event data", tag: data[pos] },
        ),
{
    lemma_byte(data, pos, limits);
    reveal(<EventDataView as Wire>::parse);
}

/// An unknown tag of revision modes is reported, and so is a missing one.
pub proof fn law_unknown_revision_modes(data: Seq<u8>, pos: int, limits: Limits)
    requires
        0 <= pos <= data.len(),
    ensures
        pos == data.len() ==> CapacityRevisionMode::parse(data, pos, limits) == Err::<(CapacityRevisionMode, int), StorageError>(
            StorageError::TruncatedPayload,
        ),
        pos < data.len() && (data[pos] == 0 || data[pos] > 2) ==> CapacityRevisionMode::parse(
            data,
            pos,
            limits,
        ) == Err::<(CapacityRevisionMode, int), StorageError>(
            StorageError::InvalidTag { kind: "capacity revision mode", tag: data[pos] },
        ),
{
    lemma_byte(data, pos, limits);
    reveal(<CapacityRevisionMode as Wire>::parse);
}

/// An unknown tag of operations is reported, and so is a missing one.
pub proof fn law_unknown_operations(data: Seq<u8>, pos: int, limits: Limits)
    requires
        0 <= pos <= data.len(),
    ensures
        pos == data.len() ==> CommandOperationView::parse(data, pos, limits) == Err::<(CommandOperationView, int), StorageError>(
            StorageError::TruncatedPayload,
        ),
        pos < data.len() && (data[pos] == 0 || data[pos] > 9) ==> CommandOperationView::parse(
            data,
            pos,
            limits,
        ) == Err::<(CommandOperationView, int), StorageError>(
            StorageError::InvalidTag { kind: "command operation", tag: data[pos] },
        ),
{
    lemma_byte(data, pos, limits);
    reveal(<CommandOperationView as Wire>::parse);
}

/// An unknown tag of domain errors is reported, and so is a missing one.
pub proof fn law_unknown_domain_errors(data: Seq<u8>, pos: int, limits: Limits)
    requires
        0 <= pos <= data.len(),
    ensures
        pos == data.len() ==> DomainError::parse(data, pos, limits) == Err::<(DomainError, int), StorageError>(
            StorageError::TruncatedPayload,
        ),
        pos < data.len() && (data[pos] == 0 || data[pos] > 32) ==> DomainError::parse(
            data,
            pos,
            limits,
        ) == Err::<(DomainError, int), StorageError>(
            StorageError::InvalidTag { kind: "domain error", tag: data[pos] },
        ),
{
    lemma_byte(data, pos, limits);
    reveal(<DomainError as Wire>::parse);
}

/// An unknown tag of hold outcomes is reported, and so is a missing one.
pub proof fn law_unknown_hold_outcomes(data: Seq<u8>, pos: int, limits: Limits)
    requires
        0 <= pos <= data.len(),
    ensures
        pos == data.len() ==> HoldOutcomeView::parse(data, pos, limits) == Err::<(HoldOutcomeView, int), StorageError>(
            StorageError::TruncatedPayload,
        ),
        pos < data.len() && (data[pos] == 0 || data[pos] > 2) ==> HoldOutcomeView::parse(
            data,
            pos,
            limits,
        ) == Err::<(HoldOutcomeView, int), StorageError>(
            StorageError::InvalidTag { kind: "hold outcome", tag: data[pos] },
        ),
{
    lemma_byte(data, pos, limits);
    reveal(<HoldOutcomeView as Wire>::parse);
}

/// An unknown tag of choice outcomes is reported, and so is a missing one.
pub proof fn law_unknown_choice_outcomes(data: Seq<u8>, pos: int, limits: Limits)
    requires
        0 <= pos <= data.len(),
    ensures
        pos == data.len() ==> ChoiceOutcomeView::parse(data, pos, limits) == Err::<(ChoiceOutcomeView, int), StorageError>(
            StorageError::TruncatedPayload,
        ),
        pos < data.len() && (data[pos] == 0 || data[pos] > 2) ==> ChoiceOutcomeView::parse(
            data,
            pos,
            limits,
        ) == Err::<(ChoiceOutcomeView, int), StorageError>(
            StorageError::InvalidTag { kind: "choice outcome", tag: data[pos] },
        ),
{
    lemma_byte(data, pos, limits);
    reveal(<ChoiceOutcomeView as Wire>::parse);
}

/// An unknown tag of slot outcomes is reported, and so is a missing one.
pub proof fn law_unknown_slot_outcomes(data: Seq<u8>, pos: int, limits: Limits)
    requires
        0 <= pos <= data.len(),
    ensures
        pos == data.len() ==> SlotOutcomeView::parse(data, pos, limits) == Err::<(SlotOutcomeView, int), StorageError>(
            StorageError::TruncatedPayload,
        ),
        pos < data.len() && (data[pos] == 0 || data[pos] > 2) ==> SlotOutcomeView::parse(
            data,
            pos,
            limits,
        ) == Err::<(SlotOutcomeView, int), StorageError>(
            StorageError::InvalidTag { kind: "slot outcome", tag: data[pos] },
        ),
{
    lemma_byte(data, pos, limits);
    reveal(<SlotOutcomeView as Wire>::parse);
}

/// An unknown tag of replace outcomes is reported, and so is a missing one.
pub proof fn law_unknown_replace_outcomes(data: Seq<u8>, pos: int, limits: Limits)
    requires
        0 <= pos <= data.len(),
    ensures
        pos == data.len() ==> ReplaceOutcomeView::parse(data, pos, limits) == Err::<(ReplaceOutcomeView, int), StorageError>(
            StorageError::TruncatedPayload,
        ),
        pos < data.len() && (data[pos] == 0 || data[pos] > 2) ==> ReplaceOutcomeView::parse(
            data,
            pos,
            limits,
        ) == Err::<(ReplaceOutcomeView, int), StorageError>(
            StorageError::InvalidTag { kind: "replace outcome", tag: data[pos] },
        ),
{
    lemma_byte(data, pos, limits);
    reveal(<ReplaceOutcomeView as Wire>::parse);
}

/// An unknown tag of results is reported, and so is a missing one.
pub proof fn law_unknown_results(data: Seq<u8>, pos: int, limits: Limits)
    requires
        0 <= pos <= data.len(),
    ensures
        pos == data.len() ==> CommandResultView::parse(data, pos, limits) == Err::<(CommandResultView, int), StorageError>(
            StorageError::TruncatedPayload,
        ),
        pos < data.len() && (data[pos] == 0 || data[pos] > 9) ==> CommandResultView::parse(
            data,
            pos,
            limits,
        ) == Err::<(CommandResultView, int), StorageError>(
            StorageError::InvalidTag { kind: "command result", tag: data[pos] },
        ),
{
    lemma_byte(data, pos, limits);
    reveal(<CommandResultView as Wire>::parse);
}

/// An unknown tag of responses is reported, and so is a missing one.
pub proof fn law_unknown_responses(data: Seq<u8>, pos: int, limits: Limits)
    requires
        0 <= pos <= data.len(),
    ensures
        pos == data.len() ==> <Result<CommandResultView, DomainError>>::parse(data, pos, limits) == Err::<(Result<CommandResultView, DomainError>, int), StorageError>(
            StorageError::TruncatedPayload,
        ),
        pos < data.len() && (data[pos] == 0 || data[pos] > 2) ==> <Result<CommandResultView, DomainError>>::parse(
            data,
            pos,
            limits,
        ) == Err::<(Result<CommandResultView, DomainError>, int), StorageError>(
            StorageError::InvalidTag { kind: "command response", tag: data[pos] },
        ),
{
    lemma_byte(data, pos, limits);
    reveal(<Result<CommandResultView, DomainError> as Wire>::parse);
}

/// An interval that does not end behind its start is refused.
pub proof fn law_refused_intervals(value: IntervalView, data: Seq<u8>, pos: int, limits: Limits)
    requires
        value.start >= value.end,
        value.enc().fail is None,
        0 <= pos,
        pos + value.enc().bytes.len() <= data.len(),
        data.subrange(pos, pos + value.enc().bytes.len()) == value.enc().bytes,
    ensures
        IntervalView::parse(data, pos, limits) == Err::<(IntervalView, int), StorageError>(
            StorageError::Domain(DomainError::InvalidInterval),
        ),
{
    assert(model::at(data, pos, value.enc().bytes)) by {
        reveal(model::at);
    }
    broadcast use {model::lemma_at_add, model::lemma_le_len};

    reveal(<IntervalView as Wire>::enc);
    reveal(<IntervalView as Wire>::parse);
    value.start.lemma_enc(data, pos, limits);
    let p1 = pos + value.start.enc().bytes.len();
    value.end.lemma_enc(data, p1, limits);
}

/// A unit without a name is refused.
pub proof fn law_refused_nameless_units(value: UnitView, data: Seq<u8>, pos: int, limits: Limits)
    requires
        value.name.len() == 0,
        value.fits(limits),
        value.enc().fail is None,
        0 <= pos,
        pos + value.enc().bytes.len() <= data.len(),
        data.subrange(pos, pos + value.enc().bytes.len()) == value.enc().bytes,
    ensures
        UnitView::parse(data, pos, limits) == Err::<(UnitView, int), StorageError>(
            StorageError::Domain(DomainError::InvalidUnitName),
        ),
{
    assert(model::at(data, pos, value.enc().bytes)) by {
        reveal(model::at);
    }
    broadcast use {model::lemma_at_add, model::lemma_le_len};

    reveal(<UnitView as Wire>::enc);
    reveal(<UnitView as Wire>::parse);
    model::lemma_string_enc(value.name, data, pos, limits, "unit name");
    let p1 = pos + model::enc_string("unit name", value.name).bytes.len();
    value.subunits.lemma_enc(data, p1, limits);
}

/// A unit without a scale is refused.
pub proof fn law_refused_units_without_scale(value: UnitView, data: Seq<u8>, pos: int, limits: Limits)
    requires
        value.name.len() > 0,
        value.subunits == 0,
        value.fits(limits),
        value.enc().fail is None,
        0 <= pos,
        pos + value.enc().bytes.len() <= data.len(),
        data.subrange(pos, pos + value.enc().bytes.len()) == value.enc().bytes,
    ensures
        UnitView::parse(data, pos, limits) == Err::<(UnitView, int), StorageError>(
            StorageError::Domain(DomainError::InvalidUnitScale),
        ),
{
    assert(model::at(data, pos, value.enc().bytes)) by {
        reveal(model::at);
    }
    broadcast use {model::lemma_at_add, model::lemma_le_len};

    reveal(<UnitView as Wire>::enc);
    reveal(<UnitView as Wire>::parse);
    model::lemma_string_enc(value.name, data, pos, limits, "unit name");
    let p1 = pos + model::enc_string("unit name", value.name).bytes.len();
    value.subunits.lemma_enc(data, p1, limits);
}

/// A claim for nothing is refused.
pub proof fn law_refused_claims(value: ClaimView, data: Seq<u8>, pos: int, limits: Limits)
    requires
        value.quantity == 0,
        value.interval.start < value.interval.end,
        value.enc().fail is None,
        0 <= pos,
        pos + value.enc().bytes.len() <= data.len(),
        data.subrange(pos, pos + value.enc().bytes.len()) == value.enc().bytes,
    ensures
        ClaimView::parse(data, pos, limits) == Err::<(ClaimView, int), StorageError>(
            StorageError::Domain(DomainError::InvalidQuantity),
        ),
{
    assert(model::at(data, pos, value.enc().bytes)) by {
        reveal(model::at);
    }
    broadcast use {model::lemma_at_add, model::lemma_le_len};

    reveal(<ClaimView as Wire>::enc);
    reveal(<ClaimView as Wire>::parse);
    value.pool_id.lemma_enc(data, pos, limits);
    let p1 = pos + value.pool_id.enc().bytes.len();
    value.interval.lemma_enc(data, p1, limits);
    let p2 = p1 + value.interval.enc().bytes.len();
    value.quantity.lemma_enc(data, p2, limits);
}

/// A bundle of nothing is refused.
pub proof fn law_refused_bundles(value: BundleView, data: Seq<u8>, pos: int, limits: Limits)
    requires
        value.claims.len() == 0,
        value.enc().fail is None,
        0 <= pos,
        pos + value.enc().bytes.len() <= data.len(),
        data.subrange(pos, pos + value.enc().bytes.len()) == value.enc().bytes,
    ensures
        BundleView::parse(data, pos, limits) == Err::<(BundleView, int), StorageError>(
            StorageError::Domain(DomainError::EmptyBundle),
        ),
{
    assert(model::at(data, pos, value.enc().bytes)) by {
        reveal(model::at);
    }
    broadcast use {model::lemma_at_add, model::lemma_le_len};

    reveal(<BundleView as Wire>::enc);
    reveal(<BundleView as Wire>::parse);
    model::lemma_list_enc(value.claims, data, pos, limits, "bundle claims");
}

/// A choice of nothing is refused.
pub proof fn law_refused_choices(value: ChoiceView, data: Seq<u8>, pos: int, limits: Limits)
    requires
        value.alternatives.len() == 0,
        value.enc().fail is None,
        0 <= pos,
        pos + value.enc().bytes.len() <= data.len(),
        data.subrange(pos, pos + value.enc().bytes.len()) == value.enc().bytes,
    ensures
        ChoiceView::parse(data, pos, limits) == Err::<(ChoiceView, int), StorageError>(
            StorageError::Domain(DomainError::EmptyChoice),
        ),
{
    assert(model::at(data, pos, value.enc().bytes)) by {
        reveal(model::at);
    }
    broadcast use {model::lemma_at_add, model::lemma_le_len};

    reveal(<ChoiceView as Wire>::enc);
    reveal(<ChoiceView as Wire>::parse);
    model::lemma_list_enc(value.alternatives, data, pos, limits, "choice alternatives");
}

/// A relative claim that does not end behind its start is refused.
pub proof fn law_refused_relative_claims(value: RelativeClaimView, data: Seq<u8>, pos: int, limits: Limits)
    requires
        value.start_offset >= value.end_offset,
        value.enc().fail is None,
        0 <= pos,
        pos + value.enc().bytes.len() <= data.len(),
        data.subrange(pos, pos + value.enc().bytes.len()) == value.enc().bytes,
    ensures
        RelativeClaimView::parse(data, pos, limits) == Err::<(RelativeClaimView, int), StorageError>(
            StorageError::Domain(DomainError::InvalidInterval),
        ),
{
    assert(model::at(data, pos, value.enc().bytes)) by {
        reveal(model::at);
    }
    broadcast use {model::lemma_at_add, model::lemma_le_len};

    reveal(<RelativeClaimView as Wire>::enc);
    reveal(<RelativeClaimView as Wire>::parse);
    value.pool_id.lemma_enc(data, pos, limits);
    let p1 = pos + value.pool_id.enc().bytes.len();
    value.start_offset.lemma_enc(data, p1, limits);
    let p2 = p1 + value.start_offset.enc().bytes.len();
    value.end_offset.lemma_enc(data, p2, limits);
    let p3 = p2 + value.end_offset.enc().bytes.len();
    value.quantity.lemma_enc(data, p3, limits);
}

/// A relative claim for nothing is refused.
pub proof fn law_refused_relative_claims_for_nothing(value: RelativeClaimView, data: Seq<u8>, pos: int, limits: Limits)
    requires
        value.start_offset < value.end_offset,
        value.quantity == 0,
        value.enc().fail is None,
        0 <= pos,
        pos + value.enc().bytes.len() <= data.len(),
        data.subrange(pos, pos + value.enc().bytes.len()) == value.enc().bytes,
    ensures
        RelativeClaimView::parse(data, pos, limits) == Err::<(RelativeClaimView, int), StorageError>(
            StorageError::Domain(DomainError::InvalidQuantity),
        ),
{
    assert(model::at(data, pos, value.enc().bytes)) by {
        reveal(model::at);
    }
    broadcast use {model::lemma_at_add, model::lemma_le_len};

    reveal(<RelativeClaimView as Wire>::enc);
    reveal(<RelativeClaimView as Wire>::parse);
    value.pool_id.lemma_enc(data, pos, limits);
    let p1 = pos + value.pool_id.enc().bytes.len();
    value.start_offset.lemma_enc(data, p1, limits);
    let p2 = p1 + value.start_offset.enc().bytes.len();
    value.end_offset.lemma_enc(data, p2, limits);
    let p3 = p2 + value.end_offset.enc().bytes.len();
    value.quantity.lemma_enc(data, p3, limits);
}

/// A relative bundle of nothing is refused.
pub proof fn law_refused_relative_bundles(value: RelativeBundleView, data: Seq<u8>, pos: int, limits: Limits)
    requires
        value.claims.len() == 0,
        value.enc().fail is None,
        0 <= pos,
        pos + value.enc().bytes.len() <= data.len(),
        data.subrange(pos, pos + value.enc().bytes.len()) == value.enc().bytes,
    ensures
        RelativeBundleView::parse(data, pos, limits) == Err::<(RelativeBundleView, int), StorageError>(
            StorageError::Domain(DomainError::EmptyRelativeBundle),
        ),
{
    assert(model::at(data, pos, value.enc().bytes)) by {
        reveal(model::at);
    }
    broadcast use {model::lemma_at_add, model::lemma_le_len};

    reveal(<RelativeBundleView as Wire>::enc);
    reveal(<RelativeBundleView as Wire>::parse);
    model::lemma_list_enc(value.claims, data, pos, limits, "relative bundle claims");
}

/// A promise that was updated before it was created is refused.
pub proof fn law_refused_promises(value: PromiseView, data: Seq<u8>, pos: int, limits: Limits)
    requires
        value.created_sequence > value.updated_sequence,
        value.version != 0,
        value.bundle.valid(),
        value.fits(limits),
        value.enc().fail is None,
        0 <= pos,
        pos + value.enc().bytes.len() <= data.len(),
        data.subrange(pos, pos + value.enc().bytes.len()) == value.enc().bytes,
    ensures
        PromiseView::parse(data, pos, limits) == Err::<(PromiseView, int), StorageError>(
            StorageError::Domain(DomainError::InvalidPromiseHistory),
        ),
{
    assert(model::at(data, pos, value.enc().bytes)) by {
        reveal(model::at);
    }
    broadcast use {model::lemma_at_add, model::lemma_le_len};

    reveal(<PromiseView as Wire>::enc);
    reveal(<PromiseView as Wire>::parse);
    value.id.lemma_enc(data, pos, limits);
    let p1 = pos + value.id.enc().bytes.len();
    value.state.lemma_enc(data, p1, limits);
    let p2 = p1 + value.state.enc().bytes.len();
    value.bundle.lemma_enc(data, p2, limits);
    let p3 = p2 + value.bundle.enc().bytes.len();
    model::lemma_version_enc(value.version, data, p3, "zero promise version");
    let p4 = p3 + value.version.enc().bytes.len();
    value.created_sequence.lemma_enc(data, p4, limits);
    let p5 = p4 + value.created_sequence.enc().bytes.len();
    value.updated_sequence.lemma_enc(data, p5, limits);
}

/// An event whose subject does not belong to its kind is refused.
pub proof fn law_refused_events(value: EventView, data: Seq<u8>, pos: int, limits: Limits)
    requires
        !event::consistent(value.kind, value.subject),
        value.subject.valid(),
        value.fits(limits),
        value.enc().fail is None,
        0 <= pos,
        pos + value.enc().bytes.len() <= data.len(),
        data.subrange(pos, pos + value.enc().bytes.len()) == value.enc().bytes,
    ensures
        EventView::parse(data, pos, limits) == Err::<(EventView, int), StorageError>(
            StorageError::CorruptRecord("invalid event"),
        ),
{
    assert(model::at(data, pos, value.enc().bytes)) by {
        reveal(model::at);
    }
    broadcast use {model::lemma_at_add, model::lemma_le_len};

    reveal(<EventView as Wire>::enc);
    reveal(<EventView as Wire>::parse);
    value.sequence.lemma_enc(data, pos, limits);
    let p1 = pos + value.sequence.enc().bytes.len();
    value.timestamp.lemma_enc(data, p1, limits);
    let p2 = p1 + value.timestamp.enc().bytes.len();
    value.kind.lemma_enc(data, p2, limits);
    let p3 = p2 + value.kind.enc().bytes.len();
    value.subject.lemma_enc(data, p3, limits);
}

/// A conflict with enough available, or with another deficit than the difference, is refused.
pub proof fn law_refused_availability_conflicts(value: AvailabilityConflictView, data: Seq<u8>, pos: int, limits: Limits)
    requires
        !(value.available_quantity < value.required_quantity && value.deficit_quantity == value.required_quantity - value.available_quantity),
        value.blocking_interval.valid(),
        model::ordered(value.conflicting_promise_ids, 1),
        value.fits(limits),
        value.enc().fail is None,
        0 <= pos,
        pos + value.enc().bytes.len() <= data.len(),
        data.subrange(pos, pos + value.enc().bytes.len()) == value.enc().bytes,
    ensures
        AvailabilityConflictView::parse(data, pos, limits) == Err::<(AvailabilityConflictView, int), StorageError>(
            StorageError::CorruptRecord("invalid availability conflict"),
        ),
{
    assert(model::at(data, pos, value.enc().bytes)) by {
        reveal(model::at);
    }
    broadcast use {model::lemma_at_add, model::lemma_le_len};

    reveal(<AvailabilityConflictView as Wire>::enc);
    reveal(<AvailabilityConflictView as Wire>::parse);
    value.resource_pool_id.lemma_enc(data, pos, limits);
    let p1 = pos + value.resource_pool_id.enc().bytes.len();
    value.blocking_interval.lemma_enc(data, p1, limits);
    let p2 = p1 + value.blocking_interval.enc().bytes.len();
    value.required_quantity.lemma_enc(data, p2, limits);
    let p3 = p2 + value.required_quantity.enc().bytes.len();
    value.available_quantity.lemma_enc(data, p3, limits);
    let p4 = p3 + value.available_quantity.enc().bytes.len();
    value.deficit_quantity.lemma_enc(data, p4, limits);
    let p5 = p4 + value.deficit_quantity.enc().bytes.len();
    model::lemma_ordered_enc(
        value.conflicting_promise_ids,
        data,
        p5,
        limits,
        "conflicting promise ids",
        1,
        "promise IDs are not sorted and unique",
    );
}

/// A deficit of nothing is refused.
pub proof fn law_refused_capacity_deficits(value: CapacityDeficitView, data: Seq<u8>, pos: int, limits: Limits)
    requires
        value.quantity == 0,
        value.interval.valid(),
        model::ordered(value.affected_promise_ids, 1),
        value.fits(limits),
        value.enc().fail is None,
        0 <= pos,
        pos + value.enc().bytes.len() <= data.len(),
        data.subrange(pos, pos + value.enc().bytes.len()) == value.enc().bytes,
    ensures
        CapacityDeficitView::parse(data, pos, limits) == Err::<(CapacityDeficitView, int), StorageError>(
            StorageError::CorruptRecord("invalid capacity deficit"),
        ),
{
    assert(model::at(data, pos, value.enc().bytes)) by {
        reveal(model::at);
    }
    broadcast use {model::lemma_at_add, model::lemma_le_len};

    reveal(<CapacityDeficitView as Wire>::enc);
    reveal(<CapacityDeficitView as Wire>::parse);
    value.resource_pool_id.lemma_enc(data, pos, limits);
    let p1 = pos + value.resource_pool_id.enc().bytes.len();
    value.interval.lemma_enc(data, p1, limits);
    let p2 = p1 + value.interval.enc().bytes.len();
    value.quantity.lemma_enc(data, p2, limits);
    let p3 = p2 + value.quantity.enc().bytes.len();
    model::lemma_ordered_enc(
        value.affected_promise_ids,
        data,
        p3,
        limits,
        "affected promise ids",
        1,
        "promise IDs are not sorted and unique",
    );
}

/// A revision that lists other promises than its deficits affect is refused.
pub proof fn law_refused_capacity_revisions(value: CapacityRevisionOutcomeView, data: Seq<u8>, pos: int, limits: Limits)
    requires
        !outcome::affected(value.deficits, value.affected_promise_ids),
        model::all_valid(value.deficits),
        model::ordered(value.affected_promise_ids, 1),
        value.fits(limits),
        value.enc().fail is None,
        0 <= pos,
        pos + value.enc().bytes.len() <= data.len(),
        data.subrange(pos, pos + value.enc().bytes.len()) == value.enc().bytes,
    ensures
        CapacityRevisionOutcomeView::parse(data, pos, limits) == Err::<(CapacityRevisionOutcomeView, int), StorageError>(
            StorageError::CorruptRecord("invalid capacity revision outcome"),
        ),
{
    assert(model::at(data, pos, value.enc().bytes)) by {
        reveal(model::at);
    }
    broadcast use {model::lemma_at_add, model::lemma_le_len};

    reveal(<CapacityRevisionOutcomeView as Wire>::enc);
    reveal(<CapacityRevisionOutcomeView as Wire>::parse);
    value.sequence.lemma_enc(data, pos, limits);
    let p1 = pos + value.sequence.enc().bytes.len();
    model::lemma_list_enc(value.deficits, data, p1, limits, "capacity deficits");
    let p2 = p1 + model::enc_list("capacity deficits", value.deficits).bytes.len();
    model::lemma_ordered_enc(
        value.affected_promise_ids,
        data,
        p2,
        limits,
        "affected promise ids",
        1,
        "promise IDs are not sorted and unique",
    );
}

/// An alternative without conflicts is refused.
pub proof fn law_refused_choice_conflicts(value: ChoiceConflictView, data: Seq<u8>, pos: int, limits: Limits)
    requires
        value.conflicts.len() == 0,
        value.fits(limits),
        value.enc().fail is None,
        0 <= pos,
        pos + value.enc().bytes.len() <= data.len(),
        data.subrange(pos, pos + value.enc().bytes.len()) == value.enc().bytes,
    ensures
        ChoiceConflictView::parse(data, pos, limits) == Err::<(ChoiceConflictView, int), StorageError>(
            StorageError::CorruptRecord("empty unavailable conflict list"),
        ),
{
    assert(model::at(data, pos, value.enc().bytes)) by {
        reveal(model::at);
    }
    broadcast use {model::lemma_at_add, model::lemma_le_len};

    reveal(<ChoiceConflictView as Wire>::enc);
    reveal(<ChoiceConflictView as Wire>::parse);
    model::lemma_index_enc(value.alternative_index, data, pos, limits, "alternative index");
    let p1 = pos + model::enc_len("alternative index", value.alternative_index).bytes.len();
    model::lemma_list_enc(value.conflicts, data, p1, limits, "availability conflicts");
}

/// A search without attempts is refused.
pub proof fn law_refused_slot_outcomes(value: SlotOutcomeView, data: Seq<u8>, pos: int, limits: Limits)
    requires
        value == (SlotOutcomeView::Unavailable { attempts: 0 }),
        value.enc().fail is None,
        0 <= pos,
        pos + value.enc().bytes.len() <= data.len(),
        data.subrange(pos, pos + value.enc().bytes.len()) == value.enc().bytes,
    ensures
        SlotOutcomeView::parse(data, pos, limits) == Err::<(SlotOutcomeView, int), StorageError>(
            StorageError::CorruptRecord("zero slot attempts"),
        ),
{
    assert(model::at(data, pos, value.enc().bytes)) by {
        reveal(model::at);
    }
    broadcast use {model::lemma_at_add, model::lemma_le_len};

    reveal(<SlotOutcomeView as Wire>::enc);
    reveal(<SlotOutcomeView as Wire>::parse);
    let p0 = pos + 1;
    match value {
        SlotOutcomeView::Held { promise_id, start } => {
            u8::lemma_enc(1u8, data, pos, limits);
            promise_id.lemma_enc(data, p0, limits);
            let p1 = p0 + promise_id.enc().bytes.len();
            start.lemma_enc(data, p1, limits);
        },
        SlotOutcomeView::Unavailable { attempts } => {
            u8::lemma_enc(2u8, data, pos, limits);
            attempts.lemma_enc(data, p0, limits);
        },
    }
}

/// Segments that do not follow each other are refused.
pub proof fn law_refused_capacity_curves(
    value: CapacityCurveView,
    error: DomainError,
    data: Seq<u8>,
    pos: int,
    limits: Limits,
)
    requires
        capacity::curve_fault(value.segments) == Some(error),
        model::all_valid(value.segments),
        value.fits(limits),
        value.enc().fail is None,
        0 <= pos,
        pos + value.enc().bytes.len() <= data.len(),
        data.subrange(pos, pos + value.enc().bytes.len()) == value.enc().bytes,
    ensures
        CapacityCurveView::parse(data, pos, limits) == Err::<
            (CapacityCurveView, int),
            StorageError,
        >(StorageError::Domain(error)),
{
    assert(model::at(data, pos, value.enc().bytes)) by {
        reveal(model::at);
    }
    broadcast use {model::lemma_at_add, model::lemma_le_len};

    reveal(<CapacityCurveView as Wire>::enc);
    reveal(<CapacityCurveView as Wire>::parse);
    model::lemma_list_enc(value.segments, data, pos, limits, "capacity segments");
}

} // verus!
