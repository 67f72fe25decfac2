//! Which budget a report names.

use crate::domain::promise::{PromiseView, ResourcePoolView};
use crate::engine::{EngineSnapshot, IdempotencyRecordView};
use crate::error::DomainError;
use crate::event::{EventDataView, EventView};
use crate::laws::snapshots;
use crate::outcome;
use crate::outcome::{
    AvailabilityConflictView, CapacityDeficitView, CapacityRevisionOutcomeView, ChoiceConflictView,
    ChoiceOutcomeView, CommandResponse, CommandResultView, HoldOutcomeView, ReplaceOutcomeView,
};
use crate::snapshot::budget;
use crate::snapshot::budget::{Budgeted, CheckBudget};
use crate::snapshot::codec;
use crate::snapshot::limits::{SnapshotError, SnapshotLimits};
use crate::wire::model;
use vstd::prelude::*;
use vstd::utf8::*;

verus! {

/// A report names the field, how much of it there is, and its budget.
pub open spec fn names(
    report: Option<SnapshotError>,
    field: &'static str,
    count: nat,
    maximum: u32,
) -> bool {
    report == Some(
        SnapshotError::Limit { field, value: count as u64, maximum: maximum as u64 },
    )
}

/// A report that decides a list: the list itself if it is too long, else its first value with a
/// report of its own.
pub open spec fn decides<T: Budgeted>(
    report: Option<SnapshotError>,
    field: &'static str,
    items: Seq<T>,
    limits: SnapshotLimits,
) -> bool {
    &&& items.len() > limits.max_nested_items ==> names(
        report,
        field,
        items.len(),
        limits.max_nested_items,
    )
    &&& items.len() <= limits.max_nested_items ==> is_first(report, items, limits)
}

/// A report is that of the first value that has one.
pub open spec fn is_first<T: Budgeted>(
    report: Option<SnapshotError>,
    items: Seq<T>,
    limits: SnapshotLimits,
) -> bool {
    &&& report is None ==> forall|i: int|
        0 <= i < items.len() ==> (#[trigger] items[i]).overrun(limits) is None
    &&& report is Some ==> exists|i: int|
        0 <= i < items.len() && (#[trigger] items[i]).overrun(limits) == report && (forall|j: int|
            0 <= j < i ==> (#[trigger] items[j]).overrun(limits) is None)
}

/// The report on several values is that of the first one that has one.
proof fn lemma_first<T: Budgeted>(items: Seq<T>, limits: SnapshotLimits)
    ensures
        is_first(budget::first_overrun(items, limits), items, limits),
{
    snapshots::law_first_overrun_decides(items, limits);
}

/// A pool is reported for its name, then for that of its unit, then for its segments.
pub proof fn law_pool_reports(pool: ResourcePoolView, limits: SnapshotLimits)
    ensures
        ({
            let report = pool.overrun(limits);
            let name = encode_utf8(pool.display_name).len();
            let unit = encode_utf8(pool.unit.name).len();
            let segments = pool.capacity_curve.segments.len();
            let texts = limits.max_string_bytes;
            &&& name > texts ==> names(report, "display name", name, texts)
            &&& name <= texts && unit > texts ==> names(report, "unit name", unit, texts)
            &&& name <= texts && unit <= texts && segments > limits.max_nested_items ==> names(
                report,
                "capacity segments",
                segments,
                limits.max_nested_items,
            )
            &&& name <= texts && unit <= texts && segments <= limits.max_nested_items ==> report
                is None
        }),
{
}

/// A value with one list is reported for it exactly if it is too long.
pub proof fn law_list_reports(
    promise: PromiseView,
    event: EventView,
    conflict: AvailabilityConflictView,
    deficit: CapacityDeficitView,
    limits: SnapshotLimits,
)
    ensures
        ({
            let most = limits.max_nested_items;
            let claims = promise.bundle.claims.len();
            let conflicting = conflict.conflicting_promise_ids.len();
            let affected = deficit.affected_promise_ids.len();
            &&& claims > most ==> names(promise.overrun(limits), "bundle claims", claims, most)
            &&& claims <= most ==> promise.overrun(limits) is None
            &&& conflicting > most ==> names(
                conflict.overrun(limits),
                "conflicting promise ids",
                conflicting,
                most,
            )
            &&& conflicting <= most ==> conflict.overrun(limits) is None
            &&& affected > most ==> names(
                deficit.overrun(limits),
                "affected promise ids",
                affected,
                most,
            )
            &&& affected <= most ==> deficit.overrun(limits) is None
            &&& event.subject matches EventDataView::Deficit { affected_promise_ids: ids, .. }
                ==> (ids.len() > most ==> names(
                event.overrun(limits),
                "affected promise ids",
                ids.len(),
                most,
            )) && (ids.len() <= most ==> event.overrun(limits) is None)
            &&& !(event.subject is Deficit) ==> event.overrun(limits) is None
        }),
{
}

/// A revision is reported for its deficits before the promises that it affects.
pub proof fn law_revision_reports(revision: CapacityRevisionOutcomeView, limits: SnapshotLimits)
    ensures
        ({
            let most = limits.max_nested_items;
            let report = revision.overrun(limits);
            let affected = revision.affected_promise_ids.len();
            let deficits = budget::nested_overrun("capacity deficits", revision.deficits, limits);
            &&& decides(deficits, "capacity deficits", revision.deficits, limits)
            &&& deficits is Some ==> report == deficits
            &&& deficits is None && affected > most ==> names(
                report,
                "affected promise ids",
                affected,
                most,
            )
            &&& deficits is None && affected <= most ==> report is None
        }),
{
    lemma_first(revision.deficits, limits);
}

/// An outcome is reported for its conflicts, and not at all if it has none.
pub proof fn law_outcome_reports(
    conflict: ChoiceConflictView,
    hold: HoldOutcomeView,
    choice: ChoiceOutcomeView,
    replace: ReplaceOutcomeView,
    limits: SnapshotLimits,
)
    ensures
        decides(conflict.overrun(limits), "availability conflicts", conflict.conflicts, limits),
        match hold {
            HoldOutcomeView::Held(_) => hold.overrun(limits) is None,
            HoldOutcomeView::Unavailable { conflicts } => decides(
                hold.overrun(limits),
                "availability conflicts",
                conflicts,
                limits,
            ),
        },
        match choice {
            ChoiceOutcomeView::Held { .. } => choice.overrun(limits) is None,
            ChoiceOutcomeView::Unavailable { conflicts } => decides(
                choice.overrun(limits),
                "choice conflicts",
                conflicts,
                limits,
            ),
        },
        match replace {
            ReplaceOutcomeView::Replaced { .. } => replace.overrun(limits) is None,
            ReplaceOutcomeView::Unavailable { conflicts } => decides(
                replace.overrun(limits),
                "availability conflicts",
                conflicts,
                limits,
            ),
        },
{
    lemma_first(conflict.conflicts, limits);
    if let HoldOutcomeView::Unavailable { conflicts } = hold {
        lemma_first(conflicts, limits);
    }
    if let ChoiceOutcomeView::Unavailable { conflicts } = choice {
        lemma_first(conflicts, limits);
    }
    if let ReplaceOutcomeView::Unavailable { conflicts } = replace {
        lemma_first(conflicts, limits);
    }
}

/// A response is reported exactly as its outcome is.
pub proof fn law_response_reports(
    response: Result<CommandResultView, DomainError>,
    revision: CapacityRevisionOutcomeView,
    hold: HoldOutcomeView,
    choice: ChoiceOutcomeView,
    replace: ReplaceOutcomeView,
    limits: SnapshotLimits,
)
    ensures
        Ok::<CommandResultView, DomainError>(CommandResultView::CapacityRevised(revision)).overrun(
            limits,
        ) == revision.overrun(limits),
        Ok::<CommandResultView, DomainError>(CommandResultView::HoldCompleted(hold)).overrun(limits)
            == hold.overrun(limits),
        Ok::<CommandResultView, DomainError>(CommandResultView::ChoiceCompleted(choice)).overrun(
            limits,
        ) == choice.overrun(limits),
        Ok::<CommandResultView, DomainError>(CommandResultView::PromiseReplaced(replace)).overrun(
            limits,
        ) == replace.overrun(limits),
        response is Err ==> response.overrun(limits) is None,
        response matches Ok(result) && !(result is CapacityRevised) && !(result is HoldCompleted)
            && !(result is ChoiceCompleted) && !(result is PromiseReplaced) ==> response.overrun(
            limits,
        ) is None,
{
}

/// A kept response is reported for the client, then for the key, then for the response.
pub proof fn law_kept_response_reports(record: IdempotencyRecordView, limits: SnapshotLimits)
    ensures
        ({
            let report = record.overrun(limits);
            let client = encode_utf8(record.client_id).len();
            let key = encode_utf8(record.idempotency_key).len();
            let texts = limits.max_string_bytes;
            &&& client > texts ==> names(report, "client id", client, texts)
            &&& client <= texts && key > texts ==> names(report, "idempotency key", key, texts)
            &&& client <= texts && key <= texts ==> report == record.response.overrun(limits)
        }),
{
}

/// Checking a value returns the report on it.
pub open spec fn returns_report(
    out: Result<(), SnapshotError>,
    report: Option<SnapshotError>,
) -> bool {
    &&& out is Ok <==> report is None
    &&& out matches Err(error) ==> report == Some(error)
}

/// Checking a value fails exactly if there is a report on it, and with that report.
pub proof fn law_budget_checks_return_the_report<T: CheckBudget>(
    value: &T,
    field: &'static str,
    items: &[T],
    response: &CommandResponse,
    limits: SnapshotLimits,
    one: Result<(), SnapshotError>,
    all: Result<(), SnapshotError>,
    nested: Result<(), SnapshotError>,
    responded: Result<(), SnapshotError>,
) where T::V: Budgeted
    requires
        call_ensures(T::check_budget, (value, limits), one),
        call_ensures(budget::check_all::<T>, (items, limits), all),
        call_ensures(budget::check_nested::<T>, (field, items, limits), nested),
        call_ensures(budget::check_response, (response, limits), responded),
    ensures
        returns_report(one, value@.overrun(limits)),
        all is Ok <==> forall|i: int|
            0 <= i < items@.len() ==> (#[trigger] items@[i])@.overrun(limits) is None,
        all matches Err(error) ==> is_first(Some(error), model::views(items@), limits),
        items@.len() > limits.max_nested_items ==> nested == Err::<(), SnapshotError>(
            SnapshotError::Limit {
                field,
                value: items@.len() as u64,
                maximum: limits.max_nested_items as u64,
            },
        ),
        items@.len() <= limits.max_nested_items ==> nested == all,
        returns_report(responded, outcome::response_view(*response).overrun(limits)),
{
    let views = model::views(items@);
    lemma_first(views, limits);
    if all is Ok {
        assert forall|i: int| 0 <= i < items@.len() implies (#[trigger] items@[i])@.overrun(limits)
            is None by {
            assert(views[i] == items@[i]@);
        }
    } else {
        let i = choose|i: int|
            0 <= i < views.len() && (#[trigger] views[i]).overrun(limits) == budget::first_overrun(
                views,
                limits,
            );
        assert(views[i] == items@[i]@);
    }
}

/// A state is reported for its four lists, in order, before any value, and then for the first
/// value, in the same order of lists.
pub proof fn law_state_reports(
    engine: &EngineSnapshot,
    limits: SnapshotLimits,
    out: Result<(), SnapshotError>,
)
    requires
        call_ensures(codec::check_engine, (engine, limits), out),
    ensures
        ({
            let most = limits.max_collection_items;
            let pools = engine@.resource_pools;
            let promises = engine@.promises;
            let events = engine@.events;
            let records = engine@.idempotency_records;
            let report = match out {
                Ok(_) => None,
                Err(error) => Some(error),
            };
            let counted = pools.len() <= most && promises.len() <= most && events.len() <= most
                && records.len() <= most;
            let of_pools = budget::first_overrun(pools, limits);
            let of_promises = budget::first_overrun(promises, limits);
            let of_events = budget::first_overrun(events, limits);
            let of_records = budget::first_overrun(records, limits);
            &&& pools.len() > most ==> names(report, "resource pools", pools.len(), most)
            &&& pools.len() <= most && promises.len() > most ==> names(
                report,
                "promises",
                promises.len(),
                most,
            )
            &&& pools.len() <= most && promises.len() <= most && events.len() > most ==> names(
                report,
                "events",
                events.len(),
                most,
            )
            &&& pools.len() <= most && promises.len() <= most && events.len() <= most
                && records.len() > most ==> names(
                report,
                "idempotency records",
                records.len(),
                most,
            )
            &&& is_first(of_pools, pools, limits)
            &&& is_first(of_promises, promises, limits)
            &&& is_first(of_events, events, limits)
            &&& is_first(of_records, records, limits)
            &&& counted && of_pools is Some ==> report == of_pools
            &&& counted && of_pools is None && of_promises is Some ==> report == of_promises
            &&& counted && of_pools is None && of_promises is None && of_events is Some ==> report
                == of_events
            &&& counted && of_pools is None && of_promises is None && of_events is None ==> report
                == of_records
        }),
{
    lemma_first(engine@.resource_pools, limits);
    lemma_first(engine@.promises, limits);
    lemma_first(engine@.events, limits);
    lemma_first(engine@.idempotency_records, limits);
}

} // verus!
