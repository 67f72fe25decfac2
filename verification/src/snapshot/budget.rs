//! Budgets that snapshots keep.

use crate::domain::promise::{Promise, PromiseView, ResourcePool, ResourcePoolView};
use crate::engine::{IdempotencyRecord, IdempotencyRecordView};
use crate::error::DomainError;
use crate::event::{Event, EventData, EventDataView, EventView};
use crate::outcome::{
    AvailabilityConflict, AvailabilityConflictView, CapacityDeficit, CapacityDeficitView,
    CapacityRevisionOutcome, CapacityRevisionOutcomeView, ChoiceConflict, ChoiceConflictView,
    ChoiceOutcome, ChoiceOutcomeView, CommandResponse, CommandResult, CommandResultView,
    HoldOutcome, HoldOutcomeView, ReplaceOutcome, ReplaceOutcomeView,
};
use crate::snapshot::limits::{SnapshotError, SnapshotLimits};
use crate::wire::model;
use crate::wire::model::{Limits, Wire};
use vstd::prelude::*;
use vstd::string::*;
use vstd::utf8::*;

verus! {

/// The report that `count` entries of `field` are more than `maximum`, if they are.
pub open spec fn items_overrun(field: &'static str, count: nat, maximum: u32) -> Option<
    SnapshotError,
> {
    if count > maximum {
        Some(SnapshotError::Limit { field, value: count as u64, maximum: maximum as u64 })
    } else {
        None
    }
}

/// The report that the text of `field` is longer than `maximum` bytes, if it is.
pub open spec fn string_overrun(field: &'static str, chars: Seq<char>, maximum: u32) -> Option<
    SnapshotError,
> {
    items_overrun(field, encode_utf8(chars).len(), maximum)
}

/// The first report, if there is any.
pub open spec fn either(
    first: Option<SnapshotError>,
    second: Option<SnapshotError>,
) -> Option<SnapshotError> {
    match first {
        Some(error) => Some(error),
        None => second,
    }
}

/// Values with budgets of their own.
pub trait Budgeted: Sized {
    /// The first budget that the value exceeds, if it exceeds any.
    spec fn overrun(self, limits: SnapshotLimits) -> Option<SnapshotError>;
}

/// The first budget that some value exceeds, if one exceeds any.
pub open spec fn first_overrun<T: Budgeted>(items: Seq<T>, limits: SnapshotLimits) -> Option<
    SnapshotError,
>
    decreases items.len(),
{
    if items.len() == 0 {
        None
    } else {
        either(first_overrun(items.drop_last(), limits), items.last().overrun(limits))
    }
}

impl Budgeted for ResourcePoolView {
    open spec fn overrun(self, limits: SnapshotLimits) -> Option<SnapshotError> {
        either(
            either(
                string_overrun("display name", self.display_name, limits.max_string_bytes),
                string_overrun("unit name", self.unit.name, limits.max_string_bytes),
            ),
            items_overrun(
                "capacity segments",
                self.capacity_curve.segments.len(),
                limits.max_nested_items,
            ),
        )
    }
}

impl Budgeted for PromiseView {
    open spec fn overrun(self, limits: SnapshotLimits) -> Option<SnapshotError> {
        items_overrun("bundle claims", self.bundle.claims.len(), limits.max_nested_items)
    }
}

impl Budgeted for EventView {
    open spec fn overrun(self, limits: SnapshotLimits) -> Option<SnapshotError> {
        match self.subject {
            EventDataView::Deficit { affected_promise_ids, .. } => items_overrun(
                "affected promise ids",
                affected_promise_ids.len(),
                limits.max_nested_items,
            ),
            _ => None,
        }
    }
}

/// The first budget that a nested list or one of its values exceeds, if any is exceeded.
pub open spec fn nested_overrun<T: Budgeted>(
    field: &'static str,
    items: Seq<T>,
    limits: SnapshotLimits,
) -> Option<SnapshotError> {
    either(
        items_overrun(field, items.len(), limits.max_nested_items),
        first_overrun(items, limits),
    )
}

impl Budgeted for AvailabilityConflictView {
    open spec fn overrun(self, limits: SnapshotLimits) -> Option<SnapshotError> {
        items_overrun(
            "conflicting promise ids",
            self.conflicting_promise_ids.len(),
            limits.max_nested_items,
        )
    }
}

impl Budgeted for CapacityDeficitView {
    open spec fn overrun(self, limits: SnapshotLimits) -> Option<SnapshotError> {
        items_overrun(
            "affected promise ids",
            self.affected_promise_ids.len(),
            limits.max_nested_items,
        )
    }
}

impl Budgeted for CapacityRevisionOutcomeView {
    open spec fn overrun(self, limits: SnapshotLimits) -> Option<SnapshotError> {
        either(
            nested_overrun("capacity deficits", self.deficits, limits),
            items_overrun(
                "affected promise ids",
                self.affected_promise_ids.len(),
                limits.max_nested_items,
            ),
        )
    }
}

impl Budgeted for ChoiceConflictView {
    open spec fn overrun(self, limits: SnapshotLimits) -> Option<SnapshotError> {
        nested_overrun("availability conflicts", self.conflicts, limits)
    }
}

impl Budgeted for HoldOutcomeView {
    open spec fn overrun(self, limits: SnapshotLimits) -> Option<SnapshotError> {
        match self {
            HoldOutcomeView::Held(_) => None,
            HoldOutcomeView::Unavailable { conflicts } => nested_overrun(
                "availability conflicts",
                conflicts,
                limits,
            ),
        }
    }
}

impl Budgeted for ChoiceOutcomeView {
    open spec fn overrun(self, limits: SnapshotLimits) -> Option<SnapshotError> {
        match self {
            ChoiceOutcomeView::Held { .. } => None,
            ChoiceOutcomeView::Unavailable { conflicts } => nested_overrun(
                "choice conflicts",
                conflicts,
                limits,
            ),
        }
    }
}

impl Budgeted for ReplaceOutcomeView {
    open spec fn overrun(self, limits: SnapshotLimits) -> Option<SnapshotError> {
        match self {
            ReplaceOutcomeView::Replaced { .. } => None,
            ReplaceOutcomeView::Unavailable { conflicts } => nested_overrun(
                "availability conflicts",
                conflicts,
                limits,
            ),
        }
    }
}

impl Budgeted for Result<CommandResultView, DomainError> {
    open spec fn overrun(self, limits: SnapshotLimits) -> Option<SnapshotError> {
        match self {
            Ok(CommandResultView::CapacityRevised(outcome)) => outcome.overrun(limits),
            Ok(CommandResultView::HoldCompleted(outcome)) => outcome.overrun(limits),
            Ok(CommandResultView::ChoiceCompleted(outcome)) => outcome.overrun(limits),
            Ok(CommandResultView::PromiseReplaced(outcome)) => outcome.overrun(limits),
            _ => None,
        }
    }
}

impl Budgeted for IdempotencyRecordView {
    open spec fn overrun(self, limits: SnapshotLimits) -> Option<SnapshotError> {
        either(
            either(
                string_overrun("client id", self.client_id, limits.max_string_bytes),
                string_overrun("idempotency key", self.idempotency_key, limits.max_string_bytes),
            ),
            self.response.overrun(limits),
        )
    }
}

/// What a check returns for a report.
pub open spec fn verdict(overrun: Option<SnapshotError>) -> Result<(), SnapshotError> {
    match overrun {
        Some(error) => Err(error),
        None => Ok(()),
    }
}

/// Requires that there are at most `maximum` entries.
pub fn check_items(field: &'static str, count: usize, maximum: u32) -> (out: Result<
    (),
    SnapshotError,
>)
    ensures
        out == verdict(items_overrun(field, count as nat, maximum)),
{
    if count as u64 > maximum as u64 {
        return Err(
            SnapshotError::Limit { field, value: count as u64, maximum: maximum as u64 },
        );
    }
    Ok(())
}

/// Requires that a text is at most `maximum` bytes long.
pub fn check_string(field: &'static str, value: &str, maximum: u32) -> (out: Result<
    (),
    SnapshotError,
>)
    ensures
        out == verdict(string_overrun(field, value@, maximum)),
{
    check_items(field, value.as_bytes().len(), maximum)
}

/// Values whose budgets can be checked.
pub trait CheckBudget: View where Self::V: Budgeted {
    /// Requires that the value keeps its budgets.
    fn check_budget(&self, limits: SnapshotLimits) -> (out: Result<(), SnapshotError>)
        ensures
            out == verdict(self@.overrun(limits)),
    ;
}

impl CheckBudget for ResourcePool {
    fn check_budget(&self, limits: SnapshotLimits) -> (out: Result<(), SnapshotError>) {
        check_string("display name", self.display_name(), limits.max_string_bytes)?;
        check_string("unit name", self.unit().name(), limits.max_string_bytes)?;
        let segments = self.capacity_curve().segments();
        check_items("capacity segments", segments.len(), limits.max_nested_items)
    }
}

impl CheckBudget for Promise {
    fn check_budget(&self, limits: SnapshotLimits) -> (out: Result<(), SnapshotError>) {
        let claims = self.bundle().claims();
        check_items("bundle claims", claims.len(), limits.max_nested_items)
    }
}

impl CheckBudget for Event {
    fn check_budget(&self, limits: SnapshotLimits) -> (out: Result<(), SnapshotError>) {
        match self.data() {
            EventData::Deficit { affected_promise_ids, .. } => check_items(
                "affected promise ids",
                affected_promise_ids.len(),
                limits.max_nested_items,
            ),
            _ => Ok(()),
        }
    }
}

impl CheckBudget for AvailabilityConflict {
    fn check_budget(&self, limits: SnapshotLimits) -> (out: Result<(), SnapshotError>) {
        let ids = self.conflicting_promise_ids();
        check_items("conflicting promise ids", ids.len(), limits.max_nested_items)
    }
}

impl CheckBudget for CapacityDeficit {
    fn check_budget(&self, limits: SnapshotLimits) -> (out: Result<(), SnapshotError>) {
        let ids = self.affected_promise_ids();
        check_items("affected promise ids", ids.len(), limits.max_nested_items)
    }
}

impl CheckBudget for CapacityRevisionOutcome {
    fn check_budget(&self, limits: SnapshotLimits) -> (out: Result<(), SnapshotError>) {
        check_nested("capacity deficits", self.deficits(), limits)?;
        let ids = self.affected_promise_ids();
        check_items("affected promise ids", ids.len(), limits.max_nested_items)
    }
}

impl CheckBudget for ChoiceConflict {
    fn check_budget(&self, limits: SnapshotLimits) -> (out: Result<(), SnapshotError>) {
        check_nested("availability conflicts", self.conflicts(), limits)
    }
}

impl CheckBudget for HoldOutcome {
    fn check_budget(&self, limits: SnapshotLimits) -> (out: Result<(), SnapshotError>) {
        match self {
            HoldOutcome::Held(_) => Ok(()),
            HoldOutcome::Unavailable { conflicts } => check_nested(
                "availability conflicts",
                conflicts.as_slice(),
                limits,
            ),
        }
    }
}

impl CheckBudget for ChoiceOutcome {
    fn check_budget(&self, limits: SnapshotLimits) -> (out: Result<(), SnapshotError>) {
        match self {
            ChoiceOutcome::Held { .. } => Ok(()),
            ChoiceOutcome::Unavailable { conflicts } => check_nested(
                "choice conflicts",
                conflicts.as_slice(),
                limits,
            ),
        }
    }
}

impl CheckBudget for ReplaceOutcome {
    fn check_budget(&self, limits: SnapshotLimits) -> (out: Result<(), SnapshotError>) {
        match self {
            ReplaceOutcome::Replaced { .. } => Ok(()),
            ReplaceOutcome::Unavailable { conflicts } => check_nested(
                "availability conflicts",
                conflicts.as_slice(),
                limits,
            ),
        }
    }
}

/// Requires that the lists of a response keep their budgets.
pub fn check_response(response: &CommandResponse, limits: SnapshotLimits) -> (out: Result<
    (),
    SnapshotError,
>)
    ensures
        out == verdict(crate::outcome::response_view(*response).overrun(limits)),
{
    match response {
        Ok(CommandResult::CapacityRevised(outcome)) => outcome.check_budget(limits),
        Ok(CommandResult::HoldCompleted(outcome)) => outcome.check_budget(limits),
        Ok(CommandResult::ChoiceCompleted(outcome)) => outcome.check_budget(limits),
        Ok(CommandResult::PromiseReplaced(outcome)) => outcome.check_budget(limits),
        _ => Ok(()),
    }
}

impl CheckBudget for IdempotencyRecord {
    fn check_budget(&self, limits: SnapshotLimits) -> (out: Result<(), SnapshotError>) {
        check_string("client id", self.client_id().as_str(), limits.max_string_bytes)?;
        check_string("idempotency key", self.idempotency_key().as_str(), limits.max_string_bytes)?;
        check_response(self.response(), limits)
    }
}

/// An overrun among the first values is that of all.
proof fn lemma_overrun_stays<T: Budgeted>(items: Seq<T>, count: int, limits: SnapshotLimits)
    requires
        0 <= count <= items.len(),
        first_overrun(items.take(count), limits) is Some,
    ensures
        first_overrun(items, limits) == first_overrun(items.take(count), limits),
    decreases items.len(),
{
    if count == items.len() {
        assert(items.take(count) =~= items);
    } else {
        assert(items.drop_last().take(count) =~= items.take(count));
        lemma_overrun_stays(items.drop_last(), count, limits);
    }
}

/// Requires that all values keep their budgets.
pub fn check_all<T: CheckBudget>(items: &[T], limits: SnapshotLimits) -> (out: Result<
    (),
    SnapshotError,
>) where <T as View>::V: Budgeted
    ensures
        out == verdict(first_overrun(model::views(items@), limits)),
{
    let ghost models = model::views(items@);
    let mut i: usize = 0;
    assert(models.take(0) =~= seq![]);
    while i < items.len()
        invariant
            i <= items.len(),
            models == model::views(items@),
            first_overrun(models.take(i as int), limits) is None,
        decreases items.len() - i,
    {
        proof {
            model::lemma_views_next(items@, i as int);
            if first_overrun(models.take(i as int + 1), limits) is Some {
                lemma_overrun_stays(models, i as int + 1, limits);
            }
        }
        items[i].check_budget(limits)?;
        i += 1;
    }
    assert(models.take(i as int) =~= models);
    Ok(())
}

/// Requires that a nested list and its values keep their budgets.
pub fn check_nested<T: CheckBudget>(
    field: &'static str,
    items: &[T],
    limits: SnapshotLimits,
) -> (out: Result<(), SnapshotError>) where <T as View>::V: Budgeted
    ensures
        out == verdict(nested_overrun(field, model::views(items@), limits)),
{
    check_items(field, items.len(), limits.max_nested_items)?;
    check_all(items, limits)
}

/// The budgets of the payload decoder.
pub open spec fn payload_limits(limits: SnapshotLimits) -> Limits {
    Limits {
        lists: limits.max_collection_items as nat,
        items: limits.max_nested_items as nat,
        strings: limits.max_string_bytes as nat,
    }
}

/// Nothing is reported of any value exactly if nothing is reported of each.
pub proof fn lemma_no_overrun<T: Budgeted>(items: Seq<T>, limits: SnapshotLimits)
    ensures
        first_overrun(items, limits) is None <==> (forall|i: int|
            0 <= i < items.len() ==> (#[trigger] items[i]).overrun(limits) is None),
    decreases items.len(),
{
    if items.len() > 0 {
        let front = items.drop_last();
        lemma_no_overrun(front, limits);
        if first_overrun(items, limits) is None {
            assert forall|i: int| 0 <= i < items.len() implies (#[trigger] items[i]).overrun(
                limits,
            ) is None by {
                if i < front.len() {
                    assert(front[i].overrun(limits) is None);
                }
            }
        }
        if forall|i: int| 0 <= i < items.len() ==> (#[trigger] items[i]).overrun(limits) is None {
            assert forall|i: int| 0 <= i < front.len() implies (#[trigger] front[i]).overrun(
                limits,
            ) is None by {
                assert(items[i].overrun(limits) is None);
            }
            assert(items[items.len() - 1].overrun(limits) is None);
        }
    }
}

/// Valid values that keep their budgets, and whose positions the payload decoder accepts, exactly
/// if it accepts their length prefixes.
pub trait Measured: Budgeted + Wire {
    /// The payload decoder accepts the positions that the value holds.
    open spec fn positions_fit(self, limits: SnapshotLimits) -> bool {
        true
    }

    proof fn lemma_overrun_fits(self, limits: SnapshotLimits)
        requires
            self.valid(),
        ensures
            self.overrun(limits) is None && self.positions_fit(limits) <==> self.fits(
                payload_limits(limits),
            ),
    ;
}

/// The payload decoder accepts the positions that the values hold.
pub open spec fn all_positions_fit<T: Measured>(items: Seq<T>, limits: SnapshotLimits) -> bool {
    forall|i: int| 0 <= i < items.len() ==> (#[trigger] items[i]).positions_fit(limits)
}

/// The values of a list keep their budgets, and their positions are accepted, exactly if the
/// payload decoder accepts their length prefixes.
pub proof fn lemma_overruns_fit<T: Measured>(items: Seq<T>, limits: SnapshotLimits)
    requires
        model::all_valid(items),
    ensures
        first_overrun(items, limits) is None && all_positions_fit(items, limits)
            <==> model::all_fit(items, payload_limits(limits)),
{
    lemma_no_overrun(items, limits);
    assert forall|i: int| 0 <= i < items.len() implies ((#[trigger] items[i]).overrun(limits)
        is None && items[i].positions_fit(limits) <==> items[i].fits(payload_limits(limits))) by {
        items[i].lemma_overrun_fits(limits);
    }
    if model::all_fit(items, payload_limits(limits)) {
        assert forall|i: int| 0 <= i < items.len() implies (#[trigger] items[i]).overrun(limits)
            is None && items[i].positions_fit(limits) by {
            assert(items[i].fits(payload_limits(limits)));
        }
    }
    if first_overrun(items, limits) is None && all_positions_fit(items, limits) {
        assert forall|i: int| 0 <= i < items.len() implies (#[trigger] items[i]).fits(
            payload_limits(limits),
        ) by {
            assert(items[i].overrun(limits) is None);
            assert(items[i].positions_fit(limits));
        }
    }
}

impl Measured for ResourcePoolView {
    proof fn lemma_overrun_fits(self, limits: SnapshotLimits) {
    }
}

impl Measured for PromiseView {
    proof fn lemma_overrun_fits(self, limits: SnapshotLimits) {
    }
}

impl Measured for EventView {
    proof fn lemma_overrun_fits(self, limits: SnapshotLimits) {
    }
}

impl Measured for AvailabilityConflictView {
    proof fn lemma_overrun_fits(self, limits: SnapshotLimits) {
    }
}

impl Measured for CapacityDeficitView {
    proof fn lemma_overrun_fits(self, limits: SnapshotLimits) {
    }
}

impl Measured for CapacityRevisionOutcomeView {
    proof fn lemma_overrun_fits(self, limits: SnapshotLimits) {
        lemma_overruns_fit(self.deficits, limits);
    }
}

impl Measured for ChoiceConflictView {
    open spec fn positions_fit(self, limits: SnapshotLimits) -> bool {
        self.alternative_index <= payload_limits(limits).ceiling()
    }

    proof fn lemma_overrun_fits(self, limits: SnapshotLimits) {
        lemma_overruns_fit(self.conflicts, limits);
    }
}

impl Measured for HoldOutcomeView {
    proof fn lemma_overrun_fits(self, limits: SnapshotLimits) {
        if let HoldOutcomeView::Unavailable { conflicts } = self {
            lemma_overruns_fit(conflicts, limits);
        }
    }
}

impl Measured for ChoiceOutcomeView {
    /// Conflicts are numbered from zero, so only the position of a held alternative can be too
    /// large.
    open spec fn positions_fit(self, limits: SnapshotLimits) -> bool {
        self matches ChoiceOutcomeView::Held { alternative_index, .. } ==> alternative_index
            <= payload_limits(limits).ceiling()
    }

    proof fn lemma_overrun_fits(self, limits: SnapshotLimits) {
        if let ChoiceOutcomeView::Unavailable { conflicts } = self {
            lemma_overruns_fit(conflicts, limits);
            if conflicts.len() <= limits.max_nested_items {
                assert(all_positions_fit(conflicts, limits));
            }
        }
    }
}

impl Measured for ReplaceOutcomeView {
    proof fn lemma_overrun_fits(self, limits: SnapshotLimits) {
        if let ReplaceOutcomeView::Unavailable { conflicts } = self {
            lemma_overruns_fit(conflicts, limits);
        }
    }
}

impl Measured for Result<CommandResultView, DomainError> {
    open spec fn positions_fit(self, limits: SnapshotLimits) -> bool {
        self matches Ok(CommandResultView::ChoiceCompleted(outcome)) ==> outcome.positions_fit(
            limits,
        )
    }

    proof fn lemma_overrun_fits(self, limits: SnapshotLimits) {
        match self {
            Ok(CommandResultView::CapacityRevised(outcome)) => {
                outcome.lemma_overrun_fits(limits);
            },
            Ok(CommandResultView::HoldCompleted(outcome)) => {
                outcome.lemma_overrun_fits(limits);
            },
            Ok(CommandResultView::ChoiceCompleted(outcome)) => {
                outcome.lemma_overrun_fits(limits);
            },
            Ok(CommandResultView::PromiseReplaced(outcome)) => {
                outcome.lemma_overrun_fits(limits);
            },
            _ => {},
        }
    }
}

impl Measured for IdempotencyRecordView {
    open spec fn positions_fit(self, limits: SnapshotLimits) -> bool {
        self.response.positions_fit(limits)
    }

    proof fn lemma_overrun_fits(self, limits: SnapshotLimits) {
        self.response.lemma_overrun_fits(limits);
    }
}

} // verus!
