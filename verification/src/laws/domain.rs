//! Values of the domain: what they are made of, and when they can be made.

use crate::command::{ClientId, Command, CommandOperation, IdempotencyKey};
use crate::domain::capacity::{CapacityCurve, CapacitySegment, Interval, Unit};
use crate::domain::claims::{Bundle, Choice, Claim, RelativeBundle, RelativeClaim};
use crate::domain::ids;
use crate::domain::ids::{PromiseId, ResourcePoolId};
use crate::domain::promise::{Promise, PromiseState, ResourcePool, SequenceNumber, Version};
use crate::engine::IdempotencyRecord;
use crate::error::{DomainError, StorageError};
use crate::event;
use crate::event::{Event, EventData, EventDataView, EventKind};
use crate::laws::layouts;
use crate::outcome;
use crate::outcome::{
    AvailabilityConflict, CapacityDeficit, CapacityRevisionOutcome, ChoiceConflict,
    CommandResponse, CommandResultView,
};
use crate::transition::{CommandHash, DurableTransition};
use crate::wire::assured;
use crate::wire::model;
use crate::wire::model::{Keyed, Wire};
use crate::wire::reader::Ranked;
use vstd::prelude::*;

verus! {

/// The models of values are the model of each, in order.
pub proof fn law_models<T: View>(items: Seq<T>)
    ensures
        model::views(items).len() == items.len(),
        forall|i: int| 0 <= i < items.len() ==> (#[trigger] model::views(items)[i]) == items[i]@,
{
}

/// Identifiers are their sixteen bytes, most significant first, and give them back.
pub proof fn law_identifiers(
    bytes: [u8; 16],
    pool: ResourcePoolId,
    promise: PromiseId,
    pool_bytes: [u8; 16],
    promise_bytes: [u8; 16],
    rank: u128,
)
    requires
        call_ensures(ResourcePoolId::from_bytes, (bytes,), pool),
        call_ensures(PromiseId::from_bytes, (bytes,), promise),
        call_ensures(ResourcePoolId::as_bytes, (pool,), pool_bytes),
        call_ensures(PromiseId::as_bytes, (promise,), promise_bytes),
        call_ensures(<PromiseId as Ranked>::rank, (&promise,), rank),
    ensures
        pool_bytes@ == bytes@,
        promise_bytes@ == bytes@,
        pool.value == promise.value,
        pool.value == model::un_le(bytes@.reverse()),
        rank == promise.value,
{
    ids::lemma_be_of_un_be(bytes@);
}

/// Sixteen bytes, most significant first, are written from a number and read back.
pub proof fn law_sixteen_bytes(value: u128, written: [u8; 16], bytes: &[u8], read: u128)
    requires
        bytes@.len() == 16,
        call_ensures(ids::be_bytes, (value,), written),
        call_ensures(ids::from_be_bytes, (bytes,), read),
    ensures
        written@.reverse() == model::le(value as nat, 16),
        written@ == bytes@ ==> read == value,
        read == model::un_le(bytes@.reverse()),
{
    ids::lemma_un_be_of_be(value);
    assert(written@.reverse() =~= model::le(value as nat, 16));
}

/// An interval can be made exactly if it ends behind its start.
pub proof fn law_intervals(
    start: i64,
    end: i64,
    out: Result<Interval, DomainError>,
    interval: &Interval,
    shown_start: i64,
    shown_end: i64,
)
    requires
        call_ensures(Interval::new, (start, end), out),
        call_ensures(Interval::start, (interval,), shown_start),
        call_ensures(Interval::end, (interval,), shown_end),
    ensures
        out is Ok <==> start < end,
        out matches Err(error) ==> error == DomainError::InvalidInterval,
        out matches Ok(made) ==> made@.start == start && made@.end == end,
        out == Ok::<Interval, DomainError>(*interval) ==> shown_start == start && shown_end == end,
        shown_start == interval@.start,
        shown_end == interval@.end,
{
}

/// A unit can be made exactly if it has a name and a scale.
pub proof fn law_units(
    name: String,
    subunits: u64,
    out: Result<Unit, DomainError>,
    unit: &Unit,
    shown_name: &str,
    shown_subunits: u64,
    copy: Unit,
)
    requires
        call_ensures(Unit::new, (name, subunits), out),
        call_ensures(Unit::name, (unit,), shown_name),
        call_ensures(Unit::subunits_per_unit, (unit,), shown_subunits),
        call_ensures(<Unit as Clone>::clone, (unit,), copy),
    ensures
        out is Ok <==> name@.len() > 0 && subunits > 0,
        name@.len() == 0 ==> out == Err::<Unit, DomainError>(DomainError::InvalidUnitName),
        name@.len() > 0 && subunits == 0 ==> out == Err::<Unit, DomainError>(
            DomainError::InvalidUnitScale,
        ),
        out matches Ok(made) ==> made@.name == name@ && made@.subunits == subunits,
        out == Ok::<Unit, DomainError>(*unit) ==> shown_name@ == name@ && shown_subunits == subunits,
        shown_name@ == unit@.name,
        shown_subunits == unit@.subunits,
        copy@ == unit@,
{
}

/// A capacity segment is its interval and its capacity.
pub proof fn law_capacity_segments(
    interval: Interval,
    capacity: u64,
    segment: CapacitySegment,
    shown_interval: Interval,
    shown_capacity: u64,
)
    requires
        call_ensures(CapacitySegment::new, (interval, capacity), segment),
        call_ensures(CapacitySegment::interval, (&segment,), shown_interval),
        call_ensures(CapacitySegment::capacity, (&segment,), shown_capacity),
    ensures
        shown_interval@ == interval@,
        shown_capacity == capacity,
        segment@.interval == interval@,
        segment@.capacity == capacity,
{
}

/// A curve can be made exactly of segments none of which starts before the one in front of it
/// starts or ends, and gives them back.
pub proof fn law_capacity_curves(
    segments: Vec<CapacitySegment>,
    out: Result<CapacityCurve, DomainError>,
    curve: &CapacityCurve,
    shown: &[CapacitySegment],
    empty: CapacityCurve,
    copy: CapacityCurve,
)
    requires
        call_ensures(CapacityCurve::from_sorted, (segments,), out),
        call_ensures(CapacityCurve::segments, (curve,), shown),
        call_ensures(CapacityCurve::empty, (), empty),
        call_ensures(<CapacityCurve as Clone>::clone, (curve,), copy),
    ensures
        out is Ok <==> forall|i: int|
            1 <= i < segments@.len() ==> segments@[i - 1]@.interval.start <= (
            #[trigger] segments@[i])@.interval.start && segments@[i - 1]@.interval.end
                <= segments@[i]@.interval.start,
        out matches Err(error) ==> exists|i: int|
            1 <= i < segments@.len() && (if (#[trigger] segments@[i])@.interval.start < segments@[i
                - 1]@.interval.start {
                error == DomainError::UnsortedCapacitySegments
            } else {
                error == DomainError::OverlappingCapacitySegments
            }),
        out matches Ok(made) ==> made@.segments == model::views(segments@),
        shown@.len() == curve@.segments.len(),
        forall|i: int| 0 <= i < shown@.len() ==> (#[trigger] shown@[i])@ == curve@.segments[i],
        empty@.segments.len() == 0,
        copy@ == curve@,
{
    let models = model::views(segments@);
    layouts::law_segments_follow_each_other(models);
    assert forall|i: int| 0 <= i < segments@.len() implies #[trigger] models[i] == segments@[i]@ by {}
    if forall|i: int|
        1 <= i < segments@.len() ==> segments@[i - 1]@.interval.start <= (
        #[trigger] segments@[i])@.interval.start && segments@[i - 1]@.interval.end
            <= segments@[i]@.interval.start {
        assert forall|i: int| 1 <= i < models.len() implies models[i - 1].interval.start <= (
        #[trigger] models[i]).interval.start && models[i - 1].interval.end
            <= models[i].interval.start by {
            assert(segments@[i]@ == models[i]);
        }
    }
    if out is Ok {
        assert forall|i: int| 1 <= i < segments@.len() implies segments@[i - 1]@.interval.start <= (
        #[trigger] segments@[i])@.interval.start && segments@[i - 1]@.interval.end
            <= segments@[i]@.interval.start by {
            assert(models[i] == segments@[i]@);
        }
    }
    if let Err(error) = out {
        let i = choose|i: int|
            1 <= i < models.len() && (if (#[trigger] models[i]).interval.start < models[i
                - 1].interval.start {
                error == DomainError::UnsortedCapacitySegments
            } else {
                error == DomainError::OverlappingCapacitySegments && models[i].interval.start
                    < models[i - 1].interval.end
            });
        assert(segments@[i]@ == models[i]);
    }
    assert forall|i: int| 0 <= i < shown@.len() implies (#[trigger] shown@[i])@
        == curve@.segments[i] by {
        assert(model::views(shown@)[i] == shown@[i]@);
    }
    assert(model::views(shown@).len() == shown@.len());
}

/// A claim can be made exactly for some quantity.
pub proof fn law_claims(
    pool_id: ResourcePoolId,
    interval: Interval,
    quantity: u64,
    out: Result<Claim, DomainError>,
    claim: &Claim,
    shown_pool: ResourcePoolId,
    shown_interval: Interval,
    shown_quantity: u64,
)
    requires
        call_ensures(Claim::new, (pool_id, interval, quantity), out),
        call_ensures(Claim::pool_id, (claim,), shown_pool),
        call_ensures(Claim::interval, (claim,), shown_interval),
        call_ensures(Claim::quantity, (claim,), shown_quantity),
    ensures
        out is Ok <==> quantity > 0,
        out matches Err(error) ==> error == DomainError::InvalidQuantity,
        out matches Ok(made) ==> made@.pool_id == pool_id && made@.interval == interval@
            && made@.quantity == quantity,
        shown_pool == claim@.pool_id,
        shown_interval@ == claim@.interval,
        shown_quantity == claim@.quantity,
{
}

/// Bundles and choices can be made exactly of something, and give it back in order.
pub proof fn law_bundles_and_choices(
    claims: Vec<Claim>,
    bundle: Result<Bundle, DomainError>,
    alternatives: Vec<Bundle>,
    choice: Result<Choice, DomainError>,
    some_bundle: &Bundle,
    shown_claims: &[Claim],
    some_choice: &Choice,
    shown_alternatives: &[Bundle],
    bundle_copy: Bundle,
    choice_copy: Choice,
)
    requires
        call_ensures(Bundle::new, (claims,), bundle),
        call_ensures(Choice::new, (alternatives,), choice),
        call_ensures(Bundle::claims, (some_bundle,), shown_claims),
        call_ensures(Choice::alternatives, (some_choice,), shown_alternatives),
        call_ensures(<Bundle as Clone>::clone, (some_bundle,), bundle_copy),
        call_ensures(<Choice as Clone>::clone, (some_choice,), choice_copy),
    ensures
        bundle is Ok <==> claims@.len() > 0,
        bundle matches Err(error) ==> error == DomainError::EmptyBundle,
        bundle matches Ok(made) ==> made@.claims.len() == claims@.len() && forall|i: int|
            0 <= i < claims@.len() ==> (#[trigger] made@.claims[i]) == claims@[i]@,
        choice is Ok <==> alternatives@.len() > 0,
        choice matches Err(error) ==> error == DomainError::EmptyChoice,
        choice matches Ok(made) ==> made@.alternatives.len() == alternatives@.len() && forall|
            i: int,
        |
            0 <= i < alternatives@.len() ==> (#[trigger] made@.alternatives[i])
                == alternatives@[i]@,
        model::views(shown_claims@) == some_bundle@.claims,
        model::views(shown_alternatives@) == some_choice@.alternatives,
        bundle_copy@ == some_bundle@,
        choice_copy@ == some_choice@,
{
}

/// A relative claim can be made exactly if it ends behind its start, for some quantity. A relative
/// bundle can be made exactly of some.
pub proof fn law_relative_claims(
    pool_id: ResourcePoolId,
    start: i64,
    end: i64,
    quantity: u64,
    out: Result<RelativeClaim, DomainError>,
    claim: &RelativeClaim,
    shown_pool: ResourcePoolId,
    shown_start: i64,
    shown_end: i64,
    shown_quantity: u64,
    claims: Vec<RelativeClaim>,
    bundle: Result<RelativeBundle, DomainError>,
    some_bundle: &RelativeBundle,
    shown_claims: &[RelativeClaim],
    copy: RelativeBundle,
)
    requires
        call_ensures(RelativeClaim::new, (pool_id, start, end, quantity), out),
        call_ensures(RelativeClaim::pool_id, (claim,), shown_pool),
        call_ensures(RelativeClaim::start_offset, (claim,), shown_start),
        call_ensures(RelativeClaim::end_offset, (claim,), shown_end),
        call_ensures(RelativeClaim::quantity, (claim,), shown_quantity),
        call_ensures(RelativeBundle::new, (claims,), bundle),
        call_ensures(RelativeBundle::claims, (some_bundle,), shown_claims),
        call_ensures(<RelativeBundle as Clone>::clone, (some_bundle,), copy),
    ensures
        out is Ok <==> start < end && quantity > 0,
        start >= end ==> out == Err::<RelativeClaim, DomainError>(DomainError::InvalidInterval),
        start < end && quantity == 0 ==> out == Err::<RelativeClaim, DomainError>(
            DomainError::InvalidQuantity,
        ),
        out matches Ok(made) ==> made@.pool_id == pool_id && made@.start_offset == start
            && made@.end_offset == end && made@.quantity == quantity,
        shown_pool == claim@.pool_id,
        shown_start == claim@.start_offset,
        shown_end == claim@.end_offset,
        shown_quantity == claim@.quantity,
        bundle is Ok <==> claims@.len() > 0,
        bundle matches Err(error) ==> error == DomainError::EmptyRelativeBundle,
        bundle matches Ok(made) ==> made@.claims.len() == claims@.len() && forall|i: int|
            0 <= i < claims@.len() ==> (#[trigger] made@.claims[i]) == claims@[i]@,
        model::views(shown_claims@) == some_bundle@.claims,
        copy@ == some_bundle@,
{
}

/// Versions count from one on. Sequence numbers are any numbers.
pub proof fn law_versions(
    value: u64,
    made: Option<Version>,
    version: &Version,
    shown: u64,
    sequence: SequenceNumber,
    number: u64,
)
    requires
        call_ensures(Version::new, (value,), made),
        call_ensures(Version::get, (version,), shown),
        call_ensures(SequenceNumber::new, (value,), sequence),
        call_ensures(SequenceNumber::get, (&sequence,), number),
    ensures
        made is None <==> value == 0,
        made matches Some(found) ==> found@ == value,
        made == Some(*version) ==> shown == value,
        shown == version@,
        number == value,
        sequence@ == value,
{
}

/// A resource pool is what it was made of.
pub proof fn law_resource_pools(
    id: ResourcePoolId,
    name: String,
    unit: Unit,
    curve: CapacityCurve,
    pool: ResourcePool,
    shown_id: ResourcePoolId,
    shown_name: &str,
    shown_unit: &Unit,
    shown_curve: &CapacityCurve,
    copy: ResourcePool,
    rank: u128,
)
    requires
        call_ensures(ResourcePool::with_id, (id, name, unit, curve), pool),
        call_ensures(ResourcePool::id, (&pool,), shown_id),
        call_ensures(ResourcePool::display_name, (&pool,), shown_name),
        call_ensures(ResourcePool::unit, (&pool,), shown_unit),
        call_ensures(ResourcePool::capacity_curve, (&pool,), shown_curve),
        call_ensures(<ResourcePool as Clone>::clone, (&pool,), copy),
        call_ensures(<ResourcePool as Ranked>::rank, (&pool,), rank),
    ensures
        shown_id == id,
        shown_name@ == name@,
        shown_unit@ == unit@,
        shown_curve@ == curve@,
        pool@.id == id,
        pool@.display_name == name@,
        pool@.unit == unit@,
        pool@.capacity_curve == curve@,
        copy@ == pool@,
        rank == id.value,
{
}

/// A promise can be restored exactly if it was not updated before it was created, and is what it
/// was made of.
pub proof fn law_promises(
    id: PromiseId,
    state: PromiseState,
    bundle: Bundle,
    version: Version,
    created: SequenceNumber,
    updated: SequenceNumber,
    out: Result<Promise, DomainError>,
    promise: &Promise,
    shown_id: PromiseId,
    shown_state: PromiseState,
    shown_bundle: &Bundle,
    shown_version: Version,
    shown_created: SequenceNumber,
    shown_updated: SequenceNumber,
    copy: Promise,
    rank: u128,
)
    requires
        call_ensures(Promise::restore, (id, state, bundle, version, created, updated), out),
        call_ensures(Promise::id, (promise,), shown_id),
        call_ensures(Promise::state, (promise,), shown_state),
        call_ensures(Promise::bundle, (promise,), shown_bundle),
        call_ensures(Promise::version, (promise,), shown_version),
        call_ensures(Promise::created_sequence, (promise,), shown_created),
        call_ensures(Promise::updated_sequence, (promise,), shown_updated),
        call_ensures(<Promise as Clone>::clone, (promise,), copy),
        call_ensures(<Promise as Ranked>::rank, (promise,), rank),
    ensures
        out is Ok <==> created@ <= updated@,
        out matches Err(error) ==> error == DomainError::InvalidPromiseHistory,
        out matches Ok(made) ==> made@.id == id && made@.state == state && made@.bundle == bundle@
            && made@.version == version@ && made@.created_sequence == created@
            && made@.updated_sequence == updated@,
        shown_id == promise@.id,
        shown_state == promise@.state,
        shown_bundle@ == promise@.bundle,
        shown_version@ == promise@.version,
        shown_created@ == promise@.created_sequence,
        shown_updated@ == promise@.updated_sequence,
        copy@ == promise@,
        rank == promise@.id.value,
{
}

/// Commands are what they were made of.
pub proof fn law_commands(
    client_text: String,
    client: ClientId,
    client_shown: &str,
    client_copy: ClientId,
    key_text: String,
    key: IdempotencyKey,
    key_shown: &str,
    key_copy: IdempotencyKey,
    operation: CommandOperation,
    operation_copy: CommandOperation,
    command: Command,
    shown_client: &ClientId,
    shown_key: &IdempotencyKey,
    shown_operation: &CommandOperation,
    copy: Command,
)
    requires
        call_ensures(ClientId::new, (client_text,), client),
        call_ensures(ClientId::as_str, (&client,), client_shown),
        call_ensures(<ClientId as Clone>::clone, (&client,), client_copy),
        call_ensures(IdempotencyKey::new, (key_text,), key),
        call_ensures(IdempotencyKey::as_str, (&key,), key_shown),
        call_ensures(<IdempotencyKey as Clone>::clone, (&key,), key_copy),
        call_ensures(<CommandOperation as Clone>::clone, (&operation,), operation_copy),
        call_ensures(Command::new, (client, key, operation), command),
        call_ensures(Command::client_id, (&command,), shown_client),
        call_ensures(Command::idempotency_key, (&command,), shown_key),
        call_ensures(Command::operation, (&command,), shown_operation),
        call_ensures(<Command as Clone>::clone, (&command,), copy),
    ensures
        client_shown@ == client_text@,
        client_copy@ == client_text@,
        key_shown@ == key_text@,
        key_copy@ == key_text@,
        operation_copy@ == operation@,
        command@.client_id == client_text@,
        command@.idempotency_key == key_text@,
        command@.operation == operation@,
        shown_client@ == client_text@,
        shown_key@ == key_text@,
        shown_operation@ == operation@,
        copy@ == command@,
{
}

/// An event can be restored exactly if its subject belongs to its kind and the promises of a
/// deficit rise, and is what it was made of.
pub proof fn law_events(
    sequence: SequenceNumber,
    timestamp: i64,
    kind: EventKind,
    data: EventData,
    out: Option<Event>,
    event: &Event,
    shown_sequence: SequenceNumber,
    shown_timestamp: i64,
    shown_kind: EventKind,
    shown_data: &EventData,
    copy: Event,
    data_copy: EventData,
    rank: u128,
)
    requires
        call_ensures(Event::restore, (sequence, timestamp, kind, data), out),
        call_ensures(Event::sequence, (event,), shown_sequence),
        call_ensures(Event::timestamp, (event,), shown_timestamp),
        call_ensures(Event::kind, (event,), shown_kind),
        call_ensures(Event::data, (event,), shown_data),
        call_ensures(<Event as Clone>::clone, (event,), copy),
        call_ensures(<EventData as Clone>::clone, (&data,), data_copy),
        call_ensures(<Event as Ranked>::rank, (event,), rank),
    ensures
        out is Some <==> match data@ {
            EventDataView::ResourcePool { .. } => kind == EventKind::ResourceCreated || kind
                == EventKind::CapacityRevised,
            EventDataView::Promise { .. } => kind == EventKind::HoldCreated || kind
                == EventKind::HoldCommitted || kind == EventKind::PromiseReleased || kind
                == EventKind::PromiseReplaced || kind == EventKind::HoldExpired,
            EventDataView::Deficit { affected_promise_ids, .. } => (kind
                == EventKind::DeficitCreated || kind == EventKind::DeficitChanged || kind
                == EventKind::DeficitResolved) && forall|i: int, j: int|
                0 <= i < j < affected_promise_ids.len() ==> (
                #[trigger] affected_promise_ids[i]).value < (
                #[trigger] affected_promise_ids[j]).value,
        },
        out matches Some(made) ==> made@.sequence == sequence@ && made@.timestamp == timestamp
            && made@.kind == kind && made@.subject == data@,
        shown_sequence@ == event@.sequence,
        shown_timestamp == event@.timestamp,
        shown_kind == event@.kind,
        shown_data@ == event@.subject,
        copy@ == event@,
        data_copy@ == data@,
        rank == event@.sequence,
{
}

/// Kinds of events and domain errors are numbered, and found again by their numbers.
pub proof fn law_numbered_kinds(
    kind: EventKind,
    kind_tag: u8,
    found_kind: Option<EventKind>,
    error: DomainError,
    error_tag: u8,
    found_error: Option<DomainError>,
)
    requires
        call_ensures(event::tag_of_event_kind, (kind,), kind_tag),
        call_ensures(event::event_kind_from_tag, (kind_tag,), found_kind),
        call_ensures(outcome::tag_of_domain_error, (error,), error_tag),
        call_ensures(outcome::domain_error_from_tag, (error_tag,), found_error),
    ensures
        found_kind == Some(kind),
        found_error == Some(error),
        kind_tag == event::event_kind_tag(kind),
        error_tag == outcome::domain_error_tag(error),
{
}

/// A conflict can be restored exactly if less is available than required, the deficit is the
/// difference, and the promises rise.
pub proof fn law_availability_conflicts(
    pool: ResourcePoolId,
    interval: Interval,
    required: u64,
    available: u64,
    deficit: u64,
    promises: Vec<PromiseId>,
    out: Option<AvailabilityConflict>,
    conflict: &AvailabilityConflict,
    shown_pool: ResourcePoolId,
    shown_interval: Interval,
    shown_required: u64,
    shown_available: u64,
    shown_deficit: u64,
    shown_promises: &[PromiseId],
    copy: AvailabilityConflict,
)
    requires
        call_ensures(
            AvailabilityConflict::restore,
            (pool, interval, required, available, deficit, promises),
            out,
        ),
        call_ensures(AvailabilityConflict::resource_pool_id, (conflict,), shown_pool),
        call_ensures(AvailabilityConflict::blocking_interval, (conflict,), shown_interval),
        call_ensures(AvailabilityConflict::required_quantity, (conflict,), shown_required),
        call_ensures(AvailabilityConflict::available_quantity, (conflict,), shown_available),
        call_ensures(AvailabilityConflict::deficit_quantity, (conflict,), shown_deficit),
        call_ensures(AvailabilityConflict::conflicting_promise_ids, (conflict,), shown_promises),
        call_ensures(<AvailabilityConflict as Clone>::clone, (conflict,), copy),
    ensures
        out is Some <==> available < required && deficit == required - available && forall|
            i: int,
            j: int,
        |
            0 <= i < j < promises@.len() ==> (#[trigger] promises@[i]).value < (
            #[trigger] promises@[j]).value,
        out matches Some(made) ==> made@.resource_pool_id == pool && made@.blocking_interval
            == interval@ && made@.required_quantity == required && made@.available_quantity
            == available && made@.deficit_quantity == deficit && made@.conflicting_promise_ids
            == promises@,
        shown_pool == conflict@.resource_pool_id,
        shown_interval@ == conflict@.blocking_interval,
        shown_required == conflict@.required_quantity,
        shown_available == conflict@.available_quantity,
        shown_deficit == conflict@.deficit_quantity,
        shown_promises@ == conflict@.conflicting_promise_ids,
        copy@ == conflict@,
{
    if forall|i: int, j: int|
        0 <= i < j < promises@.len() ==> (#[trigger] promises@[i]).value < (
        #[trigger] promises@[j]).value {
        assert(model::ordered(promises@, 1));
    }
    if model::ordered(promises@, 1) {
        assert forall|i: int, j: int| 0 <= i < j < promises@.len() implies (
        #[trigger] promises@[i]).value < (#[trigger] promises@[j]).value by {
            assert(promises@[i].key() + 1 <= promises@[j].key());
        }
    }
}

/// A deficit can be restored exactly for some quantity if the promises rise.
pub proof fn law_capacity_deficits(
    pool: ResourcePoolId,
    interval: Interval,
    quantity: u64,
    promises: Vec<PromiseId>,
    out: Option<CapacityDeficit>,
    deficit: &CapacityDeficit,
    shown_pool: ResourcePoolId,
    shown_interval: Interval,
    shown_quantity: u64,
    shown_promises: &[PromiseId],
    copy: CapacityDeficit,
    rises: bool,
)
    requires
        call_ensures(CapacityDeficit::restore, (pool, interval, quantity, promises), out),
        call_ensures(CapacityDeficit::resource_pool_id, (deficit,), shown_pool),
        call_ensures(CapacityDeficit::interval, (deficit,), shown_interval),
        call_ensures(CapacityDeficit::quantity, (deficit,), shown_quantity),
        call_ensures(CapacityDeficit::affected_promise_ids, (deficit,), shown_promises),
        call_ensures(<CapacityDeficit as Clone>::clone, (deficit,), copy),
        call_ensures(outcome::sorted, (shown_promises,), rises),
    ensures
        out is Some <==> quantity > 0 && forall|i: int, j: int|
            0 <= i < j < promises@.len() ==> (#[trigger] promises@[i]).value < (
            #[trigger] promises@[j]).value,
        out matches Some(made) ==> made@.resource_pool_id == pool && made@.interval == interval@
            && made@.quantity == quantity && made@.affected_promise_ids == promises@,
        shown_pool == deficit@.resource_pool_id,
        shown_interval@ == deficit@.interval,
        shown_quantity == deficit@.quantity,
        shown_promises@ == deficit@.affected_promise_ids,
        copy@ == deficit@,
        rises <==> forall|i: int, j: int|
            0 <= i < j < shown_promises@.len() ==> (#[trigger] shown_promises@[i]).value < (
            #[trigger] shown_promises@[j]).value,
{
    lemma_rising(promises@);
    lemma_rising(shown_promises@);
}

/// Identifiers are ordered exactly if they rise.
proof fn lemma_rising(ids: Seq<PromiseId>)
    ensures
        model::ordered(ids, 1) <==> forall|i: int, j: int|
            0 <= i < j < ids.len() ==> (#[trigger] ids[i]).value < (#[trigger] ids[j]).value,
{
    if model::ordered(ids, 1) {
        assert forall|i: int, j: int| 0 <= i < j < ids.len() implies (#[trigger] ids[i]).value < (
        #[trigger] ids[j]).value by {
            assert(ids[i].key() + 1 <= ids[j].key());
        }
    }
}

/// The outcome of a revision can be restored exactly if its promises rise and are those that its
/// deficits affect.
pub proof fn law_capacity_revisions(
    sequence: SequenceNumber,
    deficits: Vec<CapacityDeficit>,
    promises: Vec<PromiseId>,
    out: Option<CapacityRevisionOutcome>,
    revision: &CapacityRevisionOutcome,
    shown_sequence: SequenceNumber,
    shown_deficits: &[CapacityDeficit],
    shown_promises: &[PromiseId],
    copy: CapacityRevisionOutcome,
)
    requires
        call_ensures(CapacityRevisionOutcome::restore, (sequence, deficits, promises), out),
        call_ensures(CapacityRevisionOutcome::sequence, (revision,), shown_sequence),
        call_ensures(CapacityRevisionOutcome::deficits, (revision,), shown_deficits),
        call_ensures(CapacityRevisionOutcome::affected_promise_ids, (revision,), shown_promises),
        call_ensures(<CapacityRevisionOutcome as Clone>::clone, (revision,), copy),
    ensures
        out is Some <==> (forall|i: int, j: int|
            0 <= i < j < promises@.len() ==> (#[trigger] promises@[i]).value < (
            #[trigger] promises@[j]).value) && (forall|id: PromiseId| #[trigger]
            promises@.contains(id) <==> exists|i: int|
                0 <= i < deficits@.len() && (
                #[trigger] deficits@[i])@.affected_promise_ids.contains(id)),
        out matches Some(made) ==> made@.sequence == sequence@ && made@.deficits == model::views(
            deficits@,
        ) && made@.affected_promise_ids == promises@,
        shown_sequence@ == revision@.sequence,
        model::views(shown_deficits@) == revision@.deficits,
        shown_promises@ == revision@.affected_promise_ids,
        copy@ == revision@,
{
    let models = model::views(deficits@);
    lemma_rising(promises@);
    assert forall|id: PromiseId| outcome::affects(models, id) <==> exists|i: int|
        0 <= i < deficits@.len() && (#[trigger] deficits@[i])@.affected_promise_ids.contains(
            id,
        ) by {
        if outcome::affects(models, id) {
            let i = choose|i: int|
                0 <= i < models.len() && (#[trigger] models[i]).affected_promise_ids.contains(id);
            assert(deficits@[i]@ == models[i]);
        }
        if exists|i: int|
            0 <= i < deficits@.len() && (#[trigger] deficits@[i])@.affected_promise_ids.contains(
                id,
            ) {
            let i = choose|i: int|
                0 <= i < deficits@.len() && (
                #[trigger] deficits@[i])@.affected_promise_ids.contains(id);
            assert(models[i] == deficits@[i]@);
        }
    }
}

/// A conflict of an alternative can be restored exactly of some conflicts.
pub proof fn law_choice_conflicts(
    index: usize,
    conflicts: Vec<AvailabilityConflict>,
    out: Option<ChoiceConflict>,
    conflict: &ChoiceConflict,
    shown_index: usize,
    shown_conflicts: &[AvailabilityConflict],
    copy: ChoiceConflict,
)
    requires
        call_ensures(ChoiceConflict::restore, (index, conflicts), out),
        call_ensures(ChoiceConflict::alternative_index, (conflict,), shown_index),
        call_ensures(ChoiceConflict::conflicts, (conflict,), shown_conflicts),
        call_ensures(<ChoiceConflict as Clone>::clone, (conflict,), copy),
    ensures
        out is Some <==> conflicts@.len() > 0,
        out matches Some(made) ==> made@.alternative_index == index && made@.conflicts
            == model::views(conflicts@),
        shown_index == conflict@.alternative_index,
        model::views(shown_conflicts@) == conflict@.conflicts,
        copy@ == conflict@,
{
}

/// A transition is what it was made of, and is valid exactly if the rules of its type hold.
pub proof fn law_transitions(
    command: Command,
    client: ClientId,
    key: IdempotencyKey,
    hash: CommandHash,
    response: CommandResponse,
    pools: Vec<ResourcePool>,
    promises: Vec<Promise>,
    events: Vec<Event>,
    last: SequenceNumber,
    transition: DurableTransition,
    shown_command: &Command,
    shown_client: &ClientId,
    shown_key: &IdempotencyKey,
    shown_hash: &CommandHash,
    shown_response: &CommandResponse,
    shown_pools: &[ResourcePool],
    shown_promises: &[Promise],
    shown_events: &[Event],
    shown_last: SequenceNumber,
    valid: bool,
)
    requires
        call_ensures(
            DurableTransition::restore,
            (command, client, key, hash, response, pools, promises, events, last),
            transition,
        ),
        call_ensures(DurableTransition::command, (&transition,), shown_command),
        call_ensures(DurableTransition::client_id, (&transition,), shown_client),
        call_ensures(DurableTransition::idempotency_key, (&transition,), shown_key),
        call_ensures(DurableTransition::command_hash, (&transition,), shown_hash),
        call_ensures(DurableTransition::response, (&transition,), shown_response),
        call_ensures(DurableTransition::resource_pools, (&transition,), shown_pools),
        call_ensures(DurableTransition::promises, (&transition,), shown_promises),
        call_ensures(DurableTransition::events, (&transition,), shown_events),
        call_ensures(DurableTransition::final_sequence, (&transition,), shown_last),
        call_ensures(DurableTransition::is_valid, (&transition,), valid),
    ensures
        shown_command@ == command@,
        shown_client@ == client@,
        shown_key@ == key@,
        shown_hash@ == hash@,
        outcome::response_view(*shown_response) == outcome::response_view(response),
        model::views(shown_pools@) == model::views(pools@),
        model::views(shown_promises@) == model::views(promises@),
        model::views(shown_events@) == model::views(events@),
        shown_last@ == last@,
        transition@.command == command@,
        transition@.client_id == client@,
        transition@.idempotency_key == key@,
        transition@.command_hash == hash@,
        transition@.response == outcome::response_view(response),
        transition@.resource_pools == model::views(pools@),
        transition@.promises == model::views(promises@),
        transition@.events == model::views(events@),
        transition@.final_sequence == last@,
        valid <==> transition@.valid(),
{
}

/// A response is seen as its result or its error.
pub proof fn law_responses(response: CommandResponse, valid: bool)
    requires
        call_ensures(outcome::response_is_valid, (&response,), valid),
    ensures
        match response {
            Ok(result) => outcome::response_view(response) == Ok::<CommandResultView, DomainError>(
                result@,
            )
                && (valid <==> result@.valid()),
            Err(error) => outcome::response_view(response) == Err::<CommandResultView, DomainError>(
                error,
            ) && valid,
        },
{
}

/// A hash of a command is its bytes, and what a client repeats is what it was made of.
pub proof fn law_idempotency_records(
    bytes: [u8; 32],
    hash: CommandHash,
    shown_bytes: &[u8; 32],
    client: ClientId,
    key: IdempotencyKey,
    response: CommandResponse,
    record: IdempotencyRecord,
    shown_client: &ClientId,
    shown_key: &IdempotencyKey,
    shown_hash: &CommandHash,
    shown_response: &CommandResponse,
    valid: bool,
)
    requires
        call_ensures(CommandHash::from_bytes, (bytes,), hash),
        call_ensures(CommandHash::as_bytes, (&hash,), shown_bytes),
        call_ensures(IdempotencyRecord::new, (client, key, hash, response), record),
        call_ensures(IdempotencyRecord::client_id, (&record,), shown_client),
        call_ensures(IdempotencyRecord::idempotency_key, (&record,), shown_key),
        call_ensures(IdempotencyRecord::command_hash, (&record,), shown_hash),
        call_ensures(IdempotencyRecord::response, (&record,), shown_response),
        call_ensures(IdempotencyRecord::is_valid, (&record,), valid),
    ensures
        shown_bytes@ == bytes@,
        shown_client@ == client@,
        shown_key@ == key@,
        shown_hash@ == bytes@,
        outcome::response_view(*shown_response) == outcome::response_view(response),
        record@.client_id == client@,
        record@.idempotency_key == key@,
        record@.command_hash == bytes@,
        record@.response == outcome::response_view(response),
        valid <==> outcome::response_view(response).valid(),
{
}

/// A list is ordered exactly if each key is at least the gap above every key before it.
pub proof fn law_order_is_checked<T: Ranked>(items: &[T], gap: u8, out: bool) where
    <T as View>::V: Keyed,

    requires
        call_ensures(assured::is_ordered::<T>, (items, gap), out),
    ensures
        out <==> forall|i: int, j: int|
            0 <= i < j < items@.len() ==> (#[trigger] items@[i])@.key() + gap <= (
            #[trigger] items@[j])@.key(),
{
    let models = model::views(items@);
    if forall|i: int, j: int|
        0 <= i < j < items@.len() ==> (#[trigger] items@[i])@.key() + gap <= (
        #[trigger] items@[j])@.key() {
        assert forall|i: int, j: int| 0 <= i < j < models.len() implies (#[trigger] models[i]).key()
            + gap <= (#[trigger] models[j]).key() by {
            assert(items@[i]@ == models[i] && items@[j]@ == models[j]);
        }
    }
    if out {
        assert forall|i: int, j: int| 0 <= i < j < items@.len() implies (
        #[trigger] items@[i])@.key() + gap <= (#[trigger] items@[j])@.key() by {
            assert(models[i] == items@[i]@ && models[j] == items@[j]@);
        }
    }
}

} // verus!
