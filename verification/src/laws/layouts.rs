//! How values are written.

use crate::codec;
use crate::command::{CapacityRevisionMode, CommandOperationView, CommandView};
use crate::domain::capacity;
use crate::domain::capacity::{CapacityCurveView, CapacitySegmentView, IntervalView, UnitView};
use crate::domain::claims::{
    BundleView, ChoiceView, ClaimView, RelativeBundleView, RelativeClaimView,
};
use crate::domain::ids::{PromiseId, ResourcePoolId};
use crate::domain::promise::{PromiseState, PromiseView, ReplacementState, ResourcePoolView};
use crate::engine::IdempotencyRecordView;
use crate::error::{DomainError, StorageError};
use crate::event;
use crate::event::{EventDataView, EventKind, EventView};
use crate::outcome;
use crate::outcome::{
    AvailabilityConflictView, CapacityDeficitView, CapacityRevisionOutcomeView, ChoiceConflictView,
    ChoiceOutcomeView, CommandResultView, HoldOutcomeView, ReplaceOutcomeView, SlotOutcomeView,
};
use crate::transition;
use crate::transition::DurableTransitionView;
use crate::wire::model;
use crate::wire::model::{Enc, Keyed, Limits, Wire};
use crate::wire::reader;
use vstd::prelude::*;
use vstd::utf8::*;

verus! {

/// One byte is written as it is.
proof fn lemma_tags()
    ensures
        forall|tag: u8| (#[trigger] tag.enc()) == (Enc { bytes: seq![tag], fail: None }),
{
    assert forall|tag: u8| (#[trigger] tag.enc()) == (Enc { bytes: seq![tag], fail: None }) by {
        reveal_with_fuel(model::le, 2);
        assert(model::le(tag as nat, 1) =~= seq![tag]);
    }
}

/// Numbers are written as their little-endian bytes, all of them, and are always valid.
pub proof fn law_numbers(a: u8, b: u32, c: u64, d: u128, e: i64, limits: Limits)
    ensures
        a.enc() == (Enc { bytes: seq![a], fail: None }),
        b.enc() == (Enc { bytes: model::le(b as nat, 4), fail: None }),
        c.enc() == (Enc { bytes: model::le(c as nat, 8), fail: None }),
        d.enc() == (Enc { bytes: model::le(d as nat, 16), fail: None }),
        e >= 0 ==> e.enc() == (Enc { bytes: model::le(e as nat, 8), fail: None }),
        e < 0 ==> e.enc() == (Enc {
            bytes: model::le((e + 0x1_0000_0000_0000_0000) as nat, 8),
            fail: None,
        }),
        a.valid() && b.valid() && c.valid() && d.valid() && e.valid(),
        a.fits(limits) && b.fits(limits) && c.fits(limits) && d.fits(limits) && e.fits(limits),
{
    lemma_tags();
}

/// Writing one thing behind another writes the bytes of both, unless the first fails. A failure
/// is kept.
pub proof fn law_one_behind_another(first: Enc, second: Enc, bytes: Seq<u8>, error: StorageError)
    ensures
        first.fail is None ==> first.followed_by(second).bytes == first.bytes + second.bytes
            && first.followed_by(second).fail == second.fail,
        first.fail is Some ==> first.followed_by(second) == first,
        first.ok() <==> first.fail is None,
        first.fail is None ==> first.status() is Ok,
        first.fail matches Some(fault) ==> first.status() == Err::<(), StorageError>(fault),
        Enc::of(bytes) == (Enc { bytes, fail: None }),
        Enc::failed(error) == (Enc { bytes: seq![], fail: Some(error) }),
{
}

/// A length is written as four bytes, and refused exactly if they cannot hold it.
pub proof fn law_lengths(field: &'static str, count: nat)
    ensures
        count <= 0xffff_ffff ==> model::enc_len(field, count) == (Enc {
            bytes: model::le(count, 4),
            fail: None,
        }),
        count > 0xffff_ffff ==> model::enc_len(field, count) == (Enc {
            bytes: seq![],
            fail: Some(StorageError::InvalidLength { field, length: count as u64 }),
        }),
{
}

/// A text is written as the length of its UTF-8 encoding and that encoding, and refused exactly
/// if four bytes cannot hold the length.
pub proof fn law_texts(field: &'static str, text: Seq<char>, limits: Limits)
    ensures
        ({
            let bytes = encode_utf8(text);
            &&& bytes.len() <= 0xffff_ffff ==> model::enc_string(field, text) == (Enc {
                bytes: model::le(bytes.len(), 4) + bytes,
                fail: None,
            })
            &&& bytes.len() > 0xffff_ffff ==> model::enc_string(field, text) == (Enc {
                bytes: seq![],
                fail: Some(StorageError::InvalidLength { field, length: bytes.len() as u64 }),
            })
            &&& model::string_fits(text, limits) <==> bytes.len() <= limits.strings
        }),
{
}

/// The items of a list are written one behind the other, and can be written exactly if each can.
pub proof fn law_items<T: Wire>(items: Seq<T>, item: T)
    ensures
        model::enc_items(Seq::<T>::empty()) == (Enc { bytes: seq![], fail: None }),
        model::enc_items(items).fail is None ==> model::enc_items(items.push(item)) == (Enc {
            bytes: model::enc_items(items).bytes + item.enc().bytes,
            fail: item.enc().fail,
        }),
        model::enc_items(items).fail is Some ==> model::enc_items(items.push(item))
            == model::enc_items(items),
        model::enc_items(items).fail is None <==> forall|i: int|
            0 <= i < items.len() ==> (#[trigger] items[i]).enc().fail is None,
    decreases items.len(),
{
    assert(items.push(item).drop_last() =~= items);
    if items.len() > 0 {
        let fewer = items.drop_last();
        law_items(fewer, items.last());
        assert(fewer.push(items.last()) =~= items);
        if model::enc_items(items).fail is None {
            assert forall|i: int| 0 <= i < items.len() implies (#[trigger] items[i]).enc().fail
                is None by {
                if i < fewer.len() {
                    assert(fewer[i].enc().fail is None);
                }
            }
        }
        if forall|i: int| 0 <= i < items.len() ==> (#[trigger] items[i]).enc().fail is None {
            assert forall|i: int| 0 <= i < fewer.len() implies (#[trigger] fewer[i]).enc().fail
                is None by {
                assert(items[i].enc().fail is None);
            }
            assert(items[items.len() - 1].enc().fail is None);
        }
    }
}

/// A list is written as its length and its items, and can be written exactly if four bytes can
/// hold the length and each item can be written.
pub proof fn law_lists<T: Wire>(field: &'static str, items: Seq<T>, limits: Limits)
    ensures
        model::enc_list(field, items).fail is None <==> items.len() <= 0xffff_ffff && forall|i: int|
            0 <= i < items.len() ==> (#[trigger] items[i]).enc().fail is None,
        model::enc_list(field, items).fail is None ==> model::enc_list(field, items).bytes
            == model::le(items.len(), 4) + model::enc_items(items).bytes,
        items.len() > 0xffff_ffff ==> model::enc_list(field, items).fail == Some(
            StorageError::InvalidLength { field, length: items.len() as u64 },
        ),
        items.len() <= 0xffff_ffff ==> model::enc_list(field, items).fail == model::enc_items(
            items,
        ).fail,
        model::all_valid(items) <==> forall|i: int|
            0 <= i < items.len() ==> (#[trigger] items[i]).valid(),
        model::all_fit(items, limits) <==> forall|i: int|
            0 <= i < items.len() ==> (#[trigger] items[i]).fits(limits),
        model::list_fits(items, limits) <==> items.len() <= limits.items && forall|i: int|
            0 <= i < items.len() ==> (#[trigger] items[i]).fits(limits),
{
    if items.len() > 0 {
        law_items(items, items[0]);
    }
}

/// A list is ordered if the key of each item exceeds that of the one before by at least the gap.
pub proof fn law_ordered<T: Keyed>(items: Seq<T>, gap: nat)
    ensures
        model::ordered(items, gap) <==> forall|i: int, j: int|
            0 <= i < j < items.len() ==> (#[trigger] items[i]).key() + gap <= (
            #[trigger] items[j]).key(),
{
}

/// The keys by which lists are ordered.
pub proof fn law_keys(id: PromiseId, pool: ResourcePoolView, promise: PromiseView, event: EventView)
    ensures
        id.key() == id.value,
        pool.key() == pool.id.value,
        promise.key() == promise.id.value,
        event.key() == event.sequence,
{
}

/// A value is read exactly where it stands as it is written, if it is valid and within limits.
pub proof fn law_values_are_read_where_they_stand<T: Wire>(
    data: Seq<u8>,
    pos: int,
    limits: Limits,
    value: T,
    end: int,
)
    requires
        0 <= pos <= data.len(),
    ensures
        T::parse(data, pos, limits) == Ok::<(T, int), StorageError>((value, end)) <==> {
            &&& value.valid()
            &&& value.fits(limits)
            &&& value.enc().fail is None
            &&& end == pos + value.enc().bytes.len()
            &&& end <= data.len()
            &&& data.subrange(pos, end) == value.enc().bytes
        },
{
    reveal(model::at);
    T::lemma_parse(data, pos, limits, pos);
    if value.valid() && value.fits(limits) && value.enc().fail is None && end == pos
        + value.enc().bytes.len() && end <= data.len() && data.subrange(pos, end)
        == value.enc().bytes {
        value.lemma_enc(data, pos, limits);
    }
}

/// Without limits, lists and texts may be as long as memory allows.
pub proof fn law_no_limits(limits: Limits)
    ensures
        reader::unbounded().lists == usize::MAX,
        reader::unbounded().items == usize::MAX,
        reader::unbounded().strings == usize::MAX,
        limits.ceiling() == if limits.lists > limits.items {
            limits.lists
        } else {
            limits.items
        },
{
}

/// Kinds of events are numbered like this.
pub proof fn law_event_kind_tags(tag: u8)
    ensures
        event::event_kind_tag(EventKind::ResourceCreated) == 1,
        event::event_kind_tag(EventKind::CapacityRevised) == 2,
        event::event_kind_tag(EventKind::HoldCreated) == 3,
        event::event_kind_tag(EventKind::HoldCommitted) == 4,
        event::event_kind_tag(EventKind::PromiseReleased) == 5,
        event::event_kind_tag(EventKind::PromiseReplaced) == 6,
        event::event_kind_tag(EventKind::HoldExpired) == 7,
        event::event_kind_tag(EventKind::DeficitCreated) == 8,
        event::event_kind_tag(EventKind::DeficitChanged) == 9,
        event::event_kind_tag(EventKind::DeficitResolved) == 10,
        tag == 1 ==> event::event_kind_of_tag(tag) == Some(EventKind::ResourceCreated),
        tag == 2 ==> event::event_kind_of_tag(tag) == Some(EventKind::CapacityRevised),
        tag == 3 ==> event::event_kind_of_tag(tag) == Some(EventKind::HoldCreated),
        tag == 4 ==> event::event_kind_of_tag(tag) == Some(EventKind::HoldCommitted),
        tag == 5 ==> event::event_kind_of_tag(tag) == Some(EventKind::PromiseReleased),
        tag == 6 ==> event::event_kind_of_tag(tag) == Some(EventKind::PromiseReplaced),
        tag == 7 ==> event::event_kind_of_tag(tag) == Some(EventKind::HoldExpired),
        tag == 8 ==> event::event_kind_of_tag(tag) == Some(EventKind::DeficitCreated),
        tag == 9 ==> event::event_kind_of_tag(tag) == Some(EventKind::DeficitChanged),
        tag == 10 ==> event::event_kind_of_tag(tag) == Some(EventKind::DeficitResolved),
        tag < 1 || tag > 10 ==> event::event_kind_of_tag(tag) is None,
{
}

/// Domain errors are numbered like this.
pub proof fn law_domain_error_tags(tag: u8)
    ensures
        outcome::domain_error_tag(DomainError::InvalidInterval) == 1,
        outcome::domain_error_tag(DomainError::UnsortedCapacitySegments) == 2,
        outcome::domain_error_tag(DomainError::OverlappingCapacitySegments) == 3,
        outcome::domain_error_tag(DomainError::InvalidUnitName) == 4,
        outcome::domain_error_tag(DomainError::InvalidUnitScale) == 5,
        outcome::domain_error_tag(DomainError::InvalidQuantity) == 6,
        outcome::domain_error_tag(DomainError::QuantityOutOfRange) == 7,
        outcome::domain_error_tag(DomainError::QuantityOverflow) == 8,
        outcome::domain_error_tag(DomainError::IndexOverflow) == 9,
        outcome::domain_error_tag(DomainError::InvalidExpiration) == 10,
        outcome::domain_error_tag(DomainError::EmptyBundle) == 11,
        outcome::domain_error_tag(DomainError::EmptyRelativeBundle) == 12,
        outcome::domain_error_tag(DomainError::EmptyChoice) == 13,
        outcome::domain_error_tag(DomainError::InvalidSearchRange) == 14,
        outcome::domain_error_tag(DomainError::InvalidStep) == 15,
        outcome::domain_error_tag(DomainError::TimestampOverflow) == 16,
        outcome::domain_error_tag(DomainError::ResourcePoolAlreadyExists) == 17,
        outcome::domain_error_tag(DomainError::ResourcePoolNotFound) == 18,
        outcome::domain_error_tag(DomainError::CapacityExceeded) == 19,
        outcome::domain_error_tag(DomainError::CapacityRevisionCreatesDeficit) == 20,
        outcome::domain_error_tag(DomainError::PromiseAlreadyExists) == 21,
        outcome::domain_error_tag(DomainError::PromiseNotFound) == 22,
        outcome::domain_error_tag(DomainError::InvalidPromiseState) == 23,
        outcome::domain_error_tag(DomainError::IdempotencyConflict) == 24,
        outcome::domain_error_tag(DomainError::VersionConflict) == 25,
        outcome::domain_error_tag(DomainError::VersionOverflow) == 26,
        outcome::domain_error_tag(DomainError::SequenceOverflow) == 27,
        outcome::domain_error_tag(DomainError::SystemTimeOutOfRange) == 28,
        outcome::domain_error_tag(DomainError::HoldExpired) == 29,
        outcome::domain_error_tag(DomainError::HoldNotExpired) == 30,
        outcome::domain_error_tag(DomainError::InvalidPromiseHistory) == 31,
        outcome::domain_error_tag(DomainError::PublicationRevisionOverflow) == 32,
        tag == 1 ==> outcome::domain_error_of_tag(tag) == Some(DomainError::InvalidInterval),
        tag == 2 ==> outcome::domain_error_of_tag(tag)
            == Some(DomainError::UnsortedCapacitySegments),
        tag == 3 ==> outcome::domain_error_of_tag(tag)
            == Some(DomainError::OverlappingCapacitySegments),
        tag == 4 ==> outcome::domain_error_of_tag(tag) == Some(DomainError::InvalidUnitName),
        tag == 5 ==> outcome::domain_error_of_tag(tag) == Some(DomainError::InvalidUnitScale),
        tag == 6 ==> outcome::domain_error_of_tag(tag) == Some(DomainError::InvalidQuantity),
        tag == 7 ==> outcome::domain_error_of_tag(tag) == Some(DomainError::QuantityOutOfRange),
        tag == 8 ==> outcome::domain_error_of_tag(tag) == Some(DomainError::QuantityOverflow),
        tag == 9 ==> outcome::domain_error_of_tag(tag) == Some(DomainError::IndexOverflow),
        tag == 10 ==> outcome::domain_error_of_tag(tag) == Some(DomainError::InvalidExpiration),
        tag == 11 ==> outcome::domain_error_of_tag(tag) == Some(DomainError::EmptyBundle),
        tag == 12 ==> outcome::domain_error_of_tag(tag) == Some(DomainError::EmptyRelativeBundle),
        tag == 13 ==> outcome::domain_error_of_tag(tag) == Some(DomainError::EmptyChoice),
        tag == 14 ==> outcome::domain_error_of_tag(tag) == Some(DomainError::InvalidSearchRange),
        tag == 15 ==> outcome::domain_error_of_tag(tag) == Some(DomainError::InvalidStep),
        tag == 16 ==> outcome::domain_error_of_tag(tag) == Some(DomainError::TimestampOverflow),
        tag == 17 ==> outcome::domain_error_of_tag(tag)
            == Some(DomainError::ResourcePoolAlreadyExists),
        tag == 18 ==> outcome::domain_error_of_tag(tag) == Some(DomainError::ResourcePoolNotFound),
        tag == 19 ==> outcome::domain_error_of_tag(tag) == Some(DomainError::CapacityExceeded),
        tag == 20 ==> outcome::domain_error_of_tag(tag)
            == Some(DomainError::CapacityRevisionCreatesDeficit),
        tag == 21 ==> outcome::domain_error_of_tag(tag) == Some(DomainError::PromiseAlreadyExists),
        tag == 22 ==> outcome::domain_error_of_tag(tag) == Some(DomainError::PromiseNotFound),
        tag == 23 ==> outcome::domain_error_of_tag(tag) == Some(DomainError::InvalidPromiseState),
        tag == 24 ==> outcome::domain_error_of_tag(tag) == Some(DomainError::IdempotencyConflict),
        tag == 25 ==> outcome::domain_error_of_tag(tag) == Some(DomainError::VersionConflict),
        tag == 26 ==> outcome::domain_error_of_tag(tag) == Some(DomainError::VersionOverflow),
        tag == 27 ==> outcome::domain_error_of_tag(tag) == Some(DomainError::SequenceOverflow),
        tag == 28 ==> outcome::domain_error_of_tag(tag) == Some(DomainError::SystemTimeOutOfRange),
        tag == 29 ==> outcome::domain_error_of_tag(tag) == Some(DomainError::HoldExpired),
        tag == 30 ==> outcome::domain_error_of_tag(tag) == Some(DomainError::HoldNotExpired),
        tag == 31 ==> outcome::domain_error_of_tag(tag) == Some(DomainError::InvalidPromiseHistory),
        tag == 32 ==> outcome::domain_error_of_tag(tag)
            == Some(DomainError::PublicationRevisionOverflow),
        tag < 1 || tag > 32 ==> outcome::domain_error_of_tag(tag) is None,
{
}

/// Capacity segments follow each other exactly if none starts before the one in front of it ends.
/// Where one does, the first such segment decides.
pub proof fn law_segments_follow_each_other(segments: Seq<CapacitySegmentView>)
    ensures
        capacity::curve_fault(segments) is None <==> forall|i: int|
            1 <= i < segments.len() ==> segments[i - 1].interval.start <= (
            #[trigger] segments[i]).interval.start && segments[i - 1].interval.end
                <= segments[i].interval.start,
        capacity::curve_fault(segments) matches Some(error) ==> exists|i: int|
            1 <= i < segments.len() && (if (#[trigger] segments[i]).interval.start < segments[i
                - 1].interval.start {
                error == DomainError::UnsortedCapacitySegments
            } else {
                error == DomainError::OverlappingCapacitySegments && segments[i].interval.start
                    < segments[i - 1].interval.end
            }),
    decreases segments.len(),
{
    if segments.len() >= 2 {
        let fewer = segments.drop_last();
        law_segments_follow_each_other(fewer);
        let n = segments.len() - 1;
        assert forall|i: int| 0 <= i < fewer.len() implies #[trigger] fewer[i] == segments[i] by {}
        match capacity::curve_fault(fewer) {
            Some(error) => {
                let i = choose|i: int|
                    1 <= i < fewer.len() && (if (#[trigger] fewer[i]).interval.start < fewer[i
                        - 1].interval.start {
                        error == DomainError::UnsortedCapacitySegments
                    } else {
                        error == DomainError::OverlappingCapacitySegments && fewer[i].interval.start
                            < fewer[i - 1].interval.end
                    });
                assert(segments[i] == fewer[i]);
            },
            None => {
                assert forall|i: int| 1 <= i < n implies segments[i - 1].interval.start <= (
                #[trigger] segments[i]).interval.start && segments[i - 1].interval.end
                    <= segments[i].interval.start by {
                    assert(fewer[i] == segments[i]);
                }
                assert(segments[n] == segments.last());
            },
        }
    }
}

/// What belongs together: the kind of an event and its subject, the deficits of a revision and the
/// promises that they affect, and conflicts and their numbers.
pub proof fn law_what_belongs_together(
    kind: EventKind,
    subject: EventDataView,
    deficits: Seq<CapacityDeficitView>,
    ids: Seq<PromiseId>,
    conflicts: Seq<ChoiceConflictView>,
)
    ensures
        event::consistent(kind, subject) <==> match subject {
            EventDataView::ResourcePool { .. } => kind == EventKind::ResourceCreated || kind
                == EventKind::CapacityRevised,
            EventDataView::Promise { .. } => kind == EventKind::HoldCreated || kind
                == EventKind::HoldCommitted || kind == EventKind::PromiseReleased || kind
                == EventKind::PromiseReplaced || kind == EventKind::HoldExpired,
            EventDataView::Deficit { .. } => kind == EventKind::DeficitCreated || kind
                == EventKind::DeficitChanged || kind == EventKind::DeficitResolved,
        },
        outcome::affected(deficits, ids) <==> forall|id: PromiseId| #[trigger]
            ids.contains(id) <==> exists|i: int|
                0 <= i < deficits.len() && (
                #[trigger] deficits[i]).affected_promise_ids.contains(id),
        outcome::numbered(conflicts) <==> forall|i: int|
            0 <= i < conflicts.len() ==> (#[trigger] conflicts[i]).alternative_index == i,
{
    if outcome::affected(deficits, ids) {
        assert forall|id: PromiseId| #[trigger] ids.contains(id) <==> exists|i: int|
            0 <= i < deficits.len() && (#[trigger] deficits[i]).affected_promise_ids.contains(
                id,
            ) by {
            assert(ids.contains(id) <==> outcome::affects(deficits, id));
        }
    }
    if forall|id: PromiseId| #[trigger] ids.contains(id) <==> exists|i: int|
        0 <= i < deficits.len() && (#[trigger] deficits[i]).affected_promise_ids.contains(id) {
        assert forall|id: PromiseId| #[trigger] ids.contains(id) <==> outcome::affects(
            deficits,
            id,
        ) by {}
    }
}

/// The payload of a command is its format version and the command, and that of a transition its
/// format version and the transition.
pub proof fn law_payloads(command: CommandView, transition: DurableTransitionView)
    ensures
        codec::command_enc(command).fail == command.enc().fail,
        command.enc().fail is None ==> codec::command_enc(command).bytes == seq![1u8]
            + command.enc().bytes,
        transition::transition_enc(transition).fail == transition.enc().fail,
        transition.enc().fail is None ==> transition::transition_enc(transition).bytes == seq![1u8]
            + transition.enc().bytes,
        command.enc().fail is None && command.enc().bytes.len() < 0xffff_ffff
            ==> transition::enc_command_block(command) == (Enc {
            bytes: model::le(1 + command.enc().bytes.len(), 4) + (seq![1u8] + command.enc().bytes),
            fail: None,
        }),
        command.enc().fail is Some ==> transition::enc_command_block(command).fail
            == command.enc().fail,
        command.enc().fail is None && command.enc().bytes.len() >= 0xffff_ffff
            ==> transition::enc_command_block(command).fail == Some(
            StorageError::InvalidLength {
                field: "command",
                length: (1 + command.enc().bytes.len()) as u64,
            },
        ),
{
    lemma_tags();
}

/// A payload of a command is read exactly if it is what writing a valid command gives. So is one
/// of a transition.
pub proof fn law_payloads_are_read(
    bytes: Seq<u8>,
    command: CommandView,
    transition: DurableTransitionView,
)
    ensures
        codec::command_dec(bytes) == Ok::<CommandView, StorageError>(command) <==> command.valid()
            && command.enc().fail is None && bytes == seq![1u8] + command.enc().bytes,
        transition::transition_dec(bytes) == Ok::<DurableTransitionView, StorageError>(transition)
            <==> transition.valid() && transition.enc().fail is None && bytes == seq![1u8]
            + transition.enc().bytes,
        bytes.len() == 0 ==> codec::command_dec(bytes) == Err::<CommandView, StorageError>(
            StorageError::TruncatedPayload,
        ),
        bytes.len() == 0 ==> transition::transition_dec(bytes) == Err::<
            DurableTransitionView,
            StorageError,
        >(StorageError::TruncatedPayload),
        bytes.len() > 0 && bytes[0] != 1 ==> codec::command_dec(bytes) == Err::<
            CommandView,
            StorageError,
        >(StorageError::UnsupportedVersion(bytes[0])),
        bytes.len() > 0 && bytes[0] != 1 ==> transition::transition_dec(bytes) == Err::<
            DurableTransitionView,
            StorageError,
        >(StorageError::UnsupportedTransitionVersion(bytes[0])),
{
    lemma_tags();
    law_payloads(command, transition);
    codec::law_command_payload_is_canonical(bytes);
    transition::law_transition_payload_is_canonical(bytes);
    if command.valid() && command.enc().fail is None {
        codec::law_command_round_trip(command);
    }
    if transition.valid() && transition.enc().fail is None {
        transition::law_transition_round_trip(transition);
    }
    if bytes.len() > 0 {
        let first = bytes[0];
        law_values_are_read_where_they_stand::<u8>(bytes, 0, reader::unbounded(), first, 1);
        assert(bytes.subrange(0, 1) =~= seq![first]);
    }
}

/// How resource pool ids are written, and which of them are valid and within limits.
pub proof fn law_resource_pool_ids(value: ResourcePoolId, limits: Limits)
    ensures
        value.valid(),
        value.fits(limits),
        ({
            &&& value.enc().fail is None
            &&& value.enc().bytes == model::be(value.value as nat, 16)
        }),
{
    lemma_tags();
}

/// How promise ids are written, and which of them are valid and within limits.
pub proof fn law_promise_ids(value: PromiseId, limits: Limits)
    ensures
        value.valid(),
        value.fits(limits),
        ({
            &&& value.enc().fail is None
            &&& value.enc().bytes == model::be(value.value as nat, 16)
        }),
{
    lemma_tags();
}

/// How intervals are written, and which of them are valid and within limits.
pub proof fn law_intervals(value: IntervalView, limits: Limits)
    ensures
        value.valid() <==> value.start < value.end,
        value.fits(limits),
        ({
            &&& value.enc().fail is None <==> value.start.enc().fail is None
                && value.end.enc().fail is None
            &&& value.enc().fail is None ==> value.enc().bytes == value.start.enc().bytes
                + value.end.enc().bytes
        }),
{
    lemma_tags();
    reveal(<IntervalView as Wire>::enc);
}

/// How units are written, and which of them are valid and within limits.
pub proof fn law_units(value: UnitView, limits: Limits)
    ensures
        value.valid() <==> value.name.len() > 0 && value.subunits > 0,
        value.fits(limits) <==> model::string_fits(value.name, limits),
        ({
            &&& value.enc().fail is None
                <==> model::enc_string("unit name", value.name).fail is None
                && value.subunits.enc().fail is None
            &&& value.enc().fail is None ==> value.enc().bytes
                == model::enc_string("unit name", value.name).bytes + value.subunits.enc().bytes
        }),
{
    lemma_tags();
    reveal(<UnitView as Wire>::enc);
}

/// How capacity segments are written, and which of them are valid and within limits.
pub proof fn law_capacity_segments(value: CapacitySegmentView, limits: Limits)
    ensures
        value.valid() <==> value.interval.valid(),
        value.fits(limits) <==> value.interval.fits(limits),
        ({
            &&& value.enc().fail is None <==> value.interval.enc().fail is None
                && value.capacity.enc().fail is None
            &&& value.enc().fail is None ==> value.enc().bytes == value.interval.enc().bytes
                + value.capacity.enc().bytes
        }),
{
    lemma_tags();
    reveal(<CapacitySegmentView as Wire>::enc);
}

/// How capacity curves are written, and which of them are valid and within limits.
pub proof fn law_capacity_curves(value: CapacityCurveView, limits: Limits)
    ensures
        value.valid() <==> model::all_valid(value.segments)
            && capacity::curve_fault(value.segments) is None,
        value.fits(limits) <==> model::list_fits(value.segments, limits),
        ({
            &&& value.enc().fail is None
                <==> model::enc_list("capacity segments", value.segments).fail is None
            &&& value.enc().fail is None ==> value.enc().bytes
                == model::enc_list("capacity segments", value.segments).bytes
        }),
{
    lemma_tags();
    reveal(<CapacityCurveView as Wire>::enc);
}

/// How claims are written, and which of them are valid and within limits.
pub proof fn law_claims(value: ClaimView, limits: Limits)
    ensures
        value.valid() <==> value.pool_id.valid() && value.interval.valid() && value.quantity > 0,
        value.fits(limits) <==> value.pool_id.fits(limits) && value.interval.fits(limits),
        ({
            &&& value.enc().fail is None <==> value.pool_id.enc().fail is None
                && value.interval.enc().fail is None && value.quantity.enc().fail is None
            &&& value.enc().fail is None ==> value.enc().bytes == value.pool_id.enc().bytes
                + value.interval.enc().bytes + value.quantity.enc().bytes
        }),
{
    lemma_tags();
    reveal(<ClaimView as Wire>::enc);
}

/// How bundles are written, and which of them are valid and within limits.
pub proof fn law_bundles(value: BundleView, limits: Limits)
    ensures
        value.valid() <==> model::all_valid(value.claims) && value.claims.len() > 0,
        value.fits(limits) <==> model::list_fits(value.claims, limits),
        ({
            &&& value.enc().fail is None
                <==> model::enc_list("bundle claims", value.claims).fail is None
            &&& value.enc().fail is None ==> value.enc().bytes
                == model::enc_list("bundle claims", value.claims).bytes
        }),
{
    lemma_tags();
    reveal(<BundleView as Wire>::enc);
}

/// How choices are written, and which of them are valid and within limits.
pub proof fn law_choices(value: ChoiceView, limits: Limits)
    ensures
        value.valid() <==> model::all_valid(value.alternatives) && value.alternatives.len() > 0,
        value.fits(limits) <==> model::list_fits(value.alternatives, limits),
        ({
            &&& value.enc().fail is None
                <==> model::enc_list("choice alternatives", value.alternatives).fail is None
            &&& value.enc().fail is None ==> value.enc().bytes
                == model::enc_list("choice alternatives", value.alternatives).bytes
        }),
{
    lemma_tags();
    reveal(<ChoiceView as Wire>::enc);
}

/// How relative claims are written, and which of them are valid and within limits.
pub proof fn law_relative_claims(value: RelativeClaimView, limits: Limits)
    ensures
        value.valid() <==> value.pool_id.valid() && value.start_offset < value.end_offset
            && value.quantity > 0,
        value.fits(limits) <==> value.pool_id.fits(limits),
        ({
            &&& value.enc().fail is None <==> value.pool_id.enc().fail is None
                && value.start_offset.enc().fail is None
                && value.end_offset.enc().fail is None && value.quantity.enc().fail is None
            &&& value.enc().fail is None ==> value.enc().bytes == value.pool_id.enc().bytes
                + value.start_offset.enc().bytes + value.end_offset.enc().bytes
                + value.quantity.enc().bytes
        }),
{
    lemma_tags();
    reveal(<RelativeClaimView as Wire>::enc);
}

/// How relative bundles are written, and which of them are valid and within limits.
pub proof fn law_relative_bundles(value: RelativeBundleView, limits: Limits)
    ensures
        value.valid() <==> model::all_valid(value.claims) && value.claims.len() > 0,
        value.fits(limits) <==> model::list_fits(value.claims, limits),
        ({
            &&& value.enc().fail is None
                <==> model::enc_list("relative bundle claims", value.claims).fail is None
            &&& value.enc().fail is None ==> value.enc().bytes
                == model::enc_list("relative bundle claims", value.claims).bytes
        }),
{
    lemma_tags();
    reveal(<RelativeBundleView as Wire>::enc);
}

/// How replacement states are written, and which of them are valid and within limits.
pub proof fn law_replacement_states(value: ReplacementState, limits: Limits)
    ensures
        value.valid(),
        value.fits(limits),
        match value {
            ReplacementState::Held { expires_at } => {
                &&& value.enc().fail is None <==> expires_at.enc().fail is None
                &&& value.enc().fail is None ==> value.enc().bytes == seq![1u8]
                    + expires_at.enc().bytes
            },
            ReplacementState::Committed => {
                &&& value.enc().fail is None
                &&& value.enc().bytes == seq![2u8]
            },
        },
{
    lemma_tags();
    reveal(<ReplacementState as Wire>::enc);
}

/// How promise states are written, and which of them are valid and within limits.
pub proof fn law_promise_states(value: PromiseState, limits: Limits)
    ensures
        value.valid(),
        value.fits(limits),
        match value {
            PromiseState::Held { expires_at } => {
                &&& value.enc().fail is None <==> expires_at.enc().fail is None
                &&& value.enc().fail is None ==> value.enc().bytes == seq![1u8]
                    + expires_at.enc().bytes
            },
            PromiseState::Committed => {
                &&& value.enc().fail is None
                &&& value.enc().bytes == seq![2u8]
            },
            PromiseState::Released => {
                &&& value.enc().fail is None
                &&& value.enc().bytes == seq![3u8]
            },
            PromiseState::Expired => {
                &&& value.enc().fail is None
                &&& value.enc().bytes == seq![4u8]
            },
        },
{
    lemma_tags();
    reveal(<PromiseState as Wire>::enc);
}

/// How resource pools are written, and which of them are valid and within limits.
pub proof fn law_resource_pools(value: ResourcePoolView, limits: Limits)
    ensures
        value.valid() <==> value.id.valid() && value.unit.valid() && value.capacity_curve.valid(),
        value.fits(limits) <==> value.id.fits(limits)
            && model::string_fits(value.display_name, limits) && value.unit.fits(limits)
            && value.capacity_curve.fits(limits),
        ({
            &&& value.enc().fail is None <==> value.id.enc().fail is None
                && model::enc_string("display name", value.display_name).fail is None
                && value.unit.enc().fail is None && value.capacity_curve.enc().fail is None
            &&& value.enc().fail is None ==> value.enc().bytes == value.id.enc().bytes
                + model::enc_string("display name", value.display_name).bytes
                + value.unit.enc().bytes + value.capacity_curve.enc().bytes
        }),
{
    lemma_tags();
    reveal(<ResourcePoolView as Wire>::enc);
}

/// How promises are written, and which of them are valid and within limits.
pub proof fn law_promises(value: PromiseView, limits: Limits)
    ensures
        value.valid() <==> value.id.valid() && value.state.valid() && value.bundle.valid()
            && value.version != 0 && value.created_sequence <= value.updated_sequence,
        value.fits(limits) <==> value.id.fits(limits) && value.state.fits(limits)
            && value.bundle.fits(limits),
        ({
            &&& value.enc().fail is None <==> value.id.enc().fail is None
                && value.state.enc().fail is None && value.bundle.enc().fail is None
                && value.version.enc().fail is None
                && value.created_sequence.enc().fail is None
                && value.updated_sequence.enc().fail is None
            &&& value.enc().fail is None ==> value.enc().bytes == value.id.enc().bytes
                + value.state.enc().bytes + value.bundle.enc().bytes
                + value.version.enc().bytes + value.created_sequence.enc().bytes
                + value.updated_sequence.enc().bytes
        }),
{
    lemma_tags();
    reveal(<PromiseView as Wire>::enc);
}

/// How event kinds are written, and which of them are valid and within limits.
pub proof fn law_event_kinds(value: EventKind, limits: Limits)
    ensures
        value.valid(),
        value.fits(limits),
        ({
            &&& value.enc().fail is None <==> event::event_kind_tag(value).enc().fail is None
            &&& value.enc().fail is None ==> value.enc().bytes
                == event::event_kind_tag(value).enc().bytes
        }),
{
    lemma_tags();
    reveal(<EventKind as Wire>::enc);
}

/// How event subjects are written, and which of them are valid and within limits.
pub proof fn law_event_subjects(value: EventDataView, limits: Limits)
    ensures
        value.valid() <==> match value {
            EventDataView::ResourcePool { resource_pool_id } => resource_pool_id.valid(),
            EventDataView::Promise { promise_id, version } => promise_id.valid() && version != 0,
            EventDataView::Deficit { resource_pool_id, interval, quantity, affected_promise_ids, } => resource_pool_id.valid() && interval.valid() && model::all_valid(affected_promise_ids) && model::ordered(affected_promise_ids, 1),
        },
        value.fits(limits) <==> match value {
            EventDataView::ResourcePool { resource_pool_id } => resource_pool_id.fits(limits),
            EventDataView::Promise { promise_id, version } => promise_id.fits(limits),
            EventDataView::Deficit { resource_pool_id, interval, quantity, affected_promise_ids, } => resource_pool_id.fits(limits) && interval.fits(limits) && model::list_fits(affected_promise_ids, limits),
        },
        match value {
            EventDataView::ResourcePool { resource_pool_id } => {
                &&& value.enc().fail is None <==> resource_pool_id.enc().fail is None
                &&& value.enc().fail is None ==> value.enc().bytes == seq![1u8]
                    + resource_pool_id.enc().bytes
            },
            EventDataView::Promise { promise_id, version } => {
                &&& value.enc().fail is None <==> promise_id.enc().fail is None
                    && version.enc().fail is None
                &&& value.enc().fail is None ==> value.enc().bytes == seq![2u8]
                    + promise_id.enc().bytes + version.enc().bytes
            },
            EventDataView::Deficit { resource_pool_id, interval, quantity, affected_promise_ids, } => {
                &&& value.enc().fail is None <==> resource_pool_id.enc().fail is None
                    && interval.enc().fail is None && quantity.enc().fail is None
                    && model::enc_list("affected promise ids", affected_promise_ids).fail is None
                &&& value.enc().fail is None ==> value.enc().bytes == seq![3u8]
                    + resource_pool_id.enc().bytes + interval.enc().bytes
                    + quantity.enc().bytes
                    + model::enc_list("affected promise ids", affected_promise_ids).bytes
            },
        },
{
    lemma_tags();
    reveal(<EventDataView as Wire>::enc);
}

/// How events are written, and which of them are valid and within limits.
pub proof fn law_events(value: EventView, limits: Limits)
    ensures
        value.valid() <==> value.kind.valid() && value.subject.valid()
            && event::consistent(value.kind, value.subject),
        value.fits(limits) <==> value.kind.fits(limits) && value.subject.fits(limits),
        ({
            &&& value.enc().fail is None <==> value.sequence.enc().fail is None
                && value.timestamp.enc().fail is None && value.kind.enc().fail is None
                && value.subject.enc().fail is None
            &&& value.enc().fail is None ==> value.enc().bytes == value.sequence.enc().bytes
                + value.timestamp.enc().bytes + value.kind.enc().bytes + value.subject.enc().bytes
        }),
{
    lemma_tags();
    reveal(<EventView as Wire>::enc);
}

/// How revision modes are written, and which of them are valid and within limits.
pub proof fn law_revision_modes(value: CapacityRevisionMode, limits: Limits)
    ensures
        value.valid(),
        value.fits(limits),
        match value {
            CapacityRevisionMode::Strict => {
                &&& value.enc().fail is None
                &&& value.enc().bytes == seq![1u8]
            },
            CapacityRevisionMode::Force => {
                &&& value.enc().fail is None
                &&& value.enc().bytes == seq![2u8]
            },
        },
{
    lemma_tags();
    reveal(<CapacityRevisionMode as Wire>::enc);
}

/// How operations are written, and which of them are valid and within limits.
pub proof fn law_operations(value: CommandOperationView, limits: Limits)
    ensures
        value.valid() <==> match value {
            CommandOperationView::CreateResourcePool { resource_pool_id, display_name, unit, capacity_curve, } => resource_pool_id.valid() && unit.valid() && capacity_curve.valid(),
            CommandOperationView::ReviseCapacity { resource_pool_id, capacity_curve, mode } => resource_pool_id.valid() && capacity_curve.valid() && mode.valid(),
            CommandOperationView::Hold { promise_id, bundle, expires_at } => promise_id.valid() && bundle.valid(),
            CommandOperationView::Commit { promise_id, expected_version } => promise_id.valid() && expected_version != 0,
            CommandOperationView::Release { promise_id, expected_version } => promise_id.valid() && expected_version != 0,
            CommandOperationView::Replace { promise_id, expected_version, new_bundle, new_state, } => promise_id.valid() && expected_version != 0 && new_bundle.valid() && new_state.valid(),
            CommandOperationView::ProcessExpirations => true,
            CommandOperationView::HoldOneOf { promise_id, choice, expires_at } => promise_id.valid() && choice.valid(),
            CommandOperationView::HoldFirstSlot { promise_id, relative_bundle, earliest_start, latest_start, step, expires_at, } => promise_id.valid() && relative_bundle.valid(),
        },
        value.fits(limits) <==> match value {
            CommandOperationView::CreateResourcePool { resource_pool_id, display_name, unit, capacity_curve, } => resource_pool_id.fits(limits) && model::string_fits(display_name, limits) && unit.fits(limits) && capacity_curve.fits(limits),
            CommandOperationView::ReviseCapacity { resource_pool_id, capacity_curve, mode } => resource_pool_id.fits(limits) && capacity_curve.fits(limits) && mode.fits(limits),
            CommandOperationView::Hold { promise_id, bundle, expires_at } => promise_id.fits(limits) && bundle.fits(limits),
            CommandOperationView::Commit { promise_id, expected_version } => promise_id.fits(limits),
            CommandOperationView::Release { promise_id, expected_version } => promise_id.fits(limits),
            CommandOperationView::Replace { promise_id, expected_version, new_bundle, new_state, } => promise_id.fits(limits) && new_bundle.fits(limits) && new_state.fits(limits),
            CommandOperationView::ProcessExpirations => true,
            CommandOperationView::HoldOneOf { promise_id, choice, expires_at } => promise_id.fits(limits) && choice.fits(limits),
            CommandOperationView::HoldFirstSlot { promise_id, relative_bundle, earliest_start, latest_start, step, expires_at, } => promise_id.fits(limits) && relative_bundle.fits(limits),
        },
        match value {
            CommandOperationView::CreateResourcePool { resource_pool_id, display_name, unit, capacity_curve, } => {
                &&& value.enc().fail is None <==> resource_pool_id.enc().fail is None
                    && model::enc_string("display name", display_name).fail is None
                    && unit.enc().fail is None && capacity_curve.enc().fail is None
                &&& value.enc().fail is None ==> value.enc().bytes == seq![1u8]
                    + resource_pool_id.enc().bytes
                    + model::enc_string("display name", display_name).bytes + unit.enc().bytes
                    + capacity_curve.enc().bytes
            },
            CommandOperationView::ReviseCapacity { resource_pool_id, capacity_curve, mode, } => {
                &&& value.enc().fail is None <==> resource_pool_id.enc().fail is None
                    && capacity_curve.enc().fail is None && mode.enc().fail is None
                &&& value.enc().fail is None ==> value.enc().bytes == seq![2u8]
                    + resource_pool_id.enc().bytes + capacity_curve.enc().bytes + mode.enc().bytes
            },
            CommandOperationView::Hold { promise_id, bundle, expires_at } => {
                &&& value.enc().fail is None <==> promise_id.enc().fail is None
                    && bundle.enc().fail is None && expires_at.enc().fail is None
                &&& value.enc().fail is None ==> value.enc().bytes == seq![3u8]
                    + promise_id.enc().bytes + bundle.enc().bytes + expires_at.enc().bytes
            },
            CommandOperationView::Commit { promise_id, expected_version, } => {
                &&& value.enc().fail is None <==> promise_id.enc().fail is None
                    && expected_version.enc().fail is None
                &&& value.enc().fail is None ==> value.enc().bytes == seq![4u8]
                    + promise_id.enc().bytes + expected_version.enc().bytes
            },
            CommandOperationView::Release { promise_id, expected_version, } => {
                &&& value.enc().fail is None <==> promise_id.enc().fail is None
                    && expected_version.enc().fail is None
                &&& value.enc().fail is None ==> value.enc().bytes == seq![5u8]
                    + promise_id.enc().bytes + expected_version.enc().bytes
            },
            CommandOperationView::Replace { promise_id, expected_version, new_bundle, new_state, } => {
                &&& value.enc().fail is None <==> promise_id.enc().fail is None
                    && expected_version.enc().fail is None && new_bundle.enc().fail is None
                    && new_state.enc().fail is None
                &&& value.enc().fail is None ==> value.enc().bytes == seq![6u8]
                    + promise_id.enc().bytes + expected_version.enc().bytes
                    + new_bundle.enc().bytes + new_state.enc().bytes
            },
            CommandOperationView::ProcessExpirations => {
                &&& value.enc().fail is None
                &&& value.enc().bytes == seq![7u8]
            },
            CommandOperationView::HoldOneOf { promise_id, choice, expires_at, } => {
                &&& value.enc().fail is None <==> promise_id.enc().fail is None
                    && choice.enc().fail is None && expires_at.enc().fail is None
                &&& value.enc().fail is None ==> value.enc().bytes == seq![8u8]
                    + promise_id.enc().bytes + choice.enc().bytes + expires_at.enc().bytes
            },
            CommandOperationView::HoldFirstSlot { promise_id, relative_bundle, earliest_start, latest_start, step, expires_at, } => {
                &&& value.enc().fail is None <==> promise_id.enc().fail is None
                    && relative_bundle.enc().fail is None
                    && earliest_start.enc().fail is None && latest_start.enc().fail is None
                    && step.enc().fail is None && expires_at.enc().fail is None
                &&& value.enc().fail is None ==> value.enc().bytes == seq![9u8]
                    + promise_id.enc().bytes + relative_bundle.enc().bytes
                    + earliest_start.enc().bytes + latest_start.enc().bytes + step.enc().bytes
                    + expires_at.enc().bytes
            },
        },
{
    lemma_tags();
    reveal(<CommandOperationView as Wire>::enc);
}

/// How commands are written, and which of them are valid and within limits.
pub proof fn law_commands(value: CommandView, limits: Limits)
    ensures
        value.valid() <==> value.operation.valid(),
        value.fits(limits) <==> model::string_fits(value.client_id, limits)
            && model::string_fits(value.idempotency_key, limits) && value.operation.fits(limits),
        ({
            &&& value.enc().fail is None
                <==> model::enc_string("client_id", value.client_id).fail is None
                && model::enc_string("idempotency_key", value.idempotency_key).fail is None
                && value.operation.enc().fail is None
            &&& value.enc().fail is None ==> value.enc().bytes
                == model::enc_string("client_id", value.client_id).bytes
                + model::enc_string("idempotency_key", value.idempotency_key).bytes
                + value.operation.enc().bytes
        }),
{
    lemma_tags();
    reveal(<CommandView as Wire>::enc);
}

/// How domain errors are written, and which of them are valid and within limits.
pub proof fn law_domain_errors(value: DomainError, limits: Limits)
    ensures
        value.valid(),
        value.fits(limits),
        ({
            &&& value.enc().fail is None <==> outcome::domain_error_tag(value).enc().fail is None
            &&& value.enc().fail is None ==> value.enc().bytes
                == outcome::domain_error_tag(value).enc().bytes
        }),
{
    lemma_tags();
    reveal(<DomainError as Wire>::enc);
}

/// How availability conflicts are written, and which of them are valid and within limits.
pub proof fn law_availability_conflicts(value: AvailabilityConflictView, limits: Limits)
    ensures
        value.valid() <==> value.resource_pool_id.valid() && value.blocking_interval.valid()
            && model::all_valid(value.conflicting_promise_ids)
            && model::ordered(value.conflicting_promise_ids, 1)
            && value.available_quantity < value.required_quantity && value.deficit_quantity
            == value.required_quantity - value.available_quantity,
        value.fits(limits) <==> value.resource_pool_id.fits(limits)
            && value.blocking_interval.fits(limits)
            && model::list_fits(value.conflicting_promise_ids, limits),
        ({
            &&& value.enc().fail is None <==> value.resource_pool_id.enc().fail is None
                && value.blocking_interval.enc().fail is None
                && value.required_quantity.enc().fail is None
                && value.available_quantity.enc().fail is None
                && value.deficit_quantity.enc().fail is None
                && model::enc_list("conflicting promise ids", value.conflicting_promise_ids).fail is None
            &&& value.enc().fail is None ==> value.enc().bytes
                == value.resource_pool_id.enc().bytes + value.blocking_interval.enc().bytes
                + value.required_quantity.enc().bytes + value.available_quantity.enc().bytes
                + value.deficit_quantity.enc().bytes
                + model::enc_list("conflicting promise ids", value.conflicting_promise_ids).bytes
        }),
{
    lemma_tags();
    reveal(<AvailabilityConflictView as Wire>::enc);
}

/// How capacity deficits are written, and which of them are valid and within limits.
pub proof fn law_capacity_deficits(value: CapacityDeficitView, limits: Limits)
    ensures
        value.valid() <==> value.resource_pool_id.valid() && value.interval.valid()
            && model::all_valid(value.affected_promise_ids)
            && model::ordered(value.affected_promise_ids, 1) && value.quantity > 0,
        value.fits(limits) <==> value.resource_pool_id.fits(limits)
            && value.interval.fits(limits) && model::list_fits(value.affected_promise_ids, limits),
        ({
            &&& value.enc().fail is None <==> value.resource_pool_id.enc().fail is None
                && value.interval.enc().fail is None && value.quantity.enc().fail is None
                && model::enc_list("affected promise ids", value.affected_promise_ids).fail is None
            &&& value.enc().fail is None ==> value.enc().bytes
                == value.resource_pool_id.enc().bytes + value.interval.enc().bytes
                + value.quantity.enc().bytes
                + model::enc_list("affected promise ids", value.affected_promise_ids).bytes
        }),
{
    lemma_tags();
    reveal(<CapacityDeficitView as Wire>::enc);
}

/// How capacity revisions are written, and which of them are valid and within limits.
pub proof fn law_capacity_revisions(value: CapacityRevisionOutcomeView, limits: Limits)
    ensures
        value.valid() <==> model::all_valid(value.deficits)
            && model::all_valid(value.affected_promise_ids)
            && model::ordered(value.affected_promise_ids, 1)
            && outcome::affected(value.deficits, value.affected_promise_ids),
        value.fits(limits) <==> model::list_fits(value.deficits, limits)
            && model::list_fits(value.affected_promise_ids, limits),
        ({
            &&& value.enc().fail is None <==> value.sequence.enc().fail is None
                && model::enc_list("capacity deficits", value.deficits).fail is None
                && model::enc_list("affected promise ids", value.affected_promise_ids).fail is None
            &&& value.enc().fail is None ==> value.enc().bytes == value.sequence.enc().bytes
                + model::enc_list("capacity deficits", value.deficits).bytes
                + model::enc_list("affected promise ids", value.affected_promise_ids).bytes
        }),
{
    lemma_tags();
    reveal(<CapacityRevisionOutcomeView as Wire>::enc);
}

/// How choice conflicts are written, and which of them are valid and within limits.
pub proof fn law_choice_conflicts(value: ChoiceConflictView, limits: Limits)
    ensures
        value.valid() <==> model::all_valid(value.conflicts) && value.conflicts.len() > 0,
        value.fits(limits) <==> value.alternative_index <= limits.ceiling()
            && model::list_fits(value.conflicts, limits),
        ({
            &&& value.enc().fail is None
                <==> model::enc_len("alternative index", value.alternative_index).fail is None && model::enc_list("availability conflicts", value.conflicts).fail is None
            &&& value.enc().fail is None ==> value.enc().bytes
                == model::enc_len("alternative index", value.alternative_index).bytes
                + model::enc_list("availability conflicts", value.conflicts).bytes
        }),
{
    lemma_tags();
    reveal(<ChoiceConflictView as Wire>::enc);
}

/// How hold outcomes are written, and which of them are valid and within limits.
pub proof fn law_hold_outcomes(value: HoldOutcomeView, limits: Limits)
    ensures
        value.valid() <==> match value {
            HoldOutcomeView::Held(promise_id) => promise_id.valid(),
            HoldOutcomeView::Unavailable { conflicts } => model::all_valid(conflicts)
                && conflicts.len() > 0,
        },
        value.fits(limits) <==> match value {
            HoldOutcomeView::Held(promise_id) => promise_id.fits(limits),
            HoldOutcomeView::Unavailable { conflicts } => model::list_fits(conflicts, limits),
        },
        match value {
            HoldOutcomeView::Held(promise_id) => {
                &&& value.enc().fail is None <==> promise_id.enc().fail is None
                &&& value.enc().fail is None ==> value.enc().bytes == seq![1u8]
                    + promise_id.enc().bytes
            },
            HoldOutcomeView::Unavailable { conflicts } => {
                &&& value.enc().fail is None
                    <==> model::enc_list("availability conflicts", conflicts).fail is None
                &&& value.enc().fail is None ==> value.enc().bytes == seq![2u8]
                    + model::enc_list("availability conflicts", conflicts).bytes
            },
        },
{
    lemma_tags();
    reveal(<HoldOutcomeView as Wire>::enc);
}

/// How choice outcomes are written, and which of them are valid and within limits.
pub proof fn law_choice_outcomes(value: ChoiceOutcomeView, limits: Limits)
    ensures
        value.valid() <==> match value {
            ChoiceOutcomeView::Held { promise_id, alternative_index } => promise_id.valid(),
            ChoiceOutcomeView::Unavailable { conflicts } => model::all_valid(conflicts)
                && outcome::numbered(conflicts) && conflicts.len() > 0,
        },
        value.fits(limits) <==> match value {
            ChoiceOutcomeView::Held { promise_id, alternative_index } => promise_id.fits(limits) && alternative_index <= limits.ceiling(),
            ChoiceOutcomeView::Unavailable { conflicts } => model::list_fits(conflicts, limits),
        },
        match value {
            ChoiceOutcomeView::Held { promise_id, alternative_index } => {
                &&& value.enc().fail is None <==> promise_id.enc().fail is None
                    && model::enc_len("alternative index", alternative_index).fail is None
                &&& value.enc().fail is None ==> value.enc().bytes == seq![1u8]
                    + promise_id.enc().bytes
                    + model::enc_len("alternative index", alternative_index).bytes
            },
            ChoiceOutcomeView::Unavailable { conflicts } => {
                &&& value.enc().fail is None
                    <==> model::enc_list("choice conflicts", conflicts).fail is None
                &&& value.enc().fail is None ==> value.enc().bytes == seq![2u8]
                    + model::enc_list("choice conflicts", conflicts).bytes
            },
        },
{
    lemma_tags();
    reveal(<ChoiceOutcomeView as Wire>::enc);
}

/// How slot outcomes are written, and which of them are valid and within limits.
pub proof fn law_slot_outcomes(value: SlotOutcomeView, limits: Limits)
    ensures
        value.valid() <==> match value {
            SlotOutcomeView::Held { promise_id, start } => promise_id.valid(),
            SlotOutcomeView::Unavailable { attempts } => attempts > 0,
        },
        value.fits(limits) <==> match value {
            SlotOutcomeView::Held { promise_id, start } => promise_id.fits(limits),
            SlotOutcomeView::Unavailable { attempts } => true,
        },
        match value {
            SlotOutcomeView::Held { promise_id, start } => {
                &&& value.enc().fail is None <==> promise_id.enc().fail is None
                    && start.enc().fail is None
                &&& value.enc().fail is None ==> value.enc().bytes == seq![1u8]
                    + promise_id.enc().bytes + start.enc().bytes
            },
            SlotOutcomeView::Unavailable { attempts } => {
                &&& value.enc().fail is None <==> attempts.enc().fail is None
                &&& value.enc().fail is None ==> value.enc().bytes == seq![2u8]
                    + attempts.enc().bytes
            },
        },
{
    lemma_tags();
    reveal(<SlotOutcomeView as Wire>::enc);
}

/// How replace outcomes are written, and which of them are valid and within limits.
pub proof fn law_replace_outcomes(value: ReplaceOutcomeView, limits: Limits)
    ensures
        value.valid() <==> match value {
            ReplaceOutcomeView::Replaced { promise_id, version } => promise_id.valid()
                && version != 0,
            ReplaceOutcomeView::Unavailable { conflicts } => model::all_valid(conflicts)
                && conflicts.len() > 0,
        },
        value.fits(limits) <==> match value {
            ReplaceOutcomeView::Replaced { promise_id, version } => promise_id.fits(limits),
            ReplaceOutcomeView::Unavailable { conflicts } => model::list_fits(conflicts, limits),
        },
        match value {
            ReplaceOutcomeView::Replaced { promise_id, version } => {
                &&& value.enc().fail is None <==> promise_id.enc().fail is None
                    && version.enc().fail is None
                &&& value.enc().fail is None ==> value.enc().bytes == seq![1u8]
                    + promise_id.enc().bytes + version.enc().bytes
            },
            ReplaceOutcomeView::Unavailable { conflicts } => {
                &&& value.enc().fail is None
                    <==> model::enc_list("availability conflicts", conflicts).fail is None
                &&& value.enc().fail is None ==> value.enc().bytes == seq![2u8]
                    + model::enc_list("availability conflicts", conflicts).bytes
            },
        },
{
    lemma_tags();
    reveal(<ReplaceOutcomeView as Wire>::enc);
}

/// How results are written, and which of them are valid and within limits.
pub proof fn law_results(value: CommandResultView, limits: Limits)
    ensures
        value.valid() <==> match value {
            CommandResultView::ResourcePoolCreated { resource_pool_id } => resource_pool_id.valid(),
            CommandResultView::CapacityRevised(outcome) => outcome.valid(),
            CommandResultView::HoldCompleted(outcome) => outcome.valid(),
            CommandResultView::ChoiceCompleted(outcome) => outcome.valid(),
            CommandResultView::SlotCompleted(outcome) => outcome.valid(),
            CommandResultView::PromiseCommitted { promise_id, version } => promise_id.valid()
                && version != 0,
            CommandResultView::PromiseReleased { promise_id, version } => promise_id.valid()
                && version != 0,
            CommandResultView::PromiseReplaced(outcome) => outcome.valid(),
            CommandResultView::ExpirationsProcessed { expired_count } => true,
        },
        value.fits(limits) <==> match value {
            CommandResultView::ResourcePoolCreated { resource_pool_id } => resource_pool_id.fits(limits),
            CommandResultView::CapacityRevised(outcome) => outcome.fits(limits),
            CommandResultView::HoldCompleted(outcome) => outcome.fits(limits),
            CommandResultView::ChoiceCompleted(outcome) => outcome.fits(limits),
            CommandResultView::SlotCompleted(outcome) => outcome.fits(limits),
            CommandResultView::PromiseCommitted { promise_id, version } => promise_id.fits(limits),
            CommandResultView::PromiseReleased { promise_id, version } => promise_id.fits(limits),
            CommandResultView::PromiseReplaced(outcome) => outcome.fits(limits),
            CommandResultView::ExpirationsProcessed { expired_count } => true,
        },
        match value {
            CommandResultView::ResourcePoolCreated { resource_pool_id } => {
                &&& value.enc().fail is None <==> resource_pool_id.enc().fail is None
                &&& value.enc().fail is None ==> value.enc().bytes == seq![1u8]
                    + resource_pool_id.enc().bytes
            },
            CommandResultView::CapacityRevised(outcome) => {
                &&& value.enc().fail is None <==> outcome.enc().fail is None
                &&& value.enc().fail is None ==> value.enc().bytes == seq![2u8]
                    + outcome.enc().bytes
            },
            CommandResultView::HoldCompleted(outcome) => {
                &&& value.enc().fail is None <==> outcome.enc().fail is None
                &&& value.enc().fail is None ==> value.enc().bytes == seq![3u8]
                    + outcome.enc().bytes
            },
            CommandResultView::ChoiceCompleted(outcome) => {
                &&& value.enc().fail is None <==> outcome.enc().fail is None
                &&& value.enc().fail is None ==> value.enc().bytes == seq![4u8]
                    + outcome.enc().bytes
            },
            CommandResultView::SlotCompleted(outcome) => {
                &&& value.enc().fail is None <==> outcome.enc().fail is None
                &&& value.enc().fail is None ==> value.enc().bytes == seq![5u8]
                    + outcome.enc().bytes
            },
            CommandResultView::PromiseCommitted { promise_id, version } => {
                &&& value.enc().fail is None <==> promise_id.enc().fail is None
                    && version.enc().fail is None
                &&& value.enc().fail is None ==> value.enc().bytes == seq![6u8]
                    + promise_id.enc().bytes + version.enc().bytes
            },
            CommandResultView::PromiseReleased { promise_id, version } => {
                &&& value.enc().fail is None <==> promise_id.enc().fail is None
                    && version.enc().fail is None
                &&& value.enc().fail is None ==> value.enc().bytes == seq![7u8]
                    + promise_id.enc().bytes + version.enc().bytes
            },
            CommandResultView::PromiseReplaced(outcome) => {
                &&& value.enc().fail is None <==> outcome.enc().fail is None
                &&& value.enc().fail is None ==> value.enc().bytes == seq![8u8]
                    + outcome.enc().bytes
            },
            CommandResultView::ExpirationsProcessed { expired_count } => {
                &&& value.enc().fail is None <==> (expired_count as u64).enc().fail is None
                &&& value.enc().fail is None ==> value.enc().bytes == seq![9u8]
                    + (expired_count as u64).enc().bytes
            },
        },
{
    lemma_tags();
    reveal(<CommandResultView as Wire>::enc);
}

/// How responses are written, and which of them are valid and within limits.
pub proof fn law_responses(value: Result<CommandResultView, DomainError>, limits: Limits)
    ensures
        value.valid() <==> (value matches Ok(result) ==> result.valid()),
        value.fits(limits) <==> (value matches Ok(result) ==> result.fits(limits)),
        match value {
            Ok(result) => {
                &&& value.enc().fail is None <==> result.enc().fail is None
                &&& value.enc().fail is None ==> value.enc().bytes == seq![1u8] + result.enc().bytes
            },
            Err(error) => {
                &&& value.enc().fail is None <==> error.enc().fail is None
                &&& value.enc().fail is None ==> value.enc().bytes == seq![2u8] + error.enc().bytes
            },
        },
{
    lemma_tags();
    reveal(<Result<CommandResultView, DomainError> as Wire>::enc);
}

/// How idempotency records are written, and which of them are valid and within limits.
pub proof fn law_idempotency_records(value: IdempotencyRecordView, limits: Limits)
    ensures
        value.valid() <==> value.command_hash.len() == 32 && value.response.valid(),
        value.fits(limits) <==> model::string_fits(value.client_id, limits)
            && model::string_fits(value.idempotency_key, limits) && value.response.fits(limits),
        ({
            &&& value.enc().fail is None
                <==> model::enc_string("client id", value.client_id).fail is None
                && model::enc_string("idempotency key", value.idempotency_key).fail is None
                && value.response.enc().fail is None
            &&& value.enc().fail is None ==> value.enc().bytes
                == model::enc_string("client id", value.client_id).bytes
                + model::enc_string("idempotency key", value.idempotency_key).bytes
                + value.command_hash + value.response.enc().bytes
        }),
{
    lemma_tags();
    reveal(<IdempotencyRecordView as Wire>::enc);
}

/// How transitions are written, and which of them are valid and within limits.
pub proof fn law_transitions(value: DurableTransitionView, limits: Limits)
    ensures
        value.valid() <==> value.command.valid() && value.command_hash.len() == 32
            && value.response.valid() && model::all_valid(value.resource_pools)
            && model::ordered(value.resource_pools, 1) && model::all_valid(value.promises)
            && model::ordered(value.promises, 1) && model::all_valid(value.events)
            && model::ordered(value.events, 0),
        value.fits(limits) <==> codec::command_enc(value.command).bytes.len() <= limits.items
            && model::string_fits(value.client_id, limits)
            && model::string_fits(value.idempotency_key, limits)
            && value.response.fits(limits) && model::list_fits(value.resource_pools, limits)
            && model::list_fits(value.promises, limits) && model::list_fits(value.events, limits),
        ({
            &&& value.enc().fail is None
                <==> transition::enc_command_block(value.command).fail is None
                && model::enc_string("client_id", value.client_id).fail is None
                && model::enc_string("idempotency_key", value.idempotency_key).fail is None
                && value.response.enc().fail is None
                && model::enc_list("resource pools", value.resource_pools).fail is None
                && model::enc_list("promises", value.promises).fail is None
                && model::enc_list("events", value.events).fail is None
                && value.final_sequence.enc().fail is None
            &&& value.enc().fail is None ==> value.enc().bytes
                == transition::enc_command_block(value.command).bytes
                + model::enc_string("client_id", value.client_id).bytes
                + model::enc_string("idempotency_key", value.idempotency_key).bytes
                + value.command_hash + value.response.enc().bytes
                + model::enc_list("resource pools", value.resource_pools).bytes
                + model::enc_list("promises", value.promises).bytes
                + model::enc_list("events", value.events).bytes + value.final_sequence.enc().bytes
        }),
{
    lemma_tags();
    reveal(<DurableTransitionView as Wire>::enc);
}

} // verus!
