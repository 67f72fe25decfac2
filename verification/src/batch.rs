//! Framing of prepared transitions as a group of consecutive records.

use crate::bytes;
use crate::bytes::is_granted;
use crate::engine::{DurableItem, DurableItemView};
use crate::error::StorageError;
use crate::record::frame;
use crate::record::frame::RecordView;
use crate::record::{encode_into_with, Record, RecordLimits, RecordSequence};
use crate::transition;
use crate::transition::{encode_transition, DurableTransitionView};
use crate::wire::model;
use crate::wire::model::Wire;
use vstd::prelude::*;

verus! {

/// The record that makes an item durable at the given position.
pub open spec fn item_record(item: DurableItemView, sequence: u64) -> RecordView {
    RecordView {
        sequence,
        timestamp: item.timestamp,
        payload: transition::transition_enc(item.transition).bytes,
    }
}

/// Why an item cannot be framed, if it cannot.
pub open spec fn item_fault(item: DurableItemView, max: u32) -> Option<StorageError> {
    match transition::transition_enc(item.transition).fail {
        Some(error) => Some(error),
        None => frame::frame_fault(transition::transition_enc(item.transition).bytes.len(), max),
    }
}

/// Why some item cannot be framed, if one cannot: the fault of the first such item.
pub open spec fn batch_fault(items: Seq<DurableItemView>, max: u32) -> Option<StorageError>
    decreases items.len(),
{
    if items.len() == 0 {
        None
    } else {
        match batch_fault(items.drop_last(), max) {
            Some(error) => Some(error),
            None => item_fault(items.last(), max),
        }
    }
}

/// Why some item is not framed, if memory for the frames is granted as listed: the fault of the
/// first such item, or the report that memory for its frame cannot be had.
pub open spec fn batch_fault_with(
    items: Seq<DurableItemView>,
    max: u32,
    grants: Seq<bool>,
) -> Option<StorageError>
    decreases items.len(),
{
    if items.len() == 0 {
        None
    } else {
        match batch_fault_with(items.drop_last(), max, grants) {
            Some(error) => Some(error),
            None => item_fault_with(
                items.last(),
                max,
                bytes::granted(grants, (items.len() - 1) as nat),
            ),
        }
    }
}

/// Why an item is not framed, if memory for its frame is granted or refused.
pub open spec fn item_fault_with(item: DurableItemView, max: u32, granted: bool) -> Option<
    StorageError,
> {
    match item_fault(item, max) {
        Some(error) => Some(error),
        None => if granted {
            None
        } else {
            Some(refusal(item))
        },
    }
}

/// The report that memory for the frame of an item cannot be had.
pub open spec fn refusal(item: DurableItemView) -> StorageError {
    frame::refused(
        frame::framed_len(transition::transition_enc(item.transition).bytes.len()) as u32,
    )
}

/// What framing a batch gives, if memory for the frames is granted as listed.
pub open spec fn framed(
    items: Seq<DurableItemView>,
    first: u64,
    max: u32,
    grants: Seq<bool>,
) -> Result<Seq<u8>, StorageError> {
    match batch_fault_with(items, max, grants) {
        Some(error) => Err(error),
        None => Ok(frame::frames(batch_records(items, first))),
    }
}

/// Whatever memory is granted, a batch is framed only if all its items can be. Where one item is
/// not, that is the fault of the first item that cannot be framed, or memory for the frame of
/// one before it cannot be had. Where all memory is granted, the fault decides alone.
pub proof fn law_batch_is_framed_or_refused_at_an_item(
    items: Seq<DurableItemView>,
    max: u32,
    grants: Seq<bool>,
)
    ensures
        batch_fault_with(items, max, seq![]) == batch_fault(items, max),
        match batch_fault_with(items, max, grants) {
            None => batch_fault(items, max) is None,
            Some(error) => batch_fault(items, max) == Some(error) || exists|i: int|
                0 <= i < items.len() && batch_fault(#[trigger] items.take(i + 1), max) is None
                    && !bytes::granted(grants, i as nat) && error == refusal(items[i]),
        },
    decreases items.len(),
{
    if items.len() > 0 {
        let front = items.drop_last();
        law_batch_is_framed_or_refused_at_an_item(front, max, grants);
        if let Some(error) = batch_fault_with(items, max, grants) {
            if batch_fault_with(front, max, grants) is Some {
                if batch_fault(front, max) != Some(error) {
                    let i = choose|i: int|
                        0 <= i < front.len() && batch_fault(#[trigger] front.take(i + 1), max)
                            is None && !bytes::granted(grants, i as nat) && error == refusal(front[i]);
                    assert(items.take(i + 1) =~= front.take(i + 1));
                    assert(items[i] == front[i]);
                }
            } else if item_fault(items.last(), max) is None {
                assert(items.take(items.len() as int) =~= items);
                assert(items.take((items.len() - 1) + 1) == items);
                assert(error == refusal(items[items.len() - 1]));
            }
        }
    }
}

/// The records that make the items durable from the given position on.
pub open spec fn batch_records(items: Seq<DurableItemView>, first: u64) -> Seq<RecordView> {
    Seq::new(items.len(), |i: int| item_record(items[i], (first + i) as u64))
}

/// There are too few positions left for `count` records.
pub open spec fn exhausted(next: Option<u64>, count: nat) -> bool {
    count > 0 && match next {
        Some(sequence) => sequence + count - 1 > u64::MAX,
        None => true,
    }
}

/// The position behind `count` records from `next` on.
pub open spec fn next_after(next: Option<u64>, count: nat) -> Option<u64> {
    match next {
        Some(sequence) => if sequence + count > u64::MAX {
            None
        } else {
            Some((sequence + count) as u64)
        },
        None => None,
    }
}

/// The models of assigned positions are consecutive.
pub open spec fn assigned(sequences: Seq<RecordSequence>, next: Option<u64>) -> bool {
    forall|i: int|
        0 <= i < sequences.len() ==> next is Some && (#[trigger] sequences[i])@ == next->0 + i
}

/// Assigns consecutive positions to `count` records, and returns them with the position behind
/// them. There is no assignment where too few positions are left.
pub fn assign_sequences(next: Option<RecordSequence>, count: usize) -> (out: Option<
    (Vec<RecordSequence>, Option<RecordSequence>),
>)
    ensures
        match out {
            Some((sequences, after)) => {
                &&& !exhausted(crate::record::sequence_view(next), count as nat)
                &&& sequences@.len() == count
                &&& assigned(sequences@, crate::record::sequence_view(next))
                &&& crate::record::sequence_view(after) == next_after(
                    crate::record::sequence_view(next),
                    count as nat,
                )
            },
            None => exhausted(crate::record::sequence_view(next), count as nat),
        },
{
    let mut sequences: Vec<RecordSequence> = Vec::new();
    let mut after = next;
    let mut i: usize = 0;
    while i < count
        invariant
            i <= count,
            sequences@.len() == i,
            assigned(sequences@, crate::record::sequence_view(next)),
            !exhausted(crate::record::sequence_view(next), i as nat),
            crate::record::sequence_view(after) == next_after(
                crate::record::sequence_view(next),
                i as nat,
            ),
        decreases count - i,
    {
        let sequence = match after {
            Some(sequence) => sequence,
            None => {
                return None;
            },
        };
        sequences.push(sequence);
        after = sequence.next();
        i += 1;
    }
    Some((sequences, after))
}

/// Appending a record appends its frame.
pub proof fn lemma_frames_push(records: Seq<RecordView>, record: RecordView)
    ensures
        frame::frames(records.push(record)) == frame::frames(records) + frame::frame(record),
    decreases records.len(),
{
    let longer = records.push(record);
    if records.len() == 0 {
        assert(longer.drop_first() =~= seq![]);
        assert(frame::frame(record) + frame::frames(longer.drop_first()) =~= frame::frames(records)
            + frame::frame(record));
    } else {
        let others = records.drop_first();
        assert(longer.drop_first() =~= others.push(record));
        lemma_frames_push(others, record);
        assert(frame::frame(records[0]) + (frame::frames(others) + frame::frame(record))
            =~= frame::frame(records[0]) + frame::frames(others) + frame::frame(record));
    }
}

/// The fault of some first items is the fault of all.
proof fn lemma_fault_stays(
    items: Seq<DurableItemView>,
    count: int,
    max: u32,
    grants: Seq<bool>,
)
    requires
        0 <= count <= items.len(),
        batch_fault_with(items.take(count), max, grants) is Some,
    ensures
        batch_fault_with(items, max, grants) == batch_fault_with(items.take(count), max, grants),
    decreases items.len(),
{
    if count == items.len() {
        assert(items.take(count) =~= items);
    } else {
        assert(items.drop_last().take(count) =~= items.take(count));
        lemma_fault_stays(items.drop_last(), count, max, grants);
    }
}

/// Only what is granted for the items decides.
proof fn lemma_same_grants(
    items: Seq<DurableItemView>,
    max: u32,
    grants: Seq<bool>,
    others: Seq<bool>,
)
    requires
        forall|i: nat|
            i < items.len() ==> #[trigger] bytes::granted(grants, i) == bytes::granted(others, i),
    ensures
        batch_fault_with(items, max, grants) == batch_fault_with(items, max, others),
    decreases items.len(),
{
    if items.len() > 0 {
        lemma_same_grants(items.drop_last(), max, grants, others);
    }
}

/// The model of framed bytes.
pub open spec fn framed_view(out: Result<Vec<u8>, StorageError>) -> Result<
    Seq<u8>,
    StorageError,
> {
    match out {
        Ok(bytes) => Ok(bytes@),
        Err(error) => Err(error),
    }
}

/// Frames items at consecutive positions. Memory for the frames is granted as listed, or else
/// asked for. What was granted is returned.
pub(crate) fn frame_batch_with(
    items: &[DurableItem],
    sequences: &[RecordSequence],
    limits: RecordLimits,
    grants: Option<&[bool]>,
) -> (out: (Result<Vec<u8>, StorageError>, Ghost<Seq<bool>>))
    requires
        items@.len() > 0,
        sequences@.len() == items@.len(),
        assigned(sequences@, Some(sequences@[0]@)),
    ensures
        framed_view(out.0) == framed(model::views(items@), sequences@[0]@, limits@, out.1@),
        grants matches Some(listed) ==> out.1@ == listed@,
{
    let ghost mut listed = match grants {
        Some(listed) => listed@,
        None => seq![],
    };
    let ghost models = model::views(items@);
    let ghost first = sequences@[0]@;
    let ghost records = batch_records(models, first);
    let mut bytes: Vec<u8> = Vec::new();
    let mut i: usize = 0;
    proof {
        assert(models.take(0) =~= seq![]);
        assert(records.take(0) =~= seq![]);
    }
    while i < items.len()
        invariant
            i <= items.len(),
            items@.len() == sequences@.len(),
            models == model::views(items@),
            records == batch_records(models, first),
            first == sequences@[0]@,
            assigned(sequences@, Some(sequences@[0]@)),
            listed == match grants {
                Some(listed) => listed@,
                None => seq![],
            },
            batch_fault_with(models.take(i as int), limits@, listed) is None,
            bytes@ == frame::frames(records.take(i as int)),
        decreases items.len() - i,
    {
        let ghost longer = models.take(i as int + 1);
        proof {
            assert(longer.drop_last() =~= models.take(i as int));
            assert(longer.last() == items@[i as int]@);
            if batch_fault_with(longer, limits@, listed) is Some {
                lemma_fault_stays(models, i as int + 1, limits@, listed);
            }
            assert(records.take(i as int + 1) =~= records.take(i as int).push(records[i as int]));
            lemma_frames_push(records.take(i as int), records[i as int]);
        }
        let payload = match encode_transition(items[i].transition()) {
            Ok(payload) => payload,
            Err(error) => {
                return (Err(error), Ghost(listed));
            },
        };
        let record = Record::new(sequences[i], items[i].timestamp(), payload);
        assert(record@ =~= records[i as int]);
        let told = match grants {
            Some(listed) => Some(is_granted(listed, i)),
            None => None,
        };
        let (appended, granted) = encode_into_with(&record, limits, &mut bytes, told);
        if let Err(error) = appended {
            proof {
                if grants is None && !granted@ && item_fault(longer.last(), limits@) is None {
                    let cut = frame::refused_after(i as nat);
                    lemma_same_grants(models.take(i as int), limits@, listed, cut);
                    listed = cut;
                    lemma_fault_stays(models, i as int + 1, limits@, listed);
                }
            }
            return (Err(error), Ghost(listed));
        }
        i += 1;
    }
    assert(models.take(i as int) =~= models);
    assert(records.take(i as int) =~= records);
    (Ok(bytes), Ghost(listed))
}

/// Frames items at consecutive positions, one record after the other.
pub fn frame_batch(
    items: &[DurableItem],
    sequences: &[RecordSequence],
    limits: RecordLimits,
) -> (out: Result<Vec<u8>, StorageError>)
    requires
        items@.len() > 0,
        sequences@.len() == items@.len(),
        assigned(sequences@, Some(sequences@[0]@)),
    ensures
        exists|grants: Seq<bool>|
            framed_view(out) == #[trigger] framed(
                model::views(items@),
                sequences@[0]@,
                limits@,
                grants,
            ),
{
    let (out, _) = frame_batch_with(items, sequences, limits, None);
    out
}

/// Frames items at consecutive positions as if memory for the frames were granted as listed.
pub fn frame_batch_granted(
    items: &[DurableItem],
    sequences: &[RecordSequence],
    limits: RecordLimits,
    grants: &[bool],
) -> (out: Result<Vec<u8>, StorageError>)
    requires
        items@.len() > 0,
        sequences@.len() == items@.len(),
        assigned(sequences@, Some(sequences@[0]@)),
    ensures
        framed_view(out) == framed(model::views(items@), sequences@[0]@, limits@, grants@),
{
    let (out, _) = frame_batch_with(items, sequences, limits, Some(grants));
    out
}

/// The records of a batch that can be framed follow each other.
pub proof fn law_batch_records_are_consecutive(
    items: Seq<DurableItemView>,
    first: u64,
    max: u32,
)
    requires
        first != 0,
        !exhausted(Some(first), items.len()),
        batch_fault(items, max) is None,
    ensures
        frame::consecutive(batch_records(items, first), Some(first), max),
        frame::expected_after(batch_records(items, first), Some(first)) == next_after(
            Some(first),
            items.len(),
        ),
    decreases items.len(),
{
    let records = batch_records(items, first);
    if items.len() > 0 {
        lemma_no_fault(items, 0, max);
        reveal_with_fuel(frame::consecutive, 2);
        let others = items.drop_first();
        if others.len() > 0 {
            assert(records.drop_first() =~= batch_records(others, (first + 1) as u64));
            lemma_front_faultless(items, max);
            law_batch_records_are_consecutive(others, (first + 1) as u64, max);
        }
    }
}

pub proof fn lemma_no_fault(items: Seq<DurableItemView>, i: int, max: u32)
    requires
        batch_fault(items, max) is None,
        0 <= i < items.len(),
    ensures
        item_fault(items[i], max) is None,
    decreases items.len(),
{
    if i < items.len() - 1 {
        lemma_no_fault(items.drop_last(), i, max);
    }
}

pub proof fn lemma_front_faultless(items: Seq<DurableItemView>, max: u32)
    requires
        items.len() > 0,
        batch_fault(items, max) is None,
    ensures
        batch_fault(items.drop_first(), max) is None,
    decreases items.len(),
{
    if items.len() > 1 {
        lemma_front_faultless(items.drop_last(), max);
        assert(items.drop_last().drop_first() =~= items.drop_first().drop_last());
    }
}

/// Batches at positions that follow each other are framed like one batch.
pub proof fn lemma_batches_join(
    front: Seq<DurableItemView>,
    back: Seq<DurableItemView>,
    first: u64,
    second: u64,
    max: u32,
)
    requires
        !exhausted(Some(first), front.len()),
        next_after(Some(first), front.len()) == Some(second),
        !exhausted(Some(second), back.len()),
        batch_fault(front, max) is None,
        batch_fault(back, max) is None,
    ensures
        frame::frames(batch_records(front + back, first)) == frame::frames(
            batch_records(front, first),
        ) + frame::frames(batch_records(back, second)),
        next_after(Some(first), (front + back).len()) == next_after(Some(second), back.len()),
        !exhausted(Some(first), (front + back).len()),
        batch_fault(front + back, max) is None,
    decreases back.len(),
{
    let joined = front + back;
    if back.len() == 0 {
        assert(joined =~= front);
        assert(frame::frames(batch_records(back, second)) =~= seq![]);
        assert(frame::frames(batch_records(front, first)) + seq![] =~= frame::frames(
            batch_records(front, first),
        ));
    } else {
        let fewer = back.drop_last();
        let last = back.last();
        lemma_batches_join(front, fewer, first, second, max);
        assert(joined.drop_last() =~= front + fewer);
        let early = batch_records(front + fewer, first);
        let late = batch_records(fewer, second);
        let sequence = (second + fewer.len()) as u64;
        let record = item_record(last, sequence);
        assert(batch_records(joined, first) =~= early.push(record));
        assert(batch_records(back, second) =~= late.push(record));
        lemma_frames_push(early, record);
        lemma_frames_push(late, record);
        let one = frame::frames(batch_records(front, first));
        assert(one + (frame::frames(late) + frame::frame(record)) =~= one + frame::frames(late)
            + frame::frame(record));
    }
}

/// A log that gains a framed batch gives back what it gave before and then the records of the
/// batch, and the payload of each decodes to the transition that it makes durable.
pub proof fn law_framed_batch_is_recovered(
    records: Seq<RecordView>,
    items: Seq<DurableItemView>,
    first: u64,
    max: u32,
)
    requires
        frame::consecutive(records, Some(1), max),
        frame::expected_after(records, Some(1)) == Some(first),
        first != 0,
        !exhausted(Some(first), items.len()),
        batch_fault(items, max) is None,
        frame::frames(records).len() + frame::frames(batch_records(items, first)).len() <= u64::MAX,
    ensures
        frame::recovered(
            frame::reader_at_start(
                frame::frames(records) + frame::frames(batch_records(items, first)),
                max,
            ),
        ) == Ok::<Seq<RecordView>, StorageError>(records + batch_records(items, first)),
        forall|i: int|
            0 <= i < items.len() && (#[trigger] items[i]).transition.valid()
                ==> transition::transition_dec(batch_records(items, first)[i].payload) == Ok::<
                DurableTransitionView,
                StorageError,
            >(items[i].transition),
{
    let batch = batch_records(items, first);
    law_batch_records_are_consecutive(items, first, max);
    frame::law_recovery_reads_what_was_framed(records, frame::frames(batch), 0, Some(1), max);
    let offset = frame::frames(records).len() as u64;
    frame::law_recovery_reads_what_was_framed(batch, seq![], offset, Some(first), max);
    assert(frame::frames(batch) + seq![] =~= frame::frames(batch));
    assert(frame::recovered(
        frame::ReaderView {
            rest: seq![],
            offset: (offset + frame::frames(batch).len()) as u64,
            expected: frame::expected_after(batch, Some(first)),
            max,
        },
    ) == Ok::<Seq<RecordView>, StorageError>(seq![])) by {
        reveal(frame::read_step);
    }
    assert(batch + seq![] =~= batch);
    assert forall|i: int| 0 <= i < items.len() && (#[trigger] items[i]).transition.valid() implies
        transition::transition_dec(batch[i].payload) == Ok::<DurableTransitionView, StorageError>(
        items[i].transition,
    ) by {
        lemma_no_fault(items, i, max);
        transition::law_transition_round_trip(items[i].transition);
    }
}

} // verus!
