//! Recovery of engine state from a log of durable transitions.

use crate::batch;
use crate::bytes;
use crate::bytes::is_granted;
use crate::engine::{DurableItemView, Engine, RecoveryInstallError};
use crate::error::StorageError;
use crate::event::{Event, EventView};
use crate::record;
use crate::record::frame;
use crate::record::frame::{ReaderView, RecordView};
use crate::record::{Record, RecordLimits, RecordReader, RecordSequence};
use crate::transition;
use crate::transition::{decode_transition, DurableTransition, DurableTransitionView};
use crate::wire::model;
use crate::wire::model::Wire;
use vstd::prelude::*;

verus! {

/// Why a log cannot be replayed.
#[allow(inconsistent_fields)]
#[derive(Debug, Clone, PartialEq, Eq)]
pub enum RecoveryError {
    /// A record cannot be read or its payload cannot be decoded.
    Storage {
        /// Where the last replayed record ends.
        last_valid_offset: u64,
        /// What is wrong with the record.
        source: StorageError,
    },
    /// An event carries another timestamp than its record.
    TimestampMismatch {
        /// Where the last replayed record ends.
        last_valid_offset: u64,
        /// Position of the record.
        record_sequence: u64,
        /// Timestamp of the record.
        record_timestamp: i64,
        /// Timestamp of the event.
        event_timestamp: i64,
    },
    /// The engine cannot install what was recovered.
    Install {
        /// Where the last replayed record ends.
        last_valid_offset: u64,
        /// Why it cannot.
        source: RecoveryInstallError,
    },
}

impl RecoveryError {
    /// Where the last replayed record ends.
    pub open spec fn valid_through(self) -> u64 {
        match self {
            RecoveryError::Storage { last_valid_offset, .. } => last_valid_offset,
            RecoveryError::TimestampMismatch { last_valid_offset, .. } => last_valid_offset,
            RecoveryError::Install { last_valid_offset, .. } => last_valid_offset,
        }
    }

    /// The offset that the failure itself names, or else where the last replayed record ends.
    pub open spec fn found_at(self) -> u64 {
        match self {
            RecoveryError::Storage {
                source: StorageError::PartialTail { offset, .. },
                ..
            } => offset,
            RecoveryError::Storage {
                source: StorageError::CorruptWalRecord { offset, .. },
                ..
            } => offset,
            RecoveryError::Storage {
                source: StorageError::UnsupportedRecordVersion { offset, .. },
                ..
            } => offset,
            RecoveryError::Storage {
                source: StorageError::RecordTooLarge { offset, .. },
                ..
            } => offset,
            _ => self.valid_through(),
        }
    }

    /// Returns where the last replayed record ends.
    pub fn last_valid_offset(&self) -> (out: u64)
        ensures
            out == self.valid_through(),
    {
        match self {
            RecoveryError::Storage { last_valid_offset, .. } => *last_valid_offset,
            RecoveryError::TimestampMismatch { last_valid_offset, .. } => *last_valid_offset,
            RecoveryError::Install { last_valid_offset, .. } => *last_valid_offset,
        }
    }
}

/// Returns the offset that a failure names, or else where the last replayed record ends.
pub fn recovery_error_offset(error: &RecoveryError) -> (out: u64)
    ensures
        out == error.found_at(),
{
    match error {
        RecoveryError::Storage { source: StorageError::PartialTail { offset, .. }, .. } => *offset,
        RecoveryError::Storage { source: StorageError::CorruptWalRecord { offset, .. }, .. } => {
            *offset
        },
        RecoveryError::Storage {
            source: StorageError::UnsupportedRecordVersion { offset, .. },
            ..
        } => *offset,
        RecoveryError::Storage { source: StorageError::RecordTooLarge { offset, .. }, .. } => {
            *offset
        },
        _ => error.last_valid_offset(),
    }
}

/// The first event from `from` on that carries another timestamp.
pub open spec fn stray_event(events: Seq<EventView>, timestamp: i64, from: int) -> Option<int>
    decreases events.len() - from,
{
    if from >= events.len() {
        None
    } else if events[from].timestamp != timestamp {
        Some(from)
    } else {
        stray_event(events, timestamp, from + 1)
    }
}

/// The transition of a record that starts at `offset`.
pub open spec fn effects_of(record: RecordView, offset: u64) -> Result<
    DurableTransitionView,
    RecoveryError,
> {
    match transition::transition_dec(record.payload) {
        Err(source) => Err(RecoveryError::Storage { last_valid_offset: offset, source }),
        Ok(effects) => match stray_event(effects.events, record.timestamp, 0) {
            Some(index) => Err(
                RecoveryError::TimestampMismatch {
                    last_valid_offset: offset,
                    record_sequence: record.sequence,
                    record_timestamp: record.timestamp,
                    event_timestamp: effects.events[index].timestamp,
                },
            ),
            None => Ok(effects),
        },
    }
}

/// The model of decoded effects.
pub open spec fn effects_view(out: Result<DurableTransition, RecoveryError>) -> Result<
    DurableTransitionView,
    RecoveryError,
> {
    match out {
        Ok(effects) => Ok(effects@),
        Err(error) => Err(error),
    }
}

/// Returns the timestamp of the first event that carries another timestamp.
fn find_stray_event(events: &[Event], timestamp: i64) -> (out: Option<i64>)
    ensures
        out == match stray_event(model::views(events@), timestamp, 0) {
            Some(index) => Some(model::views(events@)[index].timestamp),
            None => None,
        },
{
    let ghost models = model::views(events@);
    let mut i: usize = 0;
    while i < events.len()
        invariant
            i <= events.len(),
            models == model::views(events@),
            stray_event(models, timestamp, 0) == stray_event(models, timestamp, i as int),
        decreases events.len() - i,
    {
        assert(models[i as int] == events@[i as int]@);
        let found = events[i].timestamp();
        if found != timestamp {
            return Some(found);
        }
        i += 1;
    }
    None
}

/// Decodes the transition of a record that starts at `offset`, and checks that its events carry
/// the timestamp of the record.
pub fn decode_effects(record: &Record, offset: u64) -> (out: Result<
    DurableTransition,
    RecoveryError,
>)
    ensures
        effects_view(out) == effects_of(record@, offset),
{
    let effects = match decode_transition(record.payload()) {
        Ok(effects) => effects,
        Err(source) => {
            return Err(RecoveryError::Storage { last_valid_offset: offset, source });
        },
    };
    match find_stray_event(effects.events(), record.timestamp()) {
        Some(event_timestamp) => Err(
            RecoveryError::TimestampMismatch {
                last_valid_offset: offset,
                record_sequence: record.record_sequence().get(),
                record_timestamp: record.timestamp(),
                event_timestamp,
            },
        ),
        None => Ok(effects),
    }
}

/// What a log holds: the transitions up to its end or to the first failure, where they end or
/// that failure, and the sequence behind them.
#[verifier::ext_equal]
pub struct Replay {
    /// The transitions in order.
    pub effects: Seq<DurableTransitionView>,
    /// Where they end, or the failure behind them.
    pub end: Result<u64, RecoveryError>,
    /// The sequence behind them.
    pub expected: Option<u64>,
}

/// What the log in front of a reader holds.
pub open spec fn replayed(reader: ReaderView) -> Replay
    decreases reader.rest.len(),
{
    let (out, next) = frame::read_step(reader);
    proof {
        frame::lemma_step_consumes(reader);
    }
    match out {
        Err(source) => Replay {
            effects: seq![],
            end: Err(RecoveryError::Storage { last_valid_offset: reader.offset, source }),
            expected: reader.expected,
        },
        Ok(None) => Replay {
            effects: seq![],
            end: Ok(reader.offset),
            expected: reader.expected,
        },
        Ok(Some(record)) => match effects_of(record, reader.offset) {
            Err(error) => Replay { effects: seq![], end: Err(error), expected: reader.expected },
            Ok(effects) => {
                let rest = replayed(next);
                Replay { effects: seq![effects] + rest.effects, ..rest }
            },
        },
    }
}

/// What the log in front of a reader holds, if memory for its records is granted as listed from
/// `number` on.
pub open spec fn replayed_with(reader: ReaderView, grants: Seq<bool>, number: nat) -> Replay
    decreases reader.rest.len(),
{
    let (out, next) = frame::read_step_with(reader, bytes::granted(grants, number));
    proof {
        frame::lemma_step_consumes(reader);
    }
    match out {
        Err(source) => Replay {
            effects: seq![],
            end: Err(RecoveryError::Storage { last_valid_offset: reader.offset, source }),
            expected: reader.expected,
        },
        Ok(None) => Replay {
            effects: seq![],
            end: Ok(reader.offset),
            expected: reader.expected,
        },
        Ok(Some(record)) => match effects_of(record, reader.offset) {
            Err(error) => Replay { effects: seq![], end: Err(error), expected: reader.expected },
            Ok(effects) => {
                let rest = replayed_with(next, grants, number + 1);
                Replay { effects: seq![effects] + rest.effects, ..rest }
            },
        },
    }
}

/// A log whose records all get memory holds what it holds.
pub proof fn law_granted_log_holds_the_same(reader: ReaderView, number: nat)
    ensures
        replayed_with(reader, seq![], number) == replayed(reader),
    decreases reader.rest.len(),
{
    frame::lemma_step_consumes(reader);
    if let Ok(Some(_)) = frame::read_step(reader).0 {
        law_granted_log_holds_the_same(frame::read_step(reader).1, number + 1);
    }
}

/// A log that is refused memory for the record behind the first `done` ones holds the
/// transitions of those, ends with that report where they end, and goes on behind them.
pub proof fn law_refused_log_ends_at_the_record(reader: ReaderView, number: nat, done: nat)
    requires
        number <= done,
        done - number <= replayed(reader).effects.len(),
        frame::asked(frame::reader_behind(reader, (done - number) as nat)) is Some,
    ensures
        ({
            let behind = frame::reader_behind(reader, (done - number) as nat);
            replayed_with(reader, frame::refused_after(done), number) == (Replay {
                effects: replayed(reader).effects.take(done - number),
                end: Err(
                    RecoveryError::Storage {
                        last_valid_offset: behind.offset,
                        source: frame::refused(frame::asked(behind)->0),
                    },
                ),
                expected: behind.expected,
            })
        }),
    decreases done - number,
{
    let all = replayed(reader).effects;
    frame::lemma_step_consumes(reader);
    if number < done {
        let next = frame::read_step(reader).1;
        let left = (done - number - 1) as nat;
        frame::lemma_behind_shift(reader, left);
        let rest = replayed(next).effects;
        assert(all == seq![all[0]] + rest);
        law_refused_log_ends_at_the_record(next, number + 1, done);
        assert(seq![all[0]] + rest.take(left as int) =~= all.take(done - number));
    } else {
        assert(all.take(0) =~= seq![]);
        assert(frame::reader_behind(reader, 0) == reader);
    }
}

/// Installing the transitions in order may turn one engine into another.
pub open spec fn installed<E: Engine>(
    before: E,
    effects: Seq<DurableTransitionView>,
    after: E,
) -> bool
    decreases effects.len(),
{
    if effects.len() == 0 {
        after == before
    } else {
        exists|middle: E|
            installed(before, effects.drop_last(), middle) && #[trigger] middle.installs(
                effects.last(),
                after,
                Ok(()),
            )
    }
}

/// Installing two runs of transitions installs the first, and then the second.
pub proof fn lemma_installed_splits<E: Engine>(
    before: E,
    early: Seq<DurableTransitionView>,
    late: Seq<DurableTransitionView>,
    after: E,
)
    requires
        installed(before, early + late, after),
    ensures
        exists|middle: E|
            installed(before, early, middle) && #[trigger] installed(middle, late, after),
    decreases late.len(),
{
    if late.len() == 0 {
        assert(early + late =~= early);
        assert(installed(after, late, after));
    } else {
        let whole = early + late;
        assert(whole.drop_last() =~= early + late.drop_last());
        assert(whole.last() == late.last());
        let base = choose|base: E|
            installed(before, whole.drop_last(), base) && #[trigger] base.installs(
                whole.last(),
                after,
                Ok(()),
            );
        lemma_installed_splits(before, early, late.drop_last(), base);
        let middle = choose|middle: E|
            installed(before, early, middle) && #[trigger] installed(
                middle,
                late.drop_last(),
                base,
            );
        assert(installed(middle, late, after));
    }
}

/// The transitions are valid and their events carry their timestamps.
pub open spec fn replayable(items: Seq<DurableItemView>) -> bool {
    forall|i: int|
        0 <= i < items.len() ==> (#[trigger] items[i]).transition.valid() && stray_event(
            items[i].transition.events,
            items[i].timestamp,
            0,
        ) is None
}

/// The transitions of items.
pub open spec fn transitions(items: Seq<DurableItemView>) -> Seq<DurableTransitionView> {
    Seq::new(items.len(), |i: int| items[i].transition)
}

/// Replaying a framed batch gives back each of its transitions once, in order, and goes on
/// behind them.
pub proof fn law_replay_gives_back_framed_transitions(
    items: Seq<DurableItemView>,
    tail: Seq<u8>,
    first: u64,
    offset: u64,
    max: u32,
)
    requires
        first != 0,
        !batch::exhausted(Some(first), items.len()),
        batch::batch_fault(items, max) is None,
        replayable(items),
        offset + frame::frames(batch::batch_records(items, first)).len() + tail.len() <= u64::MAX,
    ensures
        ({
            let framed = frame::frames(batch::batch_records(items, first));
            let behind = replayed(
                ReaderView {
                    rest: tail,
                    offset: (offset + framed.len()) as u64,
                    expected: batch::next_after(Some(first), items.len()),
                    max,
                },
            );
            replayed(ReaderView { rest: framed + tail, offset, expected: Some(first), max })
                == (Replay { effects: transitions(items) + behind.effects, ..behind })
        }),
    decreases items.len(),
{
    let records = batch::batch_records(items, first);
    let framed = frame::frames(records);
    let reader = ReaderView { rest: framed + tail, offset, expected: Some(first), max };
    if items.len() == 0 {
        assert(reader.rest =~= tail);
        let behind = replayed(reader);
        assert(transitions(items) + behind.effects =~= behind.effects);
    } else {
        let record = records[0];
        let others = items.drop_first();
        batch::law_batch_records_are_consecutive(items, first, max);
        let later = frame::frames(records.drop_first());
        assert(reader.rest =~= frame::frame(record) + (later + tail));
        assert(framed =~= frame::frame(record) + later);
        frame::lemma_frame_len(record);
        frame::law_record_round_trip(record, later + tail, offset, max);
        batch::lemma_no_fault(items, 0, max);
        transition::law_transition_round_trip(items[0].transition);
        assert(effects_of(record, offset) == Ok::<DurableTransitionView, RecoveryError>(
            items[0].transition,
        ));
        let next_offset = (offset + frame::frame(record).len()) as u64;
        if others.len() == 0 {
            assert(records.drop_first() =~= seq![]);
            assert(later + tail =~= tail);
            assert(transitions(items) =~= seq![items[0].transition]);
        } else {
            assert(records.drop_first() =~= batch::batch_records(others, (first + 1) as u64));
            batch::lemma_front_faultless(items, max);
            assert(replayable(others)) by {
                assert forall|i: int| 0 <= i < others.len() implies (
                #[trigger] others[i]).transition.valid() && stray_event(
                    others[i].transition.events,
                    others[i].timestamp,
                    0,
                ) is None by {
                    assert(others[i] == items[i + 1]);
                }
            }
            law_replay_gives_back_framed_transitions(
                others,
                tail,
                (first + 1) as u64,
                next_offset,
                max,
            );
            let behind = replayed(
                ReaderView {
                    rest: tail,
                    offset: (offset + framed.len()) as u64,
                    expected: batch::next_after(Some(first), items.len()),
                    max,
                },
            );
            assert(seq![items[0].transition] + (transitions(others) + behind.effects)
                =~= transitions(items) + behind.effects);
        }
    }
}

/// A log that is split between two groups holds, part after part, what it holds as a whole.
pub proof fn law_split_log_holds_the_same(
    front: Seq<DurableItemView>,
    back: Seq<DurableItemView>,
    first: u64,
    second: u64,
    max: u32,
)
    requires
        first != 0,
        !batch::exhausted(Some(first), front.len()),
        batch::next_after(Some(first), front.len()) == Some(second),
        !batch::exhausted(Some(second), back.len()),
        batch::batch_fault(front, max) is None,
        batch::batch_fault(back, max) is None,
        replayable(front),
        replayable(back),
        frame::frames(batch::batch_records(front, first)).len() + frame::frames(
            batch::batch_records(back, second),
        ).len() <= u64::MAX,
    ensures
        ({
            let one = frame::frames(batch::batch_records(front, first));
            let two = frame::frames(batch::batch_records(back, second));
            let whole = replayed(
                ReaderView { rest: one + two, offset: 0, expected: Some(first), max },
            );
            let early = replayed(ReaderView { rest: one, offset: 0, expected: Some(first), max });
            let late = replayed(ReaderView { rest: two, offset: 0, expected: Some(second), max });
            &&& whole.effects == early.effects + late.effects
            &&& early.expected == Some(second)
            &&& whole.expected == late.expected
            &&& early.end is Ok
            &&& late.end is Ok
            &&& whole.end is Ok
        }),
{
    let one = frame::frames(batch::batch_records(front, first));
    let two = frame::frames(batch::batch_records(back, second));
    law_replay_gives_back_framed_transitions(front, two, first, 0, max);
    law_replay_gives_back_framed_transitions(front, seq![], first, 0, max);
    law_replay_gives_back_framed_transitions(back, seq![], second, one.len() as u64, max);
    law_replay_gives_back_framed_transitions(back, seq![], second, 0, max);
    assert(one + seq![] =~= one);
    assert(two + seq![] =~= two);
    frame::lemma_step_at_end(
        ReaderView { rest: seq![], offset: one.len() as u64, expected: Some(second), max },
    );
    let last = batch::next_after(Some(second), back.len());
    frame::lemma_step_at_end(
        ReaderView { rest: seq![], offset: two.len() as u64, expected: last, max },
    );
    frame::lemma_step_at_end(
        ReaderView {
            rest: seq![],
            offset: (one.len() + two.len()) as u64,
            expected: last,
            max,
        },
    );
    assert(transitions(front) + (transitions(back) + seq![]) =~= (transitions(front) + seq![]) + (
    transitions(back) + seq![]));
}

/// A log whose last record was cut off holds the transitions of the complete records, ends where
/// they end, and goes on at their successor. Cut to that length, it holds the same and ends
/// cleanly.
pub proof fn law_tail_repair_keeps_complete_transitions(
    items: Seq<DurableItemView>,
    cut_record: RecordView,
    cut: int,
    first: u64,
    max: u32,
)
    requires
        first != 0,
        !batch::exhausted(Some(first), items.len()),
        batch::batch_fault(items, max) is None,
        replayable(items),
        batch::next_after(Some(first), items.len()) == Some(cut_record.sequence),
        cut_record.sequence != 0,
        frame::frame_fault(cut_record.payload.len(), max) is None,
        0 < cut < frame::frame(cut_record).len(),
        frame::frames(batch::batch_records(items, first)).len() + cut <= u64::MAX,
    ensures
        ({
            let framed = frame::frames(batch::batch_records(items, first));
            let log = ReaderView {
                rest: framed + frame::frame(cut_record).take(cut),
                offset: 0,
                expected: Some(first),
                max,
            };
            let broken = replayed(log);
            let repaired = replayed(ReaderView { rest: log.rest.take(framed.len() as int), ..log });
            &&& broken.effects == transitions(items)
            &&& broken.expected == Some(cut_record.sequence)
            &&& broken.end matches Err(RecoveryError::Storage {
                last_valid_offset,
                source: StorageError::PartialTail { offset, .. },
            }) && last_valid_offset == framed.len() && offset == framed.len()
            &&& repaired == (Replay { end: Ok(framed.len() as u64), ..broken })
        }),
{
    let framed = frame::frames(batch::batch_records(items, first));
    let tail = frame::frame(cut_record).take(cut);
    law_replay_gives_back_framed_transitions(items, tail, first, 0, max);
    frame::law_cut_record_is_partial_tail(cut_record, cut, framed.len() as u64, max);
    assert(transitions(items) + seq![] =~= transitions(items));
    law_replay_gives_back_framed_transitions(items, seq![], first, 0, max);
    assert((framed + tail).take(framed.len() as int) =~= framed + seq![]);
    frame::lemma_step_at_end(
        ReaderView {
            rest: seq![],
            offset: framed.len() as u64,
            expected: Some(cut_record.sequence),
            max,
        },
    );
}

/// Recovered engine state with what is needed to go on writing.
pub struct RecoveryOutcome<E> {
    engine: E,
    next_record_sequence: Option<RecordSequence>,
    last_valid_offset: u64,
}

impl<E> RecoveryOutcome<E> {
    /// The recovered engine.
    pub closed spec fn state(self) -> E {
        self.engine
    }

    /// The next sequence, if there is one.
    pub closed spec fn next(self) -> Option<u64> {
        record::sequence_view(self.next_record_sequence)
    }

    /// Where the last replayed record ends.
    pub closed spec fn valid_through(self) -> u64 {
        self.last_valid_offset
    }

    /// Returns the recovered engine.
    pub fn engine(&self) -> (out: &E)
        ensures
            *out == self.state(),
    {
        &self.engine
    }

    /// Returns the next record sequence, or `None` after log exhaustion.
    pub fn next_record_sequence(&self) -> (out: Option<RecordSequence>)
        ensures
            record::sequence_view(out) == self.next(),
    {
        self.next_record_sequence
    }

    /// Returns where the last replayed record ends.
    pub fn last_valid_offset(&self) -> (out: u64)
        ensures
            out == self.valid_through(),
    {
        self.last_valid_offset
    }

    /// Returns the engine, the next record sequence and where the last replayed record ends.
    pub fn into_parts(self) -> (out: (E, Option<RecordSequence>, u64))
        ensures
            out.0 == self.state(),
            record::sequence_view(out.1) == self.next(),
            out.2 == self.valid_through(),
    {
        (self.engine, self.next_record_sequence, self.last_valid_offset)
    }
}

/// Replay in progress.
pub struct EngineRecovery<E> {
    engine: E,
    expected_sequence: Option<RecordSequence>,
}

impl<E: Engine> EngineRecovery<E> {
    /// The engine so far.
    pub closed spec fn state(self) -> E {
        self.engine
    }

    /// The next sequence, if there is one.
    pub closed spec fn next(self) -> Option<u64> {
        record::sequence_view(self.expected_sequence)
    }

    /// Starts with an empty engine at the first record.
    pub fn new() -> (out: EngineRecovery<E>)
        ensures
            out.state().starts(),
            out.next() == Some(1u64),
    {
        EngineRecovery { engine: E::empty(), expected_sequence: Some(RecordSequence::first()) }
    }

    /// Starts with known state in front of the given record.
    pub fn with_expected(expected: RecordSequence, engine: E) -> (out: EngineRecovery<E>)
        ensures
            out.state() == engine,
            out.next() == Some(expected@),
    {
        EngineRecovery { engine, expected_sequence: Some(expected) }
    }

    /// Starts with known state behind the last possible record.
    pub fn from_exhausted_snapshot(engine: E) -> (out: EngineRecovery<E>)
        ensures
            out.state() == engine,
            out.next() is None,
    {
        EngineRecovery { engine, expected_sequence: None }
    }

    /// Returns the next record sequence, or `None` after log exhaustion.
    pub fn next_record_sequence(&self) -> (out: Option<RecordSequence>)
        ensures
            record::sequence_view(out) == self.next(),
    {
        self.expected_sequence
    }

    /// Replays one record that starts at `offset`. What cannot be decoded is not handed to the
    /// engine; whether the engine installs the rest is up to the engine.
    pub fn accept(&mut self, record: &Record, offset: u64) -> (out: Result<(), RecoveryError>)
        ensures
            match effects_of(record@, offset) {
                Err(error) => out == Err::<(), RecoveryError>(error) && *final(self) == *old(self),
                Ok(effects) => match out {
                    Ok(()) => final(self).next() == frame::next_sequence(record@.sequence)
                        && old(self).state().installs(effects, final(self).state(), Ok(())),
                    Err(RecoveryError::Install { last_valid_offset, source }) => {
                        &&& last_valid_offset == offset
                        &&& final(self).next() == old(self).next()
                        &&& old(self).state().installs(effects, final(self).state(), Err(source))
                    },
                    Err(_) => false,
                },
            },
    {
        let effects = decode_effects(record, offset)?;
        let installed = self.engine.install(effects);
        match installed {
            Ok(done) => {
                assert(done == ());
                self.expected_sequence = record.record_sequence().next();
                Ok(())
            },
            Err(source) => Err(RecoveryError::Install { last_valid_offset: offset, source }),
        }
    }

    /// Replays a log from the next record on. Memory for its records is granted as listed, or
    /// else asked for. What was granted is returned, with the number of records that were
    /// installed.
    fn feed_with(&mut self, source: &[u8], limits: RecordLimits, grants: Option<&[bool]>) -> (out: (
        Result<u64, RecoveryError>,
        Ghost<Seq<bool>>,
        Ghost<nat>,
    ))
        ensures
            fed(
                ReaderView {
                    rest: source@,
                    offset: 0,
                    expected: old(self).next(),
                    max: limits@,
                },
                out.1@,
                out.2@,
                old(self).state(),
                *final(self),
                out.0,
            ),
            grants matches Some(listed) ==> out.1@ == listed@,
    {
        let ghost mut listed = match grants {
            Some(listed) => listed@,
            None => seq![],
        };
        let mut reader = RecordReader::resume(source, limits, self.expected_sequence);
        let ghost start = reader@;
        let ghost whole = replayed_with(start, listed, 0);
        let mut done: usize = 0;
        assert(source@.len() == source.len());
        assert(whole.effects.skip(0) =~= whole.effects);
        assert(whole.effects.take(0) =~= seq![]);
        loop
            invariant
                reader@.wf(),
                reader@.expected == self.next(),
                start == (ReaderView {
                    rest: source@,
                    offset: 0,
                    expected: old(self).next(),
                    max: limits@,
                }),
                listed == match grants {
                    Some(listed) => listed@,
                    None => seq![],
                },
                whole == replayed_with(start, listed, 0),
                done <= whole.effects.len(),
                done + reader@.rest.len() <= source@.len() <= usize::MAX,
                reader@ == frame::reader_behind(start, done as nat),
                replayed_with(reader@, listed, done as nat) == (Replay {
                    effects: whole.effects.skip(done as int),
                    ..whole
                }),
                installed(old(self).state(), whole.effects.take(done as int), self.state()),
            decreases reader@.rest.len(),
        {
            proof {
                frame::lemma_step_consumes(reader@);
                frame::lemma_step_expects(reader@);
            }
            let ghost before = *self;
            let ghost ahead = reader@;
            let ghost rest = replayed_with(reader@, listed, done as nat);
            let offset = reader.offset();
            let told = match grants {
                Some(listed) => Some(is_granted(listed, done)),
                None => None,
            };
            let (read, granted) = reader.read_next_with(told);
            match read {
                Err(source) => {
                    let out = Err(RecoveryError::Storage { last_valid_offset: offset, source });
                    proof {
                        if grants is None && !granted@ && frame::asked(ahead) is Some {
                            law_granted_log_holds_the_same(start, 0);
                            law_refused_log_ends_at_the_record(start, 0, done as nat);
                            listed = frame::refused_after(done as nat);
                            let front = whole.effects.take(done as int);
                            assert(front.take(done as int) =~= front);
                        } else {
                            assert(rest.effects =~= seq![]);
                            assert(whole.effects.take(done as int) =~= whole.effects);
                        }
                    }
                    return (out, Ghost(listed), Ghost(done as nat));
                },
                Ok(None) => {
                    assert(whole.effects.take(done as int) =~= whole.effects);
                    return (Ok(offset), Ghost(listed), Ghost(done as nat));
                },
                Ok(Some(record)) => {
                    if let Err(error) = self.accept(&record, offset) {
                        proof {
                            assert(rest.effects == whole.effects.skip(done as int));
                            if let Ok(effects) = effects_of(record@, offset) {
                                assert(rest.effects[0] == effects);
                                assert(rest.effects.len() == whole.effects.len() - done);
                                assert(whole.effects[done as int] == effects);
                                assert(refused_at(
                                    before.state(),
                                    whole.effects[done as int],
                                    *self,
                                    error,
                                ));
                            } else {
                                assert(rest.effects =~= seq![]);
                                assert(whole.effects.take(done as int) =~= whole.effects);
                            }
                        }
                        return (Err(error), Ghost(listed), Ghost(done as nat));
                    }
                    proof {
                        let next = whole.effects.take(done as int + 1);
                        assert(rest.effects.drop_first() =~= whole.effects.skip(done as int + 1));
                        assert(rest.effects[0] == whole.effects[done as int]);
                        assert(next.drop_last() =~= whole.effects.take(done as int));
                        assert(before.state().installs(next.last(), self.state(), Ok(())));
                        assert(replayed_with(reader@, listed, done as nat + 1).effects
                            =~= rest.effects.drop_first());
                    }
                    done += 1;
                },
            }
        }
    }

    /// Replays a log from the next record on, and returns where it ends. The engine is handed
    /// the transitions of the log in order. It gets all of them unless it refuses one or the
    /// memory for a record cannot be had.
    pub fn feed(&mut self, source: &[u8], limits: RecordLimits) -> (out: Result<
        u64,
        RecoveryError,
    >)
        ensures
            exists|grants: Seq<bool>, done: nat| #[trigger]
                fed(
                    ReaderView {
                        rest: source@,
                        offset: 0,
                        expected: old(self).next(),
                        max: limits@,
                    },
                    grants,
                    done,
                    old(self).state(),
                    *final(self),
                    out,
                ),
    {
        let (out, _, _) = self.feed_with(source, limits, None);
        out
    }

    /// Replays a log from the next record on as if memory for its records were granted as
    /// listed.
    pub fn feed_granted(&mut self, source: &[u8], limits: RecordLimits, grants: &[bool]) -> (out:
        Result<u64, RecoveryError>)
        ensures
            exists|done: nat| #[trigger]
                fed(
                    ReaderView {
                        rest: source@,
                        offset: 0,
                        expected: old(self).next(),
                        max: limits@,
                    },
                    grants@,
                    done,
                    old(self).state(),
                    *final(self),
                    out,
                ),
    {
        let (out, _, _) = self.feed_with(source, limits, Some(grants));
        out
    }

    /// Rebuilds the indexes of the engine and hands over what was recovered.
    pub fn finish(self, last_valid_offset: u64) -> (out: Result<
        RecoveryOutcome<E>,
        RecoveryError,
    >)
        ensures
            finished(self, last_valid_offset, out),
    {
        let mut engine = self.engine;
        let indexed = engine.finish_recovery();
        match indexed {
            Ok(done) => {
                assert(done == ());
                Ok(
                    RecoveryOutcome {
                        engine,
                        next_record_sequence: self.expected_sequence,
                        last_valid_offset,
                    },
                )
            },
            Err(source) => {
                assert(self.state().finishes(engine, Err(source)));
                Err(RecoveryError::Install { last_valid_offset, source })
            },
        }
    }
}

/// The engine refused a transition with the given error.
pub open spec fn refused_at<E: Engine>(
    before: E,
    effects: DurableTransitionView,
    after: EngineRecovery<E>,
    error: RecoveryError,
) -> bool {
    error matches RecoveryError::Install { source, .. } && before.installs(
        effects,
        after.state(),
        Err(source),
    )
}

/// What replaying a log over an engine does, if memory for its records is granted as listed and
/// the engine installs the transitions of the first `done` records: it goes on to the end of the
/// log or to its first failure, unless the engine refuses the next transition.
pub open spec fn fed<E: Engine>(
    reader: ReaderView,
    grants: Seq<bool>,
    done: nat,
    before: E,
    after: EngineRecovery<E>,
    out: Result<u64, RecoveryError>,
) -> bool {
    let log = replayed_with(reader, grants, 0);
    let behind = frame::reader_behind(reader, done);
    let front = log.effects.take(done as int);
    &&& done <= log.effects.len()
    &&& after.next() == behind.expected
    &&& match out {
        Err(RecoveryError::Install { last_valid_offset, source }) => {
            &&& done < log.effects.len()
            &&& last_valid_offset == behind.offset
            &&& exists|middle: E|
                installed(before, front, middle) && #[trigger] refused_at(
                    middle,
                    log.effects[done as int],
                    after,
                    RecoveryError::Install { last_valid_offset, source },
                )
        },
        _ => {
            &&& out == log.end
            &&& done == log.effects.len()
            &&& after.next() == log.expected
            &&& installed(before, log.effects, after.state())
        },
    }
}

/// What the end of recovery gives.
pub open spec fn finished<E: Engine>(
    recovery: EngineRecovery<E>,
    end: u64,
    out: Result<RecoveryOutcome<E>, RecoveryError>,
) -> bool {
    match out {
        Ok(outcome) => {
            &&& outcome.next() == recovery.next()
            &&& outcome.valid_through() == end
            &&& recovery.state().finishes(outcome.state(), Ok(()))
        },
        Err(RecoveryError::Install { last_valid_offset, source }) => {
            &&& last_valid_offset == end
            &&& exists|after: E| #[trigger] recovery.state().finishes(after, Err(source))
        },
        Err(_) => false,
    }
}

/// What recovery of a complete log over an engine gives: the outcome of the end of recovery
/// behind the whole log, or the first failure.
pub open spec fn recovered<E: Engine>(
    reader: ReaderView,
    grants: Seq<bool>,
    done: nat,
    before: E,
    after: EngineRecovery<E>,
    out: Result<RecoveryOutcome<E>, RecoveryError>,
) -> bool {
    ||| exists|end: u64| #[trigger]
        fed(reader, grants, done, before, after, Ok(end)) && finished(after, end, out)
    ||| out matches Err(error) && fed(reader, grants, done, before, after, Err(error))
}

/// Replays a complete log from the first record on.
pub fn recover_engine<E: Engine>(source: &[u8], limits: RecordLimits) -> (out: Result<
    RecoveryOutcome<E>,
    RecoveryError,
>)
    ensures
        exists|grants: Seq<bool>, engine: E|
            engine.starts() && #[trigger] replays_to(
                frame::reader_at_start(source@, limits@),
                grants,
                engine,
                out,
            ),
{
    recover_engine_with_expected(source, limits, RecordSequence::first(), E::empty())
}

/// Replays a complete log from the first record on as if memory for its records were granted as
/// listed.
pub fn recover_engine_granted<E: Engine>(
    source: &[u8],
    limits: RecordLimits,
    grants: &[bool],
) -> (out: Result<RecoveryOutcome<E>, RecoveryError>)
    ensures
        exists|engine: E|
            engine.starts() && #[trigger] replays_to(
                frame::reader_at_start(source@, limits@),
                grants@,
                engine,
                out,
            ),
{
    let (out, _) = replay_with(
        source,
        limits,
        RecordSequence::first(),
        E::empty(),
        Some(grants),
    );
    out
}

/// Recovery of a complete log over an engine may give `out`, if memory for its records is granted
/// as listed.
pub open spec fn replays_to<E: Engine>(
    reader: ReaderView,
    grants: Seq<bool>,
    engine: E,
    out: Result<RecoveryOutcome<E>, RecoveryError>,
) -> bool {
    exists|done: nat, after: EngineRecovery<E>| #[trigger]
        recovered(reader, grants, done, engine, after, out)
}

/// Replays a complete log. Memory for its records is granted as listed, or else asked for. What
/// was granted is returned.
fn replay_with<E: Engine>(
    source: &[u8],
    limits: RecordLimits,
    expected: RecordSequence,
    engine: E,
    grants: Option<&[bool]>,
) -> (out: (Result<RecoveryOutcome<E>, RecoveryError>, Ghost<Seq<bool>>))
    ensures
        replays_to(
            ReaderView {
                rest: source@,
                offset: 0,
                expected: Some(expected@),
                max: limits@,
            },
            out.1@,
            engine,
            out.0,
        ),
        grants matches Some(listed) ==> out.1@ == listed@,
{
    let mut recovery = EngineRecovery::with_expected(expected, engine);
    let ghost reader = ReaderView {
        rest: source@,
        offset: 0,
        expected: Some(expected@),
        max: limits@,
    };
    let (fed_through, listed, done) = recovery.feed_with(source, limits, grants);
    let ghost after = recovery;
    let ghost through = fed_through;
    let out = match fed_through {
        Ok(offset) => recovery.finish(offset),
        Err(error) => Err(error),
    };
    proof {
        if let Ok(offset) = through {
            assert(fed(reader, listed@, done@, engine, after, Ok(offset)));
        }
        assert(recovered(reader, listed@, done@, engine, after, out));
        assert(replays_to(reader, listed@, engine, out));
    }
    (out, listed)
}

/// Replays a complete log from an explicit record on, over known state.
pub fn recover_engine_with_expected<E: Engine>(
    source: &[u8],
    limits: RecordLimits,
    expected: RecordSequence,
    engine: E,
) -> (out: Result<RecoveryOutcome<E>, RecoveryError>)
    ensures
        exists|grants: Seq<bool>| #[trigger]
            replays_to(
                ReaderView {
                    rest: source@,
                    offset: 0,
                    expected: Some(expected@),
                    max: limits@,
                },
                grants,
                engine,
                out,
            ),
{
    let (out, _) = replay_with(source, limits, expected, engine, None);
    out
}

} // verus!
