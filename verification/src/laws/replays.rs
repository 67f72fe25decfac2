//! Recovery of a log.

use crate::backend::WalBackend;
use crate::bytes;
use crate::database::{Database, DatabaseError, DatabaseOptions, DatabaseView};
use crate::database;
use crate::engine::{DurableItemView, Engine, RecoveryInstallError};
use crate::error::StorageError;
use crate::event::EventView;
use crate::laws::groups;
use crate::record::frame;
use crate::record::frame::{ReaderView, RecordView};
use crate::record::{Record, RecordLimits, RecordSequence};
use crate::recovery;
use crate::replay::{EngineRecovery, RecoveryError, RecoveryOutcome};
use crate::replay;
use crate::transition::{DurableTransition, DurableTransitionView};
use crate::transition;
use crate::wire::model;
use vstd::prelude::*;

verus! {

/// A search for an event with another timestamp finds the first such event, and finds none
/// exactly if every event carries the timestamp.
pub proof fn law_stray_events_are_found(events: Seq<EventView>, timestamp: i64, from: int)
    requires
        0 <= from,
    ensures
        replay::stray_event(events, timestamp, from) is None <==> forall|i: int|
            from <= i < events.len() ==> (#[trigger] events[i]).timestamp == timestamp,
        replay::stray_event(events, timestamp, from) matches Some(found) ==> from <= found
            < events.len() && events[found].timestamp != timestamp && forall|i: int|
            from <= i < found ==> (#[trigger] events[i]).timestamp == timestamp,
    decreases events.len() - from,
{
    if from < events.len() && events[from].timestamp == timestamp {
        law_stray_events_are_found(events, timestamp, from + 1);
    }
}

/// Items can be replayed exactly if their transitions are valid and each event carries the
/// timestamp of its item.
pub proof fn law_items_with_their_timestamps_are_replayable(items: Seq<DurableItemView>)
    ensures
        replay::replayable(items) <==> forall|i: int|
            0 <= i < items.len() ==> model::Wire::valid((#[trigger] items[i]).transition)
                && forall|k: int|
                0 <= k < items[i].transition.events.len() ==> (#[trigger] items[i].transition.events[k]).timestamp
                    == items[i].timestamp,
{
    assert forall|i: int| 0 <= i < items.len() implies (replay::stray_event(
        (#[trigger] items[i]).transition.events,
        items[i].timestamp,
        0,
    ) is None <==> forall|k: int|
        0 <= k < items[i].transition.events.len() ==> (#[trigger] items[i].transition.events[k]).timestamp
            == items[i].timestamp) by {
        law_stray_events_are_found(items[i].transition.events, items[i].timestamp, 0);
    }
}

/// The transitions of items are those of each item, in order.
pub proof fn law_transitions_in_order(items: Seq<DurableItemView>)
    ensures
        replay::transitions(items).len() == items.len(),
        forall|i: int|
            0 <= i < items.len() ==> (#[trigger] replay::transitions(items)[i])
                == items[i].transition,
{
}

/// The payload of a record holds a transition whose events all carry the timestamp of the record.
pub open spec fn holds(record: RecordView, effects: DurableTransitionView) -> bool {
    &&& transition::transition_dec(record.payload) == Ok::<DurableTransitionView, StorageError>(
        effects,
    )
    &&& forall|k: int|
        0 <= k < effects.events.len() ==> (#[trigger] effects.events[k]).timestamp
            == record.timestamp
}

/// What is wrong with a record that starts at `offset`: its payload is no transition, or `stray`
/// is the first event with another timestamp.
pub open spec fn misplaced(
    record: RecordView,
    offset: u64,
    error: RecoveryError,
) -> bool {
    match error {
        RecoveryError::Storage { last_valid_offset, source } => {
            &&& last_valid_offset == offset
            &&& transition::transition_dec(record.payload) == Err::<
                DurableTransitionView,
                StorageError,
            >(source)
        },
        RecoveryError::TimestampMismatch {
            last_valid_offset,
            record_sequence,
            record_timestamp,
            event_timestamp,
        } => {
            &&& last_valid_offset == offset
            &&& record_sequence == record.sequence
            &&& record_timestamp == record.timestamp
            &&& transition::transition_dec(record.payload) matches Ok(effects)
            &&& event_timestamp != record.timestamp
            &&& exists|stray: int|
                0 <= stray < effects.events.len() && (#[trigger] effects.events[stray]).timestamp
                    == event_timestamp && forall|k: int|
                    0 <= k < stray ==> (#[trigger] effects.events[k]).timestamp == record.timestamp
        },
        RecoveryError::Install { .. } => false,
    }
}

/// A record gives its transition, or what is wrong with it.
pub proof fn law_records_give_their_transition(record: RecordView, offset: u64)
    ensures
        match replay::effects_of(record, offset) {
            Ok(effects) => holds(record, effects),
            Err(error) => misplaced(record, offset, error),
        },
{
    if let Ok(effects) = transition::transition_dec(record.payload) {
        law_stray_events_are_found(effects.events, record.timestamp, 0);
    }
}

/// Decoding the effects of a record gives its transition, or what is wrong with it.
pub proof fn law_decode_effects(
    record: &Record,
    offset: u64,
    out: Result<DurableTransition, RecoveryError>,
)
    requires
        call_ensures(replay::decode_effects, (record, offset), out),
    ensures
        match out {
            Ok(effects) => holds(record@, effects@),
            Err(error) => misplaced(record@, offset, error),
        },
{
    law_records_give_their_transition(record@, offset);
}

/// Step `i` of a scan reads record `i` and moves from reader `i` to the next.
pub open spec fn scan_step(
    readers: Seq<ReaderView>,
    records: Seq<RecordView>,
    grants: Seq<bool>,
    number: int,
    i: int,
) -> bool {
    frame::read_step_with(readers[i], groups::listed(grants, number + i)) == (
        Ok::<Option<RecordView>, StorageError>(Some(records[i])),
        readers[i + 1],
    )
}

/// A scan reads the records one behind the other.
pub open spec fn scanned(
    reader: ReaderView,
    readers: Seq<ReaderView>,
    records: Seq<RecordView>,
    grants: Seq<bool>,
    number: int,
) -> bool {
    &&& readers.len() == records.len() + 1
    &&& readers[0] == reader
    &&& forall|i: int|
        0 <= i < records.len() ==> #[trigger] scan_step(readers, records, grants, number, i)
}

/// A scan with one more record in front.
proof fn lemma_scan_longer(
    reader: ReaderView,
    record: RecordView,
    readers: Seq<ReaderView>,
    records: Seq<RecordView>,
    grants: Seq<bool>,
    number: int,
)
    requires
        scanned(
            frame::read_step_with(reader, groups::listed(grants, number)).1,
            readers,
            records,
            grants,
            number + 1,
        ),
        frame::read_step_with(reader, groups::listed(grants, number)).0 == Ok::<
            Option<RecordView>,
            StorageError,
        >(Some(record)),
    ensures
        scanned(reader, seq![reader] + readers, seq![record] + records, grants, number),
        (seq![reader] + readers).last() == readers.last(),
{
    let longer = seq![reader] + readers;
    let more = seq![record] + records;
    assert forall|i: int| 0 <= i < more.len() implies #[trigger] scan_step(
        longer,
        more,
        grants,
        number,
        i,
    ) by {
        if i > 0 {
            assert(scan_step(readers, records, grants, number + 1, i - 1));
        }
    }
}

/// A scan gives all records up to a clean end, or the failure behind those that could be read.
pub open spec fn scan_verdict(
    reader: ReaderView,
    readers: Seq<ReaderView>,
    records: Seq<RecordView>,
    grants: Seq<bool>,
    number: int,
    out: Result<Seq<RecordView>, StorageError>,
) -> bool {
    let step = frame::read_step_with(readers.last(), groups::listed(grants, number + records.len())).0;
    &&& scanned(reader, readers, records, grants, number)
    &&& match out {
        Ok(all) => all == records && readers.last().rest.len() == 0,
        Err(error) => step == Err::<Option<RecordView>, StorageError>(error),
    }
}

/// A scan of a log gives all its records in order up to a clean end, or the first failure.
pub proof fn law_scans(reader: ReaderView, grants: Seq<bool>, number: nat)
    ensures
        exists|readers: Seq<ReaderView>, records: Seq<RecordView>| #[trigger]
            scan_verdict(
                reader,
                readers,
                records,
                grants,
                number as int,
                frame::recovered_with(reader, grants, number),
            ),
    decreases reader.rest.len(),
{
    let granted = groups::listed(grants, number as int);
    assert(granted == bytes::granted(grants, number));
    frame::lemma_step_consumes(reader);
    let (step, next) = frame::read_step_with(reader, granted);
    let out = frame::recovered_with(reader, grants, number);
    let none: Seq<RecordView> = seq![];
    match step {
        Ok(Some(record)) => {
            law_scans(next, grants, number + 1);
            let rest = frame::recovered_with(next, grants, number + 1);
            let (readers, records) = choose|readers: Seq<ReaderView>, records: Seq<RecordView>|
             #[trigger] scan_verdict(next, readers, records, grants, (number + 1) as int, rest);
            lemma_scan_longer(reader, record, readers, records, grants, number as int);
            assert(scan_verdict(
                reader,
                seq![reader] + readers,
                seq![record] + records,
                grants,
                number as int,
                out,
            ));
        },
        _ => {
            assert(scan_verdict(reader, seq![reader], none, grants, number as int, out));
        },
    }
}

/// The records that were returned.
pub open spec fn seen(out: Result<Vec<Record>, StorageError>) -> Result<
    Seq<RecordView>,
    StorageError,
> {
    match out {
        Ok(all) => Ok(Seq::new(all@.len(), |i: int| all@[i]@)),
        Err(error) => Err(error),
    }
}

/// Recovery of records scans the log from its first record on.
pub proof fn law_recover_granted(
    source: &[u8],
    limits: RecordLimits,
    grants: &[bool],
    out: Result<Vec<Record>, StorageError>,
)
    requires
        call_ensures(recovery::recover_granted, (source, limits, grants), out),
    ensures
        exists|readers: Seq<ReaderView>, records: Seq<RecordView>| #[trigger]
            scan_verdict(
                ReaderView { rest: source@, offset: 0, expected: Some(1u64), max: limits@ },
                readers,
                records,
                grants@,
                0,
                seen(out),
            ),
{
    law_scans(frame::reader_at_start(source@, limits@), grants@, 0);
    if let Ok(all) = out {
        assert(model::views(all@) =~= Seq::new(all@.len(), |i: int| all@[i]@));
    }
}

/// The same holds where memory is asked for.
pub proof fn law_recover(
    source: &[u8],
    limits: RecordLimits,
    out: Result<Vec<Record>, StorageError>,
)
    requires
        call_ensures(recovery::recover, (source, limits), out),
    ensures
        exists|readers: Seq<ReaderView>, records: Seq<RecordView>, grants: Seq<bool>| #[trigger]
            scan_verdict(
                ReaderView { rest: source@, offset: 0, expected: Some(1u64), max: limits@ },
                readers,
                records,
                grants,
                0,
                seen(out),
            ),
{
    let start = frame::reader_at_start(source@, limits@);
    let grants = choose|grants: Seq<bool>|
        recovery::records_view(out) == #[trigger] frame::recovered_with(start, grants, 0);
    law_scans(start, grants, 0);
    if let Ok(all) = out {
        assert(model::views(all@) =~= Seq::new(all@.len(), |i: int| all@[i]@));
    }
}

/// Each record holds the transition at its place.
pub open spec fn all_hold(records: Seq<RecordView>, effects: Seq<DurableTransitionView>) -> bool {
    &&& records.len() == effects.len()
    &&& forall|i: int| 0 <= i < records.len() ==> #[trigger] holds(records[i], effects[i])
}

/// Where a replay stops: at a clean end, at a record that cannot be read, or at one whose payload
/// is wrong.
pub open spec fn stops(last: ReaderView, granted: bool, end: Result<u64, RecoveryError>) -> bool {
    match frame::read_step_with(last, granted).0 {
        Ok(None) => end == Ok::<u64, RecoveryError>(last.offset),
        Err(source) => end == Err::<u64, RecoveryError>(
            RecoveryError::Storage { last_valid_offset: last.offset, source },
        ),
        Ok(Some(record)) => end matches Err(error) && misplaced(record, last.offset, error),
    }
}

/// A replay of a log gives the transitions of its records in order, each once, up to where it
/// stops.
pub proof fn law_replays(reader: ReaderView, grants: Seq<bool>, number: nat)
    ensures
        ({
            let log = replay::replayed_with(reader, grants, number);
            exists|readers: Seq<ReaderView>, records: Seq<RecordView>|
                #![trigger scanned(reader, readers, records, grants, number as int)]
                {
                    &&& scanned(reader, readers, records, grants, number as int)
                    &&& all_hold(records, log.effects)
                    &&& log.expected == readers.last().expected
                    &&& stops(readers.last(), groups::listed(grants, (number + records.len()) as int), log.end)
                }
        }),
    decreases reader.rest.len(),
{
    let granted = groups::listed(grants, number as int);
    assert(granted == bytes::granted(grants, number));
    frame::lemma_step_consumes(reader);
    let log = replay::replayed_with(reader, grants, number);
    let (out, next) = frame::read_step_with(reader, granted);
    let none: Seq<RecordView> = seq![];
    match out {
        Ok(Some(record)) => {
            law_records_give_their_transition(record, reader.offset);
            match replay::effects_of(record, reader.offset) {
                Ok(effects) => {
                    law_replays(next, grants, number + 1);
                    let rest = replay::replayed_with(next, grants, number + 1);
                    let (readers, records) = choose|
                        readers: Seq<ReaderView>,
                        records: Seq<RecordView>,
                    |
                        #![trigger scanned(next, readers, records, grants, (number + 1) as int)]
                        {
                            &&& scanned(next, readers, records, grants, (number + 1) as int)
                            &&& all_hold(records, rest.effects)
                            &&& rest.expected == readers.last().expected
                            &&& stops(
                                readers.last(),
                                groups::listed(grants, (number + 1 + records.len()) as int),
                                rest.end,
                            )
                        };
                    lemma_scan_longer(reader, record, readers, records, grants, number as int);
                    let more = seq![record] + records;
                    assert forall|i: int| 0 <= i < more.len() implies #[trigger] holds(
                        more[i],
                        log.effects[i],
                    ) by {
                        if i > 0 {
                            assert(holds(records[i - 1], rest.effects[i - 1]));
                        }
                    }
                    assert(more.len() == 1 + records.len());
                },
                Err(error) => {
                    assert(scanned(reader, seq![reader], none, grants, number as int));
                },
            }
        },
        _ => {
            assert(scanned(reader, seq![reader], none, grants, number as int));
        },
    }
}

/// The readers of a scan stand behind the records that were read.
proof fn lemma_scan_behind(
    reader: ReaderView,
    readers: Seq<ReaderView>,
    records: Seq<RecordView>,
    grants: Seq<bool>,
    i: int,
)
    requires
        scanned(reader, readers, records, grants, 0),
        0 <= i <= records.len(),
    ensures
        frame::reader_behind(reader, i as nat) == readers[i],
    decreases i,
{
    if i > 0 {
        lemma_scan_behind(reader, readers, records, grants, i - 1);
        assert(scan_step(readers, records, grants, 0, i - 1));
    }
}

/// Step `i` installs transition `i` and moves from engine `i` to the next.
pub open spec fn install_step<E: Engine>(
    engines: Seq<E>,
    effects: Seq<DurableTransitionView>,
    i: int,
) -> bool {
    engines[i].installs(effects[i], engines[i + 1], Ok(()))
}

/// The transitions are installed one behind the other.
pub open spec fn all_installed<E: Engine>(
    engines: Seq<E>,
    effects: Seq<DurableTransitionView>,
) -> bool {
    &&& engines.len() == effects.len() + 1
    &&& forall|i: int| 0 <= i < effects.len() ==> #[trigger] install_step(engines, effects, i)
}

/// Transitions are installed each once and in order.
pub proof fn law_transitions_are_installed_in_order<E: Engine>(
    before: E,
    effects: Seq<DurableTransitionView>,
    after: E,
)
    requires
        replay::installed(before, effects, after),
    ensures
        exists|engines: Seq<E>| #[trigger]
            all_installed(engines, effects) && engines[0] == before && engines.last() == after,
    decreases effects.len(),
{
    if effects.len() == 0 {
        assert(all_installed(seq![before], effects));
    } else {
        let middle = choose|middle: E|
            replay::installed(before, effects.drop_last(), middle) && #[trigger] middle.installs(
                effects.last(),
                after,
                Ok(()),
            );
        law_transitions_are_installed_in_order(before, effects.drop_last(), middle);
        let engines = choose|engines: Seq<E>| #[trigger]
            all_installed(engines, effects.drop_last()) && engines[0] == before && engines.last()
                == middle;
        let longer = engines.push(after);
        assert forall|i: int| 0 <= i < effects.len() implies #[trigger] install_step(
            longer,
            effects,
            i,
        ) by {
            if i < effects.len() - 1 {
                assert(install_step(engines, effects.drop_last(), i));
            }
        }
        assert(all_installed(longer, effects));
    }
}

/// What replaying a log over an engine did: records were read one behind the other, each holds a
/// transition, the engine installed those in order, and then the replay stopped or the engine
/// refused the next one.
pub open spec fn fed_verdict<E: Engine>(
    start: ReaderView,
    grants: Seq<bool>,
    before: E,
    after: EngineRecovery<E>,
    out: Result<u64, RecoveryError>,
    readers: Seq<ReaderView>,
    records: Seq<RecordView>,
    effects: Seq<DurableTransitionView>,
    engines: Seq<E>,
) -> bool {
    let last = readers.last();
    let granted = groups::listed(grants, records.len() as int);
    &&& scanned(start, readers, records, grants, 0)
    &&& all_hold(records, effects)
    &&& all_installed(engines, effects)
    &&& engines[0] == before
    &&& after.next() == last.expected
    &&& match out {
        Err(RecoveryError::Install { last_valid_offset, source }) => {
            &&& last_valid_offset == last.offset
            &&& frame::read_step_with(last, granted).0 matches Ok(Some(record))
            &&& exists|refused: DurableTransitionView|
                holds(record, refused) && #[trigger] engines.last().installs(
                    refused,
                    after.state(),
                    Err(source),
                )
        },
        _ => stops(last, granted, out) && engines.last() == after.state(),
    }
}

/// Replaying a log over an engine does just that.
pub proof fn law_feeds<E: Engine>(
    start: ReaderView,
    grants: Seq<bool>,
    done: nat,
    before: E,
    after: EngineRecovery<E>,
    out: Result<u64, RecoveryError>,
)
    requires
        replay::fed(start, grants, done, before, after, out),
    ensures
        exists|
            readers: Seq<ReaderView>,
            records: Seq<RecordView>,
            effects: Seq<DurableTransitionView>,
            engines: Seq<E>,
        | #[trigger]
            fed_verdict(start, grants, before, after, out, readers, records, effects, engines),
{
    let log = replay::replayed_with(start, grants, 0);
    law_replays(start, grants, 0);
    let (readers, records) = choose|readers: Seq<ReaderView>, records: Seq<RecordView>|
        #![trigger scanned(start, readers, records, grants, 0)]
        {
            &&& scanned(start, readers, records, grants, 0)
            &&& all_hold(records, log.effects)
            &&& log.expected == readers.last().expected
            &&& stops(readers.last(), groups::listed(grants, records.len() as int), log.end)
        };
    let n = done as int;
    match out {
        Err(RecoveryError::Install { last_valid_offset, source }) => {
            let front = log.effects.take(n);
            let middle = choose|middle: E|
                replay::installed(before, front, middle) && #[trigger] replay::refused_at(
                    middle,
                    log.effects[n],
                    after,
                    RecoveryError::Install { last_valid_offset, source },
                );
            law_transitions_are_installed_in_order(before, front, middle);
            let engines = choose|engines: Seq<E>| #[trigger]
                all_installed(engines, front) && engines[0] == before && engines.last() == middle;
            let readers_done = readers.take(n + 1);
            let records_done = records.take(n);
            assert(scan_step(readers, records, grants, 0, n));
            assert(holds(records[n], log.effects[n]));
            lemma_scan_behind(start, readers, records, grants, n);
            assert forall|i: int| 0 <= i < records_done.len() implies #[trigger] scan_step(
                readers_done,
                records_done,
                grants,
                0,
                i,
            ) by {
                assert(scan_step(readers, records, grants, 0, i));
            }
            assert forall|i: int| 0 <= i < records_done.len() implies #[trigger] holds(
                records_done[i],
                front[i],
            ) by {
                assert(holds(records[i], log.effects[i]));
            }
            assert(readers_done.last() == readers[n]);
            assert(engines.last().installs(log.effects[n], after.state(), Err(source)));
            assert(fed_verdict(
                start,
                grants,
                before,
                after,
                out,
                readers_done,
                records_done,
                front,
                engines,
            ));
        },
        _ => {
            law_transitions_are_installed_in_order(before, log.effects, after.state());
            let engines = choose|engines: Seq<E>| #[trigger]
                all_installed(engines, log.effects) && engines[0] == before && engines.last()
                    == after.state();
            assert(fed_verdict(
                start,
                grants,
                before,
                after,
                out,
                readers,
                records,
                log.effects,
                engines,
            ));
        },
    }
}

/// Feeding a log replays it from the position where recovery stands.
pub proof fn law_feed_granted<E: Engine>(
    recovery: &mut EngineRecovery<E>,
    source: &[u8],
    limits: RecordLimits,
    grants: &[bool],
    out: Result<u64, RecoveryError>,
)
    requires
        call_ensures(
            EngineRecovery::<E>::feed_granted,
            (recovery, source, limits, grants),
            out,
        ),
    ensures
        exists|
            readers: Seq<ReaderView>,
            records: Seq<RecordView>,
            effects: Seq<DurableTransitionView>,
            engines: Seq<E>,
        | #[trigger]
            fed_verdict(
                ReaderView {
                    rest: source@,
                    offset: 0,
                    expected: old(recovery).next(),
                    max: limits@,
                },
                grants@,
                old(recovery).state(),
                *final(recovery),
                out,
                readers,
                records,
                effects,
                engines,
            ),
{
    let start = ReaderView {
        rest: source@,
        offset: 0,
        expected: old(recovery).next(),
        max: limits@,
    };
    let done = choose|done: nat| #[trigger]
        replay::fed(start, grants@, done, old(recovery).state(), *final(recovery), out);
    law_feeds(start, grants@, done, old(recovery).state(), *final(recovery), out);
}

/// The same holds where memory is asked for.
pub proof fn law_feed<E: Engine>(
    recovery: &mut EngineRecovery<E>,
    source: &[u8],
    limits: RecordLimits,
    out: Result<u64, RecoveryError>,
)
    requires
        call_ensures(EngineRecovery::<E>::feed, (recovery, source, limits), out),
    ensures
        exists|
            grants: Seq<bool>,
            readers: Seq<ReaderView>,
            records: Seq<RecordView>,
            effects: Seq<DurableTransitionView>,
            engines: Seq<E>,
        | #[trigger]
            fed_verdict(
                ReaderView {
                    rest: source@,
                    offset: 0,
                    expected: old(recovery).next(),
                    max: limits@,
                },
                grants,
                old(recovery).state(),
                *final(recovery),
                out,
                readers,
                records,
                effects,
                engines,
            ),
{
    let start = ReaderView {
        rest: source@,
        offset: 0,
        expected: old(recovery).next(),
        max: limits@,
    };
    let (grants, done) = choose|grants: Seq<bool>, done: nat| #[trigger]
        replay::fed(start, grants, done, old(recovery).state(), *final(recovery), out);
    law_feeds(start, grants, done, old(recovery).state(), *final(recovery), out);
}

/// What the end of recovery gives: the indexed engine and where the log goes on, or why the
/// engine could not be indexed.
pub open spec fn finish_verdict<E: Engine>(
    recovery: EngineRecovery<E>,
    end: u64,
    out: Result<RecoveryOutcome<E>, RecoveryError>,
) -> bool {
    match out {
        Ok(outcome) => {
            &&& outcome.next() == recovery.next()
            &&& outcome.valid_through() == end
            &&& recovery.state().finishes(outcome.state(), Ok(()))
        },
        Err(RecoveryError::Install { last_valid_offset, source }) => {
            &&& last_valid_offset == end
            &&& exists|after: E| #[trigger] recovery.state().finishes(after, Err(source))
        },
        Err(_) => false,
    }
}

/// Finishing gives just that.
pub proof fn law_finish<E: Engine>(
    recovery: EngineRecovery<E>,
    end: u64,
    out: Result<RecoveryOutcome<E>, RecoveryError>,
)
    requires
        call_ensures(EngineRecovery::<E>::finish, (recovery, end), out),
    ensures
        finish_verdict(recovery, end, out),
{
}

/// A record is accepted if it holds a transition that the engine installs. The engine stands
/// behind it then, and is asked for nothing where the record is wrong.
pub proof fn law_accept<E: Engine>(
    recovery: &mut EngineRecovery<E>,
    record: &Record,
    offset: u64,
    out: Result<(), RecoveryError>,
)
    requires
        call_ensures(EngineRecovery::<E>::accept, (recovery, record, offset), out),
    ensures
        match out {
            Ok(_) => {
                &&& exists|effects: DurableTransitionView|
                    holds(record@, effects) && #[trigger] old(recovery).state().installs(
                        effects,
                        final(recovery).state(),
                        Ok(()),
                    )
                &&& record@.sequence < u64::MAX ==> final(recovery).next() == Some(
                    (record@.sequence + 1) as u64,
                )
                &&& record@.sequence == u64::MAX ==> final(recovery).next() is None
            },
            Err(RecoveryError::Install { last_valid_offset, source }) => {
                &&& last_valid_offset == offset
                &&& final(recovery).next() == old(recovery).next()
                &&& exists|effects: DurableTransitionView|
                    holds(record@, effects) && #[trigger] old(recovery).state().installs(
                        effects,
                        final(recovery).state(),
                        Err(source),
                    )
            },
            Err(error) => *final(recovery) == *old(recovery) && misplaced(record@, offset, error),
        },
{
    law_records_give_their_transition(record@, offset);
    if let Ok(done) = out {
        assert(done == ());
    }
}

/// Recovery of a log over an engine: the log is replayed to its end and recovery is finished
/// there, or the replay fails.
pub open spec fn recovery_verdict<E: Engine>(
    start: ReaderView,
    grants: Seq<bool>,
    before: E,
    after: EngineRecovery<E>,
    fed: Result<u64, RecoveryError>,
    out: Result<RecoveryOutcome<E>, RecoveryError>,
) -> bool {
    &&& exists|
        readers: Seq<ReaderView>,
        records: Seq<RecordView>,
        effects: Seq<DurableTransitionView>,
        engines: Seq<E>,
    | #[trigger]
        fed_verdict(start, grants, before, after, fed, readers, records, effects, engines)
    &&& match fed {
        Ok(end) => finish_verdict(after, end, out),
        Err(error) => out == Err::<RecoveryOutcome<E>, RecoveryError>(error),
    }
}

/// Recovery over an engine gives just that.
pub proof fn law_recoveries<E: Engine>(
    start: ReaderView,
    grants: Seq<bool>,
    before: E,
    out: Result<RecoveryOutcome<E>, RecoveryError>,
)
    requires
        replay::replays_to(start, grants, before, out),
    ensures
        exists|after: EngineRecovery<E>, fed: Result<u64, RecoveryError>| #[trigger]
            recovery_verdict(start, grants, before, after, fed, out),
{
    let (done, after) = choose|done: nat, after: EngineRecovery<E>| #[trigger]
        replay::recovered(start, grants, done, before, after, out);
    if exists|end: u64| #[trigger]
        replay::fed(start, grants, done, before, after, Ok(end)) && replay::finished(
            after,
            end,
            out,
        ) {
        let end = choose|end: u64| #[trigger]
            replay::fed(start, grants, done, before, after, Ok(end)) && replay::finished(
                after,
                end,
                out,
            );
        law_feeds(start, grants, done, before, after, Ok(end));
        assert(recovery_verdict(start, grants, before, after, Ok(end), out));
    } else {
        let error = out->Err_0;
        law_feeds(start, grants, done, before, after, Err(error));
        assert(recovery_verdict(start, grants, before, after, Err(error), out));
    }
}

/// Recovery starts with a new engine at the first position.
pub proof fn law_recover_engine_granted<E: Engine>(
    source: &[u8],
    limits: RecordLimits,
    grants: &[bool],
    out: Result<RecoveryOutcome<E>, RecoveryError>,
)
    requires
        call_ensures(replay::recover_engine_granted::<E>, (source, limits, grants), out),
    ensures
        exists|engine: E, after: EngineRecovery<E>, fed: Result<u64, RecoveryError>|
            engine.starts() && #[trigger] recovery_verdict(
                ReaderView { rest: source@, offset: 0, expected: Some(1u64), max: limits@ },
                grants@,
                engine,
                after,
                fed,
                out,
            ),
{
    let start = frame::reader_at_start(source@, limits@);
    let engine = choose|engine: E|
        engine.starts() && #[trigger] replay::replays_to(start, grants@, engine, out);
    law_recoveries(start, grants@, engine, out);
}

/// The same holds where memory is asked for.
pub proof fn law_recover_engine<E: Engine>(
    source: &[u8],
    limits: RecordLimits,
    out: Result<RecoveryOutcome<E>, RecoveryError>,
)
    requires
        call_ensures(replay::recover_engine::<E>, (source, limits), out),
    ensures
        exists|
            engine: E,
            grants: Seq<bool>,
            after: EngineRecovery<E>,
            fed: Result<u64, RecoveryError>,
        |
            engine.starts() && #[trigger] recovery_verdict(
                ReaderView { rest: source@, offset: 0, expected: Some(1u64), max: limits@ },
                grants,
                engine,
                after,
                fed,
                out,
            ),
{
    let start = frame::reader_at_start(source@, limits@);
    let (grants, engine) = choose|grants: Seq<bool>, engine: E|
        engine.starts() && #[trigger] replay::replays_to(start, grants, engine, out);
    law_recoveries(start, grants, engine, out);
}

/// Recovery over known state starts with that state at the given position.
pub proof fn law_recover_engine_with_expected<E: Engine>(
    source: &[u8],
    limits: RecordLimits,
    expected: RecordSequence,
    engine: E,
    out: Result<RecoveryOutcome<E>, RecoveryError>,
)
    requires
        call_ensures(
            replay::recover_engine_with_expected::<E>,
            (source, limits, expected, engine),
            out,
        ),
    ensures
        exists|grants: Seq<bool>, after: EngineRecovery<E>, fed: Result<u64, RecoveryError>|
         #[trigger]
            recovery_verdict(
                ReaderView { rest: source@, offset: 0, expected: Some(expected@), max: limits@ },
                grants,
                engine,
                after,
                fed,
                out,
            ),
{
    let start = ReaderView {
        rest: source@,
        offset: 0,
        expected: Some(expected@),
        max: limits@,
    };
    let grants = choose|grants: Seq<bool>| #[trigger]
        replay::replays_to(start, grants, engine, out);
    law_recoveries(start, grants, engine, out);
}

/// A database over a log holds what recovery of the log gave, or reports why there is nothing.
pub open spec fn attached<B: WalBackend, E: Engine>(
    recovery: Result<RecoveryOutcome<E>, RecoveryError>,
    backend: B,
    options: DatabaseOptions,
    out: Result<Database<B, E>, DatabaseError>,
) -> bool {
    match recovery {
        Ok(outcome) => {
            &&& out matches Ok(database)
            &&& database@.engine == outcome.state()
            &&& database@.backend == backend
            &&& database@.durability == options.durability
            &&& database@.max == options.record_limits@
            &&& database@.next == outcome.next()
            &&& !database@.poisoned
        },
        Err(error) => out == Err::<Database<B, E>, DatabaseError>(DatabaseError::Recovery(error)),
    }
}

/// Recovering a database recovers the log with a new engine from the first position on.
pub proof fn law_database_recover_granted<B: WalBackend, E: Engine>(
    source: &[u8],
    backend: B,
    options: DatabaseOptions,
    grants: &[bool],
    out: Result<Database<B, E>, DatabaseError>,
)
    requires
        call_ensures(Database::<B, E>::recover_granted, (source, backend, options, grants), out),
    ensures
        exists|
            engine: E,
            after: EngineRecovery<E>,
            fed: Result<u64, RecoveryError>,
            recovery: Result<RecoveryOutcome<E>, RecoveryError>,
        |
            engine.starts() && attached(recovery, backend, options, out)
                && #[trigger] recovery_verdict(
                ReaderView {
                    rest: source@,
                    offset: 0,
                    expected: Some(1u64),
                    max: options.record_limits@,
                },
                grants@,
                engine,
                after,
                fed,
                recovery,
            ),
{
    let start = frame::reader_at_start(source@, options.record_limits@);
    let recovery = choose|recovery: Result<RecoveryOutcome<E>, RecoveryError>| #[trigger]
        database::reopened(start, grants@, recovery, backend, options, out);
    let engine = choose|engine: E|
        engine.starts() && #[trigger] replay::replays_to(start, grants@, engine, recovery);
    law_recoveries(start, grants@, engine, recovery);
}

/// The same holds where memory is asked for.
pub proof fn law_database_recover<B: WalBackend, E: Engine>(
    source: &[u8],
    backend: B,
    options: DatabaseOptions,
    out: Result<Database<B, E>, DatabaseError>,
)
    requires
        call_ensures(Database::<B, E>::recover, (source, backend, options), out),
    ensures
        exists|
            engine: E,
            grants: Seq<bool>,
            after: EngineRecovery<E>,
            fed: Result<u64, RecoveryError>,
            recovery: Result<RecoveryOutcome<E>, RecoveryError>,
        |
            engine.starts() && attached(recovery, backend, options, out)
                && #[trigger] recovery_verdict(
                ReaderView {
                    rest: source@,
                    offset: 0,
                    expected: Some(1u64),
                    max: options.record_limits@,
                },
                grants,
                engine,
                after,
                fed,
                recovery,
            ),
{
    let start = frame::reader_at_start(source@, options.record_limits@);
    let (grants, recovery) = choose|
        grants: Seq<bool>,
        recovery: Result<RecoveryOutcome<E>, RecoveryError>,
    | #[trigger] database::reopened(start, grants, recovery, backend, options, out);
    let engine = choose|engine: E|
        engine.starts() && #[trigger] replay::replays_to(start, grants, engine, recovery);
    law_recoveries(start, grants, engine, recovery);
}

/// A failure of recovery names the offset that its cause names, or else where the last replayed
/// record ends.
pub proof fn law_recovery_errors_name_offsets(error: &RecoveryError, last: u64, found: u64)
    requires
        call_ensures(RecoveryError::last_valid_offset, (error,), last),
        call_ensures(replay::recovery_error_offset, (error,), found),
    ensures
        match *error {
            RecoveryError::Storage { last_valid_offset, source } => {
                &&& last == last_valid_offset
                &&& found == match source {
                    StorageError::PartialTail { offset, .. } => offset,
                    StorageError::CorruptWalRecord { offset, .. } => offset,
                    StorageError::UnsupportedRecordVersion { offset, .. } => offset,
                    StorageError::RecordTooLarge { offset, .. } => offset,
                    _ => last,
                }
            },
            RecoveryError::TimestampMismatch { last_valid_offset, .. } => last == last_valid_offset
                && found == last,
            RecoveryError::Install { last_valid_offset, .. } => last == last_valid_offset && found
                == last,
        },
{
}

/// Recovery starts at the first position, at a given one, or behind the last one.
pub proof fn law_recovery_starts<E: Engine>(
    fresh: EngineRecovery<E>,
    expected: RecordSequence,
    engine: E,
    later: EngineRecovery<E>,
    exhausted: EngineRecovery<E>,
    position: Option<RecordSequence>,
    outcome: &RecoveryOutcome<E>,
    state: &E,
    next: Option<RecordSequence>,
    end: u64,
    parts: (E, Option<RecordSequence>, u64),
)
    requires
        call_ensures(EngineRecovery::<E>::new, (), fresh),
        call_ensures(EngineRecovery::<E>::with_expected, (expected, engine), later),
        call_ensures(EngineRecovery::<E>::from_exhausted_snapshot, (engine,), exhausted),
        call_ensures(EngineRecovery::<E>::next_record_sequence, (&later,), position),
        call_ensures(RecoveryOutcome::<E>::engine, (outcome,), state),
        call_ensures(RecoveryOutcome::<E>::next_record_sequence, (outcome,), next),
        call_ensures(RecoveryOutcome::<E>::last_valid_offset, (outcome,), end),
        call_ensures(RecoveryOutcome::<E>::into_parts, (*outcome,), parts),
    ensures
        fresh.state().starts(),
        fresh.next() == Some(1u64),
        later.state() == engine,
        later.next() == Some(expected@),
        position matches Some(sequence) && sequence@ == expected@,
        exhausted.state() == engine,
        exhausted.next() is None,
        *state == outcome.state(),
        next is None <==> outcome.next() is None,
        next matches Some(sequence) ==> outcome.next() == Some(sequence@),
        end == outcome.valid_through(),
        parts.0 == outcome.state(),
        parts.1 is None <==> outcome.next() is None,
        parts.1 matches Some(sequence) ==> outcome.next() == Some(sequence@),
        parts.2 == outcome.valid_through(),
{
}

} // verus!
