//! Groups of commands.

use crate::backend::{Durability, MemoryWal, PolicyCall, WalBackend};
use crate::backend;
use crate::batch;
use crate::bytes;
use crate::command::Command;
use crate::database::{
    Database, DatabaseError, DatabaseOptions, DatabasePreparationError, DatabaseView,
};
use crate::database;
use crate::engine::{
    DurableItem, DurableItemView, Engine, EngineSnapshot, PreparationError, PreparedBatch,
    TimedCommand,
};
use crate::error::StorageError;
use crate::laws::records;
use crate::outcome::CommandResponse;
use crate::record::frame;
use crate::record::frame::RecordView;
use crate::record::{RecordLimits, RecordSequence};
use crate::replay::{RecoveryError, RecoveryOutcome};
use crate::transition::DurableTransition;
use crate::transition;
use crate::wire::model;
use vstd::prelude::*;

verus! {

/// The bytes are complete records, one behind the other, of the items at consecutive positions:
/// record `i` stands between `cuts[i]` and `cuts[i + 1]`.
pub open spec fn holds_items(
    bytes: Seq<u8>,
    items: Seq<DurableItemView>,
    first: u64,
    cuts: Seq<int>,
) -> bool {
    &&& cuts.len() == items.len() + 1
    &&& cuts[0] == 0
    &&& cuts[items.len() as int] == bytes.len()
    &&& forall|i: int| #![trigger items[i]]
        0 <= i < items.len() ==> 0 <= cuts[i] <= cuts[i + 1] <= bytes.len() && records::is_frame(
            bytes.subrange(cuts[i], cuts[i + 1]),
            RecordView {
                sequence: (first + i) as u64,
                timestamp: items[i].timestamp,
                payload: transition::transition_enc(items[i].transition).bytes,
            },
        )
}

/// The record that makes an item durable at a position.
spec fn made_of(item: DurableItemView, sequence: u64) -> RecordView {
    RecordView {
        sequence,
        timestamp: item.timestamp,
        payload: transition::transition_enc(item.transition).bytes,
    }
}

/// Frame `i` stands between `cuts[i]` and `cuts[i + 1]`.
spec fn frame_stands(
    all: Seq<u8>,
    items: Seq<DurableItemView>,
    first: u64,
    cuts: Seq<int>,
    i: int,
) -> bool {
    &&& 0 <= cuts[i] <= cuts[i + 1] <= all.len()
    &&& all.subrange(cuts[i], cuts[i + 1]) == frame::frame(made_of(items[i], (first + i) as u64))
}

/// Every frame stands there.
spec fn frames_stand(all: Seq<u8>, items: Seq<DurableItemView>, first: u64, cuts: Seq<int>) -> bool {
    &&& cuts.len() == items.len() + 1
    &&& cuts[0] == 0
    &&& cuts[items.len() as int] == all.len()
    &&& forall|i: int| 0 <= i < items.len() ==> #[trigger] frame_stands(all, items, first, cuts, i)
}

/// Frames of items can be told apart.
proof fn lemma_cuts(items: Seq<DurableItemView>, first: u64) -> (cuts: Seq<int>)
    ensures
        frames_stand(frame::frames(batch::batch_records(items, first)), items, first, cuts),
    decreases items.len(),
{
    let records = batch::batch_records(items, first);
    let all = frame::frames(records);
    if items.len() == 0 {
        let start = seq![0int];
        assert(frames_stand(all, items, first, start));
        start
    } else {
        let fewer = items.drop_last();
        let fewer_cuts = lemma_cuts(fewer, first);
        let early = batch::batch_records(fewer, first);
        let front = frame::frames(early);
        let n = fewer.len() as int;
        let last = made_of(items[n], (first + n) as u64);
        assert(records =~= early.push(last));
        batch::lemma_frames_push(early, last);
        let longer = fewer_cuts.push(all.len() as int);
        assert(all == front + frame::frame(last));
        assert forall|i: int| 0 <= i < items.len() implies #[trigger] frame_stands(
            all,
            items,
            first,
            longer,
            i,
        ) by {
            if i < n {
                assert(frame_stands(front, fewer, first, fewer_cuts, i));
                assert(all.subrange(longer[i], longer[i + 1]) =~= front.subrange(
                    fewer_cuts[i],
                    fewer_cuts[i + 1],
                ));
            } else {
                assert(longer[n] == front.len());
                assert(all.subrange(longer[n], longer[n + 1]) =~= frame::frame(last));
            }
        }
        assert(frames_stand(all, items, first, longer));
        longer
    }
}

/// Frames of items are their records, one behind the other.
pub proof fn law_frames_hold_the_items(items: Seq<DurableItemView>, first: u64)
    ensures
        exists|cuts: Seq<int>| #[trigger]
            holds_items(frame::frames(batch::batch_records(items, first)), items, first, cuts),
{
    let all = frame::frames(batch::batch_records(items, first));
    let cuts = lemma_cuts(items, first);
    assert forall|i: int| #![trigger items[i]] 0 <= i < items.len() implies 0 <= cuts[i] <= cuts[i
        + 1] <= all.len() && records::is_frame(
        all.subrange(cuts[i], cuts[i + 1]),
        RecordView {
            sequence: (first + i) as u64,
            timestamp: items[i].timestamp,
            payload: transition::transition_enc(items[i].transition).bytes,
        },
    ) by {
        assert(frame_stands(all, items, first, cuts, i));
        records::law_frames_are_laid_out(
            made_of(items[i], (first + i) as u64),
            all.subrange(cuts[i], cuts[i + 1]),
        );
    }
    assert(holds_items(all, items, first, cuts));
}

/// Why an item is not framed, if it is not: its transition cannot be encoded, the record is too
/// long, or memory for it is refused.
pub open spec fn item_refused(
    item: DurableItemView,
    max: u32,
    granted: bool,
    error: StorageError,
) -> bool {
    let enc = transition::transition_enc(item.transition);
    let len = enc.bytes.len() as int;
    let total = len + 48 + (8 - len % 8) % 8;
    match enc.fail {
        Some(fault) => error == fault,
        None => match records::length_fault(len, total, max) {
            Some(fault) => error == fault,
            None => !granted && error == (StorageError::InvalidLength {
                field: "WAL record allocation",
                length: total as u64,
            }),
        },
    }
}

/// Memory for record `i` is refused exactly if the list says so.
pub open spec fn listed(grants: Seq<bool>, i: int) -> bool {
    i < grants.len() ==> grants[i]
}

/// A group is framed exactly if each of its items is. Where one is not, the first such item
/// decides.
pub proof fn law_first_refused_item_decides(items: Seq<DurableItemView>, max: u32, grants: Seq<bool>)
    ensures
        match batch::batch_fault_with(items, max, grants) {
            None => forall|i: int, error: StorageError| #![trigger items[i], item_refused(items[i], max, listed(grants, i), error)]
                0 <= i < items.len() ==> !item_refused(items[i], max, listed(grants, i), error),
            Some(error) => exists|i: int| #![trigger items[i]]
                0 <= i < items.len() && item_refused(items[i], max, listed(grants, i), error)
                    && forall|k: int, earlier: StorageError| #![trigger items[k], item_refused(items[k], max, listed(grants, k), earlier)]
                    0 <= k < i ==> !item_refused(items[k], max, listed(grants, k), earlier),
        },
    decreases items.len(),
{
    if items.len() > 0 {
        let fewer = items.drop_last();
        law_first_refused_item_decides(fewer, max, grants);
        let n = fewer.len() as int;
        let last = items[n];
        let len = transition::transition_enc(last.transition).bytes.len();
        let total = len + 48 + (8 - len as int % 8) % 8;
        records::law_only_records_over_the_limit_are_refused(len, total, max);
        assert forall|k: int| 0 <= k < n implies fewer[k] == items[k] by {}
        match batch::batch_fault_with(fewer, max, grants) {
            Some(error) => {
                let i = choose|i: int| #![trigger fewer[i]]
                    0 <= i < fewer.len() && item_refused(fewer[i], max, listed(grants, i), error)
                        && forall|k: int, earlier: StorageError| #![trigger fewer[k], item_refused(fewer[k], max, listed(grants, k), earlier)]
                        0 <= k < i ==> !item_refused(fewer[k], max, listed(grants, k), earlier);
                assert(items[i] == fewer[i]);
                assert forall|k: int, earlier: StorageError| #![trigger items[k], item_refused(items[k], max, listed(grants, k), earlier)]
                    0 <= k < i implies !item_refused(items[k], max, listed(grants, k), earlier) by {
                    assert(fewer[k] == items[k]);
                }
            },
            None => {
                assert forall|k: int, earlier: StorageError| #![trigger items[k], item_refused(items[k], max, listed(grants, k), earlier)]
                    0 <= k < n implies !item_refused(items[k], max, listed(grants, k), earlier) by {
                    assert(fewer[k] == items[k]);
                }
                if let Some(error) = batch::batch_fault_with(items, max, grants) {
                    assert(item_refused(items[n], max, listed(grants, n), error));
                }
            },
        }
    }
}

/// Assigned positions are consecutive from the next one on, if there are enough of them.
pub proof fn law_positions_are_consecutive(
    next: Option<RecordSequence>,
    count: usize,
    out: Option<(Vec<RecordSequence>, Option<RecordSequence>)>,
)
    requires
        call_ensures(batch::assign_sequences, (next, count), out),
    ensures
        out is None <==> count > 0 && (next matches Some(first) ==> first@ + count - 1 > u64::MAX),
        out matches Some((sequences, after)) ==> sequences@.len() == count && forall|i: int|
            0 <= i < count ==> next is Some && (#[trigger] sequences@[i])@ == next->0@ + i,
        out matches Some((sequences, after)) ==> (after is None <==> (next matches Some(first)
            ==> first@ + count > u64::MAX)),
        out matches Some((sequences, Some(after))) ==> after@ == next->0@ + count,
{
}

/// A framed group holds its items, and one that is not is refused at its first bad item.
pub proof fn law_frame_batch_granted(
    items: &[DurableItem],
    sequences: &[RecordSequence],
    limits: RecordLimits,
    grants: &[bool],
    out: Result<Vec<u8>, StorageError>,
)
    requires
        call_ensures(batch::frame_batch_granted, (items, sequences, limits, grants), out),
        items@.len() > 0,
    ensures
        match out {
            Ok(bytes) => exists|cuts: Seq<int>| #[trigger]
                holds_items(bytes@, model::views(items@), sequences@[0]@, cuts),
            Err(error) => exists|i: int| #![trigger items@[i]]
                0 <= i < items@.len() && item_refused(
                    items@[i]@,
                    limits@,
                    listed(grants@, i),
                    error,
                ),
        },
        out is Ok ==> forall|i: int, error: StorageError| #![trigger items@[i], item_refused(items@[i]@, limits@, listed(grants@, i), error)]
            0 <= i < items@.len() ==> !item_refused(
                items@[i]@,
                limits@,
                listed(grants@, i),
                error,
            ),
{
    let models = model::views(items@);
    law_first_refused_item_decides(models, limits@, grants@);
    law_frames_hold_the_items(models, sequences@[0]@);
    assert forall|i: int| 0 <= i < items@.len() implies models[i] == items@[i]@ by {}
    if out is Ok {
        assert forall|i: int, error: StorageError| #![trigger items@[i], item_refused(items@[i]@, limits@, listed(grants@, i), error)]
            0 <= i < items@.len() implies !item_refused(
            items@[i]@,
            limits@,
            listed(grants@, i),
            error,
        ) by {
            assert(models[i] == items@[i]@);
        }
    }
}

/// What making bytes durable asks of a log: one append, and behind a successful append what the
/// policy says. The outcome is that of the last call.
pub open spec fn made_durable<B: WalBackend>(
    before: B,
    after: B,
    bytes: Seq<u8>,
    durability: Durability,
    out: Result<(), StorageError>,
) -> bool {
    ||| before.appends(bytes, after, out) && out is Err
    ||| before.appends(bytes, after, out) && out is Ok && durability == Durability::Buffered
    ||| exists|middle: B|
        durability == Durability::Flush && #[trigger] before.appends(bytes, middle, Ok(()))
            && middle.flushes(after, out)
    ||| exists|middle: B|
        durability == Durability::Sync && #[trigger] before.appends(bytes, middle, Ok(()))
            && middle.syncs(after, out)
}

/// Making bytes durable asks for just that.
pub proof fn law_bytes_are_made_durable<B: WalBackend>(
    before: B,
    after: B,
    bytes: Seq<u8>,
    durability: Durability,
    out: Result<(), StorageError>,
)
    requires
        backend::persist_calls(before, after, bytes, durability, out),
    ensures
        made_durable(before, after, bytes, durability, out),
{
    if let Ok(done) = out {
        assert(done == ());
    }
}

/// Persisting makes bytes durable.
pub proof fn law_persist<B: WalBackend>(
    log: &mut B,
    bytes: Vec<u8>,
    durability: Durability,
    out: Result<(), StorageError>,
)
    requires
        call_ensures(backend::persist::<B>, (log, bytes, durability), out),
    ensures
        made_durable(*old(log), *final(log), bytes@, durability, out),
{
    law_bytes_are_made_durable(*old(log), *final(log), bytes@, durability, out);
}

/// A failed append is the outcome. Behind another the policy decides.
pub proof fn law_policy(
    appended: Result<(), StorageError>,
    durability: Durability,
    out: Result<PolicyCall, StorageError>,
)
    requires
        call_ensures(backend::policy_after, (appended, durability), out),
    ensures
        appended matches Err(error) ==> out == Err::<PolicyCall, StorageError>(error),
        appended is Ok && durability == Durability::Buffered ==> out == Ok::<
            PolicyCall,
            StorageError,
        >(PolicyCall::Nothing),
        appended is Ok && durability == Durability::Flush ==> out == Ok::<PolicyCall, StorageError>(
            PolicyCall::Flush,
        ),
        appended is Ok && durability == Durability::Sync ==> out == Ok::<PolicyCall, StorageError>(
            PolicyCall::Sync,
        ),
{
}

/// An in-memory log keeps what it was given, in order, and counts the calls.
pub proof fn law_memory_log_keeps_bytes(
    start: Vec<u8>,
    made: MemoryWal,
    fresh: MemoryWal,
    log: &mut MemoryWal,
    bytes: &[u8],
    out: Result<(), StorageError>,
    held: &[u8],
    appends: usize,
    flushes: usize,
    syncs: usize,
)
    requires
        call_ensures(MemoryWal::new, (), fresh),
        call_ensures(MemoryWal::from_bytes, (start,), made),
        *old(log) == made,
        call_ensures(<MemoryWal as WalBackend>::append, (log, bytes), out),
        call_ensures(MemoryWal::bytes, (final(log),), held),
        call_ensures(MemoryWal::append_count, (final(log),), appends),
        call_ensures(MemoryWal::flush_count, (final(log),), flushes),
        call_ensures(MemoryWal::sync_count, (final(log),), syncs),
    ensures
        out is Ok,
        held@ == start@ + bytes@,
        appends == 1,
        flushes == 0,
        syncs == 0,
        fresh@.bytes.len() == 0,
        fresh@.append_count == 0,
        fresh@.flush_count == 0,
        fresh@.sync_count == 0,
{
}

/// Any in-memory log takes an append behind what it holds, and counts it.
pub proof fn law_memory_log_appends(
    log: &mut MemoryWal,
    bytes: &[u8],
    out: Result<(), StorageError>,
)
    requires
        call_ensures(<MemoryWal as WalBackend>::append, (log, bytes), out),
    ensures
        out is Ok,
        final(log)@.bytes == old(log)@.bytes + bytes@,
        old(log)@.append_count < usize::MAX ==> final(log)@.append_count == old(log)@.append_count
            + 1,
        old(log)@.append_count == usize::MAX ==> final(log)@.append_count == 0,
        final(log)@.flush_count == old(log)@.flush_count,
        final(log)@.sync_count == old(log)@.sync_count,
{
}

/// An in-memory log that is flushed or synced holds what it held.
pub proof fn law_memory_log_counts_calls(
    flushed: &mut MemoryWal,
    synced: &mut MemoryWal,
    one: Result<(), StorageError>,
    two: Result<(), StorageError>,
)
    requires
        call_ensures(<MemoryWal as WalBackend>::flush, (flushed,), one),
        call_ensures(<MemoryWal as WalBackend>::sync, (synced,), two),
    ensures
        one is Ok,
        two is Ok,
        final(flushed)@.bytes == old(flushed)@.bytes,
        final(flushed)@.append_count == old(flushed)@.append_count,
        final(flushed)@.sync_count == old(flushed)@.sync_count,
        old(flushed)@.flush_count < usize::MAX ==> final(flushed)@.flush_count == old(
            flushed,
        )@.flush_count + 1,
        old(flushed)@.flush_count == usize::MAX ==> final(flushed)@.flush_count == 0,
        final(synced)@.bytes == old(synced)@.bytes,
        final(synced)@.append_count == old(synced)@.append_count,
        final(synced)@.flush_count == old(synced)@.flush_count,
        old(synced)@.sync_count < usize::MAX ==> final(synced)@.sync_count == old(
            synced,
        )@.sync_count + 1,
        old(synced)@.sync_count == usize::MAX ==> final(synced)@.sync_count == 0,
{
}

/// What became of a prepared group with something to persist.
pub open spec fn commit_verdict<B: WalBackend, E: Engine>(
    before: DatabaseView<B, E>,
    after: DatabaseView<B, E>,
    prepared: PreparedBatch<E::Changes>,
    grants: Seq<bool>,
    out: Result<Vec<CommandResponse>, DatabaseError>,
) -> bool {
    let items = model::views(prepared.durable_items@);
    let count = items.len();
    match out {
        Ok(responses) => {
            &&& responses@.len() == prepared.responses@.len()
            &&& forall|i: int|
                0 <= i < responses@.len() ==> (#[trigger] responses@[i]) == prepared.responses@[i]
            &&& before.engine.publishes(prepared.changes, after.engine)
            &&& exists|bytes: Seq<u8>, cuts: Seq<int>|
                #![trigger holds_items(bytes, items, before.next->0, cuts)]
                holds_items(bytes, items, before.next->0, cuts) && made_durable(
                    before.backend,
                    after.backend,
                    bytes,
                    before.durability,
                    Ok(()),
                )
            &&& after.durability == before.durability
            &&& after.max == before.max
            &&& after.poisoned == before.poisoned
            &&& before.next is Some
            &&& before.next->0 + count <= u64::MAX ==> after.next == Some(
                (before.next->0 + count) as u64,
            )
            &&& before.next->0 + count > u64::MAX ==> after.next is None
            &&& before.next->0 + count - 1 <= u64::MAX
            &&& forall|i: int, error: StorageError| #![trigger items[i], item_refused(items[i], before.max, listed(grants, i), error)]
                0 <= i < count ==> !item_refused(items[i], before.max, listed(grants, i), error)
        },
        Err(DatabaseError::SequenceExhausted) => {
            &&& after == before
            &&& before.next matches Some(first) ==> first + count - 1 > u64::MAX
        },
        Err(DatabaseError::Storage(error)) => {
            &&& after == before
            &&& before.next is Some
            &&& before.next->0 + count - 1 <= u64::MAX
            &&& exists|i: int| #![trigger items[i]]
                0 <= i < count && item_refused(items[i], before.max, listed(grants, i), error)
        },
        Err(DatabaseError::Indeterminate(error)) => {
            &&& after.poisoned
            &&& after.engine == before.engine
            &&& after.next == before.next
            &&& after.durability == before.durability
            &&& after.max == before.max
            &&& exists|bytes: Seq<u8>, cuts: Seq<int>|
                #![trigger holds_items(bytes, items, before.next->0, cuts)]
                holds_items(bytes, items, before.next->0, cuts) && made_durable(
                    before.backend,
                    after.backend,
                    bytes,
                    before.durability,
                    Err(error),
                )
        },
        Err(_) => false,
    }
}

/// Committing a prepared group ends in one of these ways.
pub proof fn law_commits_end<B: WalBackend, E: Engine>(
    before: DatabaseView<B, E>,
    after: DatabaseView<B, E>,
    prepared: PreparedBatch<E::Changes>,
    grants: Seq<bool>,
    out: Result<Vec<CommandResponse>, DatabaseError>,
)
    requires
        database::committed(before, after, prepared, grants, out),
        prepared.durable_items@.len() > 0,
    ensures
        commit_verdict(before, after, prepared, grants, out),
{
    let items = model::views(prepared.durable_items@);
    law_first_refused_item_decides(items, before.max, grants);
    if !batch::exhausted(before.next, items.len()) {
        let first = before.next->0;
        law_frames_hold_the_items(items, first);
        let bytes = frame::frames(batch::batch_records(items, first));
        let cuts = choose|cuts: Seq<int>| #[trigger] holds_items(bytes, items, first, cuts);
        match out {
            Ok(responses) => {
                law_bytes_are_made_durable(
                    before.backend,
                    after.backend,
                    bytes,
                    before.durability,
                    Ok(()),
                );
                assert(holds_items(bytes, items, before.next->0, cuts));
            },
            Err(DatabaseError::Indeterminate(error)) => {
                law_bytes_are_made_durable(
                    before.backend,
                    after.backend,
                    bytes,
                    before.durability,
                    Err(error),
                );
                assert(holds_items(bytes, items, before.next->0, cuts));
            },
            _ => {},
        }
    }
}

/// A committed group is answered with the responses that were prepared, in their order.
pub proof fn law_commit_granted<B: WalBackend, E: Engine>(
    database: &mut Database<B, E>,
    prepared: PreparedBatch<E::Changes>,
    grants: &[bool],
    out: Result<Vec<CommandResponse>, DatabaseError>,
)
    requires
        prepared.durable_items@.len() > 0,
        call_ensures(Database::<B, E>::commit_granted, (database, prepared, grants), out),
    ensures
        commit_verdict(old(database)@, final(database)@, prepared, grants@, out),
        out matches Ok(responses) ==> responses@ == prepared.responses@,
{
    law_commits_end(old(database)@, final(database)@, prepared, grants@, out);
}

/// The same holds where memory is asked for.
pub proof fn law_commit<B: WalBackend, E: Engine>(
    database: &mut Database<B, E>,
    prepared: PreparedBatch<E::Changes>,
    out: Result<Vec<CommandResponse>, DatabaseError>,
)
    requires
        prepared.durable_items@.len() > 0,
        call_ensures(Database::<B, E>::commit, (database, prepared), out),
    ensures
        exists|grants: Seq<bool>| #[trigger]
            commit_verdict(old(database)@, final(database)@, prepared, grants, out),
        out matches Ok(responses) ==> responses@ == prepared.responses@,
{
    let grants = choose|grants: Seq<bool>| #[trigger]
        database::committed(old(database)@, final(database)@, prepared, grants, out);
    law_commits_end(old(database)@, final(database)@, prepared, grants, out);
}

/// The class of a preparation failure.
pub open spec fn classified(error: PreparationError, class: DatabasePreparationError) -> bool {
    &&& error is StaleRevision <==> class is StaleRevision
    &&& error is RevisionOverflow <==> class is RevisionOverflow
}

/// What became of a group of commands that the engine was asked to prepare: `prepared` is what
/// it said, and `admitted` is whether it could publish that.
pub open spec fn group_verdict<B: WalBackend, E: Engine>(
    before: DatabaseView<B, E>,
    after: DatabaseView<B, E>,
    commands: Seq<TimedCommand>,
    prepared: Result<PreparedBatch<E::Changes>, PreparationError>,
    admitted: Result<(), PreparationError>,
    grants: Seq<bool>,
    out: Result<Vec<CommandResponse>, DatabaseError>,
) -> bool {
    &&& before.engine.prepares(commands, prepared)
    &&& match prepared {
        Err(error) => {
            &&& after == before
            &&& out matches Err(DatabaseError::Preparation(class))
            &&& classified(error, class)
        },
        Ok(batch) => if batch.durable_items@.len() == 0 {
            &&& after == before
            &&& out matches Ok(responses)
            &&& responses@ == batch.responses@
        } else {
            &&& before.engine.admits(batch.changes, admitted)
            &&& match admitted {
                Err(error) => {
                    &&& after == before
                    &&& out matches Err(DatabaseError::Preparation(class))
                    &&& classified(error, class)
                },
                Ok(_) => commit_verdict(before, after, batch, grants, out),
            }
        },
    }
}

/// Applying a group of commands ends in one of these ways. Writes that are disabled change
/// nothing, and neither does a group without commands.
pub proof fn law_groups_end<B: WalBackend, E: Engine>(
    before: DatabaseView<B, E>,
    after: DatabaseView<B, E>,
    commands: Seq<TimedCommand>,
    grants: Seq<bool>,
    out: Result<Vec<CommandResponse>, DatabaseError>,
)
    requires
        database::applied(before, after, commands, grants, out),
    ensures
        before.poisoned ==> after == before && out == Err::<Vec<CommandResponse>, DatabaseError>(
            DatabaseError::Poisoned,
        ),
        !before.poisoned && commands.len() == 0 ==> after == before && out is Ok
            && out->Ok_0@.len() == 0,
        !before.poisoned && commands.len() > 0 ==> exists|
            prepared: Result<PreparedBatch<E::Changes>, PreparationError>,
            admitted: Result<(), PreparationError>,
        | #[trigger] group_verdict(before, after, commands, prepared, admitted, grants, out),
        out matches Ok(responses) ==> commands.len() == 0 || exists|
            prepared: PreparedBatch<E::Changes>,
        | #[trigger]
            before.engine.prepares(commands, Ok(prepared)) && prepared.responses@ == responses@,
        out is Err && !(out matches Err(DatabaseError::Indeterminate(_))) ==> after == before,
        out matches Err(DatabaseError::Indeterminate(_)) ==> after.poisoned && after.engine
            == before.engine && after.next == before.next,
        out is Ok ==> !after.poisoned,
{
    if !before.poisoned && commands.len() > 0 {
        let prepared = choose|prepared: Result<PreparedBatch<E::Changes>, PreparationError>|
         #[trigger] database::concluded(before, after, commands, prepared, grants, out);
        match prepared {
            Err(error) => {
                assert(group_verdict(before, after, commands, prepared, Ok(()), grants, out));
            },
            Ok(batch) => if batch.durable_items@.len() == 0 {
                assert(group_verdict(before, after, commands, prepared, Ok(()), grants, out));
            } else {
                let admitted = choose|admitted: Result<(), PreparationError>| #[trigger]
                    database::decided(before, after, batch, admitted, grants, out);
                if let Ok(done) = admitted {
                    assert(done == ());
                    law_commits_end(before, after, batch, grants, out);
                }
                assert(group_verdict(before, after, commands, prepared, admitted, grants, out));
            },
        }
        if let Ok(responses) = out {
            let batch = prepared->Ok_0;
            assert(before.engine.prepares(commands, Ok(batch)));
            assert(batch.responses@ =~= responses@);
        }
    }
}

/// Applying a group of commands ends in one of these ways.
pub proof fn law_apply_batch_granted<B: WalBackend, E: Engine>(
    database: &mut Database<B, E>,
    commands: Vec<TimedCommand>,
    grants: &[bool],
    out: Result<Vec<CommandResponse>, DatabaseError>,
)
    requires
        call_ensures(Database::<B, E>::apply_batch_granted, (database, commands, grants), out),
    ensures
        old(database)@.poisoned ==> final(database)@ == old(database)@ && out == Err::<
            Vec<CommandResponse>,
            DatabaseError,
        >(DatabaseError::Poisoned),
        !old(database)@.poisoned && commands@.len() == 0 ==> final(database)@ == old(database)@
            && out is Ok && out->Ok_0@.len() == 0,
        !old(database)@.poisoned && commands@.len() > 0 ==> exists|
            prepared: Result<PreparedBatch<E::Changes>, PreparationError>,
            admitted: Result<(), PreparationError>,
        | #[trigger]
            group_verdict(
                old(database)@,
                final(database)@,
                commands@,
                prepared,
                admitted,
                grants@,
                out,
            ),
{
    law_groups_end(old(database)@, final(database)@, commands@, grants@, out);
}

/// Applying a group of commands ends in one of these ways, where memory is asked for. Where it
/// succeeds, answer `i` is the response that the engine prepared for command `i`.
pub proof fn law_apply_batch<B: WalBackend, E: Engine>(
    database: &mut Database<B, E>,
    commands: Vec<TimedCommand>,
    out: Result<Vec<CommandResponse>, DatabaseError>,
)
    requires
        call_ensures(Database::<B, E>::apply_batch, (database, commands), out),
    ensures
        old(database)@.poisoned ==> final(database)@ == old(database)@ && out == Err::<
            Vec<CommandResponse>,
            DatabaseError,
        >(DatabaseError::Poisoned),
        !old(database)@.poisoned && commands@.len() == 0 ==> final(database)@ == old(database)@
            && out is Ok && out->Ok_0@.len() == 0,
        !old(database)@.poisoned && commands@.len() > 0 ==> exists|
            prepared: Result<PreparedBatch<E::Changes>, PreparationError>,
            admitted: Result<(), PreparationError>,
            grants: Seq<bool>,
        | #[trigger]
            group_verdict(
                old(database)@,
                final(database)@,
                commands@,
                prepared,
                admitted,
                grants,
                out,
            ),
        out matches Ok(responses) ==> commands@.len() == 0 || exists|
            prepared: PreparedBatch<E::Changes>,
        | #[trigger]
            old(database)@.engine.prepares(commands@, Ok(prepared)) && prepared.responses@
                == responses@,
{
    let grants = choose|grants: Seq<bool>| #[trigger]
        database::applied(old(database)@, final(database)@, commands@, grants, out);
    law_groups_end(old(database)@, final(database)@, commands@, grants, out);
}

/// One command is applied as the group that holds it alone, and its answer is the last response
/// of that group.
pub proof fn law_apply<B: WalBackend, E: Engine>(
    database: &mut Database<B, E>,
    command: Command,
    timestamp: i64,
    out: Result<CommandResponse, DatabaseError>,
)
    requires
        call_ensures(Database::<B, E>::apply, (database, command, timestamp), out),
    ensures
        old(database)@.poisoned ==> final(database)@ == old(database)@ && out == Err::<
            CommandResponse,
            DatabaseError,
        >(DatabaseError::Poisoned),
        !old(database)@.poisoned ==> exists|
            commands: Seq<TimedCommand>,
            prepared: Result<PreparedBatch<E::Changes>, PreparationError>,
            admitted: Result<(), PreparationError>,
            grants: Seq<bool>,
            group: Result<Vec<CommandResponse>, DatabaseError>,
        |
            #![trigger group_verdict(old(database)@, final(database)@, commands, prepared, admitted, grants, group)]
            {
                &&& commands.len() == 1
                &&& commands[0].what() == command
                &&& commands[0].when() == timestamp
                &&& group_verdict(
                    old(database)@,
                    final(database)@,
                    commands,
                    prepared,
                    admitted,
                    grants,
                    group,
                )
                &&& match group {
                    Err(error) => out == Err::<CommandResponse, DatabaseError>(error),
                    Ok(responses) => if responses@.len() == 0 {
                        out == Err::<CommandResponse, DatabaseError>(
                            DatabaseError::CoordinatorInvariant,
                        )
                    } else {
                        out == Ok::<CommandResponse, DatabaseError>(
                            responses@[responses@.len() - 1],
                        )
                    },
                }
            },
{
    let (commands, grants, group) = choose|
        commands: Seq<TimedCommand>,
        grants: Seq<bool>,
        group: Result<Vec<CommandResponse>, DatabaseError>,
    | #[trigger]
        database::applied(old(database)@, final(database)@, commands, grants, group)
            && database::single(commands, command, timestamp) && out == database::last_response(
            group,
        );
    law_groups_end(old(database)@, final(database)@, commands, grants, group);
}

/// A group of one response is answered with it.
pub proof fn law_take_response(
    responses: Vec<CommandResponse>,
    out: Result<CommandResponse, DatabaseError>,
)
    requires
        call_ensures(database::take_response, (responses,), out),
    ensures
        responses@.len() == 0 ==> out == Err::<CommandResponse, DatabaseError>(
            DatabaseError::CoordinatorInvariant,
        ),
        responses@.len() > 0 ==> out == Ok::<CommandResponse, DatabaseError>(
            responses@[responses@.len() - 1],
        ),
{
}

/// A new database has nothing and goes on at the first position. One over a recovered log goes
/// on where recovery ended.
pub proof fn law_databases_start<B: WalBackend, E: Engine>(
    backend: B,
    options: DatabaseOptions,
    fresh: Database<B, E>,
    outcome: RecoveryOutcome<E>,
    reopened: Database<B, E>,
    defaults: DatabaseOptions,
)
    requires
        call_ensures(Database::<B, E>::new, (backend, options), fresh),
        call_ensures(Database::<B, E>::from_recovered, (outcome, backend, options), reopened),
        call_ensures(<DatabaseOptions as Default>::default, (), defaults),
    ensures
        fresh@.engine.starts(),
        fresh@.backend == backend,
        fresh@.durability == options.durability,
        fresh@.max == options.record_limits@,
        fresh@.next == Some(1u64),
        !fresh@.poisoned,
        reopened@.engine == outcome.state(),
        reopened@.backend == backend,
        reopened@.durability == options.durability,
        reopened@.max == options.record_limits@,
        reopened@.next == outcome.next(),
        !reopened@.poisoned,
        defaults.durability == Durability::Sync,
        defaults.record_limits@ == 0x0400_0000,
{
}

/// The parts of a database can be looked at, and only its backend can be changed from outside.
pub proof fn law_databases_show_their_parts<B: WalBackend, E: Engine>(
    database: &Database<B, E>,
    engine: &E,
    backend: &B,
    poisoned: bool,
    next: Option<RecordSequence>,
    changed: &mut Database<B, E>,
    handle: &mut B,
)
    requires
        call_ensures(Database::<B, E>::engine, (database,), engine),
        call_ensures(Database::<B, E>::backend, (database,), backend),
        call_ensures(Database::<B, E>::is_poisoned, (database,), poisoned),
        call_ensures(Database::<B, E>::next_record_sequence, (database,), next),
        call_ensures(Database::<B, E>::backend_mut, (changed,), handle),
    ensures
        *engine == database@.engine,
        *backend == database@.backend,
        poisoned == database@.poisoned,
        next is None <==> database@.next is None,
        next matches Some(sequence) ==> database@.next == Some(sequence@),
        *old(handle) == old(changed)@.backend,
        final(changed)@.backend == *final(handle),
        final(changed)@.engine == old(changed)@.engine,
        final(changed)@.durability == old(changed)@.durability,
        final(changed)@.max == old(changed)@.max,
        final(changed)@.next == old(changed)@.next,
        final(changed)@.poisoned == old(changed)@.poisoned,
{
}

/// What is paired comes apart again.
pub proof fn law_pairs_come_apart(
    command: Command,
    timestamp: i64,
    timed: TimedCommand,
    what: &Command,
    at: i64,
    parts: (Command, i64),
    transition: DurableTransition,
    item: DurableItem,
    stamp: i64,
    change: &DurableTransition,
)
    requires
        call_ensures(TimedCommand::new, (command, timestamp), timed),
        call_ensures(TimedCommand::command, (&timed,), what),
        call_ensures(TimedCommand::timestamp, (&timed,), at),
        call_ensures(TimedCommand::into_parts, (timed,), parts),
        call_ensures(DurableItem::new, (timestamp, transition), item),
        call_ensures(DurableItem::timestamp, (&item,), stamp),
        call_ensures(DurableItem::transition, (&item,), change),
    ensures
        *what == command,
        at == timestamp,
        parts == (command, timestamp),
        stamp == timestamp,
        change@ == transition@,
        item@.timestamp == timestamp,
        item@.transition == transition@,
{
}

/// A framed group holds its items, also where memory is asked for. One that is not framed is
/// refused at an item.
pub proof fn law_frame_batch(
    items: &[DurableItem],
    sequences: &[RecordSequence],
    limits: RecordLimits,
    out: Result<Vec<u8>, StorageError>,
)
    requires
        call_ensures(batch::frame_batch, (items, sequences, limits), out),
        items@.len() > 0,
    ensures
        match out {
            Ok(bytes) => exists|cuts: Seq<int>| #[trigger]
                holds_items(bytes@, model::views(items@), sequences@[0]@, cuts),
            Err(error) => exists|i: int|
                #![trigger items@[i]]
                0 <= i < items@.len() && item_refused(items@[i]@, limits@, false, error),
        },
{
    let models = model::views(items@);
    let grants = choose|grants: Seq<bool>|
        batch::framed_view(out) == #[trigger] batch::framed(
            models,
            sequences@[0]@,
            limits@,
            grants,
        );
    law_first_refused_item_decides(models, limits@, grants);
    law_frames_hold_the_items(models, sequences@[0]@);
    if let Err(error) = out {
        let i = choose|i: int|
            #![trigger models[i]]
            0 <= i < models.len() && item_refused(models[i], limits@, listed(grants, i), error);
        assert(items@[i]@ == models[i]);
    }
}

/// A new in-memory log is empty, failures keep what they are made of, and the state of an engine
/// is what the engine hands over.
pub proof fn law_conversions<B: WalBackend, E: Engine>(
    fresh: MemoryWal,
    storage: StorageError,
    from_storage: DatabaseError,
    recovery: RecoveryError,
    from_recovery: DatabaseError,
    preparation: PreparationError,
    class: DatabasePreparationError,
    database: &Database<B, E>,
    snapshot: EngineSnapshot,
)
    requires
        call_ensures(<MemoryWal as Default>::default, (), fresh),
        call_ensures(<DatabaseError as From<StorageError>>::from, (storage,), from_storage),
        call_ensures(<DatabaseError as From<RecoveryError>>::from, (recovery,), from_recovery),
        call_ensures(
            <DatabasePreparationError as From<PreparationError>>::from,
            (preparation,),
            class,
        ),
        call_ensures(Database::<B, E>::engine_snapshot, (database,), snapshot),
    ensures
        fresh@.bytes.len() == 0,
        fresh@.append_count == 0,
        fresh@.flush_count == 0,
        fresh@.sync_count == 0,
        from_storage == DatabaseError::Storage(storage),
        from_recovery == DatabaseError::Recovery(recovery),
        classified(preparation, class),
        database@.engine.captures(snapshot@),
{
}

} // verus!
