//! Durable engine coordination and synchronous group commit.

use crate::backend;
use crate::backend::{persist, Durability, MemoryWal, WalBackend};
use crate::batch;
use crate::batch::{assign_sequences, frame_batch_with};
use crate::command::Command;
use crate::engine::{
    DurableItemView, Engine, EngineSnapshot, PreparationError, PreparedBatch,
    RecoveryInstallError, TimedCommand,
};
use crate::error::StorageError;
use crate::outcome::CommandResponse;
use crate::record;
use crate::record::frame;
use crate::record::frame::ReaderView;
use crate::record::{RecordLimits, RecordSequence, Timestamp};
use crate::replay;
use crate::replay::{
    recover_engine, recover_engine_granted, EngineRecovery, RecoveryError, RecoveryOutcome,
};
use crate::transition::DurableTransitionView;
use crate::wire::model;
use vstd::prelude::*;

verus! {

/// Configuration applied to a durable database coordinator.
#[derive(Debug, Clone, Copy, PartialEq, Eq)]
pub struct DatabaseOptions {
    /// Durability operation applied once after each nonempty group append.
    pub durability: Durability,
    /// Per-record framing and recovery limits.
    pub record_limits: RecordLimits,
}

impl Default for DatabaseOptions {
    fn default() -> (out: DatabaseOptions)
        ensures
            out.durability == Durability::Sync,
            out.record_limits@ == record::DEFAULT_MAX_RECORD_LEN,
    {
        DatabaseOptions { durability: Durability::Sync, record_limits: RecordLimits::default() }
    }
}

/// Storage-safe classification of engine preparation failures.
#[derive(Debug, Clone, Copy, PartialEq, Eq, Structural)]
pub enum DatabasePreparationError {
    /// The prepared base no longer matches published engine state.
    StaleRevision,
    /// The runtime publication revision is exhausted.
    RevisionOverflow,
}

/// The class of a preparation failure.
pub open spec fn preparation_error(error: PreparationError) -> DatabasePreparationError {
    match error {
        PreparationError::StaleRevision { .. } => DatabasePreparationError::StaleRevision,
        PreparationError::RevisionOverflow => DatabasePreparationError::RevisionOverflow,
    }
}

impl From<PreparationError> for DatabasePreparationError {
    fn from(value: PreparationError) -> (out: Self) {
        match value {
            PreparationError::StaleRevision { .. } => DatabasePreparationError::StaleRevision,
            PreparationError::RevisionOverflow => DatabasePreparationError::RevisionOverflow,
        }
    }
}

impl vstd::std_specs::convert::FromSpecImpl<PreparationError> for DatabasePreparationError {
    open spec fn obeys_from_spec() -> bool {
        true
    }

    open spec fn from_spec(value: PreparationError) -> Self {
        preparation_error(value)
    }
}

/// Failure returned by durable database writes or construction.
#[derive(Debug, Clone, PartialEq, Eq)]
pub enum DatabaseError {
    /// Encoding or framing failed before any backend I/O.
    Storage(StorageError),
    /// Engine preparation or publication preflight failed before I/O.
    Preparation(DatabasePreparationError),
    /// Recovery scanning or effect installation failed.
    Recovery(RecoveryError),
    /// Backend append, flush, or sync failed after write outcome became uncertain.
    Indeterminate(StorageError),
    /// A prior indeterminate write permanently disabled further writes.
    Poisoned,
    /// No record sequence remains for another durable item.
    SequenceExhausted,
    /// An internal response cardinality invariant was violated.
    CoordinatorInvariant,
}

impl From<StorageError> for DatabaseError {
    fn from(value: StorageError) -> (out: Self) {
        DatabaseError::Storage(value)
    }
}

impl vstd::std_specs::convert::FromSpecImpl<StorageError> for DatabaseError {
    open spec fn obeys_from_spec() -> bool {
        true
    }

    open spec fn from_spec(value: StorageError) -> Self {
        DatabaseError::Storage(value)
    }
}

impl From<RecoveryError> for DatabaseError {
    fn from(value: RecoveryError) -> (out: Self) {
        DatabaseError::Recovery(value)
    }
}

impl vstd::std_specs::convert::FromSpecImpl<RecoveryError> for DatabaseError {
    open spec fn obeys_from_spec() -> bool {
        true
    }

    open spec fn from_spec(value: RecoveryError) -> Self {
        DatabaseError::Recovery(value)
    }
}

/// The model of a [`Database`].
pub struct DatabaseView<B, E> {
    /// Published engine state.
    pub engine: E,
    /// The log.
    pub backend: B,
    /// Durability of each append.
    pub durability: Durability,
    /// Maximum record length.
    pub max: u32,
    /// The next record sequence, if there is one.
    pub next: Option<u64>,
    /// Writes are disabled.
    pub poisoned: bool,
}

/// Engine plus append-only WAL coordinated by persist-before-publish ordering.
pub struct Database<B: WalBackend, E: Engine> {
    engine: E,
    backend: B,
    durability: Durability,
    record_limits: RecordLimits,
    next_record_sequence: Option<RecordSequence>,
    poisoned: bool,
}

impl<B: WalBackend, E: Engine> View for Database<B, E> {
    type V = DatabaseView<B, E>;

    closed spec fn view(&self) -> DatabaseView<B, E> {
        DatabaseView {
            engine: self.engine,
            backend: self.backend,
            durability: self.durability,
            max: self.record_limits@,
            next: record::sequence_view(self.next_record_sequence),
            poisoned: self.poisoned,
        }
    }
}

/// What committing a prepared group that must be persisted does, if memory for its frames is
/// granted as listed.
///
/// Where positions run out or an item is not framed, nothing changes. Where the log reports a
/// failure, nothing is published and writes are disabled. Otherwise the frames of the group were
/// persisted, the group was published, and its responses are returned.
pub open spec fn committed<B: WalBackend, E: Engine>(
    before: DatabaseView<B, E>,
    after: DatabaseView<B, E>,
    prepared: PreparedBatch<E::Changes>,
    grants: Seq<bool>,
    out: Result<Vec<CommandResponse>, DatabaseError>,
) -> bool {
    let items = model::views(prepared.durable_items@);
    if batch::exhausted(before.next, items.len()) {
        out == Err::<Vec<CommandResponse>, DatabaseError>(DatabaseError::SequenceExhausted)
            && after == before
    } else {
        match batch::framed(items, before.next->0, before.max, grants) {
            Err(error) => after == before && out == Err::<Vec<CommandResponse>, DatabaseError>(
                DatabaseError::Storage(error),
            ),
            Ok(bytes) => match out {
                Ok(responses) => {
                    &&& responses == prepared.responses
                    &&& before.engine.publishes(prepared.changes, after.engine)
                    &&& backend::persist_calls(
                        before.backend,
                        after.backend,
                        bytes,
                        before.durability,
                        Ok(()),
                    )
                    &&& after == (DatabaseView {
                        engine: after.engine,
                        backend: after.backend,
                        next: batch::next_after(before.next, items.len()),
                        ..before
                    })
                },
                Err(DatabaseError::Indeterminate(error)) => {
                    &&& backend::persist_calls(
                        before.backend,
                        after.backend,
                        bytes,
                        before.durability,
                        Err(error),
                    )
                    &&& after == (DatabaseView {
                        backend: after.backend,
                        poisoned: true,
                        ..before
                    })
                },
                Err(_) => false,
            },
        }
    }
}

/// What applying a group of commands does once the engine has said whether it can publish it.
pub open spec fn decided<B: WalBackend, E: Engine>(
    before: DatabaseView<B, E>,
    after: DatabaseView<B, E>,
    prepared: PreparedBatch<E::Changes>,
    admitted: Result<(), PreparationError>,
    grants: Seq<bool>,
    out: Result<Vec<CommandResponse>, DatabaseError>,
) -> bool {
    &&& before.engine.admits(prepared.changes, admitted)
    &&& match admitted {
        Ok(()) => committed(before, after, prepared, grants, out),
        Err(error) => after == before && out == Err::<Vec<CommandResponse>, DatabaseError>(
            DatabaseError::Preparation(preparation_error(error)),
        ),
    }
}

/// What applying a group of commands does once the engine has prepared it.
pub open spec fn concluded<B: WalBackend, E: Engine>(
    before: DatabaseView<B, E>,
    after: DatabaseView<B, E>,
    commands: Seq<TimedCommand>,
    prepared: Result<PreparedBatch<E::Changes>, PreparationError>,
    grants: Seq<bool>,
    out: Result<Vec<CommandResponse>, DatabaseError>,
) -> bool {
    &&& before.engine.prepares(commands, prepared)
    &&& match prepared {
        Ok(prepared) => if prepared.durable_items@.len() == 0 {
            out == Ok::<Vec<CommandResponse>, DatabaseError>(prepared.responses) && after == before
        } else {
            exists|admitted: Result<(), PreparationError>| #[trigger]
                decided(before, after, prepared, admitted, grants, out)
        },
        Err(error) => after == before && out == Err::<Vec<CommandResponse>, DatabaseError>(
            DatabaseError::Preparation(preparation_error(error)),
        ),
    }
}

/// What applying a group of commands does, if memory for its frames is granted as listed.
pub open spec fn applied<B: WalBackend, E: Engine>(
    before: DatabaseView<B, E>,
    after: DatabaseView<B, E>,
    commands: Seq<TimedCommand>,
    grants: Seq<bool>,
    out: Result<Vec<CommandResponse>, DatabaseError>,
) -> bool {
    if before.poisoned {
        out == Err::<Vec<CommandResponse>, DatabaseError>(DatabaseError::Poisoned) && after
            == before
    } else if commands.len() == 0 {
        out matches Ok(responses) && responses@.len() == 0 && after == before
    } else {
        exists|prepared: Result<PreparedBatch<E::Changes>, PreparationError>| #[trigger]
            concluded(before, after, commands, prepared, grants, out)
    }
}

/// The group with one command.
pub open spec fn single(
    commands: Seq<TimedCommand>,
    command: Command,
    timestamp: Timestamp,
) -> bool {
    &&& commands.len() == 1
    &&& commands[0].what() == command
    &&& commands[0].when() == timestamp
}

/// What recovering a log and attaching a backend to the outcome gives, if memory for the records
/// of the log is granted as listed.
pub open spec fn reopened<B: WalBackend, E: Engine>(
    reader: ReaderView,
    grants: Seq<bool>,
    recovery: Result<RecoveryOutcome<E>, RecoveryError>,
    backend: B,
    options: DatabaseOptions,
    out: Result<Database<B, E>, DatabaseError>,
) -> bool {
    &&& exists|engine: E|
        engine.starts() && #[trigger] replay::replays_to(reader, grants, engine, recovery)
    &&& match recovery {
        Ok(outcome) => out matches Ok(database) && database@ == (DatabaseView {
            engine: outcome.state(),
            backend,
            durability: options.durability,
            max: options.record_limits@,
            next: outcome.next(),
            poisoned: false,
        }),
        Err(error) => out == Err::<Database<B, E>, DatabaseError>(DatabaseError::Recovery(error)),
    }
}

/// The response of a single command out of the responses of its group.
pub open spec fn last_response(out: Result<Vec<CommandResponse>, DatabaseError>) -> Result<
    CommandResponse,
    DatabaseError,
> {
    match out {
        Ok(responses) => if responses@.len() == 0 {
            Err(DatabaseError::CoordinatorInvariant)
        } else {
            Ok(responses@.last())
        },
        Err(error) => Err(error),
    }
}

/// Returns the response of a single command out of the responses of its group.
pub fn take_response(responses: Vec<CommandResponse>) -> (out: Result<
    CommandResponse,
    DatabaseError,
>)
    ensures
        out == last_response(Ok(responses)),
{
    let mut responses = responses;
    match responses.pop() {
        Some(response) => Ok(response),
        None => Err(DatabaseError::CoordinatorInvariant),
    }
}

/// A write whose outcome is uncertain publishes nothing and takes no position, and every later
/// write is refused and changes nothing.
pub proof fn law_uncertain_write_disables_writes<B: WalBackend, E: Engine>(
    first: DatabaseView<B, E>,
    second: DatabaseView<B, E>,
    third: DatabaseView<B, E>,
    uncertain: Seq<TimedCommand>,
    later: Seq<TimedCommand>,
    grants: Seq<bool>,
    later_grants: Seq<bool>,
    error: StorageError,
    out: Result<Vec<CommandResponse>, DatabaseError>,
)
    requires
        applied(first, second, uncertain, grants, Err(DatabaseError::Indeterminate(error))),
        applied(second, third, later, later_grants, out),
    ensures
        second.engine == first.engine,
        second.next == first.next,
        third == second,
        out == Err::<Vec<CommandResponse>, DatabaseError>(DatabaseError::Poisoned),
{
}

/// What a group commit made durable in memory is what recovery hands to an engine: the
/// transitions of everything committed before and then those of the group, each once and in
/// order. Recovery goes on at the position where the database goes on.
pub proof fn law_committed_groups_are_recovered<E: Engine>(
    before: DatabaseView<MemoryWal, E>,
    after: DatabaseView<MemoryWal, E>,
    past: Seq<DurableItemView>,
    prepared: PreparedBatch<E::Changes>,
    grants: Seq<bool>,
    responses: Vec<CommandResponse>,
)
    requires
        committed(before, after, prepared, grants, Ok(responses)),
        prepared.durable_items@.len() > 0,
        before.backend@.bytes == frame::frames(batch::batch_records(past, 1)),
        before.next == batch::next_after(Some(1), past.len()),
        !batch::exhausted(Some(1), past.len()),
        batch::batch_fault(past, before.max) is None,
        replay::replayable(past),
        replay::replayable(model::views(prepared.durable_items@)),
        after.backend@.bytes.len() <= u64::MAX,
    ensures
        ({
            let items = model::views(prepared.durable_items@);
            let log = replay::replayed(
                frame::reader_at_start(after.backend@.bytes, before.max),
            );
            &&& log.effects == replay::transitions(past) + replay::transitions(items)
            &&& log.end is Ok
            &&& log.expected == after.next
        }),
{
    let items = model::views(prepared.durable_items@);
    let position = before.next->0;
    let framed = frame::frames(batch::batch_records(items, position));
    batch::law_batch_is_framed_or_refused_at_an_item(items, before.max, grants);
    backend::law_memory_log_holds_what_was_persisted(
        before.backend,
        after.backend,
        framed,
        before.durability,
        Ok(()),
    );
    replay::law_split_log_holds_the_same(past, items, 1, position, before.max);
    replay::law_replay_gives_back_framed_transitions(past, seq![], 1, 0, before.max);
    replay::law_replay_gives_back_framed_transitions(items, seq![], position, 0, before.max);
    frame::lemma_step_at_end(
        ReaderView {
            rest: seq![],
            offset: before.backend@.bytes.len() as u64,
            expected: before.next,
            max: before.max,
        },
    );
    frame::lemma_step_at_end(
        ReaderView {
            rest: seq![],
            offset: framed.len() as u64,
            expected: after.next,
            max: before.max,
        },
    );
    assert(before.backend@.bytes + seq![] =~= before.backend@.bytes);
    assert(framed + seq![] =~= framed);
    assert(replay::transitions(past) + seq![] =~= replay::transitions(past));
    assert(replay::transitions(items) + seq![] =~= replay::transitions(items));
}

/// A group of commands with what its application met and gave.
pub struct Call<C> {
    /// The commands.
    pub commands: Seq<TimedCommand>,
    /// What the engine prepared, if it was asked.
    pub prepared: Result<PreparedBatch<C>, PreparationError>,
    /// The memory that was granted for the frames.
    pub grants: Seq<bool>,
    /// What was returned.
    pub out: Result<Vec<CommandResponse>, DatabaseError>,
}

/// What applying the group of a call does, with what the engine prepared for it.
pub open spec fn performed<B: WalBackend, E: Engine>(
    before: DatabaseView<B, E>,
    after: DatabaseView<B, E>,
    call: Call<E::Changes>,
) -> bool {
    if before.poisoned || call.commands.len() == 0 {
        applied(before, after, call.commands, call.grants, call.out)
    } else {
        concluded(before, after, call.commands, call.prepared, call.grants, call.out)
    }
}

/// The application of a group is a call with what the engine prepared.
pub proof fn law_application_is_a_call<B: WalBackend, E: Engine>(
    before: DatabaseView<B, E>,
    after: DatabaseView<B, E>,
    commands: Seq<TimedCommand>,
    grants: Seq<bool>,
    out: Result<Vec<CommandResponse>, DatabaseError>,
)
    ensures
        applied(before, after, commands, grants, out) <==> exists|
            prepared: Result<PreparedBatch<E::Changes>, PreparationError>,
        | #[trigger]
            performed(before, after, (Call { commands, prepared, grants, out })),
{
    if applied(before, after, commands, grants, out) {
        if before.poisoned || commands.len() == 0 {
            let prepared = Err(PreparationError::RevisionOverflow);
            assert(performed(before, after, (Call { commands, prepared, grants, out })));
        } else {
            let prepared = choose|
                prepared: Result<PreparedBatch<E::Changes>, PreparationError>,
            | #[trigger] concluded(before, after, commands, prepared, grants, out);
            assert(performed(before, after, (Call { commands, prepared, grants, out })));
        }
    }
}

/// The states of a database before, between and after calls.
pub open spec fn history<B: WalBackend, E: Engine>(
    states: Seq<DatabaseView<B, E>>,
    calls: Seq<Call<E::Changes>>,
) -> bool {
    &&& states.len() == calls.len() + 1
    &&& forall|i: int|
        0 <= i < calls.len() ==> performed(states[i], states[i + 1], #[trigger] calls[i])
}

/// The call reported that the outcome of its write is uncertain.
pub open spec fn uncertain<C>(call: Call<C>) -> bool {
    call.out matches Err(DatabaseError::Indeterminate(_))
}

/// What a call made durable.
pub open spec fn durable_items<C>(call: Call<C>) -> Seq<DurableItemView> {
    if call.commands.len() > 0 && call.out is Ok && call.prepared is Ok {
        model::views(call.prepared->Ok_0.durable_items@)
    } else {
        seq![]
    }
}

/// What calls made durable, in order.
pub open spec fn made_durable<C>(calls: Seq<Call<C>>) -> Seq<DurableItemView>
    decreases calls.len(),
{
    if calls.len() == 0 {
        seq![]
    } else {
        made_durable(calls.drop_last()) + durable_items(calls.last())
    }
}

/// A history without its last call.
proof fn lemma_history_front<B: WalBackend, E: Engine>(
    states: Seq<DatabaseView<B, E>>,
    calls: Seq<Call<E::Changes>>,
)
    requires
        history(states, calls),
        calls.len() > 0,
    ensures
        history(states.drop_last(), calls.drop_last()),
        performed(states.drop_last().last(), states.last(), calls.last()),
        states.drop_last()[0] == states[0],
{
    let front = calls.drop_last();
    assert forall|i: int| 0 <= i < front.len() implies performed(
        states.drop_last()[i],
        states.drop_last()[i + 1],
        #[trigger] front[i],
    ) by {
        assert(calls[i] == front[i]);
    }
    let last = calls.len() - 1;
    assert(performed(states[last], states[last + 1], calls[last]));
}

/// A call disables writes exactly if its write is uncertain, and only a database that writes can
/// make such a call.
proof fn lemma_call_disables<B: WalBackend, E: Engine>(
    before: DatabaseView<B, E>,
    after: DatabaseView<B, E>,
    call: Call<E::Changes>,
)
    requires
        performed(before, after, call),
    ensures
        after.poisoned <==> before.poisoned || uncertain(call),
        before.poisoned ==> after == before && call.out == Err::<
            Vec<CommandResponse>,
            DatabaseError,
        >(DatabaseError::Poisoned),
{
}

/// Writes of a database are disabled exactly if one of its calls was uncertain. There is at most
/// one such call; every later call is refused and changes nothing.
pub proof fn law_first_uncertain_call_disables_writes<B: WalBackend, E: Engine>(
    states: Seq<DatabaseView<B, E>>,
    calls: Seq<Call<E::Changes>>,
)
    requires
        history(states, calls),
        !states[0].poisoned,
    ensures
        states.last().poisoned <==> exists|i: int|
            0 <= i < calls.len() && uncertain(#[trigger] calls[i]),
        forall|i: int, j: int|
            0 <= i < j < calls.len() && uncertain(#[trigger] calls[i]) ==> (
            #[trigger] calls[j]).out == Err::<Vec<CommandResponse>, DatabaseError>(
                DatabaseError::Poisoned,
            ) && states[j + 1] == states[i + 1],
    decreases calls.len(),
{
    if calls.len() > 0 {
        let front = calls.drop_last();
        let earlier = states.drop_last();
        let last = calls.len() - 1;
        lemma_history_front(states, calls);
        law_first_uncertain_call_disables_writes(earlier, front);
        lemma_call_disables(earlier.last(), states.last(), calls.last());
        assert(earlier.last() == states[last]);
        if states.last().poisoned {
            if earlier.last().poisoned {
                let i = choose|i: int| 0 <= i < front.len() && uncertain(#[trigger] front[i]);
                assert(uncertain(calls[i]));
            } else {
                assert(uncertain(calls[last]));
            }
        }
        if exists|i: int| 0 <= i < calls.len() && uncertain(#[trigger] calls[i]) {
            let i = choose|i: int| 0 <= i < calls.len() && uncertain(#[trigger] calls[i]);
            if i < last {
                assert(uncertain(front[i]));
            }
        }
        assert forall|i: int, j: int|
            0 <= i < j < calls.len() && uncertain(#[trigger] calls[i]) implies (
        #[trigger] calls[j]).out == Err::<Vec<CommandResponse>, DatabaseError>(
            DatabaseError::Poisoned,
        ) && states[j + 1] == states[i + 1] by {
            assert(uncertain(front[i]));
            if j < last {
                assert(front[j] == calls[j]);
                assert(earlier[j + 1] == states[j + 1]);
                assert(earlier[i + 1] == states[i + 1]);
            } else {
                assert(earlier.last().poisoned);
                if i < last - 1 {
                    assert(front[last - 1] == calls[last - 1]);
                    assert(earlier[last] == states[last]);
                    assert(earlier[i + 1] == states[i + 1]);
                }
            }
        }
    }
}

/// A group that succeeds takes one position for each of its durable items and no other, and
/// writes their records, numbered one after the other, with one append. A group without durable
/// items changes nothing.
pub proof fn law_group_takes_consecutive_positions<B: WalBackend, E: Engine>(
    before: DatabaseView<B, E>,
    after: DatabaseView<B, E>,
    call: Call<E::Changes>,
)
    requires
        performed(before, after, call),
        call.out is Ok,
        before.next matches Some(position) ==> position != 0,
    ensures
        ({
            let items = durable_items(call);
            let records = batch::batch_records(items, before.next->0);
            &&& after.next == batch::next_after(before.next, items.len())
            &&& items.len() == 0 ==> after == before
            &&& items.len() > 0 ==> {
                &&& before.next is Some
                &&& frame::consecutive(records, before.next, before.max)
                &&& forall|i: int|
                    0 <= i < records.len() ==> (#[trigger] records[i]).sequence == before.next->0
                        + i
                &&& backend::persist_calls(
                    before.backend,
                    after.backend,
                    frame::frames(records),
                    before.durability,
                    Ok(()),
                )
            }
        }),
{
    let items = durable_items(call);
    if items.len() > 0 {
        let position = before.next->0;
        batch::law_batch_is_framed_or_refused_at_an_item(items, before.max, call.grants);
        batch::law_batch_records_are_consecutive(items, position, before.max);
    }
}

/// Every preparation of the commands that the engine allows answers each of them.
pub open spec fn answers_every_command<E: Engine>(engine: E, commands: Seq<TimedCommand>) -> bool {
    forall|prepared: PreparedBatch<E::Changes>| #[trigger]
        engine.prepares(commands, Ok(prepared)) ==> prepared.responses@.len() == commands.len()
}

/// Every preparation of the commands that the engine allows makes `count` items durable: one for
/// each command that it sees for the first time.
pub open spec fn makes_durable<E: Engine>(
    engine: E,
    commands: Seq<TimedCommand>,
    count: nat,
) -> bool {
    forall|prepared: PreparedBatch<E::Changes>| #[trigger]
        engine.prepares(commands, Ok(prepared)) ==> prepared.durable_items@.len() == count
}

/// A group that succeeds over an engine that answers each command is answered command by command.
pub proof fn law_every_command_of_a_group_is_answered<B: WalBackend, E: Engine>(
    before: DatabaseView<B, E>,
    after: DatabaseView<B, E>,
    commands: Seq<TimedCommand>,
    grants: Seq<bool>,
    responses: Vec<CommandResponse>,
)
    requires
        applied(before, after, commands, grants, Ok(responses)),
        answers_every_command(before.engine, commands),
    ensures
        responses@.len() == commands.len(),
{
    if commands.len() > 0 {
        let prepared = choose|prepared: Result<PreparedBatch<E::Changes>, PreparationError>|
            #[trigger]
            concluded(before, after, commands, prepared, grants, Ok(responses));
        assert(before.engine.prepares(commands, prepared));
    }
}

/// The records of one append from the next position on, as many as there are items.
pub open spec fn wrote_once<B: WalBackend, E: Engine>(
    before: DatabaseView<B, E>,
    after: DatabaseView<B, E>,
    items: Seq<DurableItemView>,
) -> bool {
    let records = batch::batch_records(items, before.next->0);
    &&& before.next is Some
    &&& frame::consecutive(records, before.next, before.max)
    &&& forall|i: int|
        0 <= i < records.len() ==> (#[trigger] records[i]).sequence == before.next->0 + i
    &&& backend::persist_calls(
        before.backend,
        after.backend,
        frame::frames(records),
        before.durability,
        Ok(()),
    )
}

/// A group that succeeds moves the next position by the number of commands that the engine sees
/// for the first time. Their records are written with one append, numbered one after the other;
/// where there is none, nothing is written.
pub proof fn law_group_moves_by_its_first_seen_commands<B: WalBackend, E: Engine>(
    before: DatabaseView<B, E>,
    after: DatabaseView<B, E>,
    commands: Seq<TimedCommand>,
    grants: Seq<bool>,
    responses: Vec<CommandResponse>,
    first_seen: nat,
)
    requires
        applied(before, after, commands, grants, Ok(responses)),
        makes_durable(before.engine, commands, first_seen),
        commands.len() == 0 ==> first_seen == 0,
        before.next matches Some(position) ==> position != 0,
    ensures
        after.next == batch::next_after(before.next, first_seen),
        first_seen == 0 ==> after == before,
        first_seen > 0 ==> exists|items: Seq<DurableItemView>|
            items.len() == first_seen && #[trigger] wrote_once(before, after, items),
{
    if commands.len() > 0 {
        let prepared = choose|prepared: Result<PreparedBatch<E::Changes>, PreparationError>|
            #[trigger]
            concluded(before, after, commands, prepared, grants, Ok(responses));
        assert(before.engine.prepares(commands, prepared));
        let call = Call { commands, prepared, grants, out: Ok(responses) };
        assert(performed(before, after, call));
        law_group_takes_consecutive_positions(before, after, call);
        if first_seen > 0 {
            assert(wrote_once(before, after, durable_items(call)));
        }
    }
}

/// The log in memory consists of the records of `items`, and the database goes on behind them.
pub open spec fn logged<E: Engine>(
    state: DatabaseView<MemoryWal, E>,
    items: Seq<DurableItemView>,
) -> bool {
    &&& !state.poisoned
    &&& state.backend@.bytes == frame::frames(batch::batch_records(items, 1))
    &&& state.next == batch::next_after(Some(1), items.len())
    &&& !batch::exhausted(Some(1), items.len())
    &&& batch::batch_fault(items, state.max) is None
}

/// A call over a log in memory adds what it made durable.
proof fn lemma_call_is_logged<E: Engine>(
    before: DatabaseView<MemoryWal, E>,
    after: DatabaseView<MemoryWal, E>,
    call: Call<E::Changes>,
    past: Seq<DurableItemView>,
)
    requires
        performed(before, after, call),
        logged(before, past),
    ensures
        logged(after, past + durable_items(call)),
        after.max == before.max,
{
    let items = durable_items(call);
    assert(past + seq![] =~= past);
    if call.commands.len() > 0 && call.prepared is Ok {
        let prepared = call.prepared->Ok_0;
        let group = model::views(prepared.durable_items@);
        if group.len() > 0 {
            let admitted = choose|admitted: Result<(), PreparationError>| #[trigger]
                decided(before, after, prepared, admitted, call.grants, call.out);
            if admitted is Ok && !batch::exhausted(before.next, group.len()) {
                let position = before.next->0;
                let bytes = frame::frames(batch::batch_records(group, position));
                if batch::batch_fault_with(group, before.max, call.grants) is None {
                    batch::law_batch_is_framed_or_refused_at_an_item(
                        group,
                        before.max,
                        call.grants,
                    );
                    let written = match call.out {
                        Ok(_) => Ok::<(), StorageError>(()),
                        Err(DatabaseError::Indeterminate(error)) => Err(error),
                        Err(_) => Ok(()),
                    };
                    backend::law_memory_log_holds_what_was_persisted(
                        before.backend,
                        after.backend,
                        bytes,
                        before.durability,
                        written,
                    );
                    batch::lemma_batches_join(past, group, 1, position, before.max);
                }
            }
        } else {
            assert(group =~= seq![]);
        }
    }
}

/// Whatever was called on a database that started with an empty log in memory, the log consists
/// of the records of what the successful calls made durable, in order, and no write is disabled.
pub proof fn law_memory_log_holds_what_calls_made_durable<E: Engine>(
    states: Seq<DatabaseView<MemoryWal, E>>,
    calls: Seq<Call<E::Changes>>,
)
    requires
        history(states, calls),
        states[0].backend@.bytes.len() == 0,
        states[0].next == Some(1u64),
        !states[0].poisoned,
    ensures
        logged(states.last(), made_durable(calls)),
        states.last().max == states[0].max,
    decreases calls.len(),
{
    if calls.len() == 0 {
        assert(states[0].backend@.bytes =~= frame::frames(batch::batch_records(seq![], 1)));
    } else {
        lemma_history_front(states, calls);
        law_memory_log_holds_what_calls_made_durable(states.drop_last(), calls.drop_last());
        lemma_call_is_logged(
            states.drop_last().last(),
            states.last(),
            calls.last(),
            made_durable(calls.drop_last()),
        );
    }
}

/// A restart after any calls: recovery of the log hands to an engine the transitions that the
/// successful calls made durable, each once and in order, and goes on at the position where the
/// database goes on.
pub proof fn law_restart_replays_what_calls_made_durable<E: Engine>(
    states: Seq<DatabaseView<MemoryWal, E>>,
    calls: Seq<Call<E::Changes>>,
    engine: E,
    outcome: RecoveryOutcome<E>,
)
    requires
        history(states, calls),
        states[0].backend@.bytes.len() == 0,
        states[0].next == Some(1u64),
        !states[0].poisoned,
        replay::replayable(made_durable(calls)),
        states.last().backend@.bytes.len() <= u64::MAX,
    ensures
        ({
            let reader = frame::reader_at_start(states.last().backend@.bytes, states[0].max);
            let log = replay::replayed(reader);
            &&& log.effects == replay::transitions(made_durable(calls))
            &&& log.end == Ok::<u64, RecoveryError>(states.last().backend@.bytes.len() as u64)
            &&& log.expected == states.last().next
            &&& replay::replays_to(reader, seq![], engine, Ok(outcome)) ==> {
                &&& outcome.next() == states.last().next
                &&& exists|middle: E|
                    replay::installed(engine, log.effects, middle) && #[trigger] middle.finishes(
                        outcome.state(),
                        Ok(()),
                    )
            }
        }),
{
    let items = made_durable(calls);
    let bytes = states.last().backend@.bytes;
    let max = states[0].max;
    let reader = frame::reader_at_start(bytes, max);
    law_memory_log_holds_what_calls_made_durable(states, calls);
    replay::law_replay_gives_back_framed_transitions(items, seq![], 1, 0, max);
    frame::lemma_step_at_end(
        ReaderView {
            rest: seq![],
            offset: bytes.len() as u64,
            expected: states.last().next,
            max,
        },
    );
    assert(bytes + seq![] =~= bytes);
    assert(replay::transitions(items) + seq![] =~= replay::transitions(items));
    if replay::replays_to(reader, seq![], engine, Ok(outcome)) {
        replay::law_granted_log_holds_the_same(reader, 0);
        let (done, after) = choose|done: nat, after: EngineRecovery<E>| #[trigger]
            replay::recovered(reader, seq![], done, engine, after, Ok(outcome));
        assert(replay::installed(engine, replay::replayed(reader).effects, after.state())
            && after.state().finishes(outcome.state(), Ok(())));
    }
}

/// A copy that agrees with an engine installs what the engine makes durable and publishes, and
/// agrees with it again: it refuses none of the transitions, and behind them it agrees.
pub open spec fn publication_agrees<E: Engine>(
    agree: spec_fn(E, E) -> bool,
    writer: E,
    copy: E,
    commands: Seq<TimedCommand>,
    prepared: PreparedBatch<E::Changes>,
    published: E,
) -> bool {
    let effects = replay::transitions(model::views(prepared.durable_items@));
    agree(writer, copy) && writer.prepares(commands, Ok(prepared)) && writer.admits(
        prepared.changes,
        Ok(()),
    ) && writer.publishes(prepared.changes, published) ==> installs_and_agrees(
        agree,
        published,
        copy,
        effects,
    )
}

/// A copy refuses none of the effects, and behind them agrees with `writer`.
pub open spec fn installs_and_agrees<E: Engine>(
    agree: spec_fn(E, E) -> bool,
    writer: E,
    copy: E,
    effects: Seq<DurableTransitionView>,
) -> bool {
    &&& forall|k: int, middle: E, refused: E, error: RecoveryInstallError|
        #![trigger
            replay::installed(copy, effects.take(k), middle),
            middle.installs(effects[k], refused, Err(error))]
        0 <= k < effects.len() && replay::installed(copy, effects.take(k), middle)
            ==> !middle.installs(effects[k], refused, Err(error))
    &&& forall|last: E| #[trigger]
        replay::installed(copy, effects, last) ==> agree(writer, last)
}

/// Completing recovery succeeds for a copy that agrees with an engine, and it still agrees.
pub open spec fn completion_agrees<E: Engine>(
    agree: spec_fn(E, E) -> bool,
    writer: E,
    copy: E,
    completed: E,
    out: Result<(), RecoveryInstallError>,
) -> bool {
    agree(writer, copy) && copy.finishes(completed, out) ==> out is Ok && agree(writer, completed)
}

/// Publishing and installing the same effects agree.
pub open spec fn replicates<E: Engine>(agree: spec_fn(E, E) -> bool) -> bool {
    &&& forall|
        writer: E,
        copy: E,
        commands: Seq<TimedCommand>,
        prepared: PreparedBatch<E::Changes>,
        published: E,
    | #[trigger]
        publication_agrees(agree, writer, copy, commands, prepared, published)
    &&& forall|writer: E, copy: E, completed: E, out: Result<(), RecoveryInstallError>| #[trigger]
        completion_agrees(agree, writer, copy, completed, out)
}

/// A call keeps a copy that installs what was made durable in agreement with the database.
proof fn lemma_call_keeps_agreement<B: WalBackend, E: Engine>(
    before: DatabaseView<B, E>,
    after: DatabaseView<B, E>,
    call: Call<E::Changes>,
    agree: spec_fn(E, E) -> bool,
    copy: E,
    past: Seq<DurableItemView>,
)
    requires
        performed(before, after, call),
        replicates(agree),
        installs_and_agrees(agree, before.engine, copy, replay::transitions(past)),
    ensures
        installs_and_agrees(
            agree,
            after.engine,
            copy,
            replay::transitions(past + durable_items(call)),
        ),
{
    let early = replay::transitions(past);
    let late = replay::transitions(durable_items(call));
    let effects = replay::transitions(past + durable_items(call));
    assert(effects =~= early + late);
    if durable_items(call).len() == 0 {
        assert(effects =~= early);
        assert(after.engine == before.engine);
    } else {
        let prepared = call.prepared->Ok_0;
        let admitted = choose|admitted: Result<(), PreparationError>| #[trigger]
            decided(before, after, prepared, admitted, call.grants, call.out);
        if let Ok(done) = admitted {
            assert(done == ());
        }
        assert(before.engine.admits(prepared.changes, Ok(())));
        assert forall|last: E| #[trigger] replay::installed(copy, effects, last) implies agree(
            after.engine,
            last,
        ) by {
            replay::lemma_installed_splits(copy, early, late, last);
            let middle = choose|middle: E|
                replay::installed(copy, early, middle) && #[trigger] replay::installed(
                    middle,
                    late,
                    last,
                );
            assert(publication_agrees(
                agree,
                before.engine,
                middle,
                call.commands,
                prepared,
                after.engine,
            ));
        }
        assert forall|k: int, middle: E, refused: E, error: RecoveryInstallError|
            #![trigger
                replay::installed(copy, effects.take(k), middle),
                middle.installs(effects[k], refused, Err(error))]
            0 <= k < effects.len() && replay::installed(copy, effects.take(k), middle)
                implies !middle.installs(effects[k], refused, Err(error)) by {
            if k < early.len() {
                assert(effects.take(k) =~= early.take(k));
                assert(effects[k] == early[k]);
            } else {
                let j = k - early.len();
                assert(effects.take(k) =~= early + late.take(j));
                assert(effects[k] == late[j]);
                replay::lemma_installed_splits(copy, early, late.take(j), middle);
                let base = choose|base: E|
                    replay::installed(copy, early, base) && #[trigger] replay::installed(
                        base,
                        late.take(j),
                        middle,
                    );
                assert(publication_agrees(
                    agree,
                    before.engine,
                    base,
                    call.commands,
                    prepared,
                    after.engine,
                ));
            }
        }
    }
}

/// Calls keep a copy that installs what they made durable in agreement with the database.
proof fn lemma_calls_keep_agreement<B: WalBackend, E: Engine>(
    states: Seq<DatabaseView<B, E>>,
    calls: Seq<Call<E::Changes>>,
    agree: spec_fn(E, E) -> bool,
    copy: E,
)
    requires
        history(states, calls),
        replicates(agree),
        agree(states[0].engine, copy),
    ensures
        installs_and_agrees(
            agree,
            states.last().engine,
            copy,
            replay::transitions(made_durable(calls)),
        ),
    decreases calls.len(),
{
    if calls.len() == 0 {
        assert(replay::transitions(made_durable(calls)) =~= seq![]);
    } else {
        lemma_history_front(states, calls);
        lemma_calls_keep_agreement(states.drop_last(), calls.drop_last(), agree, copy);
        lemma_call_keeps_agreement(
            states.drop_last().last(),
            states.last(),
            calls.last(),
            agree,
            copy,
            made_durable(calls.drop_last()),
        );
    }
}

/// A restart after any calls, of engines of which publishing and installing the same effects
/// agree: recovery of the log succeeds, and the recovered engine agrees with the one that wrote
/// the log.
pub proof fn law_recovered_engine_agrees_with_the_writer<E: Engine>(
    states: Seq<DatabaseView<MemoryWal, E>>,
    calls: Seq<Call<E::Changes>>,
    agree: spec_fn(E, E) -> bool,
    engine: E,
    recovery: Result<RecoveryOutcome<E>, RecoveryError>,
)
    requires
        history(states, calls),
        states[0].backend@.bytes.len() == 0,
        states[0].next == Some(1u64),
        !states[0].poisoned,
        replay::replayable(made_durable(calls)),
        states.last().backend@.bytes.len() <= u64::MAX,
        replicates(agree),
        agree(states[0].engine, engine),
        replay::replays_to(
            frame::reader_at_start(states.last().backend@.bytes, states[0].max),
            seq![],
            engine,
            recovery,
        ),
    ensures
        recovery matches Ok(outcome) && outcome.next() == states.last().next && agree(
            states.last().engine,
            outcome.state(),
        ),
{
    let writer = states.last().engine;
    let reader = frame::reader_at_start(states.last().backend@.bytes, states[0].max);
    let effects = replay::transitions(made_durable(calls));
    lemma_calls_keep_agreement(states, calls, agree, engine);
    law_restart_replays_what_calls_made_durable(states, calls, engine, arbitrary());
    replay::law_granted_log_holds_the_same(reader, 0);
    let (done, after) = choose|done: nat, after: EngineRecovery<E>| #[trigger]
        replay::recovered(reader, seq![], done, engine, after, recovery);
    if exists|end: u64| #[trigger]
        replay::fed(reader, seq![], done, engine, after, Ok(end)) && replay::finished(
            after,
            end,
            recovery,
        ) {
        assert(replay::installed(engine, effects, after.state()));
        match recovery {
            Ok(outcome) => {
                assert(completion_agrees(
                    agree,
                    writer,
                    after.state(),
                    outcome.state(),
                    Ok(()),
                ));
            },
            Err(error) => {
                if let RecoveryError::Install { source, .. } = error {
                    let completed = choose|completed: E| #[trigger]
                        after.state().finishes(completed, Err(source));
                    assert(completion_agrees(
                        agree,
                        writer,
                        after.state(),
                        completed,
                        Err(source),
                    ));
                }
            },
        }
    } else {
        let error = recovery->Err_0;
        assert(replay::fed(reader, seq![], done, engine, after, Err(error)));
        if let RecoveryError::Install { last_valid_offset, source } = error {
            let middle = choose|middle: E|
                replay::installed(engine, effects.take(done as int), middle)
                    && #[trigger] replay::refused_at(middle, effects[done as int], after, error);
            assert(middle.installs(effects[done as int], after.state(), Err(source)));
        }
    }
}

/// A database that is recovered from a log after any calls, of engines of which publishing and
/// installing the same effects agree, agrees with the one that wrote it: its engine does, it goes
/// on at the same position, and it writes to the backend that it was given.
pub proof fn law_recovered_database_agrees_with_the_writer<B: WalBackend, E: Engine>(
    states: Seq<DatabaseView<MemoryWal, E>>,
    calls: Seq<Call<E::Changes>>,
    agree: spec_fn(E, E) -> bool,
    recovery: Result<RecoveryOutcome<E>, RecoveryError>,
    backend: B,
    options: DatabaseOptions,
    out: Result<Database<B, E>, DatabaseError>,
)
    requires
        history(states, calls),
        states[0].backend@.bytes.len() == 0,
        states[0].next == Some(1u64),
        !states[0].poisoned,
        replay::replayable(made_durable(calls)),
        states.last().backend@.bytes.len() <= u64::MAX,
        replicates(agree),
        forall|engine: E| #[trigger] engine.starts() ==> agree(states[0].engine, engine),
        options.record_limits@ == states[0].max,
        reopened(
            frame::reader_at_start(states.last().backend@.bytes, states[0].max),
            seq![],
            recovery,
            backend,
            options,
            out,
        ),
    ensures
        out matches Ok(database) && {
            &&& agree(states.last().engine, database@.engine)
            &&& database@.next == states.last().next
            &&& !database@.poisoned
            &&& database@.backend == backend
            &&& database@.max == states[0].max
            &&& database@.durability == options.durability
        },
{
    let reader = frame::reader_at_start(states.last().backend@.bytes, states[0].max);
    let engine = choose|engine: E|
        engine.starts() && #[trigger] replay::replays_to(reader, seq![], engine, recovery);
    law_recovered_engine_agrees_with_the_writer(states, calls, agree, engine, recovery);
}

impl<B: WalBackend, E: Engine> Database<B, E> {
    /// Creates an empty durable database over `backend`.
    pub fn new(backend: B, options: DatabaseOptions) -> (out: Database<B, E>)
        ensures
            out@.engine.starts(),
            out@ == (DatabaseView {
                engine: out@.engine,
                backend,
                durability: options.durability,
                max: options.record_limits@,
                next: Some(1u64),
                poisoned: false,
            }),
    {
        Database {
            engine: E::empty(),
            backend,
            durability: options.durability,
            record_limits: options.record_limits,
            next_record_sequence: Some(RecordSequence::first()),
            poisoned: false,
        }
    }

    /// Creates a coordinator from recovered state and continuation metadata.
    pub fn from_recovered(
        outcome: RecoveryOutcome<E>,
        backend: B,
        options: DatabaseOptions,
    ) -> (out: Database<B, E>)
        ensures
            out@ == (DatabaseView {
                engine: outcome.state(),
                backend,
                durability: options.durability,
                max: options.record_limits@,
                next: outcome.next(),
                poisoned: false,
            }),
    {
        let (engine, next_record_sequence, _) = outcome.into_parts();
        Database {
            engine,
            backend,
            durability: options.durability,
            record_limits: options.record_limits,
            next_record_sequence,
            poisoned: false,
        }
    }

    /// Recovers a complete WAL beginning at record one and attaches `backend`.
    pub fn recover(source: &[u8], backend: B, options: DatabaseOptions) -> (out: Result<
        Database<B, E>,
        DatabaseError,
    >)
        ensures
            exists|grants: Seq<bool>, recovery: Result<RecoveryOutcome<E>, RecoveryError>|
                #[trigger]
                reopened(
                    frame::reader_at_start(source@, options.record_limits@),
                    grants,
                    recovery,
                    backend,
                    options,
                    out,
                ),
    {
        let recovery = recover_engine::<E>(source, options.record_limits);
        let ghost outcome = recovery;
        let ghost reader = frame::reader_at_start(source@, options.record_limits@);
        let out = Database::attach(recovery, backend, options);
        proof {
            let (grants, engine) = choose|grants: Seq<bool>, engine: E|
                engine.starts() && #[trigger] replay::replays_to(reader, grants, engine, outcome);
            assert(reopened(reader, grants, outcome, backend, options, out));
        }
        out
    }

    /// Recovers a complete WAL as if memory for its records were granted as listed.
    pub fn recover_granted(
        source: &[u8],
        backend: B,
        options: DatabaseOptions,
        grants: &[bool],
    ) -> (out: Result<Database<B, E>, DatabaseError>)
        ensures
            exists|recovery: Result<RecoveryOutcome<E>, RecoveryError>| #[trigger]
                reopened(
                    frame::reader_at_start(source@, options.record_limits@),
                    grants@,
                    recovery,
                    backend,
                    options,
                    out,
                ),
    {
        let recovery = recover_engine_granted::<E>(source, options.record_limits, grants);
        let ghost outcome = recovery;
        let ghost reader = frame::reader_at_start(source@, options.record_limits@);
        let out = Database::attach(recovery, backend, options);
        assert(reopened(reader, grants@, outcome, backend, options, out));
        out
    }

    /// Attaches `backend` to what recovery gave.
    fn attach(
        recovery: Result<RecoveryOutcome<E>, RecoveryError>,
        backend: B,
        options: DatabaseOptions,
    ) -> (out: Result<Database<B, E>, DatabaseError>)
        ensures
            match recovery {
                Ok(outcome) => out matches Ok(database) && database@ == (DatabaseView {
                    engine: outcome.state(),
                    backend,
                    durability: options.durability,
                    max: options.record_limits@,
                    next: outcome.next(),
                    poisoned: false,
                }),
                Err(error) => out == Err::<Database<B, E>, DatabaseError>(
                    DatabaseError::Recovery(error),
                ),
            },
    {
        match recovery {
            Ok(outcome) => Ok(Database::from_recovered(outcome, backend, options)),
            Err(error) => Err(DatabaseError::Recovery(error)),
        }
    }

    /// Returns immutable engine state for queries.
    pub fn engine(&self) -> (out: &E)
        ensures
            *out == self@.engine,
    {
        &self.engine
    }

    /// Returns the backend for immutable diagnostics and tests.
    pub fn backend(&self) -> (out: &B)
        ensures
            *out == self@.backend,
    {
        &self.backend
    }

    /// Returns the backend for maintenance outside of a write.
    pub fn backend_mut(&mut self) -> (out: &mut B)
        ensures
            *out == old(self)@.backend,
            final(self)@ == (DatabaseView { backend: *final(out), ..old(self)@ }),
    {
        &mut self.backend
    }

    /// Returns whether an indeterminate I/O result has disabled writes.
    pub fn is_poisoned(&self) -> (out: bool)
        ensures
            out == self@.poisoned,
    {
        self.poisoned
    }

    /// Returns a copy of the authoritative engine state.
    pub fn engine_snapshot(&self) -> (out: EngineSnapshot)
        ensures
            self@.engine.captures(out@),
    {
        self.engine.capture_snapshot()
    }

    /// Returns the next record sequence, or `None` after log exhaustion.
    pub fn next_record_sequence(&self) -> (out: Option<RecordSequence>)
        ensures
            record::sequence_view(out) == self@.next,
    {
        self.next_record_sequence
    }

    /// Durably applies one command.
    pub fn apply(&mut self, command: Command, timestamp: Timestamp) -> (out: Result<
        CommandResponse,
        DatabaseError,
    >)
        ensures
            exists|
                commands: Seq<TimedCommand>,
                grants: Seq<bool>,
                group: Result<Vec<CommandResponse>, DatabaseError>,
            | #[trigger]
                applied(old(self)@, final(self)@, commands, grants, group) && single(
                    commands,
                    command,
                    timestamp,
                ) && out == last_response(group),
            old(self)@.poisoned ==> out == Err::<CommandResponse, DatabaseError>(
                DatabaseError::Poisoned,
            ) && final(self)@ == old(self)@,
    {
        let commands: Vec<TimedCommand> = vec![TimedCommand::new(command, timestamp)];
        let ghost before = self@;
        let ghost submitted = commands@;
        let (group, grants) = self.apply_with(commands, None);
        assert(applied(before, self@, submitted, grants@, group) && single(
            submitted,
            command,
            timestamp,
        ));
        match group {
            Ok(responses) => take_response(responses),
            Err(error) => Err(error),
        }
    }

    /// Durably applies an ordered group with one append and one durability operation.
    pub fn apply_batch(&mut self, commands: Vec<TimedCommand>) -> (out: Result<
        Vec<CommandResponse>,
        DatabaseError,
    >)
        ensures
            exists|grants: Seq<bool>| #[trigger]
                applied(old(self)@, final(self)@, commands@, grants, out),
            out is Err && !(out matches Err(DatabaseError::Indeterminate(_))) ==> final(self)@
                == old(self)@,
            out matches Err(DatabaseError::Indeterminate(_)) ==> final(self)@.poisoned
                && final(self)@.engine == old(self)@.engine && final(self)@.next == old(self)@.next,
            out is Ok ==> !final(self)@.poisoned,
    {
        let (out, grants) = self.apply_with(commands, None);
        assert(applied(old(self)@, self@, commands@, grants@, out));
        out
    }

    /// Durably applies an ordered group as if memory for its frames were granted as listed.
    pub fn apply_batch_granted(&mut self, commands: Vec<TimedCommand>, grants: &[bool]) -> (out:
        Result<Vec<CommandResponse>, DatabaseError>)
        ensures
            applied(old(self)@, final(self)@, commands@, grants@, out),
    {
        let (out, _) = self.apply_with(commands, Some(grants));
        out
    }

    /// Durably applies an ordered group. Memory for its frames is granted as listed, or else
    /// asked for. What was granted is returned.
    fn apply_with(&mut self, commands: Vec<TimedCommand>, grants: Option<&[bool]>) -> (out: (
        Result<Vec<CommandResponse>, DatabaseError>,
        Ghost<Seq<bool>>,
    ))
        ensures
            applied(old(self)@, final(self)@, commands@, out.1@, out.0),
            grants matches Some(listed) ==> out.1@ == listed@,
    {
        let ghost listed = match grants {
            Some(listed) => listed@,
            None => seq![],
        };
        if self.poisoned {
            return (Err(DatabaseError::Poisoned), Ghost(listed));
        }
        if commands.len() == 0 {
            return (Ok(Vec::new()), Ghost(listed));
        }
        let ghost before = self@;
        let ghost submitted = commands@;
        let prepared = self.engine.prepare_batch(commands);
        let ghost preparation = prepared;
        let prepared = match prepared {
            Ok(prepared) => prepared,
            Err(error) => {
                let out = Err(DatabaseError::Preparation(DatabasePreparationError::from(error)));
                assert(concluded(before, self@, submitted, preparation, listed, out));
                return (out, Ghost(listed));
            },
        };
        if prepared.durable_items.len() == 0 {
            let responses = prepared.responses;
            assert(concluded(before, self@, submitted, preparation, listed, Ok(responses)));
            return (Ok(responses), Ghost(listed));
        }
        let ghost batch = prepared;
        let admitted = self.engine.can_publish(&prepared.changes);
        if let Err(error) = admitted {
            let out = Err(DatabaseError::Preparation(DatabasePreparationError::from(error)));
            assert(decided(before, self@, batch, admitted, listed, out));
            assert(concluded(before, self@, submitted, preparation, listed, out));
            return (out, Ghost(listed));
        }
        let (out, granted) = self.commit_with(prepared, grants);
        proof {
            assert(decided(before, self@, batch, admitted, granted@, out));
            assert(concluded(before, self@, submitted, preparation, granted@, out));
        }
        (out, granted)
    }

    /// Persists a prepared group that can be published, and then publishes it.
    pub fn commit(&mut self, prepared: PreparedBatch<E::Changes>) -> (out: Result<
        Vec<CommandResponse>,
        DatabaseError,
    >)
        requires
            !old(self)@.poisoned,
            prepared.durable_items@.len() > 0,
        ensures
            exists|grants: Seq<bool>| #[trigger]
                committed(old(self)@, final(self)@, prepared, grants, out),
    {
        let (out, _) = self.commit_with(prepared, None);
        out
    }

    /// Persists a prepared group that can be published, and then publishes it, as if memory for
    /// its frames were granted as listed.
    pub fn commit_granted(&mut self, prepared: PreparedBatch<E::Changes>, grants: &[bool]) -> (out:
        Result<Vec<CommandResponse>, DatabaseError>)
        requires
            !old(self)@.poisoned,
            prepared.durable_items@.len() > 0,
        ensures
            committed(old(self)@, final(self)@, prepared, grants@, out),
    {
        let (out, _) = self.commit_with(prepared, Some(grants));
        out
    }

    /// Persists a prepared group, and then publishes it. Memory for its frames is granted as
    /// listed, or else asked for. What was granted is returned.
    fn commit_with(
        &mut self,
        prepared: PreparedBatch<E::Changes>,
        grants: Option<&[bool]>,
    ) -> (out: (Result<Vec<CommandResponse>, DatabaseError>, Ghost<Seq<bool>>))
        requires
            !old(self)@.poisoned,
            prepared.durable_items@.len() > 0,
        ensures
            committed(old(self)@, final(self)@, prepared, out.1@, out.0),
            grants matches Some(listed) ==> out.1@ == listed@,
    {
        let ghost listed = match grants {
            Some(listed) => listed@,
            None => seq![],
        };
        let (sequences, next_sequence) = match assign_sequences(
            self.next_record_sequence,
            prepared.durable_items.len(),
        ) {
            Some(assignment) => assignment,
            None => {
                return (Err(DatabaseError::SequenceExhausted), Ghost(listed));
            },
        };
        let (framed, granted) = frame_batch_with(
            prepared.durable_items.as_slice(),
            sequences.as_slice(),
            self.record_limits,
            grants,
        );
        let framed = match framed {
            Ok(framed) => framed,
            Err(error) => {
                return (Err(DatabaseError::Storage(error)), granted);
            },
        };
        match persist(&mut self.backend, framed, self.durability) {
            Ok(done) => {
                assert(done == ());
            },
            Err(error) => {
                self.poisoned = true;
                return (Err(DatabaseError::Indeterminate(error)), granted);
            },
        }
        let PreparedBatch { responses, durable_items: _, changes } = prepared;
        self.engine.publish_batch(changes);
        self.next_record_sequence = next_sequence;
        (Ok(responses), granted)
    }
}

} // verus!
