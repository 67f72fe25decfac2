//! The state machine behind a durable database, as far as storage deals with it.

use crate::command::{ClientId, Command, IdempotencyKey};
use crate::domain::promise::{
    Promise, PromiseView, ResourcePool, ResourcePoolView, SequenceNumber,
};
use crate::error::{DomainError, StorageError};
use crate::event::{Event, EventView};
use crate::outcome;
use crate::outcome::{
    read_response, response_is_valid, write_response, CommandResponse, CommandResultView,
};
use crate::record::Timestamp;
use crate::transition::{CommandHash, DurableTransition, DurableTransitionView};
use crate::wire::model;
use crate::wire::model::{Enc, Limits, Parsed, Wire};
use crate::wire::reader::{Decode, Reader};
use crate::wire::writer::{Encode, Writer};
use vstd::prelude::*;

verus! {

/// One command paired with its authoritative state-machine timestamp.
#[derive(Debug, Clone, PartialEq, Eq)]
pub struct TimedCommand {
    command: Command,
    timestamp: Timestamp,
}

impl TimedCommand {
    /// The command.
    pub closed spec fn what(self) -> Command {
        self.command
    }

    /// Its timestamp.
    pub closed spec fn when(self) -> Timestamp {
        self.timestamp
    }

    /// Creates a timestamped command for durable application.
    pub fn new(command: Command, timestamp: Timestamp) -> (out: TimedCommand)
        ensures
            out.what() == command,
            out.when() == timestamp,
    {
        TimedCommand { command, timestamp }
    }

    /// Returns the command.
    pub fn command(&self) -> (out: &Command)
        ensures
            *out == self.what(),
    {
        &self.command
    }

    /// Returns the authoritative timestamp.
    pub fn timestamp(&self) -> (out: Timestamp)
        ensures
            out == self.when(),
    {
        self.timestamp
    }

    /// Returns the command and its timestamp.
    pub fn into_parts(self) -> (out: (Command, Timestamp))
        ensures
            out == (self.what(), self.when()),
    {
        (self.command, self.timestamp)
    }
}

/// The model of a [`DurableItem`].
#[verifier::ext_equal]
pub struct DurableItemView {
    /// Timestamp of the command.
    pub timestamp: Timestamp,
    /// What the command changed.
    pub transition: DurableTransitionView,
}

/// A prepared transition that must be persisted before it is published.
#[derive(Debug, PartialEq, Eq)]
pub struct DurableItem {
    timestamp: Timestamp,
    transition: DurableTransition,
}

impl View for DurableItem {
    type V = DurableItemView;

    closed spec fn view(&self) -> DurableItemView {
        DurableItemView {
            timestamp: self.timestamp,
            transition: self.transition@,
        }
    }
}

impl DurableItem {
    /// Pairs a transition with the timestamp of its command.
    pub fn new(timestamp: Timestamp, transition: DurableTransition) -> (out: DurableItem)
        ensures
            out@ == (DurableItemView { timestamp, transition: transition@ }),
    {
        DurableItem { timestamp, transition }
    }

    /// Returns the timestamp of the command.
    pub fn timestamp(&self) -> (out: Timestamp)
        ensures
            out == self@.timestamp,
    {
        self.timestamp
    }

    /// Returns what the command changed.
    pub fn transition(&self) -> (out: &DurableTransition)
        ensures
            out@ == self@.transition,
    {
        &self.transition
    }
}

/// An ordered group of commands that was executed but not published.
pub struct PreparedBatch<C> {
    /// What the commands return, in order.
    pub responses: Vec<CommandResponse>,
    /// The transitions that must be persisted first, in order. Repeated commands have none.
    pub durable_items: Vec<DurableItem>,
    /// What publication installs.
    pub changes: C,
}

/// Why an engine cannot prepare or publish a batch.
#[derive(Debug, Clone, Copy, PartialEq, Eq, Structural)]
pub enum PreparationError {
    /// The prepared base no longer matches published engine state.
    StaleRevision {
        /// Revision that the batch was prepared on.
        expected: u128,
        /// Published revision.
        actual: u128,
    },
    /// The runtime publication revision is exhausted.
    RevisionOverflow,
}

/// Why a recovered transition cannot be installed.
#[derive(Debug, Clone, Copy, PartialEq, Eq, Structural)]
pub enum RecoveryInstallError {
    /// The transition does not continue the domain sequence.
    Sequence,
    /// The transition contradicts the state before it.
    InconsistentState,
    /// The indexes over the recovered state cannot be built.
    Index,
}

/// A deterministic in-memory state machine.
///
/// Each relation names what one of the calls may do, so that contracts can say which calls were
/// made, in which order and with what. An engine that does not say more promises nothing by them.
pub trait Engine: Sized {
    /// What publication of a prepared batch installs.
    type Changes;

    /// [`Engine::empty`] may return this engine.
    open spec fn starts(self) -> bool {
        true
    }

    /// [`Engine::prepare_batch`] may return `out` for `commands`.
    open spec fn prepares(
        self,
        commands: Seq<TimedCommand>,
        out: Result<PreparedBatch<Self::Changes>, PreparationError>,
    ) -> bool {
        true
    }

    /// [`Engine::can_publish`] may return `out` for `changes`.
    open spec fn admits(self, changes: Self::Changes, out: Result<(), PreparationError>) -> bool {
        true
    }

    /// [`Engine::publish_batch`] may turn this engine into `after`.
    open spec fn publishes(self, changes: Self::Changes, after: Self) -> bool {
        true
    }

    /// [`Engine::install`] may turn this engine into `after` and return `out`.
    open spec fn installs(
        self,
        transition: DurableTransitionView,
        after: Self,
        out: Result<(), RecoveryInstallError>,
    ) -> bool {
        true
    }

    /// [`Engine::finish_recovery`] may turn this engine into `after` and return `out`.
    open spec fn finishes(self, after: Self, out: Result<(), RecoveryInstallError>) -> bool {
        true
    }

    /// [`Engine::capture_snapshot`] may return `out`.
    open spec fn captures(self, out: EngineSnapshotView) -> bool {
        true
    }

    /// [`Engine::restore_snapshot`] may return `out` for `snapshot`.
    open spec fn restores(snapshot: EngineSnapshotView, out: Option<Self>) -> bool {
        true
    }

    /// Creates an engine without any state.
    fn empty() -> (out: Self)
        ensures
            out.starts(),
    ;

    /// Executes an ordered group of commands without publishing anything.
    fn prepare_batch(&self, commands: Vec<TimedCommand>) -> (out: Result<
        PreparedBatch<Self::Changes>,
        PreparationError,
    >)
        ensures
            self.prepares(commands@, out),
    ;

    /// Checks that a prepared batch can still be published.
    fn can_publish(&self, changes: &Self::Changes) -> (out: Result<(), PreparationError>)
        ensures
            self.admits(*changes, out),
    ;

    /// Installs a prepared batch.
    fn publish_batch(&mut self, changes: Self::Changes)
        ensures
            old(self).publishes(changes, *final(self)),
    ;

    /// Installs one recovered transition.
    fn install(&mut self, transition: DurableTransition) -> (out: Result<
        (),
        RecoveryInstallError,
    >)
        ensures
            old(self).installs(transition@, *final(self), out),
    ;

    /// Rebuilds the indexes over the recovered state.
    fn finish_recovery(&mut self) -> (out: Result<(), RecoveryInstallError>)
        ensures
            old(self).finishes(*final(self), out),
    ;

    /// Copies the authoritative state.
    fn capture_snapshot(&self) -> (out: EngineSnapshot)
        ensures
            self.captures(out@),
    ;

    /// Restores authoritative state without indexes, unless it is inconsistent.
    fn restore_snapshot(snapshot: EngineSnapshot) -> (out: Option<Self>)
        ensures
            Self::restores(snapshot@, out),
    ;
}

/// The model of an [`IdempotencyRecord`].
#[verifier::ext_equal]
pub struct IdempotencyRecordView {
    /// Who submitted the command.
    pub client_id: Seq<char>,
    /// Key under which it is repeated.
    pub idempotency_key: Seq<char>,
    /// Hash of the command.
    pub command_hash: Seq<u8>,
    /// What it returned.
    pub response: Result<CommandResultView, DomainError>,
}

/// What a command returned when it was first seen.
#[derive(Debug, PartialEq, Eq)]
pub struct IdempotencyRecord {
    client_id: ClientId,
    idempotency_key: IdempotencyKey,
    command_hash: CommandHash,
    response: CommandResponse,
}

impl View for IdempotencyRecord {
    type V = IdempotencyRecordView;

    closed spec fn view(&self) -> IdempotencyRecordView {
        IdempotencyRecordView {
            client_id: self.client_id@,
            idempotency_key: self.idempotency_key@,
            command_hash: self.command_hash@,
            response: outcome::response_view(self.response),
        }
    }
}

impl IdempotencyRecord {
    /// Creates a record.
    pub fn new(
        client_id: ClientId,
        idempotency_key: IdempotencyKey,
        command_hash: CommandHash,
        response: CommandResponse,
    ) -> (out: IdempotencyRecord)
        ensures
            out@ == (IdempotencyRecordView {
                client_id: client_id@,
                idempotency_key: idempotency_key@,
                command_hash: command_hash@,
                response: outcome::response_view(response),
            }),
    {
        IdempotencyRecord { client_id, idempotency_key, command_hash, response }
    }

    /// Returns who submitted the command.
    pub fn client_id(&self) -> (out: &ClientId)
        ensures
            out@ == self@.client_id,
    {
        &self.client_id
    }

    /// Returns the key under which it is repeated.
    pub fn idempotency_key(&self) -> (out: &IdempotencyKey)
        ensures
            out@ == self@.idempotency_key,
    {
        &self.idempotency_key
    }

    /// Returns the hash of the command.
    pub fn command_hash(&self) -> (out: &CommandHash)
        ensures
            out@ == self@.command_hash,
    {
        &self.command_hash
    }

    /// Returns whether the record satisfies the rules of its type: its response does.
    pub fn is_valid(&self) -> (out: bool)
        ensures
            out == self@.valid(),
    {
        let hash = self.command_hash.as_bytes();
        assert(hash@.len() == 32);
        response_is_valid(&self.response)
    }

    /// Returns what it returned.
    pub fn response(&self) -> (out: &CommandResponse)
        ensures
            outcome::response_view(*out) == self@.response,
    {
        &self.response
    }
}

impl Wire for IdempotencyRecordView {
    open spec fn valid(self) -> bool {
        &&& self.command_hash.len() == 32
        &&& self.response.valid()
    }

    open spec fn fits(self, limits: Limits) -> bool {
        &&& model::string_fits(self.client_id, limits)
        &&& model::string_fits(self.idempotency_key, limits)
        &&& self.response.fits(limits)
    }

    #[verifier::opaque]
    open spec fn enc(self) -> Enc {
        model::enc_string("client id", self.client_id).followed_by(
            model::enc_string("idempotency key", self.idempotency_key),
        ).followed_by(
            Enc::of(self.command_hash),
        ).followed_by(
            self.response.enc(),
        )
    }

    #[verifier::opaque]
    open spec fn parse(data: Seq<u8>, pos: int, limits: Limits) -> Parsed<IdempotencyRecordView> {
        match model::parse_string(data, pos, limits, "client id") {
            Err(error) => Err(error),
            Ok((client_id, p1)) => match model::parse_string(data, p1, limits, "idempotency key") {
                Err(error) => Err(error),
                Ok((idempotency_key, p2)) => match model::parse_raw(data, p2, 32) {
                    Err(error) => Err(error),
                    Ok((command_hash, p3)) => match <Result<CommandResultView, DomainError> as Wire>::parse(
                        data,
                        p3,
                        limits,
                    ) {
                        Err(error) => Err(error),
                        Ok((response, stop)) => Ok(
                            (
                                IdempotencyRecordView {
                                    client_id,
                                    idempotency_key,
                                    command_hash,
                                    response,
                                },
                                stop,
                            ),
                        ),
                    },
                },
            },
        }
    }

    proof fn lemma_parse(data: Seq<u8>, pos: int, limits: Limits, cut: int) {
        broadcast use {model::lemma_at_add, model::lemma_le_len};

        reveal(<IdempotencyRecordView as Wire>::enc);
        reveal(<IdempotencyRecordView as Wire>::parse);
        model::lemma_parse_string(data, pos, limits, "client id", cut);
        if let Ok((_, p1)) = model::parse_string(data, pos, limits, "client id") {
            model::lemma_parse_string(data, p1, limits, "idempotency key", cut);
            if let Ok((_, p2)) = model::parse_string(data, p1, limits, "idempotency key") {
                model::lemma_parse_raw(data, p2, 32, cut);
                if let Ok((_, p3)) = model::parse_raw(data, p2, 32) {
                    <Result<CommandResultView, DomainError> as Wire>::lemma_parse(
                        data,
                        p3,
                        limits,
                        cut,
                    );
                }
            }
        }
    }

    proof fn lemma_enc(self, data: Seq<u8>, pos: int, limits: Limits) {
        broadcast use {model::lemma_at_add, model::lemma_le_len};

        reveal(<IdempotencyRecordView as Wire>::enc);
        reveal(<IdempotencyRecordView as Wire>::parse);
        model::lemma_string_enc(self.client_id, data, pos, limits, "client id");
        let p1 = pos + model::enc_string("client id", self.client_id).bytes.len();
        model::lemma_string_enc(self.idempotency_key, data, p1, limits, "idempotency key");
        let p2 = p1 + model::enc_string("idempotency key", self.idempotency_key).bytes.len();
        model::lemma_raw_enc(self.command_hash, data, p2);
        let p3 = p2 + Enc::of(self.command_hash).bytes.len();
        self.response.lemma_enc(data, p3, limits);
    }

    proof fn lemma_fits(self, limits: Limits) {
        reveal(<IdempotencyRecordView as Wire>::enc);
        self.response.lemma_fits(limits);
    }
}

impl Encode for IdempotencyRecord {
    fn encode(&self, writer: &mut Writer) -> (out: Result<(), StorageError>) {
        broadcast use crate::wire::writer::lemma_written_chain;

        reveal(<IdempotencyRecordView as Wire>::enc);
        writer.string("client id", self.client_id.as_str())?;
        writer.string("idempotency key", self.idempotency_key.as_str())?;
        writer.raw(self.command_hash.as_bytes().as_slice());
        write_response(&self.response, writer)?;
        Ok(())
    }
}

impl Decode for IdempotencyRecord {
    fn decode(reader: &mut Reader) -> (out: Result<IdempotencyRecord, StorageError>) {
        reveal(<IdempotencyRecordView as Wire>::parse);
        let client_id = reader.string("client id")?;
        let idempotency_key = reader.string("idempotency key")?;
        let command_hash = CommandHash::read(reader)?;
        let response = read_response(reader)?;
        Ok(
            IdempotencyRecord::new(
                ClientId::new(client_id),
                IdempotencyKey::new(idempotency_key),
                command_hash,
                response,
            ),
        )
    }
}

/// The model of an [`EngineSnapshot`].
#[verifier::ext_equal]
pub struct EngineSnapshotView {
    /// All resource pools.
    pub resource_pools: Seq<ResourcePoolView>,
    /// All promises.
    pub promises: Seq<PromiseView>,
    /// The events that were not pruned.
    pub events: Seq<EventView>,
    /// What commands returned when they were first seen.
    pub idempotency_records: Seq<IdempotencyRecordView>,
    /// Domain sequence.
    pub sequence: u64,
    /// Publication revision.
    pub publication_revision: u128,
    /// Sequence through which events were pruned.
    pub events_pruned_through: u64,
}

/// Authoritative engine state.
#[derive(Debug, PartialEq, Eq)]
pub struct EngineSnapshot {
    /// All resource pools.
    pub resource_pools: Vec<ResourcePool>,
    /// All promises.
    pub promises: Vec<Promise>,
    /// The events that were not pruned.
    pub events: Vec<Event>,
    /// What commands returned when they were first seen.
    pub idempotency_records: Vec<IdempotencyRecord>,
    /// Domain sequence.
    pub sequence: SequenceNumber,
    /// Publication revision.
    pub publication_revision: u128,
    /// Sequence through which events were pruned.
    pub events_pruned_through: SequenceNumber,
}

impl View for EngineSnapshot {
    type V = EngineSnapshotView;

    open spec fn view(&self) -> EngineSnapshotView {
        EngineSnapshotView {
            resource_pools: model::views(self.resource_pools@),
            promises: model::views(self.promises@),
            events: model::views(self.events@),
            idempotency_records: model::views(self.idempotency_records@),
            sequence: self.sequence@,
            publication_revision: self.publication_revision,
            events_pruned_through: self.events_pruned_through@,
        }
    }
}

} // verus!
