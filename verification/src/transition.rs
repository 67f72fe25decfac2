//! Durable effects of a command and their versioned payload.
//!
//! A payload is one version byte followed by the command as a length-prefixed command payload,
//! the identity under which the command is repeated, its hash, its response, everything that it
//! changed in canonical order, and the domain sequence after it.

use crate::codec;
use crate::codec::{decode_command, encode_command};
use crate::command::{ClientId, Command, CommandView, IdempotencyKey};
use crate::domain::promise::{
    Promise, PromiseView, ResourcePool, ResourcePoolView, SequenceNumber,
};
use crate::error::{DomainError, StorageError};
use crate::event::{Event, EventView};
use crate::outcome;
use crate::outcome::{
    read_response, response_is_valid, write_response, CommandResponse, CommandResultView,
};
use crate::wire::assured::{assure_all, is_ordered, Assured};
use crate::wire::model;
use crate::wire::model::{Enc, Limits, Parsed, Wire};
use crate::wire::reader;
use crate::wire::reader::{Decode, Reader};
use crate::wire::writer::{Encode, Writer};
use vstd::prelude::*;

verus! {

/// Current transition payload format version.
pub const TRANSITION_FORMAT_VERSION: u8 = 1;

/// Hash that identifies the content of a command.
#[derive(Debug, Clone, Copy, PartialEq, Eq, Hash)]
pub struct CommandHash {
    bytes: [u8; 32],
}

impl View for CommandHash {
    type V = Seq<u8>;

    closed spec fn view(&self) -> Seq<u8> {
        self.bytes@
    }
}

impl CommandHash {
    /// Creates a hash from its bytes.
    pub fn from_bytes(bytes: [u8; 32]) -> (out: CommandHash)
        ensures
            out@ == bytes@,
    {
        CommandHash { bytes }
    }

    /// Returns the bytes.
    pub fn as_bytes(&self) -> (out: &[u8; 32])
        ensures
            out@ == self@,
    {
        &self.bytes
    }

    /// Decodes a hash.
    pub fn read(reader: &mut Reader) -> (out: Result<CommandHash, StorageError>)
        requires
            old(reader).wf(),
        ensures
            old(reader).got(
                *final(reader),
                model::parse_raw(old(reader).data(), old(reader).pos(), 32),
                reader::viewed(out),
            ),
    {
        let part = reader.take(32)?;
        let mut bytes: [u8; 32] = [0u8; 32];
        let mut i: usize = 0;
        while i < 32
            invariant
                i <= 32,
                part@.len() == 32,
                forall|k: int| 0 <= k < i ==> bytes@[k] == part@[k],
            decreases 32 - i,
        {
            bytes[i] = part[i];
            i += 1;
        }
        assert(bytes@ =~= part@);
        Ok(CommandHash { bytes })
    }
}

/// A command as a length-prefixed payload of its own.
pub open spec fn enc_command_block(command: CommandView) -> Enc {
    match codec::command_enc(command).fail {
        Some(error) => Enc::failed(error),
        None => model::enc_len("command", codec::command_enc(command).bytes.len()).followed_by(
            codec::command_enc(command),
        ),
    }
}

/// A command in a length-prefixed payload of its own.
pub open spec fn parse_command_block(
    data: Seq<u8>,
    pos: int,
    limits: Limits,
) -> Parsed<CommandView> {
    match reader::parse_bytes(data, pos, limits, "command") {
        Err(error) => Err(error),
        Ok((bytes, end)) => match codec::command_dec(bytes) {
            Err(error) => Err(error),
            Ok(command) => Ok((command, end)),
        },
    }
}

proof fn lemma_parse_command_block(data: Seq<u8>, pos: int, limits: Limits, cut: int)
    requires
        0 <= pos <= data.len(),
    ensures
        parse_command_block(data, pos, limits) matches Ok((command, end)) ==> {
            &&& pos <= end <= data.len()
            &&& command.valid()
            &&& codec::command_enc(command).bytes.len() <= limits.items
            &&& enc_command_block(command).ok()
            &&& end == pos + enc_command_block(command).bytes.len()
            &&& model::at(data, pos, enc_command_block(command).bytes)
            &&& pos <= cut <= data.len() ==> parse_command_block(data.take(cut), pos, limits)
                == model::cut_off((command, end), cut)
        },
{
    broadcast use model::lemma_at_add;

    model::lemma_parse_count(data, pos, limits, "command", cut);
    if let Ok((length, start)) = model::parse_count(data, pos, limits, "command") {
        model::lemma_parse_raw(data, start, length, cut);
        if let Ok((bytes, _)) = model::parse_raw(data, start, length) {
            codec::law_command_payload_is_canonical(bytes);
        }
    }
}

proof fn lemma_command_block_enc(command: CommandView, data: Seq<u8>, pos: int, limits: Limits)
    requires
        command.valid(),
        codec::command_enc(command).bytes.len() <= limits.items,
        enc_command_block(command).ok(),
        model::at(data, pos, enc_command_block(command).bytes),
    ensures
        parse_command_block(data, pos, limits) == Ok::<(CommandView, int), StorageError>(
            (command, pos + enc_command_block(command).bytes.len()),
        ),
{
    broadcast use model::lemma_at_add;

    let bytes = codec::command_enc(command).bytes;
    model::lemma_count_enc(bytes.len(), data, pos, limits, "command");
    model::lemma_raw_enc(bytes, data, pos + 4);
    codec::law_command_round_trip(command);
}

/// Appends a command as a length-prefixed payload of its own.
fn write_command_block(command: &Command, writer: &mut Writer) -> (out: Result<(), StorageError>)
    ensures
        crate::wire::writer::written(old(writer)@, final(writer)@, enc_command_block(command@)),
        out == enc_command_block(command@).status(),
{
    broadcast use crate::wire::writer::lemma_written_chain;

    let bytes = match encode_command(command) {
        Ok(bytes) => bytes,
        Err(error) => {
            proof {
                reveal(crate::wire::writer::written);
                assert(old(writer)@ + Seq::<u8>::empty() =~= old(writer)@);
            }
            return Err(error);
        },
    };
    writer.len("command", bytes.len())?;
    writer.raw(bytes.as_slice());
    Ok(())
}

/// Decodes a command from a length-prefixed payload of its own.
fn read_command_block(reader: &mut Reader) -> (out: Result<Command, StorageError>)
    requires
        old(reader).wf(),
    ensures
        old(reader).got(
            *final(reader),
            parse_command_block(old(reader).data(), old(reader).pos(), old(reader).limits()),
            reader::viewed(out),
        ),
{
    let bytes = reader.bytes("command")?;
    decode_command(bytes)
}

/// The model of a [`DurableTransition`].
#[verifier::ext_equal]
pub struct DurableTransitionView {
    /// The command.
    pub command: CommandView,
    /// Who submitted it.
    pub client_id: Seq<char>,
    /// Key under which it is repeated.
    pub idempotency_key: Seq<char>,
    /// Hash of the command.
    pub command_hash: Seq<u8>,
    /// What it returned.
    pub response: Result<CommandResultView, DomainError>,
    /// Pools that it created or changed, by identity.
    pub resource_pools: Seq<ResourcePoolView>,
    /// Promises that it created or changed, by identity.
    pub promises: Seq<PromiseView>,
    /// Events that it caused, by sequence.
    pub events: Seq<EventView>,
    /// Domain sequence after it.
    pub final_sequence: u64,
}

/// Everything that a command changed, with the command itself.
#[derive(Debug, PartialEq, Eq)]
pub struct DurableTransition {
    command: Command,
    client_id: ClientId,
    idempotency_key: IdempotencyKey,
    command_hash: CommandHash,
    response: CommandResponse,
    resource_pools: Vec<ResourcePool>,
    promises: Vec<Promise>,
    events: Vec<Event>,
    final_sequence: SequenceNumber,
}

impl View for DurableTransition {
    type V = DurableTransitionView;

    closed spec fn view(&self) -> DurableTransitionView {
        DurableTransitionView {
            command: self.command@,
            client_id: self.client_id@,
            idempotency_key: self.idempotency_key@,
            command_hash: self.command_hash@,
            response: outcome::response_view(self.response),
            resource_pools: model::views(self.resource_pools@),
            promises: model::views(self.promises@),
            events: model::views(self.events@),
            final_sequence: self.final_sequence@,
        }
    }
}

impl DurableTransition {
    /// Rebuilds a stored transition.
    pub fn restore(
        command: Command,
        client_id: ClientId,
        idempotency_key: IdempotencyKey,
        command_hash: CommandHash,
        response: CommandResponse,
        resource_pools: Vec<ResourcePool>,
        promises: Vec<Promise>,
        events: Vec<Event>,
        final_sequence: SequenceNumber,
    ) -> (out: DurableTransition)
        ensures
            out@ == (DurableTransitionView {
                command: command@,
                client_id: client_id@,
                idempotency_key: idempotency_key@,
                command_hash: command_hash@,
                response: outcome::response_view(response),
                resource_pools: model::views(resource_pools@),
                promises: model::views(promises@),
                events: model::views(events@),
                final_sequence: final_sequence@,
            }),
    {
        DurableTransition {
            command,
            client_id,
            idempotency_key,
            command_hash,
            response,
            resource_pools,
            promises,
            events,
            final_sequence,
        }
    }

    /// Returns whether the transition satisfies the rules of its type: its response does, and
    /// its lists are in order.
    pub fn is_valid(&self) -> (out: bool)
        ensures
            out == self@.valid(),
    {
        self.command.assure();
        assure_all(self.resource_pools.as_slice());
        assure_all(self.promises.as_slice());
        assure_all(self.events.as_slice());
        response_is_valid(&self.response) && is_ordered(self.resource_pools.as_slice(), 1)
            && is_ordered(self.promises.as_slice(), 1) && is_ordered(self.events.as_slice(), 0)
    }

    /// Returns the command.
    pub fn command(&self) -> (out: &Command)
        ensures
            out@ == self@.command,
    {
        &self.command
    }

    /// Returns who submitted it.
    pub fn client_id(&self) -> (out: &ClientId)
        ensures
            out@ == self@.client_id,
    {
        &self.client_id
    }

    /// Returns the key under which it is repeated.
    pub fn idempotency_key(&self) -> (out: &IdempotencyKey)
        ensures
            out@ == self@.idempotency_key,
    {
        &self.idempotency_key
    }

    /// Returns the hash of the command.
    pub fn command_hash(&self) -> (out: &CommandHash)
        ensures
            out@ == self@.command_hash,
    {
        &self.command_hash
    }

    /// Returns what it returned.
    pub fn response(&self) -> (out: &CommandResponse)
        ensures
            outcome::response_view(*out) == self@.response,
    {
        &self.response
    }

    /// Returns the pools that it created or changed.
    pub fn resource_pools(&self) -> (out: &[ResourcePool])
        ensures
            model::views(out@) == self@.resource_pools,
    {
        self.resource_pools.as_slice()
    }

    /// Returns the promises that it created or changed.
    pub fn promises(&self) -> (out: &[Promise])
        ensures
            model::views(out@) == self@.promises,
    {
        self.promises.as_slice()
    }

    /// Returns the events that it caused.
    pub fn events(&self) -> (out: &[Event])
        ensures
            model::views(out@) == self@.events,
    {
        self.events.as_slice()
    }

    /// Returns the domain sequence after it.
    pub fn final_sequence(&self) -> (out: SequenceNumber)
        ensures
            out@ == self@.final_sequence,
    {
        self.final_sequence
    }
}

impl Wire for DurableTransitionView {
    open spec fn valid(self) -> bool {
        &&& self.command.valid()
        &&& self.command_hash.len() == 32
        &&& self.response.valid()
        &&& model::all_valid(self.resource_pools)
        &&& model::ordered(self.resource_pools, 1)
        &&& model::all_valid(self.promises)
        &&& model::ordered(self.promises, 1)
        &&& model::all_valid(self.events)
        &&& model::ordered(self.events, 0)
    }

    open spec fn fits(self, limits: Limits) -> bool {
        &&& codec::command_enc(self.command).bytes.len() <= limits.items
        &&& model::string_fits(self.client_id, limits)
        &&& model::string_fits(self.idempotency_key, limits)
        &&& self.response.fits(limits)
        &&& model::list_fits(self.resource_pools, limits)
        &&& model::list_fits(self.promises, limits)
        &&& model::list_fits(self.events, limits)
    }

    #[verifier::opaque]
    open spec fn enc(self) -> Enc {
        enc_command_block(self.command).followed_by(
            model::enc_string("client_id", self.client_id),
        ).followed_by(
            model::enc_string("idempotency_key", self.idempotency_key),
        ).followed_by(
            Enc::of(self.command_hash),
        ).followed_by(
            self.response.enc(),
        ).followed_by(
            model::enc_list("resource pools", self.resource_pools),
        ).followed_by(
            model::enc_list("promises", self.promises),
        ).followed_by(
            model::enc_list("events", self.events),
        ).followed_by(
            self.final_sequence.enc(),
        )
    }

    #[verifier::opaque]
    open spec fn parse(data: Seq<u8>, pos: int, limits: Limits) -> Parsed<DurableTransitionView> {
        match parse_command_block(data, pos, limits) {
            Err(error) => Err(error),
            Ok((command, p1)) => match model::parse_string(data, p1, limits, "client_id") {
                Err(error) => Err(error),
                Ok((client_id, p2)) => match model::parse_string(
                    data,
                    p2,
                    limits,
                    "idempotency_key",
                ) {
                    Err(error) => Err(error),
                    Ok((idempotency_key, p3)) => match model::parse_raw(data, p3, 32) {
                        Err(error) => Err(error),
                        Ok((command_hash, p4)) => match <Result<CommandResultView, DomainError> as Wire>::parse(
                            data,
                            p4,
                            limits,
                        ) {
                            Err(error) => Err(error),
                            Ok((response, p5)) => match model::parse_ordered::<ResourcePoolView>(
                                data,
                                p5,
                                limits,
                                "resource pools",
                                1,
                                "non-canonical resource pool order",
                            ) {
                                Err(error) => Err(error),
                                Ok((resource_pools, p6)) => match model::parse_ordered::<PromiseView>(
                                    data,
                                    p6,
                                    limits,
                                    "promises",
                                    1,
                                    "non-canonical promise order",
                                ) {
                                    Err(error) => Err(error),
                                    Ok((promises, p7)) => match model::parse_ordered::<EventView>(
                                        data,
                                        p7,
                                        limits,
                                        "events",
                                        0,
                                        "events are not sequence ordered",
                                    ) {
                                        Err(error) => Err(error),
                                        Ok((events, p8)) => match u64::parse(data, p8, limits) {
                                            Err(error) => Err(error),
                                            Ok((final_sequence, stop)) => Ok(
                                                (
                                                    DurableTransitionView {
                                                        command,
                                                        client_id,
                                                        idempotency_key,
                                                        command_hash,
                                                        response,
                                                        resource_pools,
                                                        promises,
                                                        events,
                                                        final_sequence,
                                                    },
                                                    stop,
                                                ),
                                            ),
                                        },
                                    },
                                },
                            },
                        },
                    },
                },
            },
        }
    }

    #[verifier::rlimit(100)]
    #[verifier::spinoff_prover]
    proof fn lemma_parse(data: Seq<u8>, pos: int, limits: Limits, cut: int) {
        broadcast use {model::lemma_at_add, model::lemma_le_len};

        reveal(<DurableTransitionView as Wire>::enc);
        reveal(<DurableTransitionView as Wire>::parse);
        lemma_parse_command_block(data, pos, limits, cut);
        if let Ok((_, p1)) = parse_command_block(data, pos, limits) {
            model::lemma_parse_string(data, p1, limits, "client_id", cut);
            if let Ok((_, p2)) = model::parse_string(data, p1, limits, "client_id") {
                model::lemma_parse_string(data, p2, limits, "idempotency_key", cut);
                if let Ok((_, p3)) = model::parse_string(data, p2, limits, "idempotency_key") {
                    model::lemma_parse_raw(data, p3, 32, cut);
                    if let Ok((_, p4)) = model::parse_raw(data, p3, 32) {
                        <Result<CommandResultView, DomainError> as Wire>::lemma_parse(
                            data,
                            p4,
                            limits,
                            cut,
                        );
                        if let Ok((_, p5)) = <Result<CommandResultView, DomainError> as Wire>::parse(
                            data,
                            p4,
                            limits,
                        ) {
                            model::lemma_parse_ordered::<ResourcePoolView>(
                                data,
                                p5,
                                limits,
                                "resource pools",
                                1,
                                "non-canonical resource pool order",
                                cut,
                            );
                            if let Ok((_, p6)) = model::parse_ordered::<ResourcePoolView>(
                                data,
                                p5,
                                limits,
                                "resource pools",
                                1,
                                "non-canonical resource pool order",
                            ) {
                                model::lemma_parse_ordered::<PromiseView>(
                                    data,
                                    p6,
                                    limits,
                                    "promises",
                                    1,
                                    "non-canonical promise order",
                                    cut,
                                );
                                if let Ok((_, p7)) = model::parse_ordered::<PromiseView>(
                                    data,
                                    p6,
                                    limits,
                                    "promises",
                                    1,
                                    "non-canonical promise order",
                                ) {
                                    model::lemma_parse_ordered::<EventView>(
                                        data,
                                        p7,
                                        limits,
                                        "events",
                                        0,
                                        "events are not sequence ordered",
                                        cut,
                                    );
                                    if let Ok((_, p8)) = model::parse_ordered::<EventView>(
                                        data,
                                        p7,
                                        limits,
                                        "events",
                                        0,
                                        "events are not sequence ordered",
                                    ) {
                                        u64::lemma_parse(data, p8, limits, cut);
                                    }
                                }
                            }
                        }
                    }
                }
            }
        }
    }

    proof fn lemma_enc(self, data: Seq<u8>, pos: int, limits: Limits) {
        broadcast use {model::lemma_at_add, model::lemma_le_len};

        reveal(<DurableTransitionView as Wire>::enc);
        reveal(<DurableTransitionView as Wire>::parse);
        lemma_command_block_enc(self.command, data, pos, limits);
        let p1 = pos + enc_command_block(self.command).bytes.len();
        model::lemma_string_enc(self.client_id, data, p1, limits, "client_id");
        let p2 = p1 + model::enc_string("client_id", self.client_id).bytes.len();
        model::lemma_string_enc(self.idempotency_key, data, p2, limits, "idempotency_key");
        let p3 = p2 + model::enc_string("idempotency_key", self.idempotency_key).bytes.len();
        model::lemma_raw_enc(self.command_hash, data, p3);
        let p4 = p3 + Enc::of(self.command_hash).bytes.len();
        self.response.lemma_enc(data, p4, limits);
        let p5 = p4 + self.response.enc().bytes.len();
        model::lemma_ordered_enc(
            self.resource_pools,
            data,
            p5,
            limits,
            "resource pools",
            1,
            "non-canonical resource pool order",
        );
        let p6 = p5 + model::enc_list("resource pools", self.resource_pools).bytes.len();
        model::lemma_ordered_enc(
            self.promises,
            data,
            p6,
            limits,
            "promises",
            1,
            "non-canonical promise order",
        );
        let p7 = p6 + model::enc_list("promises", self.promises).bytes.len();
        model::lemma_ordered_enc(
            self.events,
            data,
            p7,
            limits,
            "events",
            0,
            "events are not sequence ordered",
        );
        let p8 = p7 + model::enc_list("events", self.events).bytes.len();
        self.final_sequence.lemma_enc(data, p8, limits);
    }

    proof fn lemma_fits(self, limits: Limits) {
        reveal(<DurableTransitionView as Wire>::enc);
        self.response.lemma_fits(limits);
        model::lemma_list_fits(self.resource_pools, limits, "resource pools");
        model::lemma_list_fits(self.promises, limits, "promises");
        model::lemma_list_fits(self.events, limits, "events");
    }
}

impl Encode for DurableTransition {
    fn encode(&self, writer: &mut Writer) -> (out: Result<(), StorageError>) {
        reveal(<DurableTransitionView as Wire>::enc);
        let ghost before = writer@;
        let ghost model = self@;
        write_command_block(&self.command, writer)?;
        let ghost mut sofar = enc_command_block(model.command);
        let ghost middle = writer@;
        let step = writer.string("client_id", self.client_id.as_str());
        proof {
            let next = model::enc_string("client_id", model.client_id);
            crate::wire::writer::lemma_written_chain(before, middle, writer@, sofar, next);
            sofar = sofar.followed_by(next);
        }
        step?;
        let ghost middle = writer@;
        let step = writer.string("idempotency_key", self.idempotency_key.as_str());
        proof {
            let next = model::enc_string("idempotency_key", model.idempotency_key);
            crate::wire::writer::lemma_written_chain(before, middle, writer@, sofar, next);
            sofar = sofar.followed_by(next);
        }
        step?;
        let ghost middle = writer@;
        writer.raw(self.command_hash.as_bytes().as_slice());
        proof {
            let next = Enc::of(model.command_hash);
            crate::wire::writer::lemma_written_chain(before, middle, writer@, sofar, next);
            sofar = sofar.followed_by(next);
        }
        let ghost middle = writer@;
        let step = write_response(&self.response, writer);
        proof {
            let next = model.response.enc();
            crate::wire::writer::lemma_written_chain(before, middle, writer@, sofar, next);
            sofar = sofar.followed_by(next);
        }
        step?;
        let ghost middle = writer@;
        let step = writer.list("resource pools", self.resource_pools.as_slice());
        proof {
            let next = model::enc_list("resource pools", model.resource_pools);
            crate::wire::writer::lemma_written_chain(before, middle, writer@, sofar, next);
            sofar = sofar.followed_by(next);
        }
        step?;
        let ghost middle = writer@;
        let step = writer.list("promises", self.promises.as_slice());
        proof {
            let next = model::enc_list("promises", model.promises);
            crate::wire::writer::lemma_written_chain(before, middle, writer@, sofar, next);
            sofar = sofar.followed_by(next);
        }
        step?;
        let ghost middle = writer@;
        let step = writer.list("events", self.events.as_slice());
        proof {
            let next = model::enc_list("events", model.events);
            crate::wire::writer::lemma_written_chain(before, middle, writer@, sofar, next);
            sofar = sofar.followed_by(next);
        }
        step?;
        let ghost middle = writer@;
        writer.u64(self.final_sequence.get());
        proof {
            let next = model.final_sequence.enc();
            crate::wire::writer::lemma_written_chain(before, middle, writer@, sofar, next);
            sofar = sofar.followed_by(next);
        }
        Ok(())
    }
}

impl Decode for DurableTransition {
    fn decode(reader: &mut Reader) -> (out: Result<DurableTransition, StorageError>) {
        reveal(<DurableTransitionView as Wire>::parse);
        let command = read_command_block(reader)?;
        let client_id = reader.string("client_id")?;
        let idempotency_key = reader.string("idempotency_key")?;
        let command_hash = CommandHash::read(reader)?;
        let response = read_response(reader)?;
        let resource_pools = reader.ordered::<ResourcePool>(
            "resource pools",
            1,
            "non-canonical resource pool order",
        )?;
        let promises = reader.ordered::<Promise>("promises", 1, "non-canonical promise order")?;
        let events = reader.ordered::<Event>("events", 0, "events are not sequence ordered")?;
        let final_sequence = SequenceNumber::new(reader.u64()?);
        Ok(
            DurableTransition::restore(
                command,
                ClientId::new(client_id),
                IdempotencyKey::new(idempotency_key),
                command_hash,
                response,
                resource_pools,
                promises,
                events,
                final_sequence,
            ),
        )
    }
}

/// The payload of a transition.
pub open spec fn transition_enc(transition: DurableTransitionView) -> Enc {
    TRANSITION_FORMAT_VERSION.enc().followed_by(transition.enc())
}

/// The transition of a payload.
pub open spec fn transition_dec(bytes: Seq<u8>) -> Result<DurableTransitionView, StorageError> {
    match u8::parse(bytes, 0, reader::unbounded()) {
        Err(error) => Err(error),
        Ok((version, start)) => if version != TRANSITION_FORMAT_VERSION {
            Err(StorageError::UnsupportedTransitionVersion(version))
        } else {
            match DurableTransitionView::parse(bytes, start, reader::unbounded()) {
                Err(error) => Err(error),
                Ok((transition, end)) => if end == bytes.len() {
                    Ok(transition)
                } else {
                    Err(StorageError::CorruptRecord("trailing transition payload bytes"))
                },
            }
        },
    }
}

/// A transition that can be encoded decodes to itself.
pub proof fn law_transition_round_trip(transition: DurableTransitionView)
    requires
        transition.valid(),
        transition_enc(transition).ok(),
    ensures
        transition_dec(
            transition_enc(transition).bytes,
        ) == Ok::<DurableTransitionView, StorageError>(transition),
{
    lemma_payload_with_tail(transition, seq![]);
    assert(transition_enc(transition).bytes + seq![] =~= transition_enc(transition).bytes);
}

/// Only valid transitions are decoded, and only from the payload that encoding them gives: each
/// transition has one payload.
pub proof fn law_transition_payload_is_canonical(bytes: Seq<u8>)
    ensures
        transition_dec(bytes) matches Ok(
            transition,
        ) ==> transition.valid() && transition_enc(transition) == Enc::of(
            bytes,
        ),
{
    broadcast use {model::lemma_at_add, model::lemma_le_len};

    let limits = reader::unbounded();
    u8::lemma_parse(bytes, 0, limits, 0);
    if let Ok((version, start)) = u8::parse(bytes, 0, limits) {
        DurableTransitionView::lemma_parse(bytes, start, limits, start);
        if let Ok(transition) = transition_dec(bytes) {
            assert(model::at(bytes, 0, transition_enc(transition).bytes));
            reveal(model::at);
            assert(bytes.subrange(0, bytes.len() as int) =~= bytes);
        }
    }
}

/// A payload that misses some of its last bytes is truncated.
pub proof fn law_transition_prefix_is_truncated(bytes: Seq<u8>, cut: int)
    requires
        transition_dec(bytes) is Ok,
        0 <= cut < bytes.len(),
    ensures
        transition_dec(bytes.take(cut)) == Err::<DurableTransitionView, StorageError>(
            StorageError::TruncatedPayload,
        ),
{
    broadcast use model::lemma_le_len;

    let limits = reader::unbounded();
    u8::lemma_parse(bytes, 0, limits, cut);
    if let Ok((version, start)) = u8::parse(bytes, 0, limits) {
        DurableTransitionView::lemma_parse(bytes, start, limits, cut);
    }
}

/// A payload with anything behind it is refused.
pub proof fn law_transition_trailing_bytes_are_rejected(bytes: Seq<u8>, tail: Seq<u8>)
    requires
        transition_dec(bytes) is Ok,
        tail.len() > 0,
    ensures
        transition_dec(bytes + tail) == Err::<DurableTransitionView, StorageError>(
            StorageError::CorruptRecord("trailing transition payload bytes"),
        ),
{
    law_transition_payload_is_canonical(bytes);
    lemma_payload_with_tail(transition_dec(bytes)->Ok_0, tail);
}

/// A payload is decoded in full whatever follows it.
proof fn lemma_payload_with_tail(transition: DurableTransitionView, tail: Seq<u8>)
    requires
        transition.valid(),
        transition_enc(transition).ok(),
    ensures
        transition_dec(transition_enc(transition).bytes + tail) == if tail.len() == 0 {
            Ok::<DurableTransitionView, StorageError>(transition)
        } else {
            Err(StorageError::CorruptRecord("trailing transition payload bytes"))
        },
{
    broadcast use {model::lemma_at_add, model::lemma_le_len};

    let limits = reader::unbounded();
    let bytes = transition_enc(transition).bytes;
    let data = bytes + tail;
    assert(model::at(data, 0, bytes)) by {
        reveal(model::at);
        assert(data.subrange(0, bytes.len() as int) =~= bytes);
    }
    u8::lemma_enc(TRANSITION_FORMAT_VERSION, data, 0, limits);
    transition.lemma_fits(limits);
    transition.lemma_enc(data, 1, limits);
}

/// Encodes a transition into its deterministic payload, which decodes to the transition where
/// that is valid.
pub fn encode_transition(transition: &DurableTransition) -> (out: Result<Vec<u8>, StorageError>)
    ensures
        match out {
            Ok(bytes) => Enc::of(bytes@) == transition_enc(transition@) && (
            transition@.valid() ==> transition_dec(bytes@) == Ok::<
                DurableTransitionView,
                StorageError,
            >(transition@)),
            Err(error) => transition_enc(transition@).fail == Some(error),
        },
{
    let mut bytes: Vec<u8> = Vec::new();
    encode_transition_into(transition, &mut bytes)?;
    assert(bytes@ =~= transition_enc(transition@).bytes);
    proof {
        if transition@.valid() {
            law_transition_round_trip(transition@);
        }
    }
    Ok(bytes)
}

/// Appends a transition to an existing buffer, or leaves the buffer as it is where the
/// transition cannot be encoded.
pub fn encode_transition_into(
    transition: &DurableTransition,
    destination: &mut Vec<u8>,
) -> (out: Result<(), StorageError>)
    ensures
        out == transition_enc(transition@).status(),
        final(destination)@ == if transition_enc(transition@).ok() {
            old(destination)@ + transition_enc(transition@).bytes
        } else {
            old(destination)@
        },
{
    broadcast use crate::wire::writer::lemma_written_chain;

    let start = destination.len();
    let mut buffer: Vec<u8> = Vec::new();
    core::mem::swap(&mut buffer, destination);
    let mut writer = Writer::new(buffer);
    writer.u8(TRANSITION_FORMAT_VERSION);
    let out = transition.encode(&mut writer);
    let mut bytes = writer.into_bytes();
    proof {
        reveal(crate::wire::writer::written);
    }
    if out.is_err() {
        bytes.truncate(start);
        assert(bytes@ =~= old(destination)@);
    }
    *destination = bytes;
    out
}

/// Decodes a complete transition payload. Values are rebuilt through their validating
/// constructors, lists must be in canonical order, and bytes behind the transition are
/// rejected.
pub fn decode_transition(bytes: &[u8]) -> (out: Result<DurableTransition, StorageError>)
    ensures
        reader::viewed(out) == transition_dec(bytes@),
{
    let mut reader = Reader::new(bytes);
    let version = reader.u8()?;
    if version != TRANSITION_FORMAT_VERSION {
        return Err(StorageError::UnsupportedTransitionVersion(version));
    }
    let transition = DurableTransition::decode(&mut reader)?;
    if !reader.is_empty() {
        return Err(StorageError::CorruptRecord("trailing transition payload bytes"));
    }
    Ok(transition)
}

} // verus!
