//! Deterministic, versioned command payloads.
//!
//! A payload is one version byte, the client identity, the idempotency key and the tagged
//! operation. Fixed-width integers and four-byte length prefixes are little-endian, identifiers
//! are 16 raw bytes, and lists keep their order.

use crate::command::{Command, CommandView};
use crate::error::StorageError;
use crate::wire::assured::Assured;
use crate::wire::model;
use crate::wire::model::{Enc, Wire};
use crate::wire::reader;
use crate::wire::reader::{Decode, Reader};
use crate::wire::writer::{Encode, Writer};
use vstd::prelude::*;

verus! {

/// Current command payload format version.
pub const COMMAND_FORMAT_VERSION: u8 = 1;

/// The payload of a command.
pub open spec fn command_enc(command: CommandView) -> Enc {
    COMMAND_FORMAT_VERSION.enc().followed_by(command.enc())
}

/// The command of a payload.
pub open spec fn command_dec(bytes: Seq<u8>) -> Result<CommandView, StorageError> {
    match u8::parse(bytes, 0, reader::unbounded()) {
        Err(error) => Err(error),
        Ok((version, start)) => if version != COMMAND_FORMAT_VERSION {
            Err(StorageError::UnsupportedVersion(version))
        } else {
            match CommandView::parse(bytes, start, reader::unbounded()) {
                Err(error) => Err(error),
                Ok((command, end)) => if end == bytes.len() {
                    Ok(command)
                } else {
                    Err(StorageError::CorruptRecord("trailing command payload bytes"))
                },
            }
        },
    }
}

/// A command that can be encoded decodes to itself.
pub proof fn law_command_round_trip(command: CommandView)
    requires
        command.valid(),
        command_enc(command).ok(),
    ensures
        command_dec(command_enc(command).bytes) == Ok::<CommandView, StorageError>(command),
{
    lemma_payload_with_tail(command, seq![]);
    assert(command_enc(command).bytes + seq![] =~= command_enc(command).bytes);
}

/// Only valid commands are decoded, and only from the payload that encoding them gives: each
/// command has one payload.
pub proof fn law_command_payload_is_canonical(bytes: Seq<u8>)
    ensures
        command_dec(bytes) matches Ok(command) ==> command.valid() && command_enc(command) == Enc::of(
            bytes,
        ),
{
    broadcast use {model::lemma_at_add, model::lemma_le_len};

    let limits = reader::unbounded();
    u8::lemma_parse(bytes, 0, limits, 0);
    if let Ok((version, start)) = u8::parse(bytes, 0, limits) {
        CommandView::lemma_parse(bytes, start, limits, start);
        if let Ok(command) = command_dec(bytes) {
            assert(model::at(bytes, 0, command_enc(command).bytes));
            reveal(model::at);
            assert(bytes.subrange(0, bytes.len() as int) =~= bytes);
        }
    }
}

/// A payload that misses some of its last bytes is truncated.
pub proof fn law_command_prefix_is_truncated(bytes: Seq<u8>, cut: int)
    requires
        command_dec(bytes) is Ok,
        0 <= cut < bytes.len(),
    ensures
        command_dec(bytes.take(cut)) == Err::<CommandView, StorageError>(
            StorageError::TruncatedPayload,
        ),
{
    broadcast use model::lemma_le_len;

    let limits = reader::unbounded();
    u8::lemma_parse(bytes, 0, limits, cut);
    if let Ok((version, start)) = u8::parse(bytes, 0, limits) {
        CommandView::lemma_parse(bytes, start, limits, cut);
    }
}

/// A payload with anything behind it is refused.
pub proof fn law_command_trailing_bytes_are_rejected(bytes: Seq<u8>, tail: Seq<u8>)
    requires
        command_dec(bytes) is Ok,
        tail.len() > 0,
    ensures
        command_dec(bytes + tail) == Err::<CommandView, StorageError>(
            StorageError::CorruptRecord("trailing command payload bytes"),
        ),
{
    law_command_payload_is_canonical(bytes);
    lemma_payload_with_tail(command_dec(bytes)->Ok_0, tail);
}

/// A payload is decoded in full whatever follows it.
proof fn lemma_payload_with_tail(command: CommandView, tail: Seq<u8>)
    requires
        command.valid(),
        command_enc(command).ok(),
    ensures
        command_dec(command_enc(command).bytes + tail) == if tail.len() == 0 {
            Ok::<CommandView, StorageError>(command)
        } else {
            Err(StorageError::CorruptRecord("trailing command payload bytes"))
        },
{
    broadcast use {model::lemma_at_add, model::lemma_le_len};

    let limits = reader::unbounded();
    let bytes = command_enc(command).bytes;
    let data = bytes + tail;
    assert(model::at(data, 0, bytes)) by {
        reveal(model::at);
        assert(data.subrange(0, bytes.len() as int) =~= bytes);
    }
    u8::lemma_enc(COMMAND_FORMAT_VERSION, data, 0, limits);
    command.lemma_fits(limits);
    command.lemma_enc(data, 1, limits);
}

/// Encodes a complete command into its deterministic payload, which decodes to the command.
pub fn encode_command(command: &Command) -> (out: Result<Vec<u8>, StorageError>)
    ensures
        match out {
            Ok(bytes) => Enc::of(bytes@) == command_enc(command@) && command_dec(bytes@) == Ok::<
                CommandView,
                StorageError,
            >(command@),
            Err(error) => command_enc(command@).fail == Some(error),
        },
{
    command.assure();
    let mut bytes: Vec<u8> = Vec::new();
    encode_command_into(command, &mut bytes)?;
    assert(bytes@ =~= command_enc(command@).bytes);
    proof {
        law_command_round_trip(command@);
    }
    Ok(bytes)
}

/// Appends a complete command to an existing buffer. Where encoding fails, what was encoded
/// before the failure stays in the buffer.
pub fn encode_command_into(command: &Command, destination: &mut Vec<u8>) -> (out: Result<
    (),
    StorageError,
>)
    ensures
        final(destination)@ == old(destination)@ + command_enc(command@).bytes,
        out == command_enc(command@).status(),
{
    broadcast use crate::wire::writer::lemma_written_chain;

    let mut buffer: Vec<u8> = Vec::new();
    core::mem::swap(&mut buffer, destination);
    let mut writer = Writer::new(buffer);
    writer.u8(COMMAND_FORMAT_VERSION);
    let out = command.encode(&mut writer);
    *destination = writer.into_bytes();
    proof {
        reveal(crate::wire::writer::written);
    }
    out
}

/// Decodes a complete command payload. Values are rebuilt through their validating
/// constructors, and bytes behind the command are rejected.
pub fn decode_command(bytes: &[u8]) -> (out: Result<Command, StorageError>)
    ensures
        reader::viewed(out) == command_dec(bytes@),
{
    let mut reader = Reader::new(bytes);
    let version = reader.u8()?;
    if version != COMMAND_FORMAT_VERSION {
        return Err(StorageError::UnsupportedVersion(version));
    }
    let command = Command::decode(&mut reader)?;
    if !reader.is_empty() {
        return Err(StorageError::CorruptRecord("trailing command payload bytes"));
    }
    Ok(command)
}

} // verus!
