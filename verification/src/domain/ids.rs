//! Stable identifiers.

use crate::error::StorageError;
use crate::wire::model;
use crate::wire::model::{Enc, Keyed, Limits, Parsed, Wire};
use crate::wire::reader::{get_le, Decode, Ranked, Reader};
use crate::wire::writer::{Encode, Writer};
use vstd::prelude::*;

verus! {

/// The 16 bytes of `value`, most significant first.
pub fn be_bytes(value: u128) -> (out: [u8; 16])
    ensures
        out@ == model::be(value as nat, 16),
{
    let mut out: [u8; 16] = [0u8; 16];
    let mut rest: u128 = value;
    let mut i: usize = 16;
    let ghost digits = model::le(value as nat, 16);
    proof {
        model::lemma_le_len(value as nat, 16);
        assert(digits.subrange(0, 16) =~= digits);
    }
    while i > 0
        invariant
            i <= 16,
            digits == model::le(value as nat, 16),
            digits.len() == 16,
            digits.subrange(16 - i, 16) == model::le(rest as nat, i as nat),
            forall|k: int| i <= k < 16 ==> #[trigger] out@[k] == digits[15 - k],
        decreases i,
    {
        let digit: u8 = (rest % 256) as u8;
        let ghost tail = digits.subrange(16 - i, 16);
        proof {
            model::lemma_le_len(rest as nat, i as nat);
            assert(tail[0] == digit);
            assert(tail[0] == digits[16 - i]);
            assert(digits.subrange(16 - i + 1, 16) =~= tail.drop_first());
            assert(tail.drop_first() =~= model::le(rest as nat / 256, (i - 1) as nat));
        }
        rest = rest / 256;
        i -= 1;
        out[i] = digit;
    }
    assert(out@ =~= digits.reverse());
    out
}

/// The number with the given 16 bytes, most significant first.
pub fn from_be_bytes(bytes: &[u8]) -> (out: u128)
    requires
        bytes@.len() == 16,
    ensures
        out == model::un_be(bytes@),
{
    let mut flipped: Vec<u8> = Vec::new();
    let mut i: usize = 16;
    while i > 0
        invariant
            i <= 16,
            bytes@.len() == 16,
            flipped@.len() == 16 - i,
            forall|k: int| 0 <= k < 16 - i ==> #[trigger] flipped@[k] == bytes@[15 - k],
        decreases i,
    {
        i -= 1;
        flipped.push(bytes[i]);
    }
    assert(flipped@ =~= bytes@.reverse());
    get_le(flipped.as_slice())
}

/// Reading 16 big-endian bytes back gives the number they were made from.
pub proof fn lemma_un_be_of_be(value: u128)
    ensures
        model::un_be(model::be(value as nat, 16)) == value,
        model::be(value as nat, 16).len() == 16,
{
    model::lemma_spans();
    model::lemma_le_len(value as nat, 16);
    let digits = model::le(value as nat, 16);
    assert(digits.reverse().reverse() =~= digits);
    model::lemma_un_le_of_le(value as nat, 16);
}

/// Writing the number read from 16 big-endian bytes gives the same bytes.
pub proof fn lemma_be_of_un_be(bytes: Seq<u8>)
    requires
        bytes.len() == 16,
    ensures
        model::be(model::un_be(bytes), 16) == bytes,
        model::un_be(bytes) <= u128::MAX,
{
    model::lemma_spans();
    model::lemma_le_of_un_le(bytes.reverse());
    assert(bytes.reverse().reverse() =~= bytes);
}

/// A 16-byte identifier.
pub open spec fn parse_id(data: Seq<u8>, pos: int) -> Parsed<u128> {
    match model::parse_raw(data, pos, 16) {
        Ok((bytes, end)) => Ok((model::un_be(bytes) as u128, end)),
        Err(error) => Err(error),
    }
}

proof fn lemma_parse_id(data: Seq<u8>, pos: int, cut: int)
    requires
        0 <= pos <= data.len(),
    ensures
        parse_id(data, pos) matches Ok((value, end)) ==> {
            &&& pos <= end <= data.len()
            &&& end == pos + 16
            &&& model::at(data, pos, model::be(value as nat, 16))
            &&& pos <= cut <= data.len() ==> parse_id(data.take(cut), pos) == model::cut_off(
                (value, end),
                cut,
            )
        },
{
    model::lemma_parse_raw(data, pos, 16, cut);
    if let Ok((bytes, _)) = model::parse_raw(data, pos, 16) {
        lemma_be_of_un_be(bytes);
    }
}

proof fn lemma_id_enc(value: u128, data: Seq<u8>, pos: int)
    requires
        model::at(data, pos, model::be(value as nat, 16)),
    ensures
        parse_id(data, pos) == Ok::<(u128, int), StorageError>((value, pos + 16)),
{
    lemma_un_be_of_be(value);
    model::lemma_raw_enc(model::be(value as nat, 16), data, pos);
}

/// Identity of a resource pool.
///
/// Identifiers are ordered as their bytes are, which is the order of the numbers that the
/// bytes spell most significant first.
#[derive(Debug, Clone, Copy, PartialEq, Eq, PartialOrd, Ord, Hash, Structural)]
pub struct ResourcePoolId {
    /// The number spelled by the 16 identifier bytes.
    pub value: u128,
}

impl ResourcePoolId {
    /// Creates the identifier with the given bytes.
    pub fn from_bytes(bytes: [u8; 16]) -> (out: ResourcePoolId)
        ensures
            out.value == model::un_be(bytes@),
    {
        ResourcePoolId { value: from_be_bytes(bytes.as_slice()) }
    }

    /// Returns the identifier bytes.
    pub fn as_bytes(self) -> (out: [u8; 16])
        ensures
            out@ == model::be(self.value as nat, 16),
    {
        be_bytes(self.value)
    }
}

impl View for ResourcePoolId {
    type V = ResourcePoolId;

    open spec fn view(&self) -> ResourcePoolId {
        *self
    }
}

impl Wire for ResourcePoolId {
    open spec fn valid(self) -> bool {
        true
    }

    open spec fn fits(self, limits: Limits) -> bool {
        true
    }

    open spec fn enc(self) -> Enc {
        Enc::of(model::be(self.value as nat, 16))
    }

    open spec fn parse(data: Seq<u8>, pos: int, limits: Limits) -> Parsed<ResourcePoolId> {
        match parse_id(data, pos) {
            Ok((value, end)) => Ok((ResourcePoolId { value }, end)),
            Err(error) => Err(error),
        }
    }

    proof fn lemma_parse(data: Seq<u8>, pos: int, limits: Limits, cut: int) {
        lemma_parse_id(data, pos, cut);
        if let Ok((value, _)) = parse_id(data, pos) {
            lemma_un_be_of_be(value);
        }
    }

    proof fn lemma_enc(self, data: Seq<u8>, pos: int, limits: Limits) {
        lemma_un_be_of_be(self.value);
        lemma_id_enc(self.value, data, pos);
    }

    proof fn lemma_fits(self, limits: Limits) {
    }
}

impl Encode for ResourcePoolId {
    fn encode(&self, writer: &mut Writer) -> (out: Result<(), StorageError>) {
        let bytes = self.as_bytes();
        writer.raw(bytes.as_slice());
        Ok(())
    }
}

impl Decode for ResourcePoolId {
    fn decode(reader: &mut Reader) -> (out: Result<ResourcePoolId, StorageError>) {
        let bytes = reader.take(16)?;
        Ok(ResourcePoolId { value: from_be_bytes(bytes) })
    }
}

/// Identity of a promise.
///
/// Identifiers are ordered as their bytes are, which is the order of the numbers that the
/// bytes spell most significant first.
#[derive(Debug, Clone, Copy, PartialEq, Eq, PartialOrd, Ord, Hash, Structural)]
pub struct PromiseId {
    /// The number spelled by the 16 identifier bytes.
    pub value: u128,
}

impl PromiseId {
    /// Creates the identifier with the given bytes.
    pub fn from_bytes(bytes: [u8; 16]) -> (out: PromiseId)
        ensures
            out.value == model::un_be(bytes@),
    {
        PromiseId { value: from_be_bytes(bytes.as_slice()) }
    }

    /// Returns the identifier bytes.
    pub fn as_bytes(self) -> (out: [u8; 16])
        ensures
            out@ == model::be(self.value as nat, 16),
    {
        be_bytes(self.value)
    }
}

impl View for PromiseId {
    type V = PromiseId;

    open spec fn view(&self) -> PromiseId {
        *self
    }
}

impl Wire for PromiseId {
    open spec fn valid(self) -> bool {
        true
    }

    open spec fn fits(self, limits: Limits) -> bool {
        true
    }

    open spec fn enc(self) -> Enc {
        Enc::of(model::be(self.value as nat, 16))
    }

    open spec fn parse(data: Seq<u8>, pos: int, limits: Limits) -> Parsed<PromiseId> {
        match parse_id(data, pos) {
            Ok((value, end)) => Ok((PromiseId { value }, end)),
            Err(error) => Err(error),
        }
    }

    proof fn lemma_parse(data: Seq<u8>, pos: int, limits: Limits, cut: int) {
        lemma_parse_id(data, pos, cut);
        if let Ok((value, _)) = parse_id(data, pos) {
            lemma_un_be_of_be(value);
        }
    }

    proof fn lemma_enc(self, data: Seq<u8>, pos: int, limits: Limits) {
        lemma_un_be_of_be(self.value);
        lemma_id_enc(self.value, data, pos);
    }

    proof fn lemma_fits(self, limits: Limits) {
    }
}

impl Encode for PromiseId {
    fn encode(&self, writer: &mut Writer) -> (out: Result<(), StorageError>) {
        let bytes = self.as_bytes();
        writer.raw(bytes.as_slice());
        Ok(())
    }
}

impl Decode for PromiseId {
    fn decode(reader: &mut Reader) -> (out: Result<PromiseId, StorageError>) {
        let bytes = reader.take(16)?;
        Ok(PromiseId { value: from_be_bytes(bytes) })
    }
}

impl Keyed for PromiseId {
    open spec fn key(self) -> nat {
        self.value as nat
    }
}

impl Ranked for PromiseId {
    fn rank(&self) -> (out: u128) {
        self.value
    }
}

} // verus!
