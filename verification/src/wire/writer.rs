//! Appending encoder.

use crate::error::StorageError;
use crate::wire::model;
use crate::wire::model::{Enc, Wire};
use vstd::prelude::*;
use vstd::string::*;
use vstd::utf8::*;

verus! {

/// `after` is `before` with `enc` appended.
#[verifier::opaque]
pub open spec fn written(before: Seq<u8>, after: Seq<u8>, enc: Enc) -> bool {
    after == before + enc.bytes
}

/// Two appends in a row append the two encodings in a row.
pub broadcast proof fn lemma_written_chain(a: Seq<u8>, b: Seq<u8>, c: Seq<u8>, e: Enc, f: Enc)
    requires
        #[trigger] written(a, b, e),
        e.ok(),
        #[trigger] written(b, c, f),
    ensures
        written(a, c, e.followed_by(f)),
{
    reveal(written);
    assert(a + e.bytes + f.bytes =~= a + (e.bytes + f.bytes));
}

/// Appends the `width` low base-256 digits of `value`, least significant first.
pub fn put_le(out: &mut Vec<u8>, value: u128, width: usize)
    ensures
        final(out)@ == old(out)@ + model::le(value as nat, width as nat),
{
    let mut rest: u128 = value;
    let mut left: usize = width;
    assert(out@ + model::le(rest as nat, left as nat) == old(out)@ + model::le(value as nat, width as nat));
    while left > 0
        invariant
            out@ + model::le(rest as nat, left as nat) == old(out)@ + model::le(value as nat, width as nat),
        decreases left,
    {
        let digit: u8 = (rest % 256) as u8;
        let ghost before = out@;
        out.push(digit);
        assert(model::le(rest as nat, left as nat) == seq![digit] + model::le(
            rest as nat / 256,
            (left - 1) as nat,
        ));
        assert(before + (seq![digit] + model::le(rest as nat / 256, (left - 1) as nat)) =~= before.push(
            digit,
        ) + model::le(rest as nat / 256, (left - 1) as nat));
        rest = rest / 256;
        left = left - 1;
    }
    assert(out@ + model::le(rest as nat, 0) =~= out@);
}

/// The two's complement bits of a signed integer.
pub fn bits_of_i64(value: i64) -> (bits: u64)
    ensures
        bits == model::i64_bits(value),
{
    if value >= 0 {
        value as u64
    } else {
        (value as i128 + 0x1_0000_0000_0000_0000) as u64
    }
}

/// An encoder that appends to an owned buffer.
pub struct Writer {
    bytes: Vec<u8>,
}

impl View for Writer {
    type V = Seq<u8>;

    closed spec fn view(&self) -> Seq<u8> {
        self.bytes@
    }
}

impl Writer {
    /// Creates an encoder that appends to `bytes`.
    pub fn new(bytes: Vec<u8>) -> (out: Writer)
        ensures
            out@ == bytes@,
    {
        Writer { bytes }
    }

    /// Returns the buffer with everything appended so far.
    pub fn into_bytes(self) -> (out: Vec<u8>)
        ensures
            out@ == self@,
    {
        self.bytes
    }

    /// Appends `bytes` as they are.
    pub fn raw(&mut self, bytes: &[u8])
        ensures
            written(old(self)@, final(self)@, Enc::of(bytes@)),
    {
        reveal(written);
        self.bytes.extend_from_slice(bytes);
        assert(self.bytes@ =~= old(self)@ + bytes@);
    }

    /// Appends one byte.
    pub fn u8(&mut self, value: u8)
        ensures
            written(old(self)@, final(self)@, value.enc()),
    {
        reveal(written);
        put_le(&mut self.bytes, value as u128, 1);
    }

    /// Appends a little-endian `u32`.
    pub fn u32(&mut self, value: u32)
        ensures
            written(old(self)@, final(self)@, value.enc()),
    {
        reveal(written);
        put_le(&mut self.bytes, value as u128, 4);
    }

    /// Appends a little-endian `u64`.
    pub fn u64(&mut self, value: u64)
        ensures
            written(old(self)@, final(self)@, value.enc()),
    {
        reveal(written);
        put_le(&mut self.bytes, value as u128, 8);
    }

    /// Appends a little-endian `u128`.
    pub fn u128(&mut self, value: u128)
        ensures
            written(old(self)@, final(self)@, value.enc()),
    {
        reveal(written);
        put_le(&mut self.bytes, value, 16);
    }

    /// Appends a little-endian `i64`.
    pub fn i64(&mut self, value: i64)
        ensures
            written(old(self)@, final(self)@, value.enc()),
    {
        reveal(written);
        let bits = bits_of_i64(value);
        put_le(&mut self.bytes, bits as u128, 8);
    }

    /// Appends a four-byte length prefix for `field`.
    pub fn len(&mut self, field: &'static str, length: usize) -> (out: Result<(), StorageError>)
        ensures
            written(old(self)@, final(self)@, model::enc_len(field, length as nat)),
            out == model::enc_len(field, length as nat).status(),
    {
        reveal(written);
        if length as u128 > u32::MAX as u128 {
            assert(old(self)@ + Seq::<u8>::empty() =~= old(self)@);
            return Err(StorageError::InvalidLength { field, length: length as u64 });
        }
        put_le(&mut self.bytes, length as u128, 4);
        Ok(())
    }

    /// Appends a length-prefixed string.
    pub fn string(&mut self, field: &'static str, value: &str) -> (out: Result<(), StorageError>)
        ensures
            written(old(self)@, final(self)@, model::enc_string(field, value@)),
            out == model::enc_string(field, value@).status(),
    {
        broadcast use lemma_written_chain;

        let bytes = value.as_bytes();
        self.len(field, bytes.len())?;
        self.raw(bytes);
        Ok(())
    }

    /// Appends a length-prefixed list.
    pub fn list<T: Encode>(&mut self, field: &'static str, items: &[T]) -> (out: Result<
        (),
        StorageError,
    >) where T::V: Wire
        ensures
            written(old(self)@, final(self)@, model::enc_list(field, model::views(items@))),
            out == model::enc_list(field, model::views(items@)).status(),
    {
        broadcast use lemma_written_chain;

        self.len(field, items.len())?;
        self.items(items)
    }

    /// Appends items one after the other.
    pub fn items<T: Encode>(&mut self, items: &[T]) -> (out: Result<(), StorageError>) where
        T::V: Wire,

        ensures
            written(old(self)@, final(self)@, model::enc_items(model::views(items@))),
            out == model::enc_items(model::views(items@)).status(),
    {
        let ghost models = model::views(items@);
        let mut i: usize = 0;
        proof {
            reveal(written);
            assert(models.take(0) =~= seq![]);
            assert(old(self)@ + Seq::<u8>::empty() =~= old(self)@);
        }
        while i < items.len()
            invariant
                i <= items.len(),
                models == model::views(items@),
                model::enc_items(models.take(i as int)).ok(),
                written(old(self)@, self@, model::enc_items(models.take(i as int))),
            decreases items.len() - i,
        {
            broadcast use lemma_written_chain;

            proof {
                model::lemma_views_next(items@, i as int);
            }
            match items[i].encode(self) {
                Ok(()) => {},
                Err(error) => {
                    proof {
                        lemma_items_fail(models, i as int + 1);
                    }
                    return Err(error);
                },
            }
            i += 1;
        }
        assert(models.take(i as int) =~= models);
        Ok(())
    }
}

/// Encoding stops at the first item that fails.
proof fn lemma_items_fail<T: Wire>(items: Seq<T>, count: int)
    requires
        0 <= count <= items.len(),
        !model::enc_items(items.take(count)).ok(),
    ensures
        model::enc_items(items) == model::enc_items(items.take(count)),
    decreases items.len(),
{
    if count == items.len() {
        assert(items.take(count) =~= items);
    } else {
        assert(items.drop_last().take(count) =~= items.take(count));
        lemma_items_fail(items.drop_last(), count);
    }
}

/// Values that can be appended to a [`Writer`].
pub trait Encode: View where Self::V: Wire {
    /// Appends the canonical encoding of the value.
    fn encode(&self, writer: &mut Writer) -> (out: Result<(), StorageError>)
        ensures
            written(old(writer)@, final(writer)@, self@.enc()),
            out == self@.enc().status(),
    ;
}

} // verus!
