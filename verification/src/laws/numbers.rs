//! Numbers as bytes, and hashes.

use crate::digest;
use crate::wire::model;
use vstd::arithmetic::div_mod::*;
use vstd::arithmetic::power::*;
use vstd::prelude::*;

verus! {

/// Byte `i` of a little-endian number is its digit `i` to the base 256.
pub proof fn law_little_endian_digits(value: nat, width: nat, i: int)
    requires
        0 <= i < width,
    ensures
        model::le(value, width).len() == width,
        model::le(value, width)[i] == (value as int / pow(256, i as nat)) % 256,
    decreases width,
{
    model::lemma_le_len(value, width);
    if i == 0 {
        lemma_pow0(256);
        assert(value as int / 1 == value);
    } else {
        law_little_endian_digits(value / 256, (width - 1) as nat, i - 1);
        lemma_pow_positive(256, (i - 1) as nat);
        lemma_div_denominator(value as int, 256, pow(256, (i - 1) as nat));
        reveal(pow);
        assert(pow(256, i as nat) == 256 * pow(256, (i - 1) as nat));
    }
}

/// Bytes are little-endian digits of the number that is read from them.
pub proof fn law_little_endian_value(digits: Seq<u8>)
    ensures
        digits.len() == 0 ==> model::un_le(digits) == 0,
        digits.len() > 0 ==> model::un_le(digits) == digits[0] + 256 * model::un_le(
            digits.drop_first(),
        ),
{
}

/// Byte `i` of a big-endian number is its digit `i` to the base 256, counted from the end.
pub proof fn law_big_endian_digits(value: nat, width: nat, i: int)
    requires
        0 <= i < width,
    ensures
        model::be(value, width).len() == width,
        model::be(value, width)[i] == (value as int / pow(256, (width - 1 - i) as nat)) % 256,
{
    law_little_endian_digits(value, width, width - 1 - i);
}

/// A signed number is written as the unsigned number with the same bits: itself, or `2^64` more.
pub proof fn law_signed_numbers_wrap(value: i64, bits: nat)
    ensures
        model::i64_bits(value) == if value >= 0 {
            value as int
        } else {
            value + 0x1_0000_0000_0000_0000
        },
        bits < 0x8000_0000_0000_0000 ==> model::bits_i64(bits) == bits,
        0x8000_0000_0000_0000 <= bits < 0x1_0000_0000_0000_0000 ==> model::bits_i64(bits) == bits
            - 0x1_0000_0000_0000_0000,
{
}

/// Appending a number appends its digits and changes nothing in front of them.
pub proof fn law_numbers_are_appended(buffer: &mut Vec<u8>, value: u128, width: usize, out: ())
    requires
        call_ensures(crate::wire::writer::put_le, (buffer, value, width), out),
    ensures
        final(buffer)@.len() == old(buffer)@.len() + width,
        final(buffer)@.take(old(buffer)@.len() as int) == old(buffer)@,
        forall|i: int|
            0 <= i < width ==> (#[trigger] final(buffer)@[old(buffer)@.len() + i]) == (value as int
                / pow(256, i as nat)) % 256,
{
    model::lemma_le_len(value as nat, width as nat);
    assert(final(buffer)@.take(old(buffer)@.len() as int) =~= old(buffer)@);
    assert forall|i: int| 0 <= i < width implies (#[trigger] final(buffer)@[old(buffer)@.len() + i])
        == (value as int / pow(256, i as nat)) % 256 by {
        law_little_endian_digits(value as nat, width as nat, i);
    }
}

/// The short digest of any bytes is the first half of the BLAKE3 hash of all of them.
pub proof fn law_short_digest_covers_every_byte(bytes: &[u8], out: Vec<u8>)
    requires
        call_ensures(digest::short_digest, (bytes,), out),
    ensures
        out@.len() == 16,
        forall|i: int| 0 <= i < 16 ==> (#[trigger] out@[i]) == digest::blake3_hash(bytes@)[i],
{
}

/// The full digest of any bytes is the BLAKE3 hash of all of them.
pub proof fn law_full_digest_covers_every_byte(bytes: &[u8], out: Vec<u8>)
    requires
        call_ensures(digest::full_digest, (bytes,), out),
    ensures
        out@.len() == 32,
        forall|i: int| 0 <= i < 32 ==> (#[trigger] out@[i]) == digest::blake3_hash(bytes@)[i],
{
}

/// The named hashes are prefixes of the BLAKE3 hash of all bytes.
pub proof fn law_hashes_cover_every_byte(bytes: Seq<u8>)
    ensures
        digest::short_hash(bytes).len() == 16,
        digest::full_hash(bytes).len() == 32,
        forall|i: int|
            0 <= i < 16 ==> (#[trigger] digest::short_hash(bytes)[i]) == digest::blake3_hash(
                bytes,
            )[i],
        forall|i: int|
            0 <= i < 32 ==> (#[trigger] digest::full_hash(bytes)[i]) == digest::blake3_hash(
                bytes,
            )[i],
{
}

/// Two byte strings are the same exactly if they have the same bytes.
pub proof fn law_same_bytes(a: &[u8], b: &[u8], out: bool)
    requires
        call_ensures(crate::bytes::same_bytes, (a, b), out),
    ensures
        out <==> a@.len() == b@.len() && forall|i: int|
            0 <= i < a@.len() ==> (#[trigger] a@[i]) == b@[i],
{
    if a@.len() == b@.len() && forall|i: int| 0 <= i < a@.len() ==> (#[trigger] a@[i]) == b@[i] {
        assert(a@ =~= b@);
    }
}

/// A request for memory is refused exactly if the list says so.
pub proof fn law_only_listed_requests_are_refused(grants: &[bool], number: usize, out: bool)
    requires
        call_ensures(crate::bytes::is_granted, (grants, number), out),
    ensures
        !out <==> number < grants@.len() && !grants@[number as int],
        crate::bytes::granted(grants@, number as nat) == out,
{
}

} // verus!
