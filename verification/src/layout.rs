//! Fields at fixed places.

use crate::wire::model;
use crate::wire::reader::get_le;
use vstd::prelude::*;
use vstd::slice::*;

verus! {

/// The little-endian number at `from..to`.
pub open spec fn field(bytes: Seq<u8>, from: int, to: int) -> nat {
    model::un_le(bytes.subrange(from, to))
}

/// The first four bytes.
pub open spec fn first_four(bytes: Seq<u8>) -> [u8; 4] {
    [bytes[0], bytes[1], bytes[2], bytes[3]]
}

/// A run of zero bytes.
pub open spec fn zeros(count: nat) -> Seq<u8> {
    Seq::new(count, |i: int| 0u8)
}

/// Every byte is zero.
pub open spec fn all_zero(bytes: Seq<u8>) -> bool {
    forall|i: int| 0 <= i < bytes.len() ==> #[trigger] bytes[i] == 0
}

/// Bytes that are all zero are a run of zero bytes.
pub proof fn lemma_all_zero(bytes: Seq<u8>)
    ensures
        all_zero(bytes) <==> bytes == zeros(bytes.len()),
{
    if all_zero(bytes) {
        assert(bytes =~= zeros(bytes.len()));
    }
}

/// Returns the little-endian number at `from..to`.
pub fn get_field(bytes: &[u8], from: usize, to: usize) -> (out: u128)
    requires
        from <= to <= bytes@.len(),
        to - from <= 16,
    ensures
        out == field(bytes@, from as int, to as int),
        out < model::span((to - from) as nat),
{
    get_le(slice_subrange(bytes, from, to))
}

/// Returns whether the bytes at `from..to` are all zero.
pub fn is_zero(bytes: &[u8], from: usize, to: usize) -> (out: bool)
    requires
        from <= to <= bytes@.len(),
    ensures
        out == all_zero(bytes@.subrange(from as int, to as int)),
{
    let ghost part = bytes@.subrange(from as int, to as int);
    let mut i: usize = from;
    while i < to
        invariant
            from <= i <= to <= bytes@.len(),
            part == bytes@.subrange(from as int, to as int),
            forall|k: int| 0 <= k < i - from ==> #[trigger] part[k] == 0,
        decreases to - i,
    {
        if bytes[i] != 0 {
            assert(part[i - from] != 0);
            return false;
        }
        i += 1;
    }
    true
}

/// Appends zero bytes.
pub fn put_zeros(bytes: &mut Vec<u8>, count: usize)
    ensures
        final(bytes)@ == old(bytes)@ + zeros(count as nat),
{
    let mut i: usize = 0;
    assert(bytes@ =~= old(bytes)@ + zeros(0));
    while i < count
        invariant
            i <= count,
            bytes@ == old(bytes)@ + zeros(i as nat),
        decreases count - i,
    {
        bytes.push(0);
        i += 1;
        assert(bytes@ =~= old(bytes)@ + zeros(i as nat));
    }
}

/// Returns whether the bytes start with the four bytes `magic`.
pub fn starts_with(bytes: &[u8], magic: [u8; 4]) -> (out: bool)
    requires
        bytes@.len() >= 4,
    ensures
        out == (bytes@.subrange(0, 4) == magic@),
{
    let same = bytes[0] == magic[0] && bytes[1] == magic[1] && bytes[2] == magic[2] && bytes[3]
        == magic[3];
    proof {
        let front = bytes@.subrange(0, 4);
        if same {
            assert(front =~= magic@);
        } else {
            assert(front[0] != magic@[0] || front[1] != magic@[1] || front[2] != magic@[2]
                || front[3] != magic@[3]);
        }
    }
    same
}

/// Returns the first four bytes.
pub fn get_four(bytes: &[u8]) -> (out: [u8; 4])
    requires
        bytes@.len() >= 4,
    ensures
        out == first_four(bytes@),
{
    [bytes[0], bytes[1], bytes[2], bytes[3]]
}

} // verus!
