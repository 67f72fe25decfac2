//! Content hashes.

use vstd::prelude::*;

verus! {

/// The BLAKE3 hash of `bytes`.
pub uninterp spec fn blake3_hash(bytes: Seq<u8>) -> Seq<u8>;

/// [`blake3::hash`] returns the 32-byte BLAKE3 hash of exactly the given bytes. Nothing is
/// claimed of the hash itself: it only has a name.
#[verifier::external_body]
pub(crate) fn blake3_digest(bytes: &[u8]) -> (out: [u8; 32])
    ensures
        out@ == blake3_hash(bytes@),
{
    *blake3::hash(bytes).as_bytes()
}

/// The first 16 bytes of the BLAKE3 hash.
pub open spec fn short_hash(bytes: Seq<u8>) -> Seq<u8> {
    Seq::new(16, |i: int| blake3_hash(bytes)[i])
}

/// All 32 bytes of the BLAKE3 hash.
pub open spec fn full_hash(bytes: Seq<u8>) -> Seq<u8> {
    Seq::new(32, |i: int| blake3_hash(bytes)[i])
}

/// Returns the first 16 bytes of the BLAKE3 hash.
pub fn short_digest(bytes: &[u8]) -> (out: Vec<u8>)
    ensures
        out@ == short_hash(bytes@),
{
    let digest = blake3_digest(bytes);
    let mut out: Vec<u8> = Vec::new();
    let mut i: usize = 0;
    while i < 16
        invariant
            i <= 16,
            digest@ == blake3_hash(bytes@),
            out@.len() == i,
            forall|k: int| 0 <= k < i ==> out@[k] == blake3_hash(bytes@)[k],
        decreases 16 - i,
    {
        out.push(digest[i]);
        i += 1;
    }
    assert(out@ =~= short_hash(bytes@));
    out
}

/// Returns all 32 bytes of the BLAKE3 hash.
pub fn full_digest(bytes: &[u8]) -> (out: Vec<u8>)
    ensures
        out@ == full_hash(bytes@),
{
    let digest = blake3_digest(bytes);
    let mut out: Vec<u8> = Vec::new();
    let mut i: usize = 0;
    while i < 32
        invariant
            i <= 32,
            digest@ == blake3_hash(bytes@),
            out@.len() == i,
            forall|k: int| 0 <= k < i ==> out@[k] == blake3_hash(bytes@)[k],
        decreases 32 - i,
    {
        out.push(digest[i]);
        i += 1;
    }
    assert(out@ =~= full_hash(bytes@));
    out
}

} // verus!
