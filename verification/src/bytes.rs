//! Byte strings and buffers.

use vstd::prelude::*;

verus! {

/// Returns whether two byte strings are equal.
pub fn same_bytes(a: &[u8], b: &[u8]) -> (out: bool)
    ensures
        out == (a@ == b@),
{
    if a.len() != b.len() {
        return false;
    }
    let mut i: usize = 0;
    while i < a.len()
        invariant
            i <= a.len(),
            a.len() == b.len(),
            forall|k: int| 0 <= k < i ==> a@[k] == b@[k],
        decreases a.len() - i,
    {
        if a[i] != b[i] {
            assert(a@[i as int] != b@[i as int]);
            return false;
        }
        i += 1;
    }
    assert(a@ =~= b@);
    true
}

/// Whether the request for memory with the given number is granted. Requests behind the end of
/// the list are.
pub open spec fn granted(grants: Seq<bool>, number: nat) -> bool {
    number < grants.len() ==> grants[number as int]
}

/// Returns whether the request for memory with the given number is granted.
pub fn is_granted(grants: &[bool], number: usize) -> (out: bool)
    ensures
        out == granted(grants@, number as nat),
{
    if number < grants.len() {
        grants[number]
    } else {
        true
    }
}

/// [`Vec::try_reserve_exact`] leaves the elements as they are and reports whether the memory
/// could be had. Which requests are granted is up to the allocator.
#[verifier::external_body]
pub(crate) fn reserve_exact<T>(values: &mut Vec<T>, additional: usize) -> (granted: bool)
    ensures
        final(values)@ == old(values)@,
{
    values.try_reserve_exact(additional).is_ok()
}

} // verus!
