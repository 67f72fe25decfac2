//! Values that their types keep valid.

use crate::wire::model;
use crate::wire::model::{Keyed, Wire};
use crate::wire::reader::Ranked;
use vstd::prelude::*;

verus! {

/// Values that cannot be built unless they satisfy the rules of their type.
pub trait Assured: View where Self::V: Wire {
    /// Notes that the value satisfies the rules of its type.
    fn assure(&self)
        ensures
            self@.valid(),
    ;
}

/// Notes that all values satisfy the rules of their type.
pub fn assure_all<T: Assured>(items: &[T]) where <T as View>::V: Wire
    ensures
        model::all_valid(model::views(items@)),
{
    let ghost models = model::views(items@);
    let mut i: usize = 0;
    while i < items.len()
        invariant
            i <= items.len(),
            models == model::views(items@),
            forall|k: int| 0 <= k < i ==> (#[trigger] models[k]).valid(),
        decreases items.len() - i,
    {
        items[i].assure();
        assert(models[i as int] == items@[i as int]@);
        i += 1;
    }
}

/// Returns whether each key is at least `gap` above every key before it.
pub fn is_ordered<T: Ranked>(items: &[T], gap: u8) -> (out: bool) where <T as View>::V: Keyed
    ensures
        out == model::ordered(model::views(items@), gap as nat),
{
    let ghost models = model::views(items@);
    let mut i: usize = 1;
    while i < items.len()
        invariant
            1 <= i,
            models == model::views(items@),
            forall|a: int, b: int|
                0 <= a < b < i && b < items.len() ==> (#[trigger] models[a]).key() + gap <= (
                #[trigger] models[b]).key(),
        decreases items.len() - i,
    {
        let before = items[i - 1].rank();
        let rank = items[i].rank();
        assert(models[i - 1] == items@[i - 1]@);
        assert(models[i as int] == items@[i as int]@);
        if rank < before || rank - before < gap as u128 {
            return false;
        }
        assert forall|a: int, b: int| 0 <= a < b < i + 1 && b < items.len() implies (
        #[trigger] models[a]).key() + gap <= (#[trigger] models[b]).key() by {
            if b == i && a < i - 1 {
                assert(models[a].key() + gap <= models[i - 1].key());
            }
        }
        i += 1;
    }
    true
}

} // verus!
