//! The one place where the rand crate is spoken to: the random sort order.

use vstd::prelude::*;

use rand::seq::SliceRandom;

use crate::item::{texts_of, Item};

verus! {

/// Relies on rand::seq::SliceRandom::shuffle: an in-place, swap-based
/// permutation of the slice, driven by the thread's generator. Whatever
/// order comes out, the items themselves — and so their texts — are kept.
#[verifier::external_body]
pub fn shuffle_items(items: &mut Vec<Item>)
    ensures
        final(items)@.to_multiset() == old(items)@.to_multiset(),
        texts_of(final(items)@).to_multiset() == texts_of(old(items)@).to_multiset(),
{
    items.as_mut_slice().shuffle(&mut rand::rng());
}

} // verus!
