//! Calls into `rand`, the only outside crate the library's logic uses.
use rand::seq::SliceRandom;
use vstd::prelude::*;

verus! {

/// Calls `rand::random::<bool>()`. Nothing is promised of the value: it is a coin toss.
#[verifier::external_body]
pub(crate) fn random_bool() -> bool {
    rand::random::<bool>()
}

/// Calls `SliceRandom::shuffle` with the thread-local generator. The crate's shuffle is a
/// Fisher-Yates pass of swaps, so the items come back as a permutation of themselves; which
/// permutation is left to chance and not stated.
#[verifier::external_body]
pub(crate) fn shuffle_in_place<T>(items: &mut Vec<T>)
    ensures
        final(items)@.to_multiset() == old(items)@.to_multiset(),
{
    let mut rng = rand::thread_rng();
    items.shuffle(&mut rng);
}

/// Calls `SliceRandom::choose` with the thread-local generator and copies the element:
/// `None` exactly for an empty slice, otherwise one of its elements, which one being left
/// to chance.
#[verifier::external_body]
pub(crate) fn choose_one<T: Copy>(items: &[T]) -> (picked: Option<T>)
    ensures
        picked is None <==> items@.len() == 0,
        picked matches Some(x) ==> items@.contains(x),
{
    let mut rng = rand::thread_rng();
    items.choose(&mut rng).copied()
}

} // verus!
