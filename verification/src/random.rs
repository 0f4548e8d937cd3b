//! Chance: the generator that the decks are shuffled with.

use vstd::prelude::*;
use rand::rngs::ThreadRng;
use rand::seq::SliceRandom;

verus! {

/// `rand::rngs::ThreadRng`, the random number generator of a thread. Nothing
/// is known of what is inside.
#[verifier::external_type_specification]
#[verifier::external_body]
pub struct ExThreadRng(ThreadRng);

/// `rand::rng`: a handle to the generator of the running thread. Nothing is
/// claimed of it.
#[verifier::external_body]
pub(crate) fn thread_rng() -> (rng: ThreadRng)
{
    rand::rng()
}

/// `ThreadRng::clone`: another handle to the generator of the same thread.
/// Nothing is claimed of it.
#[verifier::external_body]
pub(crate) fn same_rng(rng: &ThreadRng) -> (handle: ThreadRng)
{
    rng.clone()
}

/// `SliceRandom::shuffle` on the items of a vector: they are rearranged in
/// place. Which arrangement comes out is left to chance; it holds the same
/// items, each as often as before.
#[verifier::external_body]
pub(crate) fn shuffle<T>(items: &mut Vec<T>, rng: &mut ThreadRng)
    ensures
        final(items)@.to_multiset() == old(items)@.to_multiset(),
        final(items)@.len() == old(items)@.len(),
{
    items.shuffle(rng);
}

} // verus!
