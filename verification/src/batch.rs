//! Working through a batch in the order in which it arrived.

use vstd::prelude::*;

verus! {

/// The same items, last one first: popping the result yields the items in
/// the order in which they were given.
pub fn turned<T>(items: Vec<T>) -> (turned: Vec<T>)
    ensures
        turned@ == items@.reverse(),
{
    let ghost all = items@;
    let mut items = items;
    let mut turned: Vec<T> = Vec::new();
    while items.len() > 0
        invariant
            turned@.len() + items@.len() == all.len(),
            forall|i: int| 0 <= i < items@.len() ==> items@[i] == all[i],
            forall|i: int| 0 <= i < turned@.len() ==> turned@[i] == all[all.len() - 1 - i],
        decreases items@.len(),
    {
        let item = items.pop().unwrap();
        turned.push(item);
    }
    proof {
        assert(turned@ =~= all.reverse());
    }
    turned
}

} // verus!
