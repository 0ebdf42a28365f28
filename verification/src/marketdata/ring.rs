//! Lists that keep their newest items only.

use std::collections::VecDeque;
use vstd::prelude::*;

verus! {

/// The last `n` items, all of them where there are no more.
pub open spec fn newest<T>(items: Seq<T>, n: int) -> Seq<T> {
    if items.len() > n {
        items.skip(items.len() - n)
    } else {
        items
    }
}

/// What is kept is as much as there is room for, from the end and in order.
pub proof fn the_newest_are_kept<T>(items: Seq<T>, n: int)
    requires
        n >= 0,
    ensures
        newest(items, n).len() <= n,
        newest(items, n).len() == items.len() || newest(items, n).len() == n,
        forall|i: int|
            0 <= i < newest(items, n).len() ==> newest(items, n)[newest(items, n).len() - 1 - i]
                == #[trigger] items[items.len() - 1 - i],
{
}

/// Keeping the newest on the way leaves the same as keeping them at the end.
pub proof fn keeping_as_one_goes<T>(items: Seq<T>, item: T, n: int)
    requires
        n > 0,
    ensures
        newest(newest(items, n).push(item), n) == newest(items.push(item), n),
{
    assert(newest(newest(items, n).push(item), n) =~= newest(items.push(item), n));
}

/// Appends an item, dropping the oldest beyond `capacity`.
pub fn push_capped<T>(items: &mut VecDeque<T>, item: T, capacity: usize)
    ensures
        final(items)@ == newest(old(items)@.push(item), capacity as int),
{
    items.push_back(item);
    let ghost all = items@;
    assert(all.skip(0) =~= all);
    while items.len() > capacity
        invariant
            items@.len() <= all.len(),
            items@ == all.skip(all.len() - items@.len()),
            items@.len() >= capacity || items@ == all,
        decreases items@.len(),
    {
        let ghost n = items@.len();
        let _ = items.pop_front();
        assert(items@ =~= all.skip(all.len() - items@.len()));
    }
    assert(items@ =~= newest(all, capacity as int));
}

} // verus!
