//! Bounded histories: keeping only the most recent items.
use vstd::prelude::*;
use std::collections::VecDeque;

verus! {

/// The last `limit` items of `s` (all of them when there are fewer).
pub open spec fn retained<T>(s: Seq<T>, limit: nat) -> Seq<T> {
    if s.len() > limit {
        s.subrange(s.len() - limit, s.len() as int)
    } else {
        s
    }
}

/// Appends `item`, then drops the oldest items until at most `capacity` remain.
pub fn push_bounded<T>(buffer: &mut VecDeque<T>, item: T, capacity: usize)
    ensures
        final(buffer)@ == retained(old(buffer)@.push(item), capacity as nat),
{
    buffer.push_back(item);
    let ghost full = old(buffer)@.push(item);
    assert(buffer@ =~= full.subrange(0, full.len() as int));
    while buffer.len() > capacity
        invariant
            full == old(buffer)@.push(item),
            buffer@.len() <= full.len(),
            buffer@.len() < full.len() ==> buffer@.len() >= capacity,
            buffer@ == full.subrange(full.len() - buffer@.len(), full.len() as int),
        decreases buffer@.len(),
    {
        let _ = buffer.pop_front();
        assert(buffer@ =~= full.subrange(full.len() - buffer@.len(), full.len() as int));
    }
    proof {
        if full.len() <= capacity {
            assert(full.subrange(0, full.len() as int) =~= full);
        }
    }
}

/// The most recent `limit` items of `items`, oldest first.
pub fn latest<T>(items: Vec<T>, limit: usize) -> (r: Vec<T>)
    ensures
        r@ == retained(items@, limit as nat),
{
    let mut items = items;
    if items.len() > limit {
        let n = items.len() - limit;
        items.split_off(n)
    } else {
        items
    }
}

/// Retention law: pushing into a buffer that holds the retained tail of a
/// history gives the retained tail of the extended history.
pub proof fn lemma_retained_push<T>(history: Seq<T>, item: T, limit: nat)
    ensures
        retained(retained(history, limit).push(item), limit) == retained(history.push(item), limit),
{
    let h = history.push(item);
    let r = retained(history, limit);
    if history.len() > limit {
        assert(r.push(item) =~= h.subrange(h.len() - limit - 1, h.len() as int));
        assert(retained(r.push(item), limit) =~= h.subrange(h.len() - limit, h.len() as int));
    } else if h.len() > limit {
        assert(retained(r.push(item), limit) =~= h.subrange(h.len() - limit, h.len() as int));
    }
}

} // verus!
