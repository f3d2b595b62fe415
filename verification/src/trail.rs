use std::collections::VecDeque;
use vstd::prelude::*;

verus! {

/// How many past positions a particle's trail remembers.
pub const TRAIL_CAPACITY: usize = 50;

/// The trail after recording `item`: it goes to the back, and when that makes
/// the trail longer than `TRAIL_CAPACITY` the oldest entry leaves the front.
pub open spec fn trail_push<T>(trail: Seq<T>, item: T) -> Seq<T> {
    let t = trail.push(item);
    if t.len() > TRAIL_CAPACITY {
        t.drop_first()
    } else {
        t
    }
}

/// The trail that an empty trail becomes after recording `items` in order.
pub open spec fn trail_after<T>(items: Seq<T>) -> Seq<T>
    decreases items.len(),
{
    if items.len() == 0 {
        Seq::empty()
    } else {
        trail_push(trail_after(items.drop_last()), items.last())
    }
}

/// Records `item` at the back of `trail`, dropping the oldest entry once the
/// trail would exceed `TRAIL_CAPACITY`.
pub fn update_trail<T>(trail: &mut VecDeque<T>, item: T)
    ensures
        final(trail)@ == trail_push(old(trail)@, item),
{
    trail.push_back(item);
    if trail.len() > TRAIL_CAPACITY {
        let _ = trail.pop_front();
    }
}

/// A trail never grows past its capacity, and its newest entry is the item
/// just recorded.
pub proof fn lemma_trail_push_bounded<T>(trail: Seq<T>, item: T)
    requires
        trail.len() <= TRAIL_CAPACITY,
    ensures
        trail_push(trail, item).len() <= TRAIL_CAPACITY,
        trail_push(trail, item).last() == item,
{
}

/// Recording a sequence of positions into an empty trail leaves exactly the
/// most recent `TRAIL_CAPACITY` of them (all of them when there are fewer),
/// oldest first.
pub proof fn lemma_trail_keeps_latest<T>(items: Seq<T>)
    ensures
        trail_after(items) == items.skip(
            if items.len() > TRAIL_CAPACITY {
                items.len() - TRAIL_CAPACITY
            } else {
                0
            },
        ),
    decreases items.len(),
{
    if items.len() > 0 {
        let init = items.drop_last();
        lemma_trail_keeps_latest(init);
        let k = if init.len() > TRAIL_CAPACITY {
            init.len() - TRAIL_CAPACITY
        } else {
            0
        };
        let k2 = if items.len() > TRAIL_CAPACITY {
            items.len() - TRAIL_CAPACITY
        } else {
            0
        };
        let t = init.skip(k).push(items.last());
        if t.len() > TRAIL_CAPACITY {
            assert(t.drop_first() =~= items.skip(k2));
        } else {
            assert(t =~= items.skip(k2));
        }
    } else {
        assert(items.skip(0) =~= Seq::<T>::empty());
    }
}

} // verus!
