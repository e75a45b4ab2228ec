//! What holds of a ring whatever is done with it, stated over the sequence
//! that a ring holds and proved once and for all.
//!
//! `kept` and `spilled` say what pushes leave in a ring and what they evict;
//! a pop takes the first element away. A history of pushes and pops is a
//! sequence of steps, and the laws are about every such history.

use crate::mpsc::{lemma_merged_len_uniform, merged};
use crate::ring::{kept, overflow, spilled};
use vstd::prelude::*;

verus! {

/// Pushes that fit are all kept, in their order, and nothing is evicted.
pub proof fn lemma_fitting_pushes<T>(held: Seq<T>, items: Seq<T>, n: int)
    requires
        held.len() + items.len() <= n,
    ensures
        kept(held, items, n) == held + items,
        kept(held, items, n).len() == held.len() + items.len(),
        spilled(held, items, n) == Seq::<T>::empty(),
{
    assert((held + items).skip(0) == held + items);
    assert((held + items).take(0) == Seq::<T>::empty());
}

/// Pushing into a ring of `n` slots leaves the newest `n` of what it held
/// and what was pushed, and evicts the rest, oldest first.
pub proof fn lemma_pushes_keep_newest<T>(held: Seq<T>, items: Seq<T>, n: int)
    requires
        0 < n,
        held.len() <= n,
    ensures
        spilled(held, items, n) + kept(held, items, n) == held + items,
        kept(held, items, n).len() <= n,
        held.len() + items.len() >= n ==> kept(held, items, n).len() == n,
{
    let all = held + items;
    let k = overflow(all.len() as int, n);
    assert(all.take(k) + all.skip(k) == all);
}

/// Pushing in two runs is pushing in one: the same elements are kept, and
/// the same are evicted in the same order.
pub proof fn lemma_pushes_compose<T>(held: Seq<T>, first: Seq<T>, second: Seq<T>, n: int)
    requires
        0 < n,
        held.len() <= n,
    ensures
        kept(kept(held, first, n), second, n) == kept(held, first + second, n),
        spilled(held, first, n) + spilled(kept(held, first, n), second, n) == spilled(
            held,
            first + second,
            n,
        ),
{
    let all = held + first;
    let k1 = overflow(all.len() as int, n);
    let mid = all.skip(k1);
    let k2 = overflow((mid.len() + second.len()) as int, n);
    let whole = held + (first + second);
    let k = overflow(whole.len() as int, n);
    assert(whole == all + second);
    assert(k == k1 + k2);
    assert((mid + second).skip(k2) == whole.skip(k));
    assert(all.take(k1) + (mid + second).take(k2) == whole.take(k));
}

/// One step of a history: an element is pushed, or a pop is made.
pub enum Step<T> {
    /// `push(item)`.
    Push(T),
    /// `pop()`.
    Pop,
}

/// What a ring of `n` slots that started empty holds after `steps`.
pub open spec fn held_after<T>(steps: Seq<Step<T>>, n: int) -> Seq<T>
    decreases steps.len(),
{
    if steps.len() == 0 {
        Seq::empty()
    } else {
        let before = held_after(steps.drop_last(), n);
        match steps.last() {
            Step::Push(item) => kept(before, seq![item], n),
            Step::Pop => if before.len() > 0 {
                before.skip(1)
            } else {
                before
            },
        }
    }
}

/// The elements that `steps` pushed, in the order of the pushes.
pub open spec fn pushed_by<T>(steps: Seq<Step<T>>) -> Seq<T>
    decreases steps.len(),
{
    if steps.len() == 0 {
        Seq::empty()
    } else {
        match steps.last() {
            Step::Push(item) => pushed_by(steps.drop_last()).push(item),
            Step::Pop => pushed_by(steps.drop_last()),
        }
    }
}

/// The elements that have left a ring of `n` slots during `steps`, popped
/// or evicted, in the order in which they left.
pub open spec fn left_by<T>(steps: Seq<Step<T>>, n: int) -> Seq<T>
    decreases steps.len(),
{
    if steps.len() == 0 {
        Seq::empty()
    } else {
        let before = held_after(steps.drop_last(), n);
        let left = left_by(steps.drop_last(), n);
        match steps.last() {
            Step::Push(item) => left + spilled(before, seq![item], n),
            Step::Pop => if before.len() > 0 {
                left.push(before[0])
            } else {
                left
            },
        }
    }
}

/// The elements that the pops of `steps` returned from a ring of `n`
/// slots, in the order of the pops.
pub open spec fn popped_by<T>(steps: Seq<Step<T>>, n: int) -> Seq<T>
    decreases steps.len(),
{
    if steps.len() == 0 {
        Seq::empty()
    } else {
        let before = held_after(steps.drop_last(), n);
        let popped = popped_by(steps.drop_last(), n);
        match steps.last() {
            Step::Push(item) => popped,
            Step::Pop => if before.len() > 0 {
                popped.push(before[0])
            } else {
                popped
            },
        }
    }
}

/// First in, first out, for any interleaving of pushes and pops: the
/// elements leave the ring in the order in which they were pushed. What
/// has left, followed by what is held, is what was pushed.
pub proof fn lemma_fifo<T>(steps: Seq<Step<T>>, n: int)
    requires
        0 < n,
    ensures
        left_by(steps, n) + held_after(steps, n) == pushed_by(steps),
        held_after(steps, n).len() <= n,
    decreases steps.len(),
{
    if steps.len() > 0 {
        let front = steps.drop_last();
        lemma_fifo(front, n);
        let before = held_after(front, n);
        let left = left_by(front, n);
        match steps.last() {
            Step::Push(item) => {
                lemma_pushes_keep_newest(before, seq![item], n);
                assert(left + (spilled(before, seq![item], n) + kept(before, seq![item], n))
                    == (left + spilled(before, seq![item], n)) + kept(before, seq![item], n));
                assert(left + (before + seq![item]) == (left + before).push(item));
            },
            Step::Pop => {
                if before.len() > 0 {
                    assert(left.push(before[0]) + before.skip(1) == left + before);
                }
            },
        }
    } else {
        assert(Seq::<T>::empty() + Seq::<T>::empty() == Seq::<T>::empty());
    }
}

/// A pop returns the element that was pushed first among those that have
/// not left the ring yet.
pub proof fn lemma_pop_returns_oldest<T>(steps: Seq<Step<T>>, n: int)
    requires
        0 < n,
        held_after(steps, n).len() > 0,
    ensures
        left_by(steps, n).len() < pushed_by(steps).len(),
        held_after(steps, n)[0] == pushed_by(steps)[left_by(steps, n).len() as int],
{
    lemma_fifo(steps, n);
    let left = left_by(steps, n);
    let held = held_after(steps, n);
    assert((left + held)[left.len() as int] == held[0]);
}

/// Without an eviction, the pops return the elements in the order of the
/// pushes, from the first on: what was popped, followed by what is held, is
/// what was pushed.
pub proof fn lemma_pops_follow_pushes<T>(steps: Seq<Step<T>>, n: int)
    requires
        0 < n,
        pushed_by(steps).len() <= n,
    ensures
        popped_by(steps, n) == left_by(steps, n),
        popped_by(steps, n) + held_after(steps, n) == pushed_by(steps),
    decreases steps.len(),
{
    lemma_fifo(steps, n);
    if steps.len() > 0 {
        let front = steps.drop_last();
        lemma_fifo(front, n);
        lemma_pops_follow_pushes(front, n);
        let before = held_after(front, n);
        match steps.last() {
            Step::Push(item) => {
                assert(before.len() + 1 <= n) by {
                    assert((left_by(front, n) + before).len() == pushed_by(front).len());
                }
                lemma_fitting_pushes(before, seq![item], n);
                assert(left_by(front, n) + Seq::<T>::empty() == left_by(front, n));
            },
            Step::Pop => {},
        }
    }
}

/// Workers that each push `count` elements into an empty ring of their
/// own, with room for them, leave `workers * count` elements to drain.
pub proof fn lemma_pool_total<T>(rings: Seq<Seq<T>>, runs: Seq<Seq<T>>, count: nat, n: int)
    requires
        rings.len() == runs.len(),
        count <= n,
        forall|i: int| 0 <= i < runs.len() ==> (#[trigger] runs[i]).len() == count,
        forall|i: int|
            0 <= i < rings.len() ==> #[trigger] rings[i] == kept(Seq::<T>::empty(), runs[i], n),
    ensures
        merged(rings).len() == rings.len() * count,
{
    assert forall|i: int| 0 <= i < rings.len() implies (#[trigger] rings[i]).len() == count by {
        lemma_fitting_pushes(Seq::<T>::empty(), runs[i], n);
    }
    lemma_merged_len_uniform(rings, count);
}

} // verus!
