//! The two roles at a ring: the producer side, which pushes with explicit
//! backpressure, and the consumer side, which pops.

use crate::error::PushError;
use vstd::prelude::*;

verus! {

/// What a ring is to its contracts: the elements it holds, oldest first,
/// and the number it can hold. An implementation that the verifier does not
/// read need not say so: the spec functions then stand for values that
/// nothing is known of.
pub trait RingModel<T> {
    /// The elements held, oldest first.
    open spec fn held(&self) -> Seq<T> {
        vstd::pervasive::arbitrary()
    }

    /// The number of elements that can be held.
    open spec fn limit(&self) -> nat {
        vstd::pervasive::arbitrary()
    }

    /// Whether the ring is fit for use.
    open spec fn usable(&self) -> bool {
        true
    }
}

/// The producer side of a ring.
pub trait RingProducer<T>: RingModel<T> {
    /// Adds `item` as the newest element if there is room. When the ring
    /// is full it is left as it was and the item comes back in the error.
    fn try_push(&mut self, item: T) -> (res: Result<(), PushError<T>>)
        requires
            old(self).usable(),
        ensures
            final(self).usable(),
            final(self).limit() == old(self).limit(),
            old(self).held().len() < old(self).limit() ==> {
                &&& res.is_ok()
                &&& final(self).held() == old(self).held().push(item)
            },
            old(self).held().len() >= old(self).limit() ==> {
                &&& res == Err::<(), PushError<T>>(PushError::Full(item))
                &&& final(self).held() == old(self).held()
            },
    ;

    /// Whether there is no room.
    fn is_full(&self) -> (full: bool)
        requires
            self.usable(),
        ensures
            full <==> self.held().len() >= self.limit(),
    ;

    /// The number of elements that can be held.
    fn capacity(&self) -> (capacity: usize)
        requires
            self.usable(),
        ensures
            capacity == self.limit(),
    ;

    /// The number of elements held.
    fn len(&self) -> (len: usize)
        requires
            self.usable(),
        ensures
            len == self.held().len(),
    ;

    /// Whether nothing is held.
    fn is_empty(&self) -> (empty: bool)
        requires
            self.usable(),
        ensures
            empty <==> self.held().len() == 0,
    {
        self.len() == 0
    }
}

/// The consumer side of a ring.
pub trait RingConsumer<T>: RingModel<T> {
    /// Removes the oldest element and returns it, or returns `None` when
    /// nothing is held.
    fn try_pop(&mut self) -> (item: Option<T>)
        requires
            old(self).usable(),
        ensures
            final(self).usable(),
            final(self).limit() == old(self).limit(),
            old(self).held().len() == 0 ==> {
                &&& item.is_none()
                &&& final(self).held() == old(self).held()
            },
            old(self).held().len() > 0 ==> {
                &&& item == Some(old(self).held()[0])
                &&& final(self).held() == old(self).held().skip(1)
            },
    ;

    /// The oldest element, if there is one. It stays in the ring.
    fn peek(&self) -> (item: Option<&T>)
        requires
            self.usable(),
        ensures
            self.held().len() == 0 ==> item.is_none(),
            self.held().len() > 0 ==> item == Some(&self.held()[0]),
    ;

    /// Whether nothing is held.
    fn is_empty(&self) -> (empty: bool)
        requires
            self.usable(),
        ensures
            empty <==> self.held().len() == 0,
    ;

    /// The number of elements held.
    fn len(&self) -> (len: usize)
        requires
            self.usable(),
        ensures
            len == self.held().len(),
    ;

    /// The number of elements that can be held.
    fn capacity(&self) -> (capacity: usize)
        requires
            self.usable(),
        ensures
            capacity == self.limit(),
    ;
}

/// A ring that has both sides.
pub trait RingTrait<T>: RingProducer<T> + RingConsumer<T> {

}

impl<T, R: RingProducer<T> + RingConsumer<T>> RingTrait<T> for R {

}

/// The size of a ring, or of several rings taken together.
pub trait RingInfo {
    /// The number of elements held.
    open spec fn count(&self) -> nat {
        vstd::pervasive::arbitrary()
    }

    /// The number of elements that can be held.
    open spec fn room(&self) -> nat {
        vstd::pervasive::arbitrary()
    }

    /// Whether the sizes can be asked for: the value is well formed and the
    /// sizes fit in a `usize`.
    open spec fn countable(&self) -> bool {
        true
    }

    /// The number of elements held.
    fn len(&self) -> (len: usize)
        requires
            self.countable(),
        ensures
            len == self.count(),
    ;

    /// The number of elements that can be held.
    fn capacity(&self) -> (capacity: usize)
        requires
            self.countable(),
        ensures
            capacity == self.room(),
    ;

    /// Whether nothing is held.
    fn is_empty(&self) -> (empty: bool)
        requires
            self.countable(),
        ensures
            empty <==> self.count() == 0,
    {
        self.len() == 0
    }
}

} // verus!
