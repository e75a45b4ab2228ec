//! The ring: a fixed number of slots, a head counter and a tail counter, and
//! the sink that takes what is evicted.
//!
//! The live elements are those that the counters from `head` up to, and not
//! including, `tail` stand for, oldest first. The view of a ring is that
//! sequence. Every operation is stated over it and over the sink.

use crate::arith::{
    advance,
    distance,
    is_capacity,
    lemma_advance,
    lemma_distance,
    lemma_last_slot,
    lemma_shifted_slot,
    lemma_slot_unwraps,
    lemma_slots_differ,
    lemma_step,
    lemma_wrap_keeps_slot,
    lemma_wrapping_slot,
    slot_of,
};
use crate::error::PushError;
use crate::index::{Index, SinkCell};
use crate::sink::{
    lemma_sent_all_concat,
    lemma_sent_all_one,
    lemma_sent_all_push,
    sent_all,
    DropSink,
    Sink,
};
use crate::traits::{RingConsumer, RingInfo, RingModel, RingProducer};
use vstd::prelude::*;

verus! {

/// How many of `total` elements do not fit in `n` slots.
pub open spec fn overflow(total: int, n: int) -> int {
    if total > n {
        total - n
    } else {
        0
    }
}

/// What a ring of `n` slots that held `held` holds after `items` were
/// pushed, first to last.
pub open spec fn kept<T>(held: Seq<T>, items: Seq<T>, n: int) -> Seq<T> {
    (held + items).skip(overflow((held.len() + items.len()) as int, n))
}

/// What a ring of `n` slots that held `held` has evicted, in order, after
/// `items` were pushed, first to last.
pub open spec fn spilled<T>(held: Seq<T>, items: Seq<T>, n: int) -> Seq<T> {
    (held + items).take(overflow((held.len() + items.len()) as int, n))
}

/// One more push: what is kept and what is spilled after `items` and then
/// `item`, from what was kept and spilled after `items`.
pub proof fn lemma_push_step<T>(held: Seq<T>, items: Seq<T>, item: T, n: int)
    requires
        0 < n,
        held.len() <= n,
    ensures
        kept(held, items, n).len() <= n,
        kept(held, items, n).len() < n ==> kept(held, items.push(item), n) == kept(
            held,
            items,
            n,
        ).push(item) && spilled(held, items.push(item), n) == spilled(held, items, n),
        kept(held, items, n).len() == n ==> kept(held, items.push(item), n) == kept(
            held,
            items,
            n,
        ).skip(1).push(item) && spilled(held, items.push(item), n) == spilled(held, items, n).push(
            kept(held, items, n)[0],
        ),
{
    let all = held + items;
    let more = held + items.push(item);
    let k = overflow(all.len() as int, n);
    assert(more == all.push(item));
    if all.len() - k < n {
        assert(more.skip(0) == all.skip(0).push(item));
        assert(more.take(0) == all.take(0));
    } else {
        assert(more.skip(k + 1) == all.skip(k).skip(1).push(item));
        assert(more.take(k + 1) == all.take(k).push(all.skip(k)[0]));
    }
}

/// One push into a ring with a free slot keeps everything; one push into a
/// full ring evicts the oldest element and keeps the rest.
pub proof fn lemma_one_push<T>(held: Seq<T>, item: T, n: int)
    requires
        0 < n,
        held.len() <= n,
    ensures
        held.len() < n ==> kept(held, seq![item], n) == held.push(item) && spilled(
            held,
            seq![item],
            n,
        ) == Seq::<T>::empty(),
        held.len() == n ==> kept(held, seq![item], n) == held.skip(1).push(item) && spilled(
            held,
            seq![item],
            n,
        ) == seq![held[0]],
{
    let none = Seq::<T>::empty();
    assert(none.push(item) == seq![item]);
    assert(held + none == held);
    assert(held.skip(0) == held);
    assert(held.take(0) == none);
    lemma_push_step(held, none, item, n);
    if held.len() == n {
        assert(none.push(held[0]) == seq![held[0]]);
    }
}

/// Whether the window of `len` elements that starts at the counter `head`
/// is all there in `slots`.
pub open spec fn window_filled<T>(slots: Seq<Option<T>>, head: usize, len: int) -> bool {
    forall|i: int|
        0 <= i < len ==> (#[trigger] slots[slot_of(head, i, slots.len() as int)]) is Some
}

/// The elements of the window of `len` elements that starts at the counter
/// `head`, oldest first.
pub open spec fn window<T>(slots: Seq<Option<T>>, head: usize, len: int) -> Seq<T> {
    Seq::new(len as nat, |i: int| slots[slot_of(head, i, slots.len() as int)].unwrap())
}

/// Vacating the head slot leaves the rest of the window, one shorter.
pub proof fn lemma_window_pop<T>(slots: Seq<Option<T>>, head: usize, len: int)
    requires
        is_capacity(slots.len() as int),
        0 < len <= slots.len(),
        window_filled(slots, head, len),
    ensures
        window_filled(
            slots.update(head as int % (slots.len() as int), None),
            advance(head, 1),
            len - 1,
        ),
        window(slots.update(head as int % (slots.len() as int), None), advance(head, 1), len - 1)
            == window(slots, head, len).skip(1),
        window(slots, head, len)[0] == slots[head as int % (slots.len() as int)].unwrap(),
{
    let n = slots.len() as int;
    let next = advance(head, 1);
    let after = slots.update(head as int % n, None);
    assert forall|i: int| 0 <= i < len - 1 implies #[trigger] slot_of(next, i, n) == slot_of(
        head,
        i + 1,
        n,
    ) && slot_of(head, i + 1, n) != head as int % n by {
        lemma_shifted_slot(head, i, n);
        lemma_slots_differ(head as int, 0, i + 1, n);
    }
    assert forall|i: int| 0 <= i < len - 1 implies (#[trigger] after[slot_of(next, i, n)])
        is Some by {
        assert(slots[slot_of(head, i + 1, n)] is Some);
    }
    assert(slots[slot_of(head, 0, n)] is Some);
    assert(window(after, next, len - 1) =~= window(slots, head, len).skip(1));
}

/// Writing the slot one past the window makes the window one longer.
pub proof fn lemma_window_push<T>(slots: Seq<Option<T>>, head: usize, len: int, item: T)
    requires
        is_capacity(slots.len() as int),
        0 <= len < slots.len(),
        window_filled(slots, head, len),
    ensures
        window_filled(
            slots.update(advance(head, len) as int % (slots.len() as int), Some(item)),
            head,
            len + 1,
        ),
        window(
            slots.update(advance(head, len) as int % (slots.len() as int), Some(item)),
            head,
            len + 1,
        ) == window(slots, head, len).push(item),
        0 <= advance(head, len) as int % (slots.len() as int) < slots.len(),
{
    let n = slots.len() as int;
    let at = advance(head, len) as int % n;
    let after = slots.update(at, Some(item));
    lemma_wrap_keeps_slot(head + len, n);
    vstd::arithmetic::div_mod::lemma_mod_bound(head + len, n);
    assert(at == (head + len) % n);
    assert forall|i: int| 0 <= i < len implies #[trigger] slot_of(head, i, n) != at by {
        lemma_slots_differ(head as int, i, len, n);
    }
    assert forall|i: int| 0 <= i < len + 1 implies (#[trigger] after[slot_of(head, i, n)])
        is Some by {
        if i < len {
            assert(slots[slot_of(head, i, n)] is Some);
        }
    }
    assert(window(after, head, len + 1) =~= window(slots, head, len).push(item));
}

/// Replacing the element in the slot of the position `index` of a window
/// replaces that element of the window and no other.
pub proof fn lemma_window_update<T>(slots: Seq<Option<T>>, head: usize, len: int, index: int)
    requires
        is_capacity(slots.len() as int),
        0 <= index < len <= slots.len(),
        window_filled(slots, head, len),
    ensures
        forall|value: T|
            #![trigger slots.update(slot_of(head, index, slots.len() as int), Some(value))]
            {
                let after = slots.update(slot_of(head, index, slots.len() as int), Some(value));
                &&& window_filled(after, head, len)
                &&& window(after, head, len) == window(slots, head, len).update(index, value)
            },
{
    let n = slots.len() as int;
    vstd::arithmetic::div_mod::lemma_mod_bound(head + index, n);
    assert forall|value: T|
        #![trigger slots.update(slot_of(head, index, n), Some(value))]
        {
            let after = slots.update(slot_of(head, index, n), Some(value));
            &&& window_filled(after, head, len)
            &&& window(after, head, len) == window(slots, head, len).update(index, value)
        } by {
        let after = slots.update(slot_of(head, index, n), Some(value));
        assert forall|i: int| 0 <= i < len && i != index implies #[trigger] slot_of(head, i, n)
            != slot_of(head, index, n) by {
            if i < index {
                lemma_slots_differ(head as int, i, index, n);
            } else {
                lemma_slots_differ(head as int, index, i, n);
            }
        }
        assert forall|i: int| 0 <= i < len implies (#[trigger] after[slot_of(head, i, n)])
            is Some by {
            if i != index {
                assert(slots[slot_of(head, i, n)] is Some);
            }
        }
        assert(window(after, head, len) =~= window(slots, head, len).update(index, value));
    }
}

/// References to the first `count` elements of `slots`, which are all
/// there.
fn collect_mut<T>(slots: &mut [Option<T>], count: usize) -> (items: Vec<&mut T>)
    requires
        count <= old(slots)@.len(),
        forall|i: int| 0 <= i < count ==> (#[trigger] old(slots)@[i]) is Some,
    ensures
        items@.len() == count,
        forall|i: int| 0 <= i < count ==> *(#[trigger] items@[i]) == old(slots)@[i].unwrap(),
        final(slots)@.len() == old(slots)@.len(),
        forall|i: int| 0 <= i < count ==> (#[trigger] final(slots)@[i]) == Some(*final(items@[i])),
        forall|i: int|
            count <= i < old(slots)@.len() ==> (#[trigger] final(slots)@[i]) == old(slots)@[i],
{
    let mut items: Vec<&mut T> = Vec::new();
    let mut rest = slots;
    let mut taken: usize = 0;
    while taken < count
        invariant
            taken <= count,
            count <= old(slots)@.len(),
            items@.len() == taken,
            rest@.len() == old(slots)@.len() - taken,
            forall|j: int|
                taken <= j < old(slots)@.len() ==> (#[trigger] old(slots)@[j]) == rest@[j - taken],
            forall|i: int| 0 <= i < count ==> (#[trigger] old(slots)@[i]) is Some,
            forall|i: int| 0 <= i < taken ==> *(#[trigger] items@[i]) == old(slots)@[i].unwrap(),
            final(slots)@.len() == taken + final(rest)@.len(),
            forall|i: int|
                0 <= i < taken ==> (#[trigger] final(slots)@[i]) == Some(*final(items@[i])),
            forall|j: int|
                taken <= j < final(slots)@.len() ==> (#[trigger] final(slots)@[j]) == final(rest)@[j
                    - taken],
        decreases count - taken,
    {
        assert(old(slots)@[taken as int] is Some);
        assert(rest@[0] == old(slots)@[taken as int]);
        let whole = rest;
        let (one, tail) = whole.split_at_mut(1);
        rest = tail;
        assert(one@[0] is Some);
        match one.first_mut() {
            Some(slot) => match slot.as_mut() {
                Some(item) => {
                    items.push(item);
                },
                None => {},
            },
            None => {},
        }
        taken += 1;
    }
    items
}

/// A ring buffer of `N` slots that evicts its oldest element to the sink
/// `S` when an element is pushed and no slot is free.
pub struct SpillRing<T, const N: usize, S: Sink<T> = DropSink> {
    slots: Vec<Option<T>>,
    head: Index,
    tail: Index,
    sink: SinkCell<S>,
}

impl<T, const N: usize, S: Sink<T>> View for SpillRing<T, N, S> {
    type V = Seq<T>;

    /// The live elements, oldest first.
    closed spec fn view(&self) -> Seq<T> {
        window(self.slots@, self.head@, distance(self.head@, self.tail@))
    }
}

impl<T, const N: usize, S: Sink<T>> SpillRing<T, N, S> {
    /// The sink of the ring.
    pub closed spec fn sink_view(&self) -> S {
        self.sink@
    }

    /// The invariant of the storage: the capacity is a positive power of
    /// two, there are as many slots, the tail is at most the capacity ahead
    /// of the head, and every slot of the live window holds an element.
    pub closed spec fn inv(&self) -> bool {
        &&& is_capacity(N as int)
        &&& self.slots@.len() == N
        &&& 0 <= distance(self.head@, self.tail@) <= N
        &&& self.tail@ == advance(self.head@, distance(self.head@, self.tail@))
        &&& window_filled(self.slots@, self.head@, distance(self.head@, self.tail@))
    }

    /// Whether the ring is well formed: its storage is, and its sink is fit
    /// to be sent to.
    pub open spec fn wf(&self) -> bool {
        self.inv() && self.sink_view().wf()
    }

    /// A well-formed ring has a capacity and holds no more than that.
    pub proof fn lemma_inv(&self)
        requires
            self.inv(),
        ensures
            is_capacity(N as int),
            self@.len() <= N,
    {
    }

    /// An empty ring with the sink `sink`.
    pub fn with_sink(sink: S) -> (ring: Self)
        requires
            is_capacity(N as int),
            sink.wf(),
        ensures
            ring.wf(),
            ring@ == Seq::<T>::empty(),
            ring.sink_view() == sink,
    {
        SpillRing::raw(sink)
    }

    /// The slots, all empty, with both counters at zero.
    fn raw(sink: S) -> (ring: Self)
        ensures
            is_capacity(N as int) ==> ring.inv() && ring@ == Seq::<T>::empty(),
            ring.sink_view() == sink,
    {
        let mut slots: Vec<Option<T>> = Vec::new();
        let mut i: usize = 0;
        while i < N
            invariant
                i <= N,
                slots@.len() == i,
            decreases N - i,
        {
            slots.push(None);
            i += 1;
        }
        proof {
            lemma_advance(0, 0);
        }
        let ring = SpillRing {
            slots,
            head: Index::new(0),
            tail: Index::new(0),
            sink: SinkCell::new(sink),
        };
        proof {
            assert(ring@ =~= Seq::<T>::empty());
        }
        ring
    }

    /// The number of live elements.
    pub fn len(&self) -> (len: usize)
        requires
            self.inv(),
        ensures
            len == self@.len(),
            len <= N,
    {
        proof {
            lemma_distance(self.head@, self.tail@);
        }
        self.tail.load().wrapping_sub(self.head.load())
    }

    /// Whether the ring holds nothing.
    pub fn is_empty(&self) -> (empty: bool)
        requires
            self.inv(),
        ensures
            empty <==> self@.len() == 0,
    {
        proof {
            lemma_advance(self.head@, 0);
        }
        self.head.load() == self.tail.load()
    }

    /// Whether every slot is taken.
    pub fn is_full(&self) -> (full: bool)
        requires
            self.inv(),
        ensures
            full <==> self@.len() == N,
    {
        proof {
            lemma_distance(self.head@, self.tail@);
        }
        self.tail.load().wrapping_sub(self.head.load()) >= N
    }

    /// The number of slots.
    pub fn capacity(&self) -> (capacity: usize)
        ensures
            capacity == N,
    {
        N
    }

    /// Takes the element at the head out of its slot and moves the head on.
    fn take_oldest(&mut self) -> (item: T)
        requires
            old(self).inv(),
            old(self)@.len() > 0,
        ensures
            final(self).inv(),
            final(self).sink_view() == old(self).sink_view(),
            item == old(self)@[0],
            final(self)@ == old(self)@.skip(1),
    {
        let head = self.head.load_relaxed();
        let ghost len = distance(head, self.tail@);
        proof {
            lemma_distance(head, self.tail@);
            lemma_window_pop(self.slots@, head, len);
            lemma_advance(head, len - 1);
            vstd::arithmetic::div_mod::lemma_mod_bound(head as int, N as int);
        }
        let item = self.slots[head % N].take().unwrap();
        self.head.store(head.wrapping_add(1));
        proof {
            assert(self.slots@ == old(self).slots@.update(head as int % (N as int), None));
            assert(self.head@ == advance(head, 1));
            assert(self.tail@ == advance(self.head@, len - 1));
            assert(distance(self.head@, self.tail@) == len - 1);
        }
        item
    }

    /// Writes `item` into the slot at the tail and moves the tail on.
    fn put_newest(&mut self, item: T)
        requires
            old(self).inv(),
            old(self)@.len() < N,
        ensures
            final(self).inv(),
            final(self).sink_view() == old(self).sink_view(),
            final(self)@ == old(self)@.push(item),
    {
        let tail = self.tail.load_relaxed();
        let ghost len = distance(self.head@, tail);
        proof {
            lemma_distance(self.head@, tail);
            lemma_window_push(self.slots@, self.head@, len, item);
            lemma_advance(self.head@, len);
            lemma_advance(tail, 1);
            lemma_advance(self.head@, len + 1);
            lemma_step(self.head@, len);
            vstd::arithmetic::div_mod::lemma_mod_bound(tail as int, N as int);
        }
        self.slots[tail % N] = Some(item);
        self.tail.store(tail.wrapping_add(1));
        proof {
            assert(self.slots@ == old(self).slots@.update(tail as int % (N as int), Some(item)));
            assert(self.tail@ == advance(self.head@, len + 1));
            assert(distance(self.head@, self.tail@) == len + 1);
        }
    }

    /// Adds `item` as the newest element. When the ring is full, the oldest
    /// element is first evicted to the sink.
    pub fn push(&mut self, item: T)
        requires
            old(self).wf(),
        ensures
            final(self).wf(),
            old(self)@.len() < N ==> {
                &&& final(self)@ == old(self)@.push(item)
                &&& final(self).sink_view() == old(self).sink_view()
            },
            old(self)@.len() == N ==> {
                &&& final(self)@ == old(self)@.skip(1).push(item)
                &&& old(self).sink_view().sent(old(self)@[0], &final(self).sink_view())
            },
            final(self)@ == kept(old(self)@, seq![item], N as int),
            sent_all(
                old(self).sink_view(),
                spilled(old(self)@, seq![item], N as int),
                final(self).sink_view(),
            ),
    {
        let tail = self.tail.load_relaxed();
        let head = self.head.load();
        let len = tail.wrapping_sub(head);
        let ghost start = self.sink_view();
        proof {
            lemma_distance(head, tail);
            lemma_one_push(old(self)@, item, N as int);
        }
        if len >= N {
            let evicted = self.take_oldest();
            self.sink.get_mut().send(evicted);
            proof {
                lemma_sent_all_one(start, evicted, self.sink_view());
            }
        }
        self.put_newest(item);
    }

    /// Removes the oldest element and returns it, or returns `None` when the
    /// ring is empty. The sink is not touched.
    pub fn pop(&mut self) -> (item: Option<T>)
        requires
            old(self).inv(),
        ensures
            final(self).inv(),
            final(self).sink_view() == old(self).sink_view(),
            old(self)@.len() == 0 ==> item.is_none() && final(self)@ == old(self)@,
            old(self)@.len() > 0 ==> {
                &&& item == Some(old(self)@[0])
                &&& final(self)@ == old(self)@.skip(1)
            },
    {
        let head = self.head.load_relaxed();
        let tail = self.tail.load();

        proof {
            lemma_advance(head, 0);
        }
        if head == tail {
            return None;
        }
        Some(self.take_oldest())
    }

    /// Adds `item` and then sends everything the ring holds to the sink.
    pub fn push_and_flush(&mut self, item: T)
        requires
            old(self).wf(),
        ensures
            final(self).wf(),
            final(self)@ == Seq::<T>::empty(),
            sent_all(old(self).sink_view(), old(self)@.push(item), final(self).sink_view()),
    {
        let ghost before = old(self)@;
        self.push(item);
        let ghost mid = self.sink_view();
        let ghost held = self@;
        self.flush();
        proof {
            if before.len() == N {
                lemma_sent_all_one(old(self).sink_view(), before[0], mid);
                lemma_sent_all_concat(
                    old(self).sink_view(),
                    seq![before[0]],
                    mid,
                    held,
                    self.sink_view(),
                );
                assert(seq![before[0]] + held == before.push(item));
            }
        }
    }

    /// Sends every live element to the sink, oldest first, and leaves the
    /// ring empty. Returns how many were sent. On an empty ring nothing
    /// reaches the sink.
    pub fn flush(&mut self) -> (count: usize)
        requires
            old(self).wf(),
        ensures
            final(self).wf(),
            final(self)@ == Seq::<T>::empty(),
            count == old(self)@.len(),
            sent_all(old(self).sink_view(), old(self)@, final(self).sink_view()),
            old(self)@.len() == 0 ==> final(self).sink_view() == old(self).sink_view(),
    {
        let mut count: usize = 0;
        loop
            invariant
                self.wf(),
                count + self@.len() == old(self)@.len(),
                old(self)@.len() <= N,
                self@ == old(self)@.skip(count as int),
                sent_all(old(self).sink_view(), old(self)@.take(count as int), self.sink_view()),
                count == 0 ==> self.sink_view() == old(self).sink_view(),
            ensures
                self.wf(),
                self@.len() == 0,
                count == old(self)@.len(),
                sent_all(old(self).sink_view(), old(self)@.take(count as int), self.sink_view()),
                count == 0 ==> self.sink_view() == old(self).sink_view(),
            decreases self@.len(),
        {
            let ghost before = self.sink_view();
            match self.pop() {
                Some(item) => {
                    self.sink.get_mut().send(item);
                    proof {
                        let k = count as int;
                        assert(old(self)@.take(k + 1) == old(self)@.take(k).push(item));
                        lemma_sent_all_push(
                            old(self).sink_view(),
                            old(self)@.take(k),
                            before,
                            item,
                            self.sink_view(),
                        );
                        assert(self@ == old(self)@.skip(k + 1));
                    }
                    count += 1;
                },
                None => {
                    break ;
                },
            }
        }
        proof {
            assert(old(self)@.take(count as int) == old(self)@);
            assert(self@ == Seq::<T>::empty());
        }
        count
    }

    /// Empties the ring into the sink, as `flush` does.
    pub fn clear(&mut self)
        requires
            old(self).wf(),
        ensures
            final(self).wf(),
            final(self)@ == Seq::<T>::empty(),
            sent_all(old(self).sink_view(), old(self)@, final(self).sink_view()),
    {
        self.flush();
    }

    /// Empties the ring without a word to the sink: the elements are
    /// dropped.
    pub fn clear_drop(&mut self)
        requires
            old(self).inv(),
        ensures
            final(self).inv(),
            final(self)@ == Seq::<T>::empty(),
            final(self).sink_view() == old(self).sink_view(),
    {
        loop
            invariant
                self.inv(),
                self.sink_view() == old(self).sink_view(),
            ensures
                self.inv(),
                self@.len() == 0,
                self.sink_view() == old(self).sink_view(),
            decreases self@.len(),
        {
            if self.pop().is_none() {
                break ;
            }
        }
        proof {
            assert(self@ == Seq::<T>::empty());
        }
    }

    /// The oldest element, if there is one. It stays in the ring.
    pub fn peek(&self) -> (item: Option<&T>)
        requires
            self.inv(),
        ensures
            self@.len() == 0 ==> item.is_none(),
            self@.len() > 0 ==> item == Some(&self@[0]),
    {
        let head = self.head.load_relaxed();
        let tail = self.tail.load();

        proof {
            lemma_advance(head, 0);
            lemma_distance(head, tail);
        }
        if head == tail {
            return None;
        }
        proof {
            lemma_wrapping_slot(head, 0, N as int);
            assert(self.slots@[slot_of(head, 0, N as int)] is Some);
        }
        self.slots[head % N].as_ref()
    }

    /// The newest element, if there is one. It stays in the ring.
    pub fn peek_back(&self) -> (item: Option<&T>)
        requires
            self.inv(),
        ensures
            self@.len() == 0 ==> item.is_none(),
            self@.len() > 0 ==> item == Some(&self@[self@.len() - 1]),
    {
        let head = self.head.load_relaxed();
        let tail = self.tail.load();

        proof {
            lemma_advance(head, 0);
            lemma_distance(head, tail);
        }
        if head == tail {
            return None;
        }
        let ghost len = distance(head, tail);
        proof {
            lemma_last_slot(head, len, N as int);
            assert(self.slots@[slot_of(head, len - 1, N as int)] is Some);
        }
        let idx = tail.wrapping_sub(1) % N;
        self.slots[idx].as_ref()
    }

    /// The element at `index`, counted from the oldest, if there is one.
    pub fn get(&self, index: usize) -> (item: Option<&T>)
        requires
            self.inv(),
        ensures
            index >= self@.len() ==> item.is_none(),
            index < self@.len() ==> item == Some(&self@[index as int]),
    {
        let head = self.head.load_relaxed();
        let tail = self.tail.load();
        let len = tail.wrapping_sub(head);

        proof {
            lemma_distance(head, tail);
        }
        if index >= len {
            return None;
        }
        proof {
            lemma_wrapping_slot(head, index, N as int);
            assert(self.slots@[slot_of(head, index as int, N as int)] is Some);
        }
        let idx = head.wrapping_add(index) % N;
        self.slots[idx].as_ref()
    }

    /// The element at `index`, counted from the oldest, if there is one,
    /// for changing it in place.
    pub fn get_mut(&mut self, index: usize) -> (item: Option<&mut T>)
        requires
            old(self).inv(),
        ensures
            final(self).inv(),
            final(self).sink_view() == old(self).sink_view(),
            index >= old(self)@.len() ==> item.is_none() && final(self)@ == old(self)@,
            index < old(self)@.len() ==> {
                &&& item.is_some()
                &&& *item.unwrap() == old(self)@[index as int]
                &&& final(self)@ == old(self)@.update(index as int, *final(item.unwrap()))
            },
    {
        let head = self.head.load_relaxed();
        let tail = self.tail.load();
        let len = tail.wrapping_sub(head);

        proof {
            lemma_distance(head, tail);
        }
        if index >= len {
            return None;
        }
        proof {
            lemma_wrapping_slot(head, index, N as int);
            assert(self.slots@[slot_of(head, index as int, N as int)] is Some);
            lemma_window_update(self.slots@, head, len as int, index as int);
        }
        let idx = head.wrapping_add(index) % N;
        self.slots[idx].as_mut()
    }

    /// The live elements, oldest first, for changing them in place. The
    /// ring holds what the caller leaves behind the references.
    pub fn iter_mut(&mut self) -> (items: Vec<&mut T>)
        requires
            old(self).inv(),
        ensures
            items@.len() == old(self)@.len(),
            forall|i: int| 0 <= i < items@.len() ==> *(#[trigger] items@[i]) == old(self)@[i],
            final(self).inv(),
            final(self).sink_view() == old(self).sink_view(),
            final(self)@.len() == old(self)@.len(),
            forall|i: int|
                0 <= i < items@.len() ==> (#[trigger] final(self)@[i]) == *final(items@[i]),
    {
        let head = self.head.load_relaxed();
        let tail = self.tail.load();
        let len = tail.wrapping_sub(head);
        proof {
            lemma_distance(head, tail);
            vstd::arithmetic::div_mod::lemma_mod_bound(head as int, N as int);
        }
        let start = head % N;
        let first = if len <= N - start {
            len
        } else {
            N - start
        };
        let ghost before = self.slots@;
        let ghost after = final(self).slots@;
        proof {
            assert forall|i: int| 0 <= i < first implies (#[trigger] before[start + i]) is Some by {
                lemma_slot_unwraps(head, i, N as int);
                assert(before[slot_of(head, i, N as int)] is Some);
            }
            assert forall|i: int| 0 <= i < len - first implies (#[trigger] before[i]) is Some by {
                lemma_slot_unwraps(head, first + i, N as int);
                assert(before[slot_of(head, first + i, N as int)] is Some);
            }
        }
        let (front, back) = self.slots.as_mut_slice().split_at_mut(start);
        let ghost back_after = final(back)@;
        let ghost front_after = final(front)@;
        proof {
            assert forall|i: int| 0 <= i < first implies (#[trigger] back@[i]) is Some by {
                assert(back@[i] == before[start + i]);
            }
            assert forall|i: int| 0 <= i < len - first implies (#[trigger] front@[i]) is Some by {
                assert(front@[i] == before[i]);
            }
            assert(back@ =~= before.skip(start as int));
            assert(front@ =~= before.take(start as int));
            assert(after =~= front_after + back_after);
        }
        let mut items = collect_mut(back, first);
        let mut more = collect_mut(front, len - first);
        let ghost early = items@;
        let ghost late = more@;
        items.append(&mut more);
        proof {
            assert(after.len() == N);
            assert forall|i: int| 0 <= i < len implies (#[trigger] after[slot_of(
                head,
                i,
                N as int,
            )]) == Some(*final(items@[i])) by {
                lemma_slot_unwraps(head, i, N as int);
                if i < first {
                    assert(items@[i] == early[i]);
                    assert(after[start + i] == back_after[i]);
                    assert(before.skip(start as int)[i] == before[start + i]);
                } else {
                    assert(items@[i] == late[i - first]);
                    assert(after[i - first] == front_after[i - first]);
                    assert(before.take(start as int)[i - first] == before[i - first]);
                }
            }
            assert forall|i: int| 0 <= i < len implies *(#[trigger] items@[i]) == before[slot_of(
                head,
                i,
                N as int,
            )].unwrap() by {
                lemma_slot_unwraps(head, i, N as int);
                if i < first {
                    assert(items@[i] == early[i]);
                    assert(before.skip(start as int)[i] == before[start + i]);
                } else {
                    assert(items@[i] == late[i - first]);
                    assert(before.take(start as int)[i - first] == before[i - first]);
                }
            }
            assert(window_filled(after, head, len as int));
            assert(window(after, head, len as int) =~= Seq::new(
                len as nat,
                |i: int| *final(items@[i]),
            ));
            assert(window(before, head, len as int) =~= Seq::new(len as nat, |i: int| *items@[i]));
        }
        items
    }

    /// The sink, for reading.
    pub fn sink(&self) -> (sink: &S)
        ensures
            *sink == self.sink_view(),
    {
        self.sink.get_ref()
    }

    /// The sink, for sending to it or draining it. The ring holds what the
    /// caller leaves behind the reference.
    pub fn sink_mut(&mut self) -> (sink: &mut S)
        ensures
            *sink == old(self).sink_view(),
            final(self).sink_view() == *final(sink),
            final(self)@ == old(self)@,
            final(self).inv() == old(self).inv(),
    {
        self.sink.get_mut()
    }

    /// The live elements, oldest first. They stay in the ring.
    pub fn iter(&self) -> (items: Vec<&T>)
        requires
            self.inv(),
        ensures
            items@.len() == self@.len(),
            forall|i: int| 0 <= i < items@.len() ==> *(#[trigger] items@[i]) == self@[i],
    {
        let len = self.len();
        let mut items: Vec<&T> = Vec::new();
        let mut index: usize = 0;
        while index < len
            invariant
                self.inv(),
                len == self@.len(),
                index <= len,
                items@.len() == index,
                forall|i: int| 0 <= i < items@.len() ==> *(#[trigger] items@[i]) == self@[i],
            decreases len - index,
        {
            match self.get(index) {
                Some(item) => {
                    items.push(item);
                },
                None => {},
            }
            index += 1;
        }
        items
    }

    /// Removes every live element and returns them, oldest first. The sink
    /// is not touched.
    pub fn drain(&mut self) -> (items: Vec<T>)
        requires
            old(self).inv(),
        ensures
            final(self).inv(),
            items@ == old(self)@,
            final(self)@ == Seq::<T>::empty(),
            final(self).sink_view() == old(self).sink_view(),
    {
        let mut items: Vec<T> = Vec::new();
        loop
            invariant
                self.inv(),
                self.sink_view() == old(self).sink_view(),
                items@ + self@ == old(self)@,
            ensures
                self.inv(),
                self.sink_view() == old(self).sink_view(),
                self@.len() == 0,
                items@ + self@ == old(self)@,
            decreases self@.len(),
        {
            let ghost held = self@;
            match self.pop() {
                Some(item) => {
                    items.push(item);
                    proof {
                        assert(items@ + self@ == (items@.drop_last() + held));
                    }
                },
                None => {
                    break ;
                },
            }
        }
        proof {
            assert(self@ == Seq::<T>::empty());
            assert(items@ + self@ == items@);
        }
        items
    }

    /// Ends the ring as its destruction does: sends what it holds to the
    /// sink, flushes the sink and gives the sink back.
    pub fn into_sink(self) -> (sink: S)
        requires
            self.wf(),
        ensures
            sink.wf(),
            exists|mid: S|
                #![trigger mid.flushed(&sink)]
                sent_all(self.sink_view(), self@, mid) && mid.flushed(&sink),
    {
        let mut ring = self;
        ring.flush();
        let ghost mid = ring.sink_view();
        let mut sink = ring.sink.into_inner();
        sink.flush();
        proof {
            assert(mid.flushed(&sink));
        }
        sink
    }
}

impl<T, const N: usize, S: Sink<T>> SpillRing<T, N, S> {
    /// Pushes the items, first to last. What does not fit is evicted to
    /// the sink, oldest first.
    pub fn extend(&mut self, items: Vec<T>)
        requires
            old(self).wf(),
        ensures
            final(self).wf(),
            final(self)@ == kept(old(self)@, items@, N as int),
            sent_all(
                old(self).sink_view(),
                spilled(old(self)@, items@, N as int),
                final(self).sink_view(),
            ),
            old(self)@.len() + items@.len() <= N ==> {
                final(self).sink_view() == old(self).sink_view()
            },
    {
        let ghost all = items@;
        let ghost held = old(self)@;
        let ghost start = old(self).sink_view();
        proof {
            old(self).lemma_inv();
            assert(all.take(0) == Seq::<T>::empty());
            assert(held + Seq::<T>::empty() == held);
            assert(kept(held, all.take(0), N as int) == held);
            assert(spilled(held, all.take(0), N as int) == Seq::<T>::empty());
        }
        for item in it: items
            invariant
                it.seq() == all,
                self.wf(),
                0 < N,
                held.len() <= N,
                self@ == kept(held, all.take(it.index() as int), N as int),
                sent_all(
                    start,
                    spilled(held, all.take(it.index() as int), N as int),
                    self.sink_view(),
                ),
                held.len() + it.index() <= N ==> self.sink_view() == start,
        {
            let ghost k = it.index() as int;
            let ghost before = self.sink_view();
            proof {
                lemma_push_step(held, all.take(k), item, N as int);
                assert(all.take(k + 1) == all.take(k).push(item));
            }
            self.push(item);
            proof {
                if kept(held, all.take(k), N as int).len() == N {
                    lemma_sent_all_push(
                        start,
                        spilled(held, all.take(k), N as int),
                        before,
                        kept(held, all.take(k), N as int)[0],
                        self.sink_view(),
                    );
                }
            }
        }
        proof {
            assert(all.take(all.len() as int) == all);
        }
    }
}

impl<T, const N: usize, S: Sink<T>> RingModel<T> for SpillRing<T, N, S> {
    open spec fn held(&self) -> Seq<T> {
        self@
    }

    open spec fn limit(&self) -> nat {
        N as nat
    }

    open spec fn usable(&self) -> bool {
        self.inv()
    }
}

impl<T, const N: usize, S: Sink<T>> RingProducer<T> for SpillRing<T, N, S> {
    fn try_push(&mut self, item: T) -> (res: Result<(), PushError<T>>)
        ensures
            final(self).sink_view() == old(self).sink_view(),
    {
        let tail = self.tail.load_relaxed();
        let head = self.head.load();

        proof {
            lemma_distance(head, tail);
        }
        if tail.wrapping_sub(head) >= N {
            return Err(PushError::Full(item));
        }
        self.put_newest(item);
        Ok(())
    }

    fn is_full(&self) -> (full: bool) {
        SpillRing::is_full(self)
    }

    fn capacity(&self) -> (capacity: usize) {
        N
    }

    fn len(&self) -> (len: usize) {
        SpillRing::len(self)
    }

    fn is_empty(&self) -> (empty: bool) {
        SpillRing::is_empty(self)
    }
}

impl<T, const N: usize, S: Sink<T>> RingConsumer<T> for SpillRing<T, N, S> {
    fn try_pop(&mut self) -> (item: Option<T>)
        ensures
            final(self).sink_view() == old(self).sink_view(),
    {
        self.pop()
    }

    fn peek(&self) -> (item: Option<&T>) {
        SpillRing::peek(self)
    }

    fn is_empty(&self) -> (empty: bool) {
        SpillRing::is_empty(self)
    }

    fn len(&self) -> (len: usize) {
        SpillRing::len(self)
    }

    fn capacity(&self) -> (capacity: usize) {
        N
    }
}

impl<T, const N: usize, S: Sink<T>> RingInfo for SpillRing<T, N, S> {
    open spec fn count(&self) -> nat {
        self@.len()
    }

    open spec fn room(&self) -> nat {
        N as nat
    }

    open spec fn countable(&self) -> bool {
        self.inv()
    }

    fn len(&self) -> (len: usize) {
        SpillRing::len(self)
    }

    fn capacity(&self) -> (capacity: usize) {
        N
    }
}

/// A ring is itself a sink: what is sent to it is pushed, so that what one
/// ring evicts another can hold, and what that one evicts goes on to its own
/// sink.
impl<T, const N: usize, S: Sink<T>> Sink<T> for SpillRing<T, N, S> {
    open spec fn wf(&self) -> bool {
        self.inv() && self.sink_view().wf()
    }

    open spec fn sent(&self, item: T, after: &Self) -> bool {
        if self@.len() < N {
            after@ == self@.push(item) && after.sink_view() == self.sink_view()
        } else {
            after@ == self@.skip(1).push(item) && self.sink_view().sent(
                self@[0],
                &after.sink_view(),
            )
        }
    }

    open spec fn flushed(&self, after: &Self) -> bool {
        &&& after@ == Seq::<T>::empty()
        &&& exists|mid: S|
            #![trigger mid.flushed(&after.sink_view())]
            sent_all(self.sink_view(), self@, mid) && mid.flushed(&after.sink_view())
    }

    fn send(&mut self, item: T) {
        proof {
            self.lemma_inv();
        }
        self.push(item);
    }

    /// Sends what the ring holds to its sink and then flushes that sink:
    /// a flush cascades down a chain of rings.
    fn flush(&mut self) {
        SpillRing::flush(self);
        let ghost mid = self.sink_view();
        self.sink.get_mut().flush();
        proof {
            assert(mid.flushed(&self.sink_view()));
        }
    }
}

impl<T, const N: usize> Default for SpillRing<T, N, DropSink> {
    /// An empty ring that drops what it evicts. The capacity has to be a
    /// positive power of two.
    fn default() -> (ring: Self)
        ensures
            is_capacity(N as int) ==> ring.wf() && ring@ == Seq::<T>::empty(),
    {
        SpillRing::raw(DropSink)
    }
}

impl<T, const N: usize> SpillRing<T, N, DropSink> {
    /// An empty ring that drops what it evicts.
    pub fn new() -> (ring: Self)
        requires
            is_capacity(N as int),
        ensures
            ring.wf(),
            ring@ == Seq::<T>::empty(),
    {
        SpillRing::with_sink(DropSink)
    }
}

} // verus!
