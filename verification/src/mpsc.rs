//! Many producers, one consumer, and no state that two of them share.
//!
//! Every producer owns a ring of its own, so that pushing never contends.
//! When the producers are done, their rings are handed to the consumer,
//! which drains them one after the other, in the order in which they were
//! handed over, each oldest element first.

use crate::arith::is_capacity;
use crate::ring::SpillRing;
use crate::sink::{lemma_sent_all_concat, sent_all, DropSink, SendAll, Sink};
use crate::traits::RingInfo;
use vstd::prelude::*;

verus! {

/// The elements of `rings`, ring after ring.
pub open spec fn merged<T>(rings: Seq<Seq<T>>) -> Seq<T>
    decreases rings.len(),
{
    if rings.len() == 0 {
        Seq::empty()
    } else {
        merged(rings.drop_last()) + rings.last()
    }
}

/// The number of elements before those of ring `index` in `merged(rings)`.
pub open spec fn offset<T>(rings: Seq<Seq<T>>, index: int) -> int
    recommends
        0 <= index <= rings.len(),
{
    merged(rings.take(index)).len() as int
}

/// The elements of every ring stand together in the merged sequence, in the
/// order that they have in the ring, after those of the rings before it.
pub proof fn lemma_merged_keeps_order<T>(rings: Seq<Seq<T>>, index: int)
    requires
        0 <= index < rings.len(),
    ensures
        offset(rings, index) + rings[index].len() <= merged(rings).len(),
        merged(rings).subrange(
            offset(rings, index),
            offset(rings, index) + rings[index].len(),
        ) == rings[index],
        offset(rings, index + 1) == offset(rings, index) + rings[index].len(),
    decreases rings.len(),
{
    let front = rings.drop_last();
    assert(rings.take(index + 1).drop_last() == rings.take(index));
    assert(rings.take(index + 1).last() == rings[index]);
    if index == rings.len() - 1 {
        assert(rings.take(index) == front);
        assert(rings.take(index + 1) == rings);
        assert(merged(rings).subrange(
            offset(rings, index),
            offset(rings, index) + rings[index].len(),
        ) == rings[index]);
    } else {
        lemma_merged_keeps_order(front, index);
        assert(front.take(index) == rings.take(index));
        assert(front[index] == rings[index]);
        assert(merged(rings).subrange(
            offset(rings, index),
            offset(rings, index) + rings[index].len(),
        ) == merged(front).subrange(
            offset(rings, index),
            offset(rings, index) + rings[index].len(),
        ));
    }
}

/// Rings that hold `each` elements each hold `rings.len() * each` together.
pub proof fn lemma_merged_len_uniform<T>(rings: Seq<Seq<T>>, each: nat)
    requires
        forall|i: int| 0 <= i < rings.len() ==> (#[trigger] rings[i]).len() == each,
    ensures
        merged(rings).len() == rings.len() * each,
    decreases rings.len(),
{
    if rings.len() > 0 {
        lemma_merged_len_uniform(rings.drop_last(), each);
        assert(rings.len() * each == (rings.len() - 1) * each + each) by (nonlinear_arith);
    } else {
        assert(rings.len() * each == 0) by (nonlinear_arith)
            requires
                rings.len() == 0,
        ;
    }
}

/// Rings that hold at most `n` elements each hold at most `rings.len() * n`
/// together.
pub proof fn lemma_merged_len_bound<T>(rings: Seq<Seq<T>>, n: nat)
    requires
        forall|i: int| 0 <= i < rings.len() ==> (#[trigger] rings[i]).len() <= n,
    ensures
        merged(rings).len() <= rings.len() * n,
    decreases rings.len(),
{
    if rings.len() > 0 {
        lemma_merged_len_bound(rings.drop_last(), n);
        assert(rings.len() * n == (rings.len() - 1) * n + n) by (nonlinear_arith);
    }
}

/// The handle of one producer: it owns the ring that it pushes to.
pub struct Producer<T, const N: usize, S: Sink<T> = DropSink> {
    ring: SpillRing<T, N, S>,
}

impl<T, const N: usize, S: Sink<T>> View for Producer<T, N, S> {
    type V = Seq<T>;

    /// What the ring of the producer holds, oldest first.
    closed spec fn view(&self) -> Seq<T> {
        self.ring@
    }
}

impl<T, const N: usize, S: Sink<T>> Producer<T, N, S> {
    /// The ring of the producer.
    pub closed spec fn ring_view(&self) -> SpillRing<T, N, S> {
        self.ring
    }

    /// The sink that takes what the ring evicts.
    pub open spec fn sink_view(&self) -> S {
        self.ring_view().sink_view()
    }

    /// Whether the ring of the producer is well formed.
    pub open spec fn wf(&self) -> bool {
        self.ring_view().wf() && self@ == self.ring_view()@
    }

    /// A producer with an empty ring that evicts to `sink`.
    pub fn with_sink(sink: S) -> (producer: Self)
        requires
            is_capacity(N as int),
            sink.wf(),
        ensures
            producer.wf(),
            producer@ == Seq::<T>::empty(),
            producer.sink_view() == sink,
    {
        Producer { ring: SpillRing::with_sink(sink) }
    }

    /// Pushes `item` to the ring of the producer. When the ring is full,
    /// its oldest element is first evicted to the sink.
    pub fn push(&mut self, item: T)
        requires
            old(self).wf(),
        ensures
            final(self).wf(),
            old(self)@.len() < N ==> {
                &&& final(self)@ == old(self)@.push(item)
                &&& final(self).sink_view() == old(self).sink_view()
            },
            old(self)@.len() == N ==> {
                &&& final(self)@ == old(self)@.skip(1).push(item)
                &&& old(self).sink_view().sent(old(self)@[0], &final(self).sink_view())
            },
    {
        self.ring.push(item);
    }

    /// Whether the ring holds nothing.
    pub fn is_empty(&self) -> (empty: bool)
        requires
            self.wf(),
        ensures
            empty <==> self@.len() == 0,
    {
        self.ring.is_empty()
    }

    /// Whether every slot of the ring is taken.
    pub fn is_full(&self) -> (full: bool)
        requires
            self.wf(),
        ensures
            full <==> self@.len() == N,
    {
        self.ring.is_full()
    }

    /// The number of elements in the ring.
    pub fn len(&self) -> (len: usize)
        requires
            self.wf(),
        ensures
            len == self@.len(),
            len <= N,
    {
        self.ring.len()
    }

    /// The number of slots of the ring.
    pub fn capacity(&self) -> (capacity: usize)
        ensures
            capacity == N,
    {
        self.ring.capacity()
    }

    /// Ends the producer and gives its ring, as it is.
    pub fn into_ring(self) -> (ring: SpillRing<T, N, S>)
        ensures
            ring == self.ring_view(),
    {
        self.ring
    }
}

impl<T, const N: usize> Producer<T, N, DropSink> {
    /// A producer with an empty ring that drops what it evicts.
    pub fn new() -> (producer: Self)
        requires
            is_capacity(N as int),
        ensures
            producer.wf(),
            producer@ == Seq::<T>::empty(),
    {
        Producer { ring: SpillRing::new() }
    }
}

/// The handle of the consumer: it owns the rings that were handed to it.
pub struct Consumer<T, const N: usize, S: Sink<T> = DropSink> {
    rings: Vec<SpillRing<T, N, S>>,
}

impl<T, const N: usize, S: Sink<T>> View for Consumer<T, N, S> {
    type V = Seq<Seq<T>>;

    /// What every ring holds, in the order in which the rings were added.
    closed spec fn view(&self) -> Seq<Seq<T>> {
        Seq::new(self.rings@.len(), |i: int| self.rings@[i]@)
    }
}

impl<T, const N: usize, S: Sink<T>> Consumer<T, N, S> {
    /// Whether every ring of the consumer is well formed.
    pub closed spec fn wf(&self) -> bool {
        forall|i: int| 0 <= i < self.rings@.len() ==> (#[trigger] self.rings@[i]).inv()
    }

    /// Every ring of a well-formed consumer holds at most `N` elements.
    pub proof fn lemma_bounded(&self)
        requires
            self.wf(),
        ensures
            forall|i: int| 0 <= i < self@.len() ==> (#[trigger] self@[i]).len() <= N,
    {
        assert forall|i: int| 0 <= i < self@.len() implies (#[trigger] self@[i]).len() <= N by {
            self.rings@[i].lemma_inv();
        }
    }

    /// A consumer without rings.
    pub fn new() -> (consumer: Self)
        ensures
            consumer.wf(),
            consumer@ == Seq::<Seq<T>>::empty(),
    {
        let consumer = Consumer { rings: Vec::new() };
        proof {
            assert(consumer@ =~= Seq::<Seq<T>>::empty());
        }
        consumer
    }

    /// Adds `ring` after the rings that the consumer has.
    pub fn add_ring(&mut self, ring: SpillRing<T, N, S>)
        requires
            old(self).wf(),
            ring.inv(),
        ensures
            final(self).wf(),
            final(self)@ == old(self)@.push(ring@),
    {
        self.rings.push(ring);
        proof {
            assert(self@ =~= old(self)@.push(ring@));
        }
    }

    /// Sends every element of every ring to `sink`: ring after ring in the
    /// order in which they were added, each oldest element first. Then
    /// flushes `sink`, once. The rings are left empty.
    pub fn drain<S2: Sink<T>>(&mut self, sink: &mut S2)
        requires
            old(self).wf(),
            old(sink).wf(),
        ensures
            final(self).wf(),
            final(sink).wf(),
            final(self)@.len() == old(self)@.len(),
            forall|i: int| 0 <= i < final(self)@.len() ==> (#[trigger] final(self)@[i]).len() == 0,
            exists|mid: S2|
                #![trigger mid.flushed(final(sink))]
                sent_all(*old(sink), merged(old(self)@), mid) && mid.flushed(final(sink)),
    {
        let count = self.rings.len();
        let mut index: usize = 0;
        proof {
            assert(old(self)@.take(0) == Seq::<Seq<T>>::empty());
        }
        while index < count
            invariant
                index <= count,
                count == self.rings@.len(),
                self.wf(),
                sink.wf(),
                self@.len() == old(self)@.len(),
                forall|i: int| 0 <= i < index ==> (#[trigger] self@[i]).len() == 0,
                forall|i: int| index <= i < count ==> #[trigger] self@[i] == old(self)@[i],
                sent_all(*old(sink), merged(old(self)@.take(index as int)), *sink),
            decreases count - index,
        {
            let ghost before = *sink;
            let ghost rings_before = self.rings@;
            let items = self.rings[index].drain();
            sink.send_all(items);
            proof {
                let k = index as int;
                assert(old(self)@.take(k + 1).drop_last() == old(self)@.take(k));
                assert(old(self)@.take(k + 1).last() == old(self)@[k]);
                assert(items@ == old(self)@[k]) by {
                    assert(Seq::new(rings_before.len(), |i: int| rings_before[i]@)[k]
                        == rings_before[k]@);
                }
                lemma_sent_all_concat(
                    *old(sink),
                    merged(old(self)@.take(k)),
                    before,
                    items@,
                    *sink,
                );
                assert forall|i: int| 0 <= i < self.rings@.len() implies (
                #[trigger] self.rings@[i]).inv() by {
                    if i != k {
                        assert(self.rings@[i] == rings_before[i]);
                    }
                }
                let was = old(self)@;
                assert forall|i: int| index + 1 <= i < count implies #[trigger] self@[i]
                    == was[i] by {
                    assert(self.rings@[i] == rings_before[i]);
                    assert(Seq::new(rings_before.len(), |j: int| rings_before[j]@)[i]
                        == rings_before[i]@);
                }
                assert forall|i: int| 0 <= i < index + 1 implies (#[trigger] self@[i]).len()
                    == 0 by {
                    if i != k {
                        assert(self.rings@[i] == rings_before[i]);
                        assert(Seq::new(rings_before.len(), |j: int| rings_before[j]@)[i]
                            == rings_before[i]@);
                    }
                }
            }
            index += 1;
        }
        let ghost mid = *sink;
        sink.flush();
        proof {
            assert(old(self)@.take(count as int) == old(self)@);
            assert(mid.flushed(sink));
        }
    }

    /// The number of rings that were added.
    pub fn num_producers(&self) -> (count: usize)
        ensures
            count == self@.len(),
    {
        self.rings.len()
    }
}

impl<T, const N: usize, S: Sink<T>> RingInfo for Consumer<T, N, S> {
    /// The number of elements in all rings together.
    open spec fn count(&self) -> nat {
        merged(self@).len()
    }

    /// The number of slots of all rings together.
    open spec fn room(&self) -> nat {
        self@.len() * (N as nat)
    }

    open spec fn countable(&self) -> bool {
        self.wf() && self@.len() * N <= usize::MAX
    }

    fn len(&self) -> (len: usize) {
        let count = self.rings.len();
        let mut total: usize = 0;
        let mut index: usize = 0;
        proof {
            assert(self@.take(0) == Seq::<Seq<T>>::empty());
            self.lemma_bounded();
        }
        while index < count
            invariant
                index <= count,
                count == self.rings@.len(),
                count == self@.len(),
                self.wf(),
                count * N <= usize::MAX,
                total == merged(self@.take(index as int)).len(),
                forall|i: int| 0 <= i < self@.len() ==> (#[trigger] self@[i]).len() <= N,
            decreases count - index,
        {
            let held = self.rings[index].len();
            proof {
                let k = index as int;
                assert(self@.take(k + 1).drop_last() == self@.take(k));
                assert(self@.take(k + 1).last() == self@[k]);
                lemma_merged_len_bound(self@.take(k + 1), N as nat);
                assert((k + 1) * N <= count * N) by (nonlinear_arith)
                    requires
                        k + 1 <= count,
                ;
            }
            total = total + held;
            index += 1;
        }
        proof {
            assert(self@.take(count as int) == self@);
        }
        total
    }

    fn capacity(&self) -> (capacity: usize) {
        let count = self.rings.len();
        let mut total: usize = 0;
        let mut index: usize = 0;
        while index < count
            invariant
                index <= count,
                count == self@.len(),
                count * N <= usize::MAX,
                total == index * N,
            decreases count - index,
        {
            proof {
                assert((index + 1) * N <= count * N) by (nonlinear_arith)
                    requires
                        index + 1 <= count,
                ;
                assert((index + 1) * N == index * N + N) by (nonlinear_arith);
            }
            total = total + N;
            index += 1;
        }
        total
    }
}

/// The maker of producers and their consumer.
pub struct MpscRing<T, const N: usize, S: Sink<T> = DropSink> {
    _marker: core::marker::PhantomData<(T, S)>,
}

impl<T, const N: usize> MpscRing<T, N, DropSink> {
    /// `num_producers` producers, each with an empty ring of its own that
    /// drops what it evicts, and a consumer without rings.
    pub fn new(num_producers: usize) -> (made: (Vec<Producer<T, N>>, Consumer<T, N>))
        requires
            is_capacity(N as int),
        ensures
            made.0@.len() == num_producers,
            forall|i: int|
                0 <= i < num_producers ==> (#[trigger] made.0@[i]).wf() && made.0@[i]@
                    == Seq::<T>::empty(),
            made.1.wf(),
            made.1@ == Seq::<Seq<T>>::empty(),
    {
        let mut producers: Vec<Producer<T, N>> = Vec::new();
        let mut index: usize = 0;
        while index < num_producers
            invariant
                is_capacity(N as int),
                index <= num_producers,
                producers@.len() == index,
                forall|i: int|
                    0 <= i < index ==> (#[trigger] producers@[i]).wf() && producers@[i]@
                        == Seq::<T>::empty(),
            decreases num_producers - index,
        {
            producers.push(Producer::new());
            index += 1;
        }
        (producers, Consumer::new())
    }
}

impl<T, const N: usize, S: Sink<T> + Clone> MpscRing<T, N, S> {
    /// `num_producers` producers, each with an empty ring of its own that
    /// evicts to a clone of `sink`, and a consumer without rings.
    pub fn with_sink(num_producers: usize, sink: S) -> (made: (
        Vec<Producer<T, N, S>>,
        Consumer<T, N, S>,
    ))
        requires
            is_capacity(N as int),
            forall|copy: S| call_ensures(S::clone, (&sink,), copy) ==> copy.wf(),
        ensures
            made.0@.len() == num_producers,
            forall|i: int|
                0 <= i < num_producers ==> {
                    &&& (#[trigger] made.0@[i]).wf()
                    &&& made.0@[i]@ == Seq::<T>::empty()
                    &&& call_ensures(S::clone, (&sink,), made.0@[i].sink_view())
                },
            made.1.wf(),
            made.1@ == Seq::<Seq<T>>::empty(),
    {
        let mut producers: Vec<Producer<T, N, S>> = Vec::new();
        let mut index: usize = 0;
        while index < num_producers
            invariant
                is_capacity(N as int),
                forall|copy: S| call_ensures(S::clone, (&sink,), copy) ==> copy.wf(),
                index <= num_producers,
                producers@.len() == index,
                forall|i: int|
                    0 <= i < index ==> {
                        &&& (#[trigger] producers@[i]).wf()
                        &&& producers@[i]@ == Seq::<T>::empty()
                        &&& call_ensures(S::clone, (&sink,), producers@[i].sink_view())
                    },
            decreases num_producers - index,
        {
            producers.push(Producer::with_sink(sink.clone()));
            index += 1;
        }
        (producers, Consumer::new())
    }
}

/// Hands the rings of `producers` to `consumer`, in their order, after the
/// rings that the consumer has.
pub fn collect_producers<T, const N: usize, S: Sink<T>>(
    producers: Vec<Producer<T, N, S>>,
    consumer: &mut Consumer<T, N, S>,
)
    requires
        old(consumer).wf(),
        forall|i: int| 0 <= i < producers@.len() ==> (#[trigger] producers@[i]).wf(),
    ensures
        final(consumer).wf(),
        final(consumer)@ == old(consumer)@ + Seq::new(producers@.len(), |i: int| producers@[i]@),
{
    let ghost all = producers@;
    for producer in it: producers
        invariant
            it.seq() == all,
            consumer.wf(),
            forall|i: int| 0 <= i < all.len() ==> (#[trigger] all[i]).wf(),
            consumer@ == old(consumer)@ + Seq::new(it.index() as nat, |i: int| all[i]@),
    {
        let ghost k = it.index() as int;
        let ghost before = consumer@;
        assert(all[k].wf());
        consumer.add_ring(producer.into_ring());
        proof {
            assert(consumer@ =~= old(consumer)@ + Seq::new((k + 1) as nat, |i: int| all[i]@));
        }
    }
}

} // verus!
