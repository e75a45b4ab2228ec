//! Sinks that gather items into batches before they hand them on.

use crate::bytes::error::BytesError;
use crate::bytes::impls::write_at;
use crate::bytes::traits::{reported, ToBytes};
use crate::sink::{CollectSink, Sink};
use vstd::bytes::{
    lemma_auto_spec_u32_to_from_le_bytes,
    lemma_auto_spec_u64_to_from_le_bytes,
    spec_u32_to_le_bytes,
};
use vstd::prelude::*;

verus! {

/// Whether a buffer of `len` items has reached the threshold and is due to
/// be forwarded.
pub open spec fn is_due(len: nat, threshold: usize) -> bool {
    len >= threshold
}

/// The sink that buffers items and forwards them to an inner sink as one
/// batch each time the buffer has reached a threshold.
pub struct BatchSink<T, S: Sink<Vec<T>>> {
    buffer: Vec<T>,
    threshold: usize,
    inner: S,
}

impl<T, S: Sink<Vec<T>>> BatchSink<T, S> {
    /// The items that wait for their batch to fill, oldest first.
    pub closed spec fn pending(&self) -> Seq<T> {
        self.buffer@
    }

    /// The number of items at which a batch is forwarded.
    pub closed spec fn limit(&self) -> usize {
        self.threshold
    }

    /// The sink that the batches go to.
    pub closed spec fn target(&self) -> S {
        self.inner
    }

    /// A sink that forwards to `inner` in batches of `threshold` items.
    pub fn new(threshold: usize, inner: S) -> (sink: Self)
        ensures
            sink.pending() == Seq::<T>::empty(),
            sink.limit() == threshold,
            sink.target() == inner,
    {
        BatchSink { buffer: Vec::new(), threshold, inner }
    }

    /// The number of items at which a batch is forwarded.
    pub fn threshold(&self) -> (threshold: usize)
        ensures
            threshold == self.limit(),
    {
        self.threshold
    }

    /// The number of items that wait for their batch to fill.
    pub fn buffered(&self) -> (len: usize)
        ensures
            len == self.pending().len(),
    {
        self.buffer.len()
    }

    /// The sink that the batches go to, for reading.
    pub fn inner(&self) -> (inner: &S)
        ensures
            *inner == self.target(),
    {
        &self.inner
    }

    /// The sink that the batches go to. The batching sink forwards to what
    /// the caller leaves behind the reference.
    pub fn inner_mut(&mut self) -> (inner: &mut S)
        ensures
            *inner == old(self).target(),
            final(self).target() == *final(inner),
            final(self).pending() == old(self).pending(),
            final(self).limit() == old(self).limit(),
    {
        &mut self.inner
    }

    /// Ends the sink and gives the inner sink. Items that still wait are
    /// dropped: flush first.
    pub fn into_inner(self) -> (inner: S)
        ensures
            inner == self.target(),
    {
        self.inner
    }

    /// Takes the buffer out as a batch and leaves an empty one.
    fn take_batch(&mut self) -> (batch: Vec<T>)
        ensures
            batch@ == old(self).pending(),
            final(self).pending() == Seq::<T>::empty(),
            final(self).limit() == old(self).limit(),
            final(self).target() == old(self).target(),
    {
        let mut batch: Vec<T> = Vec::new();
        core::mem::swap(&mut self.buffer, &mut batch);
        batch
    }

    /// What the spec functions of the sink are in its fields.
    proof fn lemma_fields(&self)
        ensures
            self.pending() == self.buffer@,
            self.limit() == self.threshold,
            self.target() == self.inner,
    {
    }
}

impl<T, S: Sink<Vec<T>>> Sink<T> for BatchSink<T, S> {
    open spec fn wf(&self) -> bool {
        self.target().wf()
    }

    /// The item joins the buffer. When the buffer has then reached the
    /// threshold, it goes to the inner sink as one batch.
    open spec fn sent(&self, item: T, after: &Self) -> bool {
        &&& after.limit() == self.limit()
        &&& if is_due(self.pending().push(item).len(), self.limit()) {
            &&& after.pending() == Seq::<T>::empty()
            &&& exists|batch: Vec<T>|
                #![trigger self.target().sent(batch, &after.target())]
                batch@ == self.pending().push(item) && self.target().sent(batch, &after.target())
        } else {
            &&& after.pending() == self.pending().push(item)
            &&& after.target() == self.target()
        }
    }

    /// What waits goes to the inner sink as one batch, short as it may be;
    /// with nothing waiting no batch is sent. The inner sink is then
    /// flushed.
    open spec fn flushed(&self, after: &Self) -> bool {
        &&& after.limit() == self.limit()
        &&& after.pending() == Seq::<T>::empty()
        &&& if self.pending().len() == 0 {
            self.target().flushed(&after.target())
        } else {
            exists|batch: Vec<T>, mid: S|
                #![trigger self.target().sent(batch, &mid)]
                batch@ == self.pending() && self.target().sent(batch, &mid) && mid.flushed(
                    &after.target(),
                )
        }
    }

    fn send(&mut self, item: T) {
        self.buffer.push(item);
        if self.buffer.len() >= self.threshold {
            let batch = self.take_batch();
            self.inner.send(batch);
        }
    }

    fn flush(&mut self) {
        if !self.buffer.is_empty() {
            let batch = self.take_batch();
            self.inner.send(batch);
            let ghost mid = self.inner;
            self.inner.flush();
            proof {
                old(self).lemma_fields();
                self.lemma_fields();
                assert(old(self).target().sent(batch, &mid) && mid.flushed(&self.target()));
            }
        } else {
            self.inner.flush();
            proof {
                old(self).lemma_fields();
                self.lemma_fields();
                assert(self.pending() =~= Seq::<T>::empty());
            }
        }
    }
}

/// A flush with nothing waiting sends no batch: a collecting sink behind a
/// batching sink holds after it what it held before, so that a second flush
/// in a row changes nothing.
pub proof fn lemma_flush_of_nothing<T>(
    before: BatchSink<T, CollectSink<Vec<T>>>,
    after: BatchSink<T, CollectSink<Vec<T>>>,
)
    requires
        before.pending().len() == 0,
        before.flushed(&after),
    ensures
        after.target()@ == before.target()@,
        after.pending() == before.pending(),
        after.limit() == before.limit(),
{
    assert(before.pending() =~= Seq::<T>::empty());
}

/// A flush sends what waits as one last batch: a collecting sink behind a
/// batching sink then holds one batch more, the items that waited.
pub proof fn lemma_flush_of_rest<T>(
    before: BatchSink<T, CollectSink<Vec<T>>>,
    after: BatchSink<T, CollectSink<Vec<T>>>,
)
    requires
        before.pending().len() > 0,
        before.flushed(&after),
    ensures
        after.target()@.len() == before.target()@.len() + 1,
        after.target()@.drop_last() == before.target()@,
        after.target()@.last()@ == before.pending(),
        after.pending().len() == 0,
{
    let (batch, mid) = choose|batch: Vec<T>, mid: CollectSink<Vec<T>>|
        #![trigger before.target().sent(batch, &mid)]
        batch@ == before.pending() && before.target().sent(batch, &mid) && mid.flushed(
            &after.target(),
        );
    assert(after.target()@ == before.target()@.push(batch));
    assert(before.target()@.push(batch).drop_last() == before.target()@);
}

/// The size that a batching sink reports when the vector of its waiting
/// items reports `inner`: four bytes more, for the threshold, as far as that
/// fits.
pub open spec fn with_threshold(inner: Option<usize>) -> Option<usize> {
    match inner {
        Some(size) => if size <= usize::MAX - 4 {
            Some((size + 4) as usize)
        } else {
            None
        },
        None => None,
    }
}

/// A snapshot of a batching sink as bytes: the threshold, as far as 32 bits
/// hold it, and then the items that wait, as a `Vec` is written.
impl<T: ToBytes, S: Sink<Vec<T>>> ToBytes for BatchSink<T, S> {
    closed spec fn encoding(&self) -> Seq<u8> {
        spec_u32_to_le_bytes(self.threshold as u32) + self.buffer.encoding()
    }

    open spec fn size_bound() -> Option<nat> {
        None
    }

    /// A batching sink reports four bytes more than the vector of its
    /// waiting items does.
    closed spec fn reports(&self, len: Option<usize>) -> bool {
        exists|inner: Option<usize>|
            #![trigger with_threshold(inner)]
            reported(self.buffer, inner) && len == with_threshold(inner)
    }

    fn max_size() -> (size: Option<usize>) {
        proof {
            assert(<BatchSink<T, S> as ToBytes>::size_bound() == None::<nat>);
        }
        None
    }

    fn to_bytes(&self, buf: &mut [u8]) -> (res: Result<usize, BytesError>) {
        proof {
            lemma_auto_spec_u32_to_from_le_bytes();
            lemma_auto_spec_u64_to_from_le_bytes();
        }
        let limit = buf.len();
        #[verifier::truncate]
        let short = self.threshold as u32;
        let first = match write_at(&short, buf, 0) {
            Ok(written) => written,
            Err(error) => {
                return Err(error);
            },
        };
        let ghost marked = buf@;
        match write_at(&self.buffer, buf, first) {
            Ok(second) => {
                proof {
                    assert(marked.take(4) =~= spec_u32_to_le_bytes(short));
                    assert(buf@ =~= self.encoding() + old(buf)@.skip(4 + second));
                }
                Ok(first + second)
            },
            Err(error) => Err(error),
        }
    }

    fn byte_len(&self) -> (len: Option<usize>)
        ensures
            self.reports(len),
    {
        proof {
            lemma_auto_spec_u32_to_from_le_bytes();
        }
        let inner = self.buffer.byte_len();
        let len = match inner {
            Some(size) => if size <= usize::MAX - 4 {
                Some(size + 4)
            } else {
                None
            },
            None => None,
        };
        proof {
            assert(reported(self.buffer, inner) && len == with_threshold(inner));
        }
        len
    }
}

/// What a batching sink reports is four bytes more than what the vector of
/// its waiting items reports.
pub proof fn lemma_batch_report<T: ToBytes, S: Sink<Vec<T>>>(
    sink: BatchSink<T, S>,
    len: Option<usize>,
)
    requires
        sink.reports(len),
    ensures
        exists|waiting: Vec<T>, inner: Option<usize>|
            #![trigger reported(waiting, inner)]
            waiting@ == sink.pending() && reported(waiting, inner) && len == with_threshold(inner),
{
    let inner = choose|inner: Option<usize>|
        #![trigger with_threshold(inner)]
        reported(sink.buffer, inner) && len == with_threshold(inner);
    assert(sink.buffer@ == sink.pending() && reported(sink.buffer, inner));
}

/// The snapshot of a batching sink starts with its threshold and goes on
/// with the items that wait.
pub proof fn lemma_batch_snapshot<T: ToBytes, S: Sink<Vec<T>>>(sink: BatchSink<T, S>)
    ensures
        exists|waiting: Vec<T>|
            #![trigger waiting.encoding()]
            waiting@ == sink.pending() && sink.encoding() == spec_u32_to_le_bytes(
                sink.limit() as u32,
            ) + waiting.encoding(),
{
    assert(sink.buffer@ == sink.pending() && sink.encoding() == spec_u32_to_le_bytes(
        sink.limit() as u32,
    ) + sink.buffer.encoding());
}

/// The sink that buffers items and, each time the buffer has reached a
/// threshold, reduces the batch to one value and forwards that value.
#[verifier::reject_recursive_types(R)]
pub struct ReduceSink<T, R, F: FnMut(Vec<T>) -> R, S: Sink<R>> {
    buffer: Vec<T>,
    threshold: usize,
    reduce: F,
    inner: S,
    result: core::marker::PhantomData<R>,
}

impl<T, R, F: FnMut(Vec<T>) -> R, S: Sink<R>> ReduceSink<T, R, F, S> {
    /// The items that wait for their batch to fill, oldest first.
    pub closed spec fn pending(&self) -> Seq<T> {
        self.buffer@
    }

    /// The number of items at which a batch is reduced and forwarded.
    pub closed spec fn limit(&self) -> usize {
        self.threshold
    }

    /// The function that reduces a batch.
    pub closed spec fn reducer(&self) -> F {
        self.reduce
    }

    /// The sink that the reduced values go to.
    pub closed spec fn target(&self) -> S {
        self.inner
    }

    /// A sink that reduces each `threshold` items by `reduce` and forwards
    /// the result to `inner`.
    pub fn new(threshold: usize, reduce: F, inner: S) -> (sink: Self)
        ensures
            sink.pending() == Seq::<T>::empty(),
            sink.limit() == threshold,
            sink.reducer() == reduce,
            sink.target() == inner,
    {
        ReduceSink {
            buffer: Vec::new(),
            threshold,
            reduce,
            inner,
            result: core::marker::PhantomData,
        }
    }

    /// The number of items at which a batch is reduced and forwarded.
    pub fn threshold(&self) -> (threshold: usize)
        ensures
            threshold == self.limit(),
    {
        self.threshold
    }

    /// The number of items that wait for their batch to fill.
    pub fn buffered(&self) -> (len: usize)
        ensures
            len == self.pending().len(),
    {
        self.buffer.len()
    }

    /// The sink that the reduced values go to, for reading.
    pub fn inner(&self) -> (inner: &S)
        ensures
            *inner == self.target(),
    {
        &self.inner
    }

    /// The sink that the reduced values go to. The reducing sink forwards
    /// to what the caller leaves behind the reference.
    pub fn inner_mut(&mut self) -> (inner: &mut S)
        ensures
            *inner == old(self).target(),
            final(self).target() == *final(inner),
            final(self).pending() == old(self).pending(),
            final(self).limit() == old(self).limit(),
            final(self).reducer() == old(self).reducer(),
    {
        &mut self.inner
    }

    /// Ends the sink and gives the inner sink. Items that still wait are
    /// dropped: flush first.
    pub fn into_inner(self) -> (inner: S)
        ensures
            inner == self.target(),
    {
        self.inner
    }

    /// Reduces what waits to one value and leaves the buffer empty.
    fn reduce_batch(&mut self) -> (out: (R, Ghost<Vec<T>>))
        requires
            forall|batch: Vec<T>| call_requires(old(self).reducer(), (batch,)),
        ensures
            out.1@@ == old(self).pending(),
            call_ensures(old(self).reducer(), (out.1@,), out.0),
            final(self).pending() == Seq::<T>::empty(),
            final(self).limit() == old(self).limit(),
            final(self).reducer() == old(self).reducer(),
            final(self).target() == old(self).target(),
    {
        let mut batch: Vec<T> = Vec::new();
        core::mem::swap(&mut self.buffer, &mut batch);
        let ghost taken = batch;
        proof {
            old(self).lemma_fields();
        }
        let value = (self.reduce)(batch);
        proof {
            self.lemma_fields();
        }
        (value, Ghost(taken))
    }

    /// What the spec functions of the sink are in its fields.
    proof fn lemma_fields(&self)
        ensures
            self.pending() == self.buffer@,
            self.limit() == self.threshold,
            self.reducer() == self.reduce,
            self.target() == self.inner,
    {
    }
}

impl<T, R, F: FnMut(Vec<T>) -> R, S: Sink<R>> Sink<T> for ReduceSink<T, R, F, S> {
    open spec fn wf(&self) -> bool {
        &&& forall|batch: Vec<T>| call_requires(self.reducer(), (batch,))
        &&& self.target().wf()
    }

    /// The item joins the buffer. When the buffer has then reached the
    /// threshold, the batch is reduced and the result goes to the inner
    /// sink.
    open spec fn sent(&self, item: T, after: &Self) -> bool {
        &&& after.limit() == self.limit()
        &&& after.reducer() == self.reducer()
        &&& if is_due(self.pending().push(item).len(), self.limit()) {
            &&& after.pending() == Seq::<T>::empty()
            &&& exists|batch: Vec<T>, value: R|
                #![trigger call_ensures(self.reducer(), (batch,), value)]
                {
                    &&& batch@ == self.pending().push(item)
                    &&& call_ensures(self.reducer(), (batch,), value)
                    &&& self.target().sent(value, &after.target())
                }
        } else {
            &&& after.pending() == self.pending().push(item)
            &&& after.target() == self.target()
        }
    }

    /// What waits is reduced and the result goes to the inner sink; with
    /// nothing waiting nothing is sent. The inner sink is then flushed.
    open spec fn flushed(&self, after: &Self) -> bool {
        &&& after.limit() == self.limit()
        &&& after.reducer() == self.reducer()
        &&& after.pending() == Seq::<T>::empty()
        &&& if self.pending().len() == 0 {
            self.target().flushed(&after.target())
        } else {
            exists|batch: Vec<T>, value: R, mid: S|
                #![trigger
                    call_ensures(self.reducer(), (batch,), value),
                    mid.flushed(&after.target()),
                ]
                {
                    &&& batch@ == self.pending()
                    &&& call_ensures(self.reducer(), (batch,), value)
                    &&& self.target().sent(value, &mid)
                    &&& mid.flushed(&after.target())
                }
        }
    }

    fn send(&mut self, item: T) {
        self.buffer.push(item);
        proof {
            old(self).lemma_fields();
            self.lemma_fields();
        }
        if self.buffer.len() >= self.threshold {
            let (value, batch) = self.reduce_batch();
            self.inner.send(value);
            proof {
                self.lemma_fields();
                assert(call_ensures(old(self).reducer(), (batch@,), value));
                assert(old(self).target().sent(value, &self.target()));
            }
        }
    }

    fn flush(&mut self) {
        proof {
            old(self).lemma_fields();
        }
        if !self.buffer.is_empty() {
            let (value, batch) = self.reduce_batch();
            self.inner.send(value);
            let ghost mid = self.inner;
            self.inner.flush();
            proof {
                self.lemma_fields();
                assert(old(self).target().sent(value, &mid));
                assert(call_ensures(old(self).reducer(), (batch@,), value));
                assert(mid.flushed(&self.target()));
            }
        } else {
            self.inner.flush();
            proof {
                self.lemma_fields();
                assert(self.pending() =~= Seq::<T>::empty());
            }
        }
    }
}

} // verus!
