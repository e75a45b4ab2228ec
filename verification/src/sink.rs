//! The sink abstraction: whatever leaves a ring by eviction or by a flush
//! passes through a sink, in the order in which it leaves.
//!
//! A sink says in three spec functions what it is: when it is fit to be sent
//! to (`wf`), what one `send` does to it (`sent`) and what a `flush` does to
//! it (`flushed`). The last two are relations between the sink before and
//! after. Code that is generic over the sink reasons with these relations;
//! for a concrete sink they pin the new state down.

use vstd::prelude::*;

verus! {

/// A receiver of items.
///
/// A sink that the verifier does not read need not say what it does: the
/// three spec functions then hold of every state, so that nothing is known
/// of such a sink but that it can be sent to.
pub trait Sink<T>: Sized {
    /// Whether the sink is fit to be sent to.
    open spec fn wf(&self) -> bool {
        true
    }

    /// Whether `after` is a state in which one `send` of `item` can leave
    /// this sink.
    open spec fn sent(&self, item: T, after: &Self) -> bool {
        true
    }

    /// Whether `after` is a state in which `flush` can leave this sink.
    open spec fn flushed(&self, after: &Self) -> bool {
        true
    }

    /// Consumes one item.
    fn send(&mut self, item: T)
        requires
            old(self).wf(),
        ensures
            final(self).wf(),
            old(self).sent(item, final(self)),
    ;

    /// Hands on what the sink has buffered. On a sink with nothing buffered
    /// this does nothing that can be observed.
    fn flush(&mut self)
        requires
            old(self).wf(),
        ensures
            final(self).wf(),
            old(self).flushed(final(self)),
    ;
}

/// Whether `after` is a state in which sending `items`, first to last, can
/// leave the sink `before`.
pub open spec fn sent_all<T, S: Sink<T>>(before: S, items: Seq<T>, after: S) -> bool
    decreases items.len(),
{
    if items.len() == 0 {
        after == before
    } else {
        exists|mid: S|
            #![trigger mid.sent(items.last(), &after)]
            sent_all(before, items.drop_last(), mid) && mid.sent(items.last(), &after)
    }
}

/// One more `send` extends a run of sends by its item.
pub proof fn lemma_sent_all_push<T, S: Sink<T>>(before: S, items: Seq<T>, mid: S, item: T, after: S)
    requires
        sent_all(before, items, mid),
        mid.sent(item, &after),
    ensures
        sent_all(before, items.push(item), after),
{
    let more = items.push(item);
    assert(more.drop_last() == items);
    assert(mid.sent(more.last(), &after));
}

/// Two runs of sends, one after the other, are one run of the items of both.
pub proof fn lemma_sent_all_concat<T, S: Sink<T>>(
    before: S,
    first: Seq<T>,
    mid: S,
    second: Seq<T>,
    after: S,
)
    requires
        sent_all(before, first, mid),
        sent_all(mid, second, after),
    ensures
        sent_all(before, first + second, after),
    decreases second.len(),
{
    if second.len() == 0 {
        assert(first + second == first);
    } else {
        let link = choose|link: S|
            #![trigger link.sent(second.last(), &after)]
            sent_all(mid, second.drop_last(), link) && link.sent(second.last(), &after);
        lemma_sent_all_concat(before, first, mid, second.drop_last(), link);
        assert((first + second.drop_last()).push(second.last()) == first + second);
        lemma_sent_all_push(before, first + second.drop_last(), link, second.last(), after);
    }
}

/// A run of one send is that send.
pub proof fn lemma_sent_all_one<T, S: Sink<T>>(before: S, item: T, after: S)
    requires
        before.sent(item, &after),
    ensures
        sent_all(before, seq![item], after),
{
    assert(sent_all(before, Seq::<T>::empty(), before));
    lemma_sent_all_push(before, Seq::<T>::empty(), before, item, after);
    assert(Seq::<T>::empty().push(item) == seq![item]);
}

/// Sending a run of items: every sink has it, as one `send` per item.
pub trait SendAll<T>: Sink<T> {
    /// Consumes the items in order, first to last.
    fn send_all(&mut self, items: Vec<T>)
        requires
            old(self).wf(),
        ensures
            final(self).wf(),
            sent_all(*old(self), items@, *final(self)),
    ;
}

impl<T, S: Sink<T>> SendAll<T> for S {
    fn send_all(&mut self, items: Vec<T>) {
        let ghost all = items@;
        for item in it: items
            invariant
                it.seq() == all,
                self.wf(),
                sent_all(*old(self), all.take(it.index() as int), *self),
        {
            let ghost before = *self;
            let ghost k = it.index() as int;
            self.send(item);
            proof {
                assert(all.take(k + 1) == all.take(k).push(all[k]));
                lemma_sent_all_push(*old(self), all.take(k), before, all[k], *self);
            }
        }
        proof {
            assert(all.take(all.len() as int) == all);
        }
    }
}

/// The sink that discards what it is sent.
#[derive(Debug, Clone, Copy)]
pub struct DropSink;

impl Default for DropSink {
    fn default() -> (sink: Self) {
        DropSink
    }
}

impl<T> Sink<T> for DropSink {
    open spec fn sent(&self, item: T, after: &Self) -> bool {
        true
    }

    open spec fn flushed(&self, after: &Self) -> bool {
        true
    }

    fn send(&mut self, item: T) {
    }

    fn flush(&mut self) {
    }
}

/// The sink that keeps what it is sent, in the order of arrival.
#[derive(Debug, Clone)]
pub struct CollectSink<T> {
    items: Vec<T>,
}

impl<T> View for CollectSink<T> {
    type V = Seq<T>;

    closed spec fn view(&self) -> Seq<T> {
        self.items@
    }
}

impl<T> Default for CollectSink<T> {
    fn default() -> (sink: Self)
        ensures
            sink@ == Seq::<T>::empty(),
    {
        CollectSink { items: Vec::new() }
    }
}

impl<T> CollectSink<T> {
    /// A sink that has collected nothing.
    pub fn new() -> (sink: Self)
        ensures
            sink@ == Seq::<T>::empty(),
    {
        CollectSink { items: Vec::new() }
    }

    /// What has been collected, oldest first.
    pub fn items(&self) -> (items: &[T])
        ensures
            items@ == self@,
    {
        self.items.as_slice()
    }

    /// Takes what has been collected and leaves the sink empty.
    pub fn take(&mut self) -> (items: Vec<T>)
        ensures
            items@ == old(self)@,
            final(self)@ == Seq::<T>::empty(),
    {
        let mut out: Vec<T> = Vec::new();
        core::mem::swap(&mut self.items, &mut out);
        out
    }

    /// Ends the sink and gives what it has collected.
    pub fn into_items(self) -> (items: Vec<T>)
        ensures
            items@ == self@,
    {
        self.items
    }
}

impl<T> Sink<T> for CollectSink<T> {
    open spec fn sent(&self, item: T, after: &Self) -> bool {
        after@ == self@.push(item)
    }

    open spec fn flushed(&self, after: &Self) -> bool {
        after@ == self@
    }

    fn send(&mut self, item: T) {
        self.items.push(item);
    }

    fn flush(&mut self) {
    }
}

/// The sink that calls a closure on each item.
///
/// The closure has to accept every item. To the verifier a call leaves the
/// closure itself as it was; what the closure does to what it has captured
/// is told by its own postcondition.
pub struct FnSink<F>(pub F);

impl<T, F: FnMut(T)> Sink<T> for FnSink<F> {
    open spec fn wf(&self) -> bool {
        forall|item: T| call_requires(self.0, (item,))
    }

    open spec fn sent(&self, item: T, after: &Self) -> bool {
        *after == *self && call_ensures(self.0, (item,), ())
    }

    open spec fn flushed(&self, after: &Self) -> bool {
        *after == *self
    }

    fn send(&mut self, item: T) {
        (self.0)(item);
    }

    fn flush(&mut self) {
    }
}

/// What the flush half of a [`FnFlushSink`] does.
pub trait Flush: Sized {
    /// Whether `flush` may be called.
    open spec fn wf(&self) -> bool {
        true
    }

    /// Whether `after` is a state in which `flush` can leave this value.
    open spec fn flushed(&self, after: &Self) -> bool {
        true
    }

    /// Performs the flush.
    fn flush(&mut self)
        requires
            old(self).wf(),
        ensures
            final(self).wf(),
            old(self).flushed(final(self)),
    ;
}

impl Flush for () {
    open spec fn flushed(&self, after: &Self) -> bool {
        true
    }

    fn flush(&mut self) {
    }
}

impl<F: FnMut()> Flush for F {
    open spec fn wf(&self) -> bool {
        call_requires(*self, ())
    }

    open spec fn flushed(&self, after: &Self) -> bool {
        *after == *self && call_ensures(*self, (), ())
    }

    fn flush(&mut self) {
        self()
    }
}

/// The sink that calls one closure on each item and another on a flush.
pub struct FnFlushSink<S, F> {
    send: S,
    flush: F,
}

impl<S, F> FnFlushSink<S, F> {
    /// The closure that is called on each item.
    pub closed spec fn send_fn(&self) -> S {
        self.send
    }

    /// What is called on a flush.
    pub closed spec fn flush_fn(&self) -> F {
        self.flush
    }

    /// A sink made of the two.
    pub fn new(send: S, flush: F) -> (sink: Self)
        ensures
            sink.send_fn() == send,
            sink.flush_fn() == flush,
    {
        FnFlushSink { send, flush }
    }

    /// What the spec functions of the sink are in its fields.
    proof fn lemma_fields(&self)
        ensures
            self.send_fn() == self.send,
            self.flush_fn() == self.flush,
    {
    }
}

impl<T, S: FnMut(T), F: Flush> Sink<T> for FnFlushSink<S, F> {
    open spec fn wf(&self) -> bool {
        &&& forall|item: T| call_requires(self.send_fn(), (item,))
        &&& self.flush_fn().wf()
    }

    open spec fn sent(&self, item: T, after: &Self) -> bool {
        *after == *self && call_ensures(self.send_fn(), (item,), ())
    }

    open spec fn flushed(&self, after: &Self) -> bool {
        after.send_fn() == self.send_fn() && self.flush_fn().flushed(&after.flush_fn())
    }

    fn send(&mut self, item: T) {
        proof {
            self.lemma_fields();
        }
        (self.send)(item);
    }

    fn flush(&mut self) {
        proof {
            old(self).lemma_fields();
        }
        self.flush.flush();
        proof {
            self.lemma_fields();
        }
    }
}

/// A sink made of a closure for `send` and a closure, or `()`, for `flush`.
pub fn sink<T, S, F>(send: S, flush: F) -> (made: FnFlushSink<S, F>) where S: FnMut(T), F: Flush
    ensures
        made.send_fn() == send,
        made.flush_fn() == flush,
{
    FnFlushSink::new(send, flush)
}

/// A collecting sink that was sent `items` holds them after what it held.
pub proof fn lemma_collect_sent_all<T>(before: CollectSink<T>, items: Seq<T>, after: CollectSink<T>)
    requires
        sent_all(before, items, after),
    ensures
        after@ == before@ + items,
    decreases items.len(),
{
    if items.len() == 0 {
        assert(before@ + items == before@);
    } else {
        let mid = choose|mid: CollectSink<T>|
            #![trigger mid.sent(items.last(), &after)]
            sent_all(before, items.drop_last(), mid) && mid.sent(items.last(), &after);
        lemma_collect_sent_all(before, items.drop_last(), mid);
        assert((before@ + items.drop_last()).push(items.last()) == before@ + items);
    }
}

} // verus!
