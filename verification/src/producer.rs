//! The sink that gives each producer an inner sink of its own.

use crate::sink::Sink;
use core::sync::atomic::AtomicUsize;
use std::sync::Arc;
use vstd::prelude::*;

verus! {

/// `Arc::clone` of std on the shared counter: one more handle to the same
/// counter. Nothing is claimed of it.
#[verifier::external_body]
fn share_counter(counter: &Arc<AtomicUsize>) -> (shared: Arc<AtomicUsize>) {
    Arc::clone(counter)
}

/// The next identity of a shared counter: the value it had, which is then
/// one more for whoever asks next. Other handles draw from the same counter,
/// so nothing is known of the value here.
fn draw_id(counter: &Arc<AtomicUsize>) -> (id: usize) {
    counter.fetch_add(1, core::sync::atomic::Ordering::Relaxed)
}

/// The sink that makes its inner sink with a factory, from the identity of
/// its producer, when the first item is sent.
///
/// A clone takes the next identity from a counter that all clones share and
/// starts without an inner sink, so that every producer gets an inner sink
/// of its own.
pub struct ProducerSink<S, F> {
    inner: Option<S>,
    factory: F,
    producer_id: usize,
    next_id: Arc<AtomicUsize>,
}

impl<S, F: Clone> Clone for ProducerSink<S, F> {
    fn clone(&self) -> (copy: Self)
        ensures
            copy.made() is None,
            call_ensures(F::clone, (&self.maker(),), copy.maker()),
    {
        let id = draw_id(&self.next_id);
        ProducerSink {
            inner: None,
            factory: self.factory.clone(),
            producer_id: id,
            next_id: share_counter(&self.next_id),
        }
    }
}

impl<S, F> ProducerSink<S, F> {
    /// The inner sink, once it has been made.
    pub closed spec fn made(&self) -> Option<S> {
        self.inner
    }

    /// The factory of inner sinks.
    pub closed spec fn maker(&self) -> F {
        self.factory
    }

    /// The identity of the producer.
    pub closed spec fn id(&self) -> usize {
        self.producer_id
    }

    /// What the spec functions of the sink are in its fields.
    proof fn lemma_fields(&self)
        ensures
            self.made() == self.inner,
            self.maker() == self.factory,
            self.id() == self.producer_id,
    {
    }
}

impl<S, F> ProducerSink<S, F> where F: FnMut(usize) -> S {
    /// The first sink of a family: producer 0, with no inner sink yet.
    /// Clones draw their identities from a counter that starts at 0.
    pub fn new(factory: F) -> (sink: Self)
        ensures
            sink.made() is None,
            sink.maker() == factory,
            sink.id() == 0,
    {
        ProducerSink {
            inner: None,
            factory,
            producer_id: 0,
            next_id: Arc::new(AtomicUsize::new(0)),
        }
    }

    /// The identity of the producer.
    pub fn producer_id(&self) -> (id: usize)
        ensures
            id == self.id(),
    {
        self.producer_id
    }

    /// The inner sink, if it has been made.
    pub fn inner(&self) -> (inner: Option<&S>)
        ensures
            self.made() is None ==> inner.is_none(),
            self.made() is Some ==> inner == Some(&self.made().unwrap()),
    {
        self.inner.as_ref()
    }

    /// The inner sink, if it has been made, for sending to it.
    pub fn inner_mut(&mut self) -> (inner: Option<&mut S>)
        ensures
            old(self).made() is None ==> inner.is_none() && final(self).made() is None,
            old(self).made() is Some ==> {
                &&& inner.is_some()
                &&& *inner.unwrap() == old(self).made().unwrap()
                &&& final(self).made() == Some(*final(inner.unwrap()))
            },
            final(self).maker() == old(self).maker(),
            final(self).id() == old(self).id(),
    {
        self.inner.as_mut()
    }

    /// Ends the sink and gives the inner sink, if it has been made.
    pub fn into_inner(self) -> (inner: Option<S>)
        ensures
            inner == self.made(),
    {
        self.inner
    }

    /// Makes the inner sink unless there is one.
    pub fn ensure_inner(&mut self)
        requires
            call_requires(old(self).maker(), (old(self).id(),)),
        ensures
            final(self).maker() == old(self).maker(),
            final(self).id() == old(self).id(),
            final(self).made() is Some,
            old(self).made() is Some ==> final(self).made() == old(self).made(),
            old(self).made() is None ==> call_ensures(
                old(self).maker(),
                (old(self).id(),),
                final(self).made().unwrap(),
            ),
    {
        if self.inner.is_none() {
            proof {
                self.lemma_fields();
            }
            let made = (self.factory)(self.producer_id);
            self.inner = Some(made);
        }
    }
}

impl<T, S, F> Sink<T> for ProducerSink<S, F> where S: Sink<T>, F: FnMut(usize) -> S {
    /// The factory accepts the identity and makes a sink that is fit to be
    /// sent to, and the inner sink, if there is one, is fit.
    open spec fn wf(&self) -> bool {
        &&& call_requires(self.maker(), (self.id(),))
        &&& forall|made: S| call_ensures(self.maker(), (self.id(),), made) ==> made.wf()
        &&& self.made() is Some ==> self.made().unwrap().wf()
    }

    /// The item goes to the inner sink, which is first made if there is
    /// none.
    open spec fn sent(&self, item: T, after: &Self) -> bool {
        &&& after.maker() == self.maker()
        &&& after.id() == self.id()
        &&& after.made() is Some
        &&& match self.made() {
            Some(inner) => inner.sent(item, &after.made().unwrap()),
            None => exists|made: S|
                #![trigger call_ensures(self.maker(), (self.id(),), made)]
                call_ensures(self.maker(), (self.id(),), made) && made.sent(
                    item,
                    &after.made().unwrap(),
                ),
        }
    }

    /// The inner sink is flushed if there is one. Without one nothing
    /// happens.
    open spec fn flushed(&self, after: &Self) -> bool {
        &&& after.maker() == self.maker()
        &&& after.id() == self.id()
        &&& match self.made() {
            Some(inner) => after.made() is Some && inner.flushed(&after.made().unwrap()),
            None => after.made() is None,
        }
    }

    fn send(&mut self, item: T) {
        self.ensure_inner();
        let ghost made = self.made().unwrap();
        match self.inner.as_mut() {
            Some(inner) => {
                inner.send(item);
            },
            None => {},
        }
        proof {
            self.lemma_fields();
            assert(made.sent(item, &self.made().unwrap()));
        }
    }

    fn flush(&mut self) {
        match self.inner.as_mut() {
            Some(inner) => {
                inner.flush();
            },
            None => {},
        }
        proof {
            self.lemma_fields();
        }
    }
}

} // verus!
