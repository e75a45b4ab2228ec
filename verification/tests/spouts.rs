use spill_ring::{
    spout, BatchSpout, ChannelSpout, CollectSpout, DropSpout, FnSpout, ProducerSpout, ReduceSpout,
    SendAll, SpillRing, Spout,
};
use std::cell::Cell;
use std::rc::Rc;
use std::sync::mpsc;

struct FlushCounter {
    flushed: Rc<Cell<usize>>,
}

impl Spout<i32> for FlushCounter {
    fn send(&mut self, _item: i32) {}

    fn flush(&mut self) {
        self.flushed.set(self.flushed.get() + 1);
    }
}

#[test]
fn drop_spout_accepts_items() {
    let mut s = DropSpout;
    s.send(1);
    s.send(2);
    s.send(3);
}

#[test]
fn fn_spout_calls_closure() {
    let mut collected = Vec::new();
    {
        let mut s = FnSpout(|x: i32| collected.push(x));
        s.send(1);
        s.send(2);
        s.send(3);
    }
    assert_eq!(collected, vec![1, 2, 3]);
}

#[test]
fn collect_spout_gathers_items() {
    let mut s = CollectSpout::new();
    s.send(10);
    s.send(20);
    s.send(30);
    assert_eq!(s.items(), vec![10, 20, 30]);
}

#[test]
fn spout_with_different_types() {
    let mut string_spout = CollectSpout::new();
    string_spout.send("hello");
    string_spout.send("world");
    assert_eq!(string_spout.items(), vec!["hello", "world"]);

    let mut tuple_spout = CollectSpout::new();
    tuple_spout.send((1, "a"));
    tuple_spout.send((2, "b"));
    assert_eq!(tuple_spout.items(), vec![(1, "a"), (2, "b")]);
}

#[test]
fn fn_flush_spout_calls_both_closures() {
    let send_count = Rc::new(Cell::new(0));
    let flush_count = Rc::new(Cell::new(0));
    let sends = send_count.clone();
    let flushes = flush_count.clone();

    let mut s = spout(
        move |_: i32| {
            sends.set(sends.get() + 1);
        },
        move || {
            flushes.set(flushes.get() + 1);
        },
    );

    s.send(1);
    s.send(2);
    s.send(3);
    assert_eq!(send_count.get(), 3);
    assert_eq!(flush_count.get(), 0);

    s.flush();
    assert_eq!(flush_count.get(), 1);

    s.flush();
    assert_eq!(flush_count.get(), 2);
}

#[test]
fn fn_flush_spout_with_unit_flush() {
    let mut collected = Vec::new();
    {
        let mut s = spout(|x: i32| collected.push(x), ());
        s.send(10);
        s.send(20);
        s.flush();
    }
    assert_eq!(collected, vec![10, 20]);
}

#[test]
fn drop_spout_flush_is_noop() {
    let mut s = DropSpout;
    <DropSpout as Spout<i32>>::flush(&mut s);
}

#[test]
fn batch_spout_batches_items() {
    let mut s: BatchSpout<i32, CollectSpout<Vec<i32>>> = BatchSpout::new(3, CollectSpout::new());

    s.send(1);
    s.send(2);
    assert_eq!(s.inner().items().len(), 0);
    assert_eq!(s.buffered(), 2);

    s.send(3);
    assert_eq!(s.inner().items(), vec![vec![1, 2, 3]]);
    assert_eq!(s.buffered(), 0);

    s.send(4);
    s.send(5);
    s.flush();
    assert_eq!(s.into_inner().into_items(), vec![vec![1, 2, 3], vec![4, 5]]);
}

#[test]
fn batch_spout_exact_threshold() {
    let mut s: BatchSpout<i32, CollectSpout<Vec<i32>>> = BatchSpout::new(2, CollectSpout::new());

    s.send(1);
    s.send(2);
    s.send(3);
    s.send(4);

    assert_eq!(s.inner().items(), vec![vec![1, 2], vec![3, 4]]);
}

#[test]
fn batch_spout_flush_empty_is_noop() {
    let mut s: BatchSpout<i32, CollectSpout<Vec<i32>>> = BatchSpout::new(10, CollectSpout::new());
    s.flush();
    assert!(s.into_inner().into_items().is_empty());
}

#[test]
fn reduce_spout_reduces_batches() {
    let mut s = ReduceSpout::new(
        4,
        |batch: Vec<i32>| batch.iter().sum::<i32>(),
        CollectSpout::new(),
    );

    for i in 1..=8 {
        s.send(i);
    }
    s.flush();

    assert_eq!(s.into_inner().into_items(), vec![10, 26]);
}

#[test]
fn reduce_spout_flush_partial() {
    let mut s = ReduceSpout::new(5, |batch: Vec<i32>| batch.len() as i32, CollectSpout::new());

    s.send(1);
    s.send(2);
    s.send(3);
    s.flush();

    assert_eq!(s.into_inner().into_items(), vec![3]);
}

#[test]
fn reduce_spout_type_transform() {
    let mut s = ReduceSpout::new(
        2,
        |batch: Vec<i32>| format!("{:?}", batch),
        CollectSpout::<String>::new(),
    );

    s.send(1);
    s.send(2);
    s.send(3);
    s.send(4);
    s.flush();

    assert_eq!(
        s.into_inner().into_items(),
        vec!["[1, 2]".to_string(), "[3, 4]".to_string()]
    );
}

#[test]
fn reduce_spout_accessors() {
    let s: ReduceSpout<i32, usize, _, CollectSpout<usize>> =
        ReduceSpout::new(10, |b: Vec<i32>| b.len(), CollectSpout::new());
    assert_eq!(s.threshold(), 10);
    assert_eq!(s.buffered(), 0);
}

#[test]
fn send_all_default_delegates_to_send() {
    let mut s = CollectSpout::new();
    s.send_all(vec![1, 2, 3, 4, 5]);
    assert_eq!(s.items(), vec![1, 2, 3, 4, 5]);
}

#[test]
fn send_all_empty_iterator() {
    let mut s = CollectSpout::<i32>::new();
    s.send_all(Vec::new());
    assert!(s.items().is_empty());
}

#[test]
fn send_all_with_batch_spout_triggers_threshold() {
    let mut s: BatchSpout<i32, CollectSpout<Vec<i32>>> = BatchSpout::new(3, CollectSpout::new());
    s.send_all(vec![1, 2, 3, 4, 5]);

    assert_eq!(s.inner().items(), vec![vec![1, 2, 3]]);
    assert_eq!(s.buffered(), 2);
}

#[test]
fn batch_spout_single_item_flush() {
    let mut s: BatchSpout<i32, CollectSpout<Vec<i32>>> = BatchSpout::new(100, CollectSpout::new());
    s.send(42);
    s.flush();
    assert_eq!(s.into_inner().into_items(), vec![vec![42]]);
}

#[test]
fn batch_spout_threshold_of_one() {
    let mut s: BatchSpout<i32, CollectSpout<Vec<i32>>> = BatchSpout::new(1, CollectSpout::new());
    s.send(1);
    s.send(2);
    s.send(3);
    assert_eq!(s.inner().items(), vec![vec![1], vec![2], vec![3]]);
}

#[test]
fn batch_spout_large_batch() {
    let mut s: BatchSpout<i32, CollectSpout<Vec<i32>>> = BatchSpout::new(1000, CollectSpout::new());
    for i in 0..2500 {
        s.send(i);
    }
    s.flush();

    let batches = s.into_inner().into_items();
    assert_eq!(batches.len(), 3);
    assert_eq!(batches[0].len(), 1000);
    assert_eq!(batches[1].len(), 1000);
    assert_eq!(batches[2].len(), 500);
}

#[test]
fn reduce_spout_empty_flush_is_noop() {
    let mut s = ReduceSpout::new(10, |b: Vec<i32>| b.len(), CollectSpout::new());
    s.flush();
    assert!(s.into_inner().into_items().is_empty());
}

#[test]
fn reduce_spout_threshold_of_one() {
    let mut s = ReduceSpout::new(1, |batch: Vec<i32>| batch[0] * 10, CollectSpout::new());
    s.send(1);
    s.send(2);
    s.send(3);
    assert_eq!(s.into_inner().into_items(), vec![10, 20, 30]);
}

#[test]
fn collect_spout_take_leaves_empty() {
    let mut s = CollectSpout::new();
    s.send(1);
    s.send(2);
    let taken = s.take();
    assert_eq!(taken, vec![1, 2]);
    assert!(s.items().is_empty());

    s.send(3);
    assert_eq!(s.items(), vec![3]);
}

#[test]
fn producer_spout_assigns_unique_ids() {
    let s = ProducerSpout::new(|_id| CollectSpout::<i32>::new());

    let s0 = s.clone();
    let s1 = s.clone();
    let s2 = s.clone();

    assert_eq!(s0.producer_id(), 0);
    assert_eq!(s1.producer_id(), 1);
    assert_eq!(s2.producer_id(), 2);
}

#[test]
fn producer_spout_creates_independent_spouts() {
    let s = ProducerSpout::new(|_id| CollectSpout::<i32>::new());

    let mut s0 = s.clone();
    let mut s1 = s.clone();

    s0.send(1);
    s0.send(2);
    s1.send(10);

    assert_eq!(s0.inner().unwrap().items(), &[1, 2]);
    assert_eq!(s1.inner().unwrap().items(), &[10]);
}

#[test]
fn producer_spout_lazy_init() {
    let s = ProducerSpout::new(|_id| CollectSpout::<i32>::new());

    let s0 = s.clone();

    assert!(s0.inner().is_none());
}

#[test]
fn producer_spout_flush_delegates() {
    let flushed = Rc::new(Cell::new(0));
    let shared = flushed.clone();

    let s = ProducerSpout::new(move |_id| FlushCounter { flushed: shared.clone() });
    let mut s0 = s.clone();

    s0.flush();
    assert_eq!(flushed.get(), 0);

    s0.send(1);
    s0.flush();
    assert_eq!(flushed.get(), 1);
}

#[test]
fn producer_spout_into_inner() {
    let s = ProducerSpout::new(|_id| CollectSpout::<i32>::new());
    let mut s0 = s.clone();

    s0.send(42);

    let inner = s0.into_inner().unwrap();
    assert_eq!(inner.items(), &[42]);
}

#[test]
fn spout_fn_sink_receives_evicted() {
    let evicted = std::sync::Arc::new(std::sync::Mutex::new(Vec::new()));
    let evicted_clone = evicted.clone();

    let mut ring = SpillRing::<i32, 2, _>::with_sink(FnSpout(move |x| {
        evicted_clone.lock().unwrap().push(x);
    }));

    ring.push(1);
    ring.push(2);
    ring.push(3);

    assert_eq!(*evicted.lock().unwrap(), vec![1]);
}

#[test]
fn spout_batch_sink_with_ring_chain() {
    let batch_sink: BatchSpout<i32, CollectSpout<Vec<i32>>> =
        BatchSpout::new(100, CollectSpout::new());
    let mut ring = SpillRing::<i32, 4, _>::with_sink(batch_sink);

    for i in 0..1000 {
        ring.push(i);
    }

    let batches = ring.sink().inner().items();
    assert!(batches.len() >= 9);
    assert!(batches.iter().all(|b| b.len() <= 100));
}

#[test]
fn spout_channel_sink_accessors() {
    let (tx, rx) = mpsc::channel();
    let sink = ChannelSpout::new(tx);

    sink.sender().send(42).unwrap();
    assert_eq!(rx.recv(), Ok(42));

    let sender = sink.into_sender();
    sender.send(99).unwrap();
    assert_eq!(rx.recv(), Ok(99));
}

#[test]
fn spout_channel_sink_ignores_disconnected_receiver() {
    let (tx, rx) = mpsc::channel::<i32>();
    let mut sink = ChannelSpout::new(tx);

    drop(rx);

    let _ = sink.send(1);
    let _ = sink.send(2);
}
