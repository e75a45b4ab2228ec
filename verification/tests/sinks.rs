use spill_ring::{
    sink, BatchSink, ChannelSink, CollectSink, DropSink, FnSink, ReduceSink, Sink, SpillRing,
};
use std::cell::Cell;
use std::rc::Rc;
use std::sync::mpsc;

#[test]
fn sink_fn_sink_receives_evicted() {
    let evicted = std::sync::Arc::new(std::sync::Mutex::new(Vec::new()));
    let evicted_clone = evicted.clone();

    let mut ring = SpillRing::<i32, 2, _>::with_sink(FnSink(move |x| {
        evicted_clone.lock().unwrap().push(x);
    }));

    ring.push(1);
    ring.push(2);
    ring.push(3);

    assert_eq!(*evicted.lock().unwrap(), vec![1]);
}

#[test]
fn sink_drop_sink_accepts_items() {
    let mut sink = DropSink;
    sink.send(1);
    sink.send(2);
    sink.send(3);
}

#[test]
fn sink_fn_sink_calls_closure() {
    let mut collected = Vec::new();
    {
        let mut sink = FnSink(|x: i32| collected.push(x));
        sink.send(1);
        sink.send(2);
        sink.send(3);
    }
    assert_eq!(collected, vec![1, 2, 3]);
}

#[test]
fn sink_collect_sink_gathers_items() {
    let mut sink = CollectSink::new();
    sink.send(10);
    sink.send(20);
    sink.send(30);
    assert_eq!(sink.items(), vec![10, 20, 30]);
}

#[test]
fn sink_sink_with_different_types() {
    let mut string_sink = CollectSink::new();
    string_sink.send("hello");
    string_sink.send("world");
    assert_eq!(string_sink.items(), vec!["hello", "world"]);

    let mut tuple_sink = CollectSink::new();
    tuple_sink.send((1, "a"));
    tuple_sink.send((2, "b"));
    assert_eq!(tuple_sink.items(), vec![(1, "a"), (2, "b")]);
}

#[test]
fn sink_fn_flush_sink_calls_both_closures() {
    let send_count = Rc::new(Cell::new(0));
    let flush_count = Rc::new(Cell::new(0));
    let sends = send_count.clone();
    let flushes = flush_count.clone();

    let mut s = sink(
        move |_: i32| {
            sends.set(sends.get() + 1);
        },
        move || {
            flushes.set(flushes.get() + 1);
        },
    );

    s.send(1);
    s.send(2);
    s.send(3);
    assert_eq!(send_count.get(), 3);
    assert_eq!(flush_count.get(), 0);

    s.flush();
    assert_eq!(flush_count.get(), 1);

    s.flush();
    assert_eq!(flush_count.get(), 2);
}

#[test]
fn sink_fn_flush_sink_with_unit_flush() {
    let mut collected = Vec::new();
    {
        let mut s = sink(|x: i32| collected.push(x), ());
        s.send(10);
        s.send(20);
        s.flush();
    }
    assert_eq!(collected, vec![10, 20]);
}

#[test]
fn sink_drop_sink_flush_is_noop() {
    let mut s = DropSink;
    <DropSink as Sink<i32>>::flush(&mut s);
}

#[test]
fn batch_sink_batches_items() {
    let mut sink: BatchSink<i32, CollectSink<Vec<i32>>> = BatchSink::new(3, CollectSink::new());

    sink.send(1);
    sink.send(2);
    assert_eq!(sink.inner().items().len(), 0);
    assert_eq!(sink.buffered(), 2);

    sink.send(3);
    assert_eq!(sink.inner().items(), vec![vec![1, 2, 3]]);
    assert_eq!(sink.buffered(), 0);

    sink.send(4);
    sink.send(5);
    sink.flush();
    assert_eq!(
        sink.into_inner().into_items(),
        vec![vec![1, 2, 3], vec![4, 5]]
    );
}

#[test]
fn batch_sink_exact_threshold() {
    let mut sink: BatchSink<i32, CollectSink<Vec<i32>>> = BatchSink::new(2, CollectSink::new());

    sink.send(1);
    sink.send(2);
    sink.send(3);
    sink.send(4);

    assert_eq!(sink.inner().items(), vec![vec![1, 2], vec![3, 4]]);
}

#[test]
fn batch_sink_flush_empty_is_noop() {
    let mut sink: BatchSink<i32, CollectSink<Vec<i32>>> = BatchSink::new(10, CollectSink::new());
    sink.flush();
    assert!(sink.into_inner().into_items().is_empty());
}

#[test]
fn sink_batch_sink_with_ring_chain() {
    let batch_sink: BatchSink<i32, CollectSink<Vec<i32>>> = BatchSink::new(100, CollectSink::new());
    let mut ring = SpillRing::<i32, 4, _>::with_sink(batch_sink);

    for i in 0..1000 {
        ring.push(i);
    }

    let batches = ring.sink().inner().items();
    assert!(batches.len() >= 9);
    assert!(batches.iter().all(|b| b.len() <= 100));
}

#[test]
fn reduce_sink_reduces_batches() {
    let mut sink = ReduceSink::new(
        4,
        |batch: Vec<i32>| batch.iter().sum::<i32>(),
        CollectSink::new(),
    );

    for i in 1..=8 {
        sink.send(i);
    }
    sink.flush();

    assert_eq!(sink.into_inner().into_items(), vec![10, 26]);
}

#[test]
fn reduce_sink_flush_partial() {
    let mut sink = ReduceSink::new(5, |batch: Vec<i32>| batch.len() as i32, CollectSink::new());

    sink.send(1);
    sink.send(2);
    sink.send(3);
    sink.flush();

    assert_eq!(sink.into_inner().into_items(), vec![3]);
}

#[test]
fn reduce_sink_type_transform() {
    let mut sink = ReduceSink::new(
        2,
        |batch: Vec<i32>| format!("{:?}", batch),
        CollectSink::<String>::new(),
    );

    sink.send(1);
    sink.send(2);
    sink.send(3);
    sink.send(4);
    sink.flush();

    assert_eq!(
        sink.into_inner().into_items(),
        vec!["[1, 2]".to_string(), "[3, 4]".to_string()]
    );
}

#[test]
fn reduce_sink_accessors() {
    let sink: ReduceSink<i32, usize, _, CollectSink<usize>> =
        ReduceSink::new(10, |b: Vec<i32>| b.len(), CollectSink::new());
    assert_eq!(sink.threshold(), 10);
    assert_eq!(sink.buffered(), 0);
}

#[test]
fn sink_channel_sink_sends_evicted_items() {
    let (tx, rx) = mpsc::channel();
    let mut ring = SpillRing::<i32, 4, _>::with_sink(ChannelSink::new(tx));

    ring.push(1);
    ring.push(2);
    ring.push(3);
    ring.push(4);

    assert!(rx.try_recv().is_err());

    ring.push(5);
    ring.push(6);

    assert_eq!(rx.try_recv(), Ok(1));
    assert_eq!(rx.try_recv(), Ok(2));
    assert!(rx.try_recv().is_err());
}

#[test]
fn sink_channel_sink_with_flush() {
    let (tx, rx) = mpsc::channel();
    let mut ring = SpillRing::<i32, 4, _>::with_sink(ChannelSink::new(tx));

    ring.push(10);
    ring.push(20);
    ring.push(30);

    ring.flush();

    let items: Vec<_> = rx.try_iter().collect();
    assert_eq!(items, vec![10, 20, 30]);
}

#[test]
fn sink_channel_sink_drop_sends_remaining() {
    let (tx, rx) = mpsc::channel();

    {
        let mut ring = SpillRing::<i32, 4, _>::with_sink(ChannelSink::new(tx));
        ring.push(1);
        ring.push(2);
        ring.into_sink();
    }

    let items: Vec<_> = rx.try_iter().collect();
    assert_eq!(items, vec![1, 2]);
}

#[test]
fn sink_channel_sink_accessors() {
    let (tx, rx) = mpsc::channel();
    let sink = ChannelSink::new(tx);

    sink.sender().send(42).unwrap();
    assert_eq!(rx.recv(), Ok(42));

    let sender = sink.into_sender();
    sender.send(99).unwrap();
    assert_eq!(rx.recv(), Ok(99));
}

#[test]
fn sink_channel_sink_ignores_disconnected_receiver() {
    let (tx, rx) = mpsc::channel::<i32>();
    let mut sink = ChannelSink::new(tx);

    drop(rx);

    sink.send(1);
    sink.send(2);
}

#[test]
fn sink_channel_sink_mpsc_pattern() {
    let (tx, rx) = mpsc::channel();

    let mut ring1 = SpillRing::<i32, 2, _>::with_sink(ChannelSink::new(tx.clone()));
    let mut ring2 = SpillRing::<i32, 2, _>::with_sink(ChannelSink::new(tx.clone()));
    drop(tx);

    ring1.push(10);
    ring1.push(11);
    ring1.push(12);

    ring2.push(20);
    ring2.push(21);
    ring2.push(22);

    let mut evicted: Vec<_> = rx.try_iter().collect();
    evicted.sort();
    assert_eq!(evicted, vec![10, 20]);
}
