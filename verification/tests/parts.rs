use spill_ring::atomic;
use spill_ring::{
    barrier_parties, BatchSink, CollectSink, DropSink, FnFlushSink, Index, ProducerSink,
    ReduceSink, SendAll, Sink, SinkCell, SpillRing, SpoutCell,
};

#[test]
fn index_loads_what_was_stored() {
    let mut index = Index::new(3);
    assert_eq!(index.load(), 3);
    assert_eq!(index.load_relaxed(), 3);
    index.store(usize::MAX);
    assert_eq!(index.load(), usize::MAX);
    assert_eq!(index.compare_exchange(usize::MAX, 0), Ok(usize::MAX));
    assert_eq!(index.load(), 0);
    assert_eq!(index.compare_exchange(5, 9), Err(0));
    assert_eq!(index.load(), 0);
}

#[test]
fn atomic_index_loads_what_was_stored() {
    let index = atomic::Index::new(3);
    assert_eq!(index.load(), 3);
    assert_eq!(index.load_relaxed(), 3);
    index.store(7);
    assert_eq!(index.load(), 7);
    assert_eq!(index.compare_exchange(7, 8), Ok(7));
    assert_eq!(index.compare_exchange(7, 9), Err(8));
    assert_eq!(index.load(), 8);
}

#[test]
fn sink_cell_hands_out_its_sink() {
    let mut cell = SinkCell::new(CollectSink::new());
    cell.get_mut().send(1);
    cell.get_mut().send(2);
    assert_eq!(cell.get_ref().items(), vec![1, 2]);
    assert_eq!(cell.into_inner().into_items(), vec![1, 2]);

    let mut spout: SpoutCell<CollectSink<i32>> = SpoutCell::new(CollectSink::default());
    spout.get_mut().send(3);
    assert_eq!(spout.get_ref().items(), vec![3]);
}

#[test]
fn barrier_parties_are_the_workers_and_the_pool() {
    assert_eq!(barrier_parties(0), None);
    assert_eq!(barrier_parties(1), Some(2));
    assert_eq!(barrier_parties(7), Some(8));
    assert_eq!(barrier_parties(usize::MAX), None);
}

#[test]
fn send_all_sends_first_to_last_through_a_ring() {
    let mut ring = SpillRing::<i32, 2, _>::with_sink(CollectSink::new());
    ring.send_all(vec![1, 2, 3, 4, 5]);
    assert_eq!(ring.sink().items(), vec![1, 2, 3]);
    assert_eq!(ring.drain(), vec![4, 5]);
}

#[test]
fn a_threshold_of_zero_forwards_every_item() {
    let mut sink: BatchSink<i32, CollectSink<Vec<i32>>> = BatchSink::new(0, CollectSink::new());
    sink.send(1);
    sink.send(2);
    assert_eq!(sink.threshold(), 0);
    assert_eq!(sink.buffered(), 0);
    assert_eq!(sink.inner().items(), vec![vec![1], vec![2]]);
}

#[test]
fn inner_sinks_can_be_reached_for_writing() {
    let mut batch: BatchSink<i32, CollectSink<Vec<i32>>> = BatchSink::new(5, CollectSink::new());
    batch.inner_mut().send(vec![9]);
    batch.send(1);
    batch.flush();
    assert_eq!(batch.into_inner().into_items(), vec![vec![9], vec![1]]);

    let mut reduce = ReduceSink::new(2, |batch: Vec<i32>| batch.len(), CollectSink::new());
    reduce.inner_mut().send(7);
    reduce.send(1);
    reduce.send(2);
    assert_eq!(reduce.inner().items(), vec![7, 2]);

    let mut ring = SpillRing::<i32, 2, _>::with_sink(CollectSink::new());
    ring.sink_mut().send(5);
    ring.push(1);
    assert_eq!(ring.sink().items(), vec![5]);
    assert_eq!(ring.len(), 1);
}

#[test]
fn producer_sink_makes_its_inner_sink_once() {
    let mut made = 0;
    {
        let mut sink = ProducerSink::new(|id| {
            made += 1;
            let mut inner = CollectSink::new();
            inner.send(id as i32);
            inner
        });
        assert_eq!(sink.producer_id(), 0);
        assert!(sink.inner_mut().is_none());
        sink.ensure_inner();
        sink.ensure_inner();
        sink.send(10);
        sink.inner_mut().unwrap().send(20);
        assert_eq!(sink.inner().unwrap().items(), vec![0, 10, 20]);
    }
    assert_eq!(made, 1);
}

#[test]
fn fn_flush_sink_is_made_of_two_closures() {
    let mut sent = Vec::new();
    let mut flushes = 0;
    {
        let mut sink = FnFlushSink::new(|item: i32| sent.push(item), || flushes += 1);
        sink.send(1);
        sink.flush();
        sink.send(2);
    }
    assert_eq!(sent, vec![1, 2]);
    assert_eq!(flushes, 1);
}

#[test]
fn default_sinks_start_empty() {
    let collect: CollectSink<i32> = CollectSink::default();
    assert!(collect.items().is_empty());
    let mut drop = DropSink::default();
    drop.send(1);
    let ring: SpillRing<i32, 2> = SpillRing::default();
    assert_eq!(ring.peek(), None);
}
