use spill_ring::{
    collect_producers, BatchSink, CollectSink, Consumer, MpscRing, Phase, RingInfo, RingProducer,
    Sink, SpillRing, Worker, WorkerAction, WorkerEvent,
};
use std::collections::VecDeque;

#[test]
fn pushes_that_fit_are_all_kept() {
    for count in 0..=8usize {
        let mut ring = SpillRing::<usize, 8, _>::with_sink(CollectSink::new());
        for value in 0..count {
            ring.push(value);
            assert_eq!(ring.len(), value + 1);
        }
        assert_eq!(ring.len(), count);
        assert!(ring.sink().items().is_empty());
        assert_eq!(ring.drain(), (0..count).collect::<Vec<_>>());
    }
}

#[test]
fn six_pushes_into_four_slots() {
    let mut ring = SpillRing::<i32, 4, _>::with_sink(CollectSink::new());
    for value in [1, 2, 3, 4, 5, 6] {
        ring.push(value);
    }
    assert_eq!(ring.sink().items(), vec![1, 2]);
    assert_eq!(ring.drain(), vec![3, 4, 5, 6]);
}

#[test]
fn pops_are_first_in_first_out_for_any_interleaving() {
    let mut ring = SpillRing::<u32, 8, _>::with_sink(CollectSink::new());
    let mut model: VecDeque<u32> = VecDeque::new();
    let mut evicted: Vec<u32> = Vec::new();
    let mut seed: u32 = 12345;
    for step in 0..5000u32 {
        seed = seed.wrapping_mul(1103515245).wrapping_add(12345);
        if (seed >> 16) % 3 == 0 {
            assert_eq!(ring.pop(), model.pop_front());
        } else {
            if model.len() == 8 {
                evicted.push(model.pop_front().unwrap());
            }
            model.push_back(step);
            ring.push(step);
        }
        assert_eq!(ring.len(), model.len());
        assert_eq!(ring.peek(), model.front());
        assert_eq!(ring.peek_back(), model.back());
    }
    assert_eq!(ring.sink().items(), evicted);
    assert_eq!(ring.drain(), model.into_iter().collect::<Vec<_>>());
}

#[test]
fn flush_sends_in_order_and_again_is_a_noop() {
    let mut ring = SpillRing::<i32, 4, _>::with_sink(CollectSink::new());
    ring.extend(vec![1, 2, 3]);
    assert_eq!(ring.flush(), 3);
    assert_eq!(ring.sink().items(), vec![1, 2, 3]);
    assert!(ring.is_empty());
    assert_eq!(ring.flush(), 0);
    assert_eq!(ring.sink().items(), vec![1, 2, 3]);
    assert!(ring.is_empty());
}

#[test]
fn clear_drop_reaches_no_sink() {
    let mut ring = SpillRing::<i32, 4, _>::with_sink(CollectSink::new());
    ring.extend(vec![1, 2, 3]);
    ring.clear_drop();
    assert!(ring.is_empty());
    assert!(ring.sink().items().is_empty());
}

#[test]
fn chained_rings_round_trip() {
    let ring_b = SpillRing::<i32, 2, _>::with_sink(CollectSink::new());
    let mut ring_a = SpillRing::<i32, 2, _>::with_sink(ring_b);
    for value in 1..=6 {
        ring_a.push(value);
    }
    assert_eq!(ring_a.iter(), vec![&5, &6]);
    assert_eq!(ring_a.sink().iter(), vec![&3, &4]);
    assert_eq!(ring_a.sink().sink().items(), vec![1, 2]);
    let collected = ring_a.into_sink().into_sink();
    assert_eq!(collected.into_items(), vec![1, 2, 3, 4, 5, 6]);
}

#[test]
fn producers_keep_their_order_in_the_drain() {
    let (mut producers, mut consumer) = MpscRing::<u64, 16>::new(3);
    for (id, producer) in producers.iter_mut().enumerate() {
        for value in 0..5u64 {
            producer.push(id as u64 * 100 + value);
        }
    }
    collect_producers(producers, &mut consumer);
    assert_eq!(consumer.len(), 15);
    assert_eq!(consumer.capacity(), 48);
    let mut sink = CollectSink::new();
    consumer.drain(&mut sink);
    assert_eq!(
        sink.into_items(),
        vec![0, 1, 2, 3, 4, 100, 101, 102, 103, 104, 200, 201, 202, 203, 204]
    );
    assert!(consumer.is_empty());
    assert_eq!(consumer.num_producers(), 3);
}

#[test]
fn producers_with_small_rings_lose_what_was_evicted() {
    let (mut producers, mut consumer) = MpscRing::<u64, 4, _>::with_sink(2, CollectSink::new());
    for producer in producers.iter_mut() {
        for value in 0..6u64 {
            producer.push(value);
        }
    }
    collect_producers(producers, &mut consumer);
    let mut sink = CollectSink::new();
    consumer.drain(&mut sink);
    assert_eq!(sink.into_items(), vec![2, 3, 4, 5, 2, 3, 4, 5]);
}

#[test]
fn runs_accumulate_in_the_rings_of_the_workers() {
    let mut consumer: Consumer<u64, 128> = Consumer::new();
    for _worker in 0..2 {
        let mut ring: SpillRing<u64, 128> = SpillRing::new();
        ring.extend((0..10).collect());
        ring.extend((0..10).collect());
        consumer.add_ring(ring);
    }
    let mut sink = CollectSink::new();
    consumer.drain(&mut sink);
    assert_eq!(sink.into_items().len(), 40);
}

#[test]
fn extend_is_the_same_as_pushing_one_by_one() {
    let mut pushed = SpillRing::<u32, 4, _>::with_sink(CollectSink::new());
    let mut extended = SpillRing::<u32, 4, _>::with_sink(CollectSink::new());
    for value in 0..11 {
        pushed.push(value);
    }
    extended.extend((0..5).collect());
    extended.extend((5..11).collect());
    assert_eq!(pushed.sink().items(), extended.sink().items());
    assert_eq!(pushed.drain(), extended.drain());
}

#[test]
fn flushing_a_sink_with_nothing_buffered_changes_nothing() {
    let mut batch: BatchSink<i32, CollectSink<Vec<i32>>> = BatchSink::new(3, CollectSink::new());
    batch.flush();
    batch.flush();
    assert!(batch.inner().items().is_empty());
    batch.send(1);
    batch.flush();
    batch.flush();
    assert_eq!(batch.inner().items(), vec![vec![1]]);

    let mut collect = CollectSink::new();
    collect.send(1);
    collect.flush();
    assert_eq!(collect.items(), vec![1]);
}

#[test]
fn try_push_leaves_a_full_ring_as_it_was() {
    let mut ring = SpillRing::<i32, 2, _>::with_sink(CollectSink::new());
    assert!(ring.try_push(1).is_ok());
    assert!(ring.try_push(2).is_ok());
    let refused = ring.try_push(3).unwrap_err();
    assert_eq!(refused.message(), "ring buffer is full");
    assert_eq!(refused.into_inner(), 3);
    assert!(ring.sink().items().is_empty());
    assert_eq!(ring.drain(), vec![1, 2]);
}

#[test]
fn a_ring_of_one_slot_holds_the_newest() {
    let mut ring = SpillRing::<i32, 1, _>::with_sink(CollectSink::new());
    ring.push(1);
    ring.push(2);
    ring.push(3);
    assert_eq!(ring.sink().items(), vec![1, 2]);
    assert_eq!(ring.peek(), Some(&3));
    assert_eq!(ring.peek_back(), Some(&3));
    assert_eq!(ring.get(0), Some(&3));
    assert_eq!(ring.get(1), None);
    assert!(ring.is_full());
    assert_eq!(ring.pop(), Some(3));
    assert!(ring.is_empty());
}

#[test]
fn a_worker_goes_through_one_run_per_command() {
    let mut worker = Worker::new();
    assert_eq!(worker.action(), WorkerAction::Receive);
    assert_eq!(worker.step(WorkerEvent::Released), WorkerAction::Receive);
    assert_eq!(worker.step(WorkerEvent::Command), WorkerAction::WaitStart);
    assert_eq!(worker.step(WorkerEvent::Command), WorkerAction::WaitStart);
    assert_eq!(worker.step(WorkerEvent::Released), WorkerAction::Work);
    assert_eq!(worker.phase(), Phase::Running);
    assert_eq!(worker.step(WorkerEvent::Disconnected), WorkerAction::Work);
    assert_eq!(worker.step(WorkerEvent::Worked), WorkerAction::WaitDone);
    assert_eq!(worker.runs(), 0);
    assert_eq!(worker.step(WorkerEvent::Released), WorkerAction::Receive);
    assert_eq!(worker.runs(), 1);
    assert_eq!(worker.phase(), Phase::Idle);
    assert_eq!(worker.step(WorkerEvent::Disconnected), WorkerAction::Return);
    assert_eq!(worker.step(WorkerEvent::Command), WorkerAction::Return);
    assert_eq!(worker.phase(), Phase::Stopped);
}
