use spill_ring::{collect_producers, CollectSink, MpscRing, RingInfo};

#[test]
fn mpsc_basic_mpsc() {
    let (mut producers, mut consumer) = MpscRing::<u64, 8>::new(2);

    producers[0].push(1);
    producers[0].push(2);

    producers[1].push(10);
    producers[1].push(20);

    collect_producers(producers, &mut consumer);

    let mut sink = CollectSink::new();
    consumer.drain(&mut sink);
    let items = sink.into_items();
    assert_eq!(items.len(), 4);
    assert!(items.contains(&1));
    assert!(items.contains(&2));
    assert!(items.contains(&10));
    assert!(items.contains(&20));
}

#[test]
fn drain() {
    let (mut producers, mut consumer) = MpscRing::<u64, 8>::new(2);

    producers[0].push(1);
    producers[0].push(2);
    producers[1].push(10);

    collect_producers(producers, &mut consumer);

    let mut sink = CollectSink::new();
    consumer.drain(&mut sink);

    let items = sink.into_items();
    assert_eq!(items.len(), 3);
}

#[test]
fn mpsc_producer_overflow_to_sink() {
    let sink = CollectSink::new();
    let (mut producers, mut consumer) = MpscRing::<u64, 4, _>::with_sink(2, sink);

    for i in 0..10 {
        producers[0].push(i);
    }

    collect_producers(producers, &mut consumer);

    let mut sink = CollectSink::new();
    consumer.drain(&mut sink);
    let remaining = sink.into_items();
    assert_eq!(remaining.len(), 4);

    let (mut producers, _consumer) = MpscRing::<u64, 4, _>::with_sink(1, CollectSink::new());
    let mut producer = producers.pop().unwrap();
    for i in 0..10 {
        producer.push(i);
    }
    let mut ring = producer.into_ring();
    assert_eq!(ring.sink().items().len(), 6);
    ring.flush();
    assert_eq!(ring.sink().items().len(), 10);
}

#[test]
fn empty_producers() {
    let (producers, mut consumer) = MpscRing::<u64, 8>::new(4);

    collect_producers(producers, &mut consumer);

    assert!(consumer.is_empty());
    assert_eq!(consumer.len(), 0);
    assert_eq!(consumer.num_producers(), 4);
}

#[test]
fn empty_producers_drop_sink() {
    let (producers, _consumer) = MpscRing::<u64, 8>::new(4);
    assert_eq!(producers.len(), 4);
    for p in &producers {
        assert!(p.is_empty());
    }
}

#[test]
fn mpsc_single_producer() {
    let (mut producers, mut consumer) = MpscRing::<u64, 16>::new(1);

    let mut producer = producers.pop().unwrap();
    for i in 0..10 {
        producer.push(i);
    }

    collect_producers(vec![producer], &mut consumer);

    let mut sink = CollectSink::new();
    consumer.drain(&mut sink);
    let items = sink.into_items();
    assert_eq!(items, vec![0, 1, 2, 3, 4, 5, 6, 7, 8, 9]);
}
