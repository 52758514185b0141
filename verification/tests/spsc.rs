use std::sync::atomic::{AtomicUsize, Ordering};
use std::sync::Arc;

use quetzalcoatl::capacity::Capacity;
use quetzalcoatl::common::step::PopStep;
use quetzalcoatl::spsc::RingBuffer;

/// Counts its destructions.
#[derive(Debug)]
struct DropCounter {
    counter: Arc<AtomicUsize>,
}

impl DropCounter {
    fn new(counter: &Arc<AtomicUsize>) -> Self {
        DropCounter {
            counter: Arc::clone(counter),
        }
    }
}

impl Drop for DropCounter {
    fn drop(&mut self) {
        self.counter.fetch_add(1, Ordering::Relaxed);
    }
}

fn done<V>(step: PopStep<V>) -> Option<V> {
    match step {
        PopStep::Done(val) => val,
        PopStep::Spin | PopStep::Park => panic!("the pop has to wait"),
    }
}

#[test]
fn capacity_one() {
    let mut ring = RingBuffer::<u8>::new(Capacity::exact(1));
    let (mut producer, mut consumer) = ring.split();
    assert_eq!(producer.len(&ring), 0);
    producer.push(&mut ring, 1).unwrap();
    assert_eq!(producer.len(&ring), 1);
    assert_eq!(consumer.pop(&mut ring), Some(1));
    assert_eq!(consumer.len(&ring), 0);
}

#[test]
fn zero_sized_types() {
    let mut ring = RingBuffer::<()>::new(Capacity::exact(4));
    let (mut producer, mut consumer) = ring.split();

    producer.push(&mut ring, ()).unwrap();
    assert_eq!(consumer.pop(&mut ring), Some(()));
    producer.push(&mut ring, ()).unwrap();
    assert_eq!(consumer.pop(&mut ring), Some(()));
}

#[test]
fn pop_empty_is_idempotent() {
    let mut ring = RingBuffer::<u8>::new(Capacity::exact(1));
    let (mut producer, mut consumer) = ring.split();
    assert_eq!(consumer.pop(&mut ring), None);
    assert!(consumer.is_empty(&ring));
    assert_eq!(consumer.len(&ring), 0);
    assert_eq!(consumer.pop(&mut ring), None);
    assert!(consumer.is_empty(&ring));
    assert_eq!(consumer.len(&ring), 0);
    producer.push(&mut ring, 1).unwrap();
    assert_eq!(consumer.pop(&mut ring), Some(1));
    assert!(consumer.is_empty(&ring));
    assert_eq!(consumer.len(&ring), 0);
}

#[test]
fn length_invariants() {
    let mut ring = RingBuffer::<u8>::new(Capacity::exact(2));
    let (mut producer, mut consumer) = ring.split();
    assert_eq!(producer.len(&ring), 0);
    producer.push(&mut ring, 1).unwrap();
    assert_eq!(producer.len(&ring), 1);
    producer.push(&mut ring, 2).unwrap();
    assert_eq!(producer.len(&ring), 2);
    assert_eq!(producer.push(&mut ring, 3), Err(3));
    assert_eq!(producer.len(&ring), 2);
    assert_eq!(consumer.pop(&mut ring), Some(1));
    assert_eq!(consumer.len(&ring), 1);
    assert_eq!(consumer.pop(&mut ring), Some(2));
    assert_eq!(consumer.len(&ring), 0);
}

#[test]
fn overwrite_oldest_element() {
    let mut ring = RingBuffer::<u8>::new(Capacity::exact(4));
    let (mut producer, mut consumer) = ring.split();
    producer.push(&mut ring, 1).unwrap();
    producer.push(&mut ring, 2).unwrap();
    producer.push(&mut ring, 3).unwrap();
    producer.push(&mut ring, 4).unwrap();

    assert_eq!(producer.push(&mut ring, 5), Err(5));
    assert_eq!(consumer.pop(&mut ring), Some(1));
    producer.push(&mut ring, 5).unwrap();

    assert_eq!(consumer.pop(&mut ring), Some(2));
    assert_eq!(consumer.pop(&mut ring), Some(3));
    assert_eq!(consumer.pop(&mut ring), Some(4));
    assert_eq!(consumer.pop(&mut ring), Some(5));
    assert_eq!(consumer.pop(&mut ring), None);
}

#[test]
fn wraparound_behavior() {
    let mut ring = RingBuffer::<u8>::new(Capacity::exact(4));
    let (mut producer, mut consumer) = ring.split();
    producer.push(&mut ring, 1).unwrap();
    producer.push(&mut ring, 2).unwrap();
    assert_eq!(consumer.pop(&mut ring), Some(1));
    producer.push(&mut ring, 3).unwrap();
    producer.push(&mut ring, 4).unwrap();
    producer.push(&mut ring, 5).unwrap(); // wraps here
    assert_eq!(consumer.pop(&mut ring), Some(2));
    assert_eq!(consumer.pop(&mut ring), Some(3));
    assert_eq!(consumer.pop(&mut ring), Some(4));
    assert_eq!(consumer.pop(&mut ring), Some(5));
    assert_eq!(consumer.pop(&mut ring), None);
}

#[test]
fn fill_to_capacity() {
    let mut ring = RingBuffer::<u8>::new(Capacity::exact(16));
    let (mut producer, mut consumer) = ring.split();

    for i in 0..16 {
        producer.push(&mut ring, i).unwrap();
    }
    assert_eq!(producer.len(&ring), 16);
    assert!(!producer.is_empty(&ring));
    assert!(producer.is_full(&ring));

    for i in 0..16 {
        assert_eq!(consumer.pop(&mut ring), Some(i));
    }
    assert_eq!(consumer.len(&ring), 0);
    assert!(consumer.is_empty(&ring));
    assert!(!consumer.is_full(&ring));
}

#[test]
fn pop_empty_buffer() {
    let mut ring = RingBuffer::<u8>::new(Capacity::exact(16));
    let (_producer, mut consumer) = ring.split();
    assert_eq!(consumer.pop(&mut ring), None);
    assert!(consumer.is_empty(&ring));
    assert_eq!(consumer.len(&ring), 0);
}

#[test]
fn push_to_buffer() {
    let mut ring = RingBuffer::<u8>::new(Capacity::exact(16));
    let (mut producer, mut consumer) = ring.split();
    producer.push(&mut ring, 1).unwrap();
    producer.push(&mut ring, 2).unwrap();
    producer.push(&mut ring, 3).unwrap();
    assert_eq!(consumer.pop(&mut ring), Some(1));
    assert_eq!(consumer.pop(&mut ring), Some(2));
    assert_eq!(consumer.pop(&mut ring), Some(3));
    assert_eq!(consumer.pop(&mut ring), None);
}

#[test]
fn drop_items_on_consumer_drop() {
    let counter = Arc::new(AtomicUsize::new(0));
    let mut ring = RingBuffer::new(Capacity::exact(4));
    let (mut producer, consumer) = ring.split();

    for _ in 0..4 {
        producer.push(&mut ring, DropCounter::new(&counter)).unwrap();
    }

    // Dropping consumer should drain and drop all 4 items
    consumer.drop(&mut ring);
    assert_eq!(counter.load(Ordering::Relaxed), 4);
}

#[test]
fn drop_items_on_pop() {
    let counter = Arc::new(AtomicUsize::new(0));
    let mut ring = RingBuffer::new(Capacity::exact(4));
    let (mut producer, mut consumer) = ring.split();

    for _ in 0..3 {
        producer.push(&mut ring, DropCounter::new(&counter)).unwrap();
    }

    // Pop 2 - should drop when they go out of scope
    let a = consumer.pop(&mut ring).unwrap();
    let b = consumer.pop(&mut ring).unwrap();
    drop(a);
    drop(b);
    assert_eq!(counter.load(Ordering::Relaxed), 2);

    // Remaining 1 dropped when consumer is dropped
    consumer.drop(&mut ring);
    assert_eq!(counter.load(Ordering::Relaxed), 3);
}

#[test]
fn wraparound_exercises_all_slots() {
    let mut ring = RingBuffer::<u32>::new(Capacity::exact(4));
    let (mut producer, mut consumer) = ring.split();

    // 3 full laps = 12 push/pops, covering slot indices 0-3 three times
    for lap in 0..3u32 {
        for i in 0..4 {
            producer.push(&mut ring, lap * 4 + i).unwrap();
        }
        for i in 0..4 {
            assert_eq!(consumer.pop(&mut ring), Some(lap * 4 + i));
        }
    }
    assert_eq!(consumer.pop(&mut ring), None);
}

#[test]
fn reserve_write_commit_pop_ref_cycle() {
    let mut ring = RingBuffer::<u64>::new(Capacity::exact(4));
    let (mut producer, mut consumer) = ring.split();

    let writer = producer.reserve(&ring).unwrap();
    writer.write(&mut ring, 42).commit(&mut ring, &mut producer);

    let reader = consumer.pop_ref(&ring).unwrap();
    assert_eq!(*reader.deref(&ring), 42);
    reader.drop(&mut ring);

    assert_eq!(consumer.pop(&mut ring), None);
}

#[test]
fn reserve_slot_mut_commit() {
    let mut ring = RingBuffer::<[u8; 64]>::new(Capacity::exact(4));
    let (mut producer, mut consumer) = ring.split();

    let writer = producer.reserve(&ring).unwrap();
    *writer.slot_mut(&mut ring) = Some([0xAB; 64]);
    writer.commit_unchecked(&mut ring, &mut producer);

    let reader = consumer.pop_ref(&ring).unwrap();
    assert_eq!(reader.deref(&ring)[0], 0xAB);
    assert_eq!(reader.deref(&ring)[63], 0xAB);
}

#[test]
fn reserve_returns_none_when_full() {
    let mut ring = RingBuffer::<u64>::new(Capacity::exact(2));
    let (mut producer, _consumer) = ring.split();

    // Commit each writer immediately to avoid panicking on drop if
    // a later assertion fails.
    let w1 = producer.reserve(&ring).unwrap();
    w1.write(&mut ring, 1).commit(&mut ring, &mut producer);

    let w2 = producer.reserve(&ring).unwrap();
    w2.write(&mut ring, 2).commit(&mut ring, &mut producer);

    assert!(producer.reserve(&ring).is_none());
}

#[test]
fn pop_ref_returns_none_when_empty() {
    let mut ring = RingBuffer::<u64>::new(Capacity::exact(4));
    let (_producer, mut consumer) = ring.split();
    assert!(consumer.pop_ref(&ring).is_none());
}

#[test]
fn pop_ref_returns_none_when_not_ready() {
    let mut ring = RingBuffer::<u64>::new(Capacity::exact(4));
    let (mut producer, mut consumer) = ring.split();

    // Reserve but don't commit - slot is claimed but not visible
    let writer = producer.reserve(&ring).unwrap();
    assert!(consumer.pop_ref(&ring).is_none());

    // Now commit and it should be readable
    writer.write(&mut ring, 99).commit(&mut ring, &mut producer);
    let reader = consumer.pop_ref(&ring).unwrap();
    assert_eq!(*reader.deref(&ring), 99);
}

#[test]
fn mixed_push_reserve_pop_pop_ref() {
    let mut ring = RingBuffer::<u64>::new(Capacity::exact(8));
    let (mut producer, mut consumer) = ring.split();

    // Mix of push and reserve
    producer.push(&mut ring, 1).unwrap();
    let w = producer.reserve(&ring).unwrap();
    w.write(&mut ring, 2).commit(&mut ring, &mut producer);
    producer.push(&mut ring, 3).unwrap();

    // Mix of pop and pop_ref
    assert_eq!(consumer.pop(&mut ring), Some(1));
    let r = consumer.pop_ref(&ring).unwrap();
    assert_eq!(*r.deref(&ring), 2);
    r.drop(&mut ring);
    assert_eq!(consumer.pop(&mut ring), Some(3));
    assert_eq!(consumer.pop(&mut ring), None);
}

#[test]
fn slot_reader_drops_value() {
    let counter = Arc::new(AtomicUsize::new(0));
    let mut ring = RingBuffer::new(Capacity::exact(4));
    let (mut producer, mut consumer) = ring.split();

    producer.push(&mut ring, DropCounter::new(&counter)).unwrap();

    assert_eq!(counter.load(Ordering::Relaxed), 0);

    {
        let reader = consumer.pop_ref(&ring).unwrap();
        // Value is alive while reader exists
        assert_eq!(counter.load(Ordering::Relaxed), 0);
        reader.drop(&mut ring);
    }

    // Value should be dropped when SlotReader is dropped
    assert_eq!(counter.load(Ordering::Relaxed), 1);
}

#[test]
fn reserve_pop_ref_wraparound() {
    let mut ring = RingBuffer::<u32>::new(Capacity::exact(4));
    let (mut producer, mut consumer) = ring.split();

    // 3 full laps via reserve/pop_ref
    for lap in 0..3u32 {
        for i in 0..4 {
            let w = producer.reserve(&ring).unwrap();
            w.write(&mut ring, lap * 4 + i).commit(&mut ring, &mut producer);
        }
        for i in 0..4 {
            let r = consumer.pop_ref(&ring).unwrap();
            assert_eq!(*r.deref(&ring), lap * 4 + i);
            r.drop(&mut ring);
        }
    }
    assert!(consumer.pop_ref(&ring).is_none());
}

#[test]
fn reserve_drop_without_commit_rolls_back() {
    let mut ring = RingBuffer::<u32>::new(Capacity::exact(4));
    let (mut producer, mut consumer) = ring.split();

    producer.push(&mut ring, 1).unwrap();
    {
        let w = producer.reserve(&ring).unwrap();
        w.write(&mut ring, 2).drop(&mut ring);
        // drop without commit - should roll back, not panic
    }
    producer.push(&mut ring, 3).unwrap();

    assert_eq!(consumer.pop(&mut ring), Some(1));
    assert_eq!(consumer.pop(&mut ring), Some(3));
    assert_eq!(consumer.pop(&mut ring), None);
}

#[test]
fn reserve_drop_without_write_rolls_back() {
    let mut ring = RingBuffer::<u32>::new(Capacity::exact(4));
    let (mut producer, mut consumer) = ring.split();

    producer.push(&mut ring, 10).unwrap();
    {
        let _w = producer.reserve(&ring).unwrap();
        // drop without write or commit
    }
    producer.push(&mut ring, 20).unwrap();

    assert_eq!(consumer.pop(&mut ring), Some(10));
    assert_eq!(consumer.pop(&mut ring), Some(20));
    assert_eq!(consumer.pop(&mut ring), None);
}

#[test]
fn reserve_drop_does_not_leak() {
    let counter = Arc::new(AtomicUsize::new(0));
    let mut ring = RingBuffer::<DropCounter>::new(Capacity::exact(4));
    let (mut producer, _consumer) = ring.split();

    {
        let w = producer.reserve(&ring).unwrap();
        w.write(&mut ring, DropCounter::new(&counter)).drop(&mut ring);
        // drop without commit - value should be dropped
    }
    assert_eq!(
        counter.load(Ordering::Relaxed),
        1,
        "written value should be dropped on SlotWriter rollback"
    );
}

#[test]
fn pop_block_drains_before_close() {
    let mut ring = RingBuffer::<u32>::new(Capacity::exact(4));
    let (mut p, mut c) = ring.split();
    p.push(&mut ring, 1).unwrap();
    p.push(&mut ring, 2).unwrap();
    p.drop(&mut ring);
    assert_eq!(done(c.pop_block(&mut ring, false)), Some(1));
    assert_eq!(done(c.pop_block(&mut ring, false)), Some(2));
    assert_eq!(done(c.pop_block(&mut ring, false)), None);
}

#[test]
fn is_closed_reflects_producer_drop() {
    let mut ring = RingBuffer::<u32>::new(Capacity::exact(4));
    let (p, c) = ring.split();
    assert!(!c.is_closed(&ring));
    p.drop(&mut ring);
    assert!(c.is_closed(&ring));
}

#[test]
fn pop_ref_block_drains_before_close() {
    let mut ring = RingBuffer::<u32>::new(Capacity::exact(4));
    let (mut p, mut c) = ring.split();
    p.push(&mut ring, 1).unwrap();
    p.push(&mut ring, 2).unwrap();
    p.drop(&mut ring);
    // First two should yield SlotReaders; third returns None.
    let v1 = done(c.pop_ref_block(&mut ring, false)).unwrap().drop(&mut ring);
    let v2 = done(c.pop_ref_block(&mut ring, false)).unwrap().drop(&mut ring);
    assert_eq!(v1, 1);
    assert_eq!(v2, 2);
    assert!(done(c.pop_ref_block(&mut ring, false)).is_none());
}

#[test]
fn drain_empty_returns_zero() {
    let mut ring = RingBuffer::<u32>::new(Capacity::exact(4));
    let (_p, mut c) = ring.split();
    let n = c.drain(&mut ring, &mut Vec::new());
    assert_eq!(n, 0);
}

#[test]
fn drain_all_available() {
    let mut ring = RingBuffer::<u32>::new(Capacity::exact(4));
    let (mut p, mut c) = ring.split();
    for i in 0..4 {
        p.push(&mut ring, i).unwrap();
    }
    let mut got = Vec::new();
    let n = c.drain(&mut ring, &mut got);
    assert_eq!(n, 4);
    assert_eq!(got, vec![0, 1, 2, 3]);
    assert_eq!(c.pop(&mut ring), None);
}

#[test]
fn drain_up_to_limit() {
    let mut ring = RingBuffer::<u32>::new(Capacity::exact(4));
    let (mut p, mut c) = ring.split();
    for i in 0..4 {
        p.push(&mut ring, i).unwrap();
    }
    let mut got = Vec::new();
    let n = c.drain_up_to(&mut ring, 2, &mut got);
    assert_eq!(n, 2);
    assert_eq!(got, vec![0, 1]);
    // Remaining are still there.
    assert_eq!(c.pop(&mut ring), Some(2));
    assert_eq!(c.pop(&mut ring), Some(3));
}
