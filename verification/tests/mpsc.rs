use std::sync::atomic::{AtomicUsize, Ordering};
use std::sync::Arc;

use quetzalcoatl::capacity::Capacity;
use quetzalcoatl::common::park_registry::{ParkSlot, PARK_SLOTS};
use quetzalcoatl::common::step::{PopStep, PushPoll};
use quetzalcoatl::mpsc::RingBuffer;

/// Counts its destructions.
#[derive(Debug)]
struct DropCounter {
    counter: Arc<AtomicUsize>,
}

impl DropCounter {
    fn new(counter: &Arc<AtomicUsize>) -> Self {
        DropCounter {
            counter: Arc::clone(counter),
        }
    }
}

impl Drop for DropCounter {
    fn drop(&mut self) {
        self.counter.fetch_add(1, Ordering::Relaxed);
    }
}

fn done<V>(step: PopStep<V>) -> Option<V> {
    match step {
        PopStep::Done(val) => val,
        PopStep::Spin | PopStep::Park => panic!("the pop has to wait"),
    }
}

#[test]
fn mod_capacity_one() {
    let mut ring = RingBuffer::<u8>::new(Capacity::exact(1));
    let (mut producer, mut consumer) = ring.split();
    assert_eq!(producer.len(&ring), 0);
    producer.push(&mut ring, 1).unwrap();
    assert_eq!(producer.len(&ring), 1);
    assert_eq!(consumer.pop(&mut ring), Some(1));
    assert_eq!(consumer.len(&ring), 0);
}

#[test]
fn mod_zero_sized_types() {
    let mut ring = RingBuffer::<()>::new(Capacity::exact(4));
    let (mut producer, mut consumer) = ring.split();

    producer.push(&mut ring, ()).unwrap();
    assert_eq!(consumer.pop(&mut ring), Some(()));
    producer.push(&mut ring, ()).unwrap();
    assert_eq!(consumer.pop(&mut ring), Some(()));
}

#[test]
fn mod_pop_empty_is_idempotent() {
    let mut ring = RingBuffer::<u8>::new(Capacity::exact(1));
    let (mut producer, mut consumer) = ring.split();
    assert_eq!(consumer.pop(&mut ring), None);
    assert!(consumer.is_empty(&ring));
    assert_eq!(consumer.len(&ring), 0);
    assert_eq!(consumer.pop(&mut ring), None);
    assert!(consumer.is_empty(&ring));
    assert_eq!(consumer.len(&ring), 0);
    producer.push(&mut ring, 1).unwrap();
    assert_eq!(consumer.pop(&mut ring), Some(1));
    assert!(consumer.is_empty(&ring));
    assert_eq!(consumer.len(&ring), 0);
}

#[test]
fn mod_length_invariants() {
    let mut ring = RingBuffer::<u8>::new(Capacity::exact(2));
    let (mut producer, mut consumer) = ring.split();
    assert_eq!(producer.len(&ring), 0);
    producer.push(&mut ring, 1).unwrap();
    assert_eq!(producer.len(&ring), 1);
    producer.push(&mut ring, 2).unwrap();
    assert_eq!(producer.len(&ring), 2);
    assert_eq!(producer.push(&mut ring, 3), Err(3));
    assert_eq!(producer.len(&ring), 2);
    assert_eq!(consumer.pop(&mut ring), Some(1));
    assert_eq!(consumer.len(&ring), 1);
    assert_eq!(consumer.pop(&mut ring), Some(2));
    assert_eq!(consumer.len(&ring), 0);
}

#[test]
fn mod_overwrite_oldest_element() {
    let mut ring = RingBuffer::<u8>::new(Capacity::exact(4));
    let (mut producer, mut consumer) = ring.split();
    producer.push(&mut ring, 1).unwrap();
    producer.push(&mut ring, 2).unwrap();
    producer.push(&mut ring, 3).unwrap();
    producer.push(&mut ring, 4).unwrap();

    assert_eq!(producer.push(&mut ring, 5), Err(5));
    assert_eq!(consumer.pop(&mut ring), Some(1));
    producer.push(&mut ring, 5).unwrap();

    assert_eq!(consumer.pop(&mut ring), Some(2));
    assert_eq!(consumer.pop(&mut ring), Some(3));
    assert_eq!(consumer.pop(&mut ring), Some(4));
    assert_eq!(consumer.pop(&mut ring), Some(5));
    assert_eq!(consumer.pop(&mut ring), None);
}

#[test]
fn mod_wraparound_behavior() {
    let mut ring = RingBuffer::<u8>::new(Capacity::exact(4));
    let (mut producer, mut consumer) = ring.split();
    producer.push(&mut ring, 1).unwrap();
    producer.push(&mut ring, 2).unwrap();
    assert_eq!(consumer.pop(&mut ring), Some(1));
    producer.push(&mut ring, 3).unwrap();
    producer.push(&mut ring, 4).unwrap();
    producer.push(&mut ring, 5).unwrap(); // wraps here
    assert_eq!(consumer.pop(&mut ring), Some(2));
    assert_eq!(consumer.pop(&mut ring), Some(3));
    assert_eq!(consumer.pop(&mut ring), Some(4));
    assert_eq!(consumer.pop(&mut ring), Some(5));
    assert_eq!(consumer.pop(&mut ring), None);
}

#[test]
fn mod_fill_to_capacity() {
    let mut ring = RingBuffer::<u8>::new(Capacity::exact(16));
    let (mut producer, mut consumer) = ring.split();

    for i in 0..16 {
        producer.push(&mut ring, i).unwrap();
    }
    assert_eq!(producer.len(&ring), 16);
    assert!(!producer.is_empty(&ring));
    assert!(producer.is_full(&ring));

    for i in 0..16 {
        assert_eq!(consumer.pop(&mut ring), Some(i));
    }
    assert_eq!(consumer.len(&ring), 0);
    assert!(consumer.is_empty(&ring));
    assert!(!consumer.is_full(&ring));
}

#[test]
fn mod_pop_empty_buffer() {
    let mut ring = RingBuffer::<u8>::new(Capacity::exact(16));
    let (_producer, mut consumer) = ring.split();
    assert_eq!(consumer.pop(&mut ring), None);
    assert!(consumer.is_empty(&ring));
    assert_eq!(consumer.len(&ring), 0);
}

#[test]
fn mod_push_to_buffer() {
    let mut ring = RingBuffer::<u8>::new(Capacity::exact(16));
    let (mut producer, mut consumer) = ring.split();
    producer.push(&mut ring, 1).unwrap();
    producer.push(&mut ring, 2).unwrap();
    producer.push(&mut ring, 3).unwrap();
    assert_eq!(consumer.pop(&mut ring), Some(1));
    assert_eq!(consumer.pop(&mut ring), Some(2));
    assert_eq!(consumer.pop(&mut ring), Some(3));
    assert_eq!(consumer.pop(&mut ring), None);
}

#[test]
fn mod_drop_items_on_consumer_drop() {
    let counter = Arc::new(AtomicUsize::new(0));
    let mut ring = RingBuffer::new(Capacity::exact(4));
    let (mut producer, consumer) = ring.split();

    for _ in 0..4 {
        producer.push(&mut ring, DropCounter::new(&counter)).unwrap();
    }

    // Dropping consumer should drain and drop all 4 items
    consumer.drop(&mut ring);
    assert_eq!(counter.load(Ordering::Relaxed), 4);
}

#[test]
fn mod_drop_items_on_pop() {
    let counter = Arc::new(AtomicUsize::new(0));
    let mut ring = RingBuffer::new(Capacity::exact(4));
    let (mut producer, mut consumer) = ring.split();

    for _ in 0..3 {
        producer.push(&mut ring, DropCounter::new(&counter)).unwrap();
    }

    // Pop 2 - should drop when they go out of scope
    let a = consumer.pop(&mut ring).unwrap();
    let b = consumer.pop(&mut ring).unwrap();
    drop(a);
    drop(b);
    assert_eq!(counter.load(Ordering::Relaxed), 2);

    // Remaining 1 dropped when consumer is dropped
    consumer.drop(&mut ring);
    assert_eq!(counter.load(Ordering::Relaxed), 3);
}

#[test]
fn mod_wraparound_exercises_all_slots() {
    let mut ring = RingBuffer::<u32>::new(Capacity::exact(4));
    let (mut producer, mut consumer) = ring.split();

    // 3 full laps = 12 push/pops, covering slot indices 0-3 three times
    for lap in 0..3u32 {
        for i in 0..4 {
            producer.push(&mut ring, lap * 4 + i).unwrap();
        }
        for i in 0..4 {
            assert_eq!(consumer.pop(&mut ring), Some(lap * 4 + i));
        }
    }
    assert_eq!(consumer.pop(&mut ring), None);
}

#[test]
fn mod_reserve_write_commit_pop_ref_cycle() {
    let mut ring = RingBuffer::<u64>::new(Capacity::exact(4));
    let (mut producer, mut consumer) = ring.split();

    let writer = producer.reserve(&mut ring).unwrap();
    writer.write(&mut ring, 42).commit(&mut ring);

    let reader = consumer.pop_ref(&mut ring).unwrap();
    assert_eq!(*reader.deref(&ring), 42);
    reader.drop(&mut ring);

    assert_eq!(consumer.pop(&mut ring), None);
}

#[test]
fn mod_reserve_slot_mut_commit() {
    let mut ring = RingBuffer::<[u8; 64]>::new(Capacity::exact(4));
    let (mut producer, mut consumer) = ring.split();

    let writer = producer.reserve(&mut ring).unwrap();
    *writer.slot_mut(&mut ring) = Some([0xAB; 64]);
    writer.commit_unchecked(&mut ring);

    let reader = consumer.pop_ref(&mut ring).unwrap();
    assert_eq!(reader.deref(&ring)[0], 0xAB);
    assert_eq!(reader.deref(&ring)[63], 0xAB);
}

#[test]
fn mod_reserve_returns_none_when_full() {
    let mut ring = RingBuffer::<u64>::new(Capacity::exact(2));
    let (mut producer, _consumer) = ring.split();

    let w1 = producer.reserve(&mut ring).unwrap();
    w1.write(&mut ring, 1).commit(&mut ring);

    let w2 = producer.reserve(&mut ring).unwrap();
    w2.write(&mut ring, 2).commit(&mut ring);

    assert!(producer.reserve(&mut ring).is_none());
}

#[test]
fn mod_pop_ref_returns_none_when_empty() {
    let mut ring = RingBuffer::<u64>::new(Capacity::exact(4));
    let (_producer, mut consumer) = ring.split();
    assert!(consumer.pop_ref(&mut ring).is_none());
}

#[test]
fn mod_pop_ref_returns_none_when_not_ready() {
    let mut ring = RingBuffer::<u64>::new(Capacity::exact(4));
    let (mut producer, mut consumer) = ring.split();

    // Reserve but don't commit - slot is claimed but not ready
    let writer = producer.reserve(&mut ring).unwrap();
    assert!(consumer.pop_ref(&mut ring).is_none());

    // Now commit and it should be readable
    writer.write(&mut ring, 99).commit(&mut ring);
    let reader = consumer.pop_ref(&mut ring).unwrap();
    assert_eq!(*reader.deref(&ring), 99);
}

#[test]
fn mod_mixed_push_reserve_pop_pop_ref() {
    let mut ring = RingBuffer::<u64>::new(Capacity::exact(8));
    let (mut producer, mut consumer) = ring.split();

    // Mix of push and reserve
    producer.push(&mut ring, 1).unwrap();
    let w = producer.reserve(&mut ring).unwrap();
    w.write(&mut ring, 2).commit(&mut ring);
    producer.push(&mut ring, 3).unwrap();

    // Mix of pop and pop_ref
    assert_eq!(consumer.pop(&mut ring), Some(1));
    let r = consumer.pop_ref(&mut ring).unwrap();
    assert_eq!(*r.deref(&ring), 2);
    r.drop(&mut ring);
    assert_eq!(consumer.pop(&mut ring), Some(3));
    assert_eq!(consumer.pop(&mut ring), None);
}

#[test]
fn mod_slot_reader_drops_value() {
    let counter = Arc::new(AtomicUsize::new(0));
    let mut ring = RingBuffer::new(Capacity::exact(4));
    let (mut producer, mut consumer) = ring.split();

    producer.push(&mut ring, DropCounter::new(&counter)).unwrap();

    assert_eq!(counter.load(Ordering::Relaxed), 0);

    {
        let reader = consumer.pop_ref(&mut ring).unwrap();
        // Value is alive while reader exists
        assert_eq!(counter.load(Ordering::Relaxed), 0);
        reader.drop(&mut ring);
    }

    // Value should be dropped when SlotReader is dropped
    assert_eq!(counter.load(Ordering::Relaxed), 1);
}

#[test]
fn mod_reserve_pop_ref_wraparound() {
    let mut ring = RingBuffer::<u32>::new(Capacity::exact(4));
    let (mut producer, mut consumer) = ring.split();

    // 3 full laps via reserve/pop_ref
    for lap in 0..3u32 {
        for i in 0..4 {
            let w = producer.reserve(&mut ring).unwrap();
            w.write(&mut ring, lap * 4 + i).commit(&mut ring);
        }
        for i in 0..4 {
            let r = consumer.pop_ref(&mut ring).unwrap();
            assert_eq!(*r.deref(&ring), lap * 4 + i);
            r.drop(&mut ring);
        }
    }
    assert!(consumer.pop_ref(&mut ring).is_none());
}

#[test]
fn reserve_drop_without_commit_tombstones() {
    let mut ring = RingBuffer::<u32>::new(Capacity::exact(4));
    let (mut producer, mut consumer) = ring.split();

    // Push a value, then reserve-and-drop (tombstone), then push again
    producer.push(&mut ring, 1).unwrap();
    {
        let w = producer.reserve(&mut ring).unwrap();
        w.write(&mut ring, 2).drop(&mut ring);
        // drop without commit - should tombstone, not panic
    }
    producer.push(&mut ring, 3).unwrap();

    // Consumer should see 1, skip tombstone, see 3
    assert_eq!(consumer.pop(&mut ring), Some(1));
    assert_eq!(consumer.pop(&mut ring), Some(3));
    assert_eq!(consumer.pop(&mut ring), None);
}

#[test]
fn reserve_drop_without_write_tombstones() {
    let mut ring = RingBuffer::<u32>::new(Capacity::exact(4));
    let (mut producer, mut consumer) = ring.split();

    producer.push(&mut ring, 10).unwrap();
    {
        producer.reserve(&mut ring).unwrap().drop(&mut ring);
        // drop without write or commit
    }
    producer.push(&mut ring, 20).unwrap();

    assert_eq!(consumer.pop(&mut ring), Some(10));
    assert_eq!(consumer.pop(&mut ring), Some(20));
    assert_eq!(consumer.pop(&mut ring), None);
}

#[test]
fn mod_reserve_drop_does_not_leak() {
    let counter = Arc::new(AtomicUsize::new(0));
    let mut ring = RingBuffer::<DropCounter>::new(Capacity::exact(4));
    let (mut producer, _consumer) = ring.split();

    {
        let w = producer.reserve(&mut ring).unwrap();
        w.write(&mut ring, DropCounter::new(&counter)).drop(&mut ring);
        // drop without commit - value should be dropped
    }
    assert_eq!(
        counter.load(Ordering::Relaxed),
        1,
        "written value should be dropped on SlotWriter drop"
    );
}

#[test]
fn mod_drain_empty_returns_zero() {
    let mut ring = RingBuffer::<u64>::new(Capacity::exact(4));
    let (_producer, mut consumer) = ring.split();
    assert_eq!(consumer.drain(&mut ring, &mut Vec::new()), 0);
}

#[test]
fn mod_drain_all_available() {
    let mut ring = RingBuffer::<u64>::new(Capacity::exact(8));
    let (mut producer, mut consumer) = ring.split();

    for i in 0..5 {
        producer.push(&mut ring, i).unwrap();
    }

    let mut items = Vec::new();
    let count = consumer.drain(&mut ring, &mut items);
    assert_eq!(count, 5);
    assert_eq!(items, vec![0, 1, 2, 3, 4]);
    assert!(consumer.is_empty(&ring));
}

#[test]
fn drain_up_to_limits() {
    let mut ring = RingBuffer::<u64>::new(Capacity::exact(8));
    let (mut producer, mut consumer) = ring.split();

    for i in 0..5 {
        producer.push(&mut ring, i).unwrap();
    }

    let mut items = Vec::new();
    let count = consumer.drain_up_to(&mut ring, 3, &mut items);
    assert_eq!(count, 3);
    assert_eq!(items, vec![0, 1, 2]);

    // Remaining 2 items still available
    assert_eq!(consumer.pop(&mut ring), Some(3));
    assert_eq!(consumer.pop(&mut ring), Some(4));
    assert_eq!(consumer.pop(&mut ring), None);
}

#[test]
fn drain_drops_values() {
    let counter = Arc::new(AtomicUsize::new(0));
    let mut ring = RingBuffer::new(Capacity::exact(4));
    let (mut producer, mut consumer) = ring.split();

    for _ in 0..3 {
        producer.push(&mut ring, DropCounter::new(&counter)).unwrap();
    }

    let count = consumer.drain(&mut ring, &mut Vec::new());
    assert_eq!(count, 3);
    assert_eq!(counter.load(Ordering::Relaxed), 3);
}

#[test]
fn drain_skips_tombstones() {
    let mut ring = RingBuffer::<u32>::new(Capacity::exact(4));
    let (mut producer, mut consumer) = ring.split();

    producer.push(&mut ring, 1).unwrap();
    {
        producer.reserve(&mut ring).unwrap().drop(&mut ring);
        // dropped without commit -> tombstone
    }
    producer.push(&mut ring, 3).unwrap();

    let mut items = Vec::new();
    let count = consumer.drain(&mut ring, &mut items);
    assert_eq!(count, 2);
    assert_eq!(items, vec![1, 3]);
}

#[test]
fn tombstone_only_drain_releases_capacity() {
    let mut ring = RingBuffer::<u32>::new(Capacity::exact(2));
    let (mut producer, mut consumer) = ring.split();

    for _ in 0..2 {
        producer.reserve(&mut ring).expect("a slot is free").drop(&mut ring);
    }
    assert!(producer.is_full(&ring), "both positions are claimed");

    assert_eq!(consumer.drain(&mut ring, &mut Vec::new()), 0, "tombstones deliver no values");
    assert!(consumer.is_empty(&ring), "but their positions must be released");

    producer.push(&mut ring, 1).expect("the released capacity is reusable");
    producer.push(&mut ring, 2).expect("and so is the second position");
    let mut items = Vec::new();
    assert_eq!(consumer.drain(&mut ring, &mut items), 2);
    assert_eq!(items, vec![1, 2]);
}

#[test]
fn tombstone_only_drain_up_to_releases_capacity() {
    let mut ring = RingBuffer::<u32>::new(Capacity::exact(2));
    let (mut producer, mut consumer) = ring.split();

    for _ in 0..2 {
        producer.reserve(&mut ring).expect("a slot is free").drop(&mut ring);
    }

    assert_eq!(consumer.drain_up_to(&mut ring, 8, &mut Vec::new()), 0);
    assert!(consumer.is_empty(&ring), "positions released");
    producer.push(&mut ring, 7).expect("capacity came back");
    assert_eq!(consumer.pop(&mut ring), Some(7));
}

#[test]
fn drop_skips_tombstoned_slots() {
    let counter = Arc::new(AtomicUsize::new(0));
    {
        let mut ring = RingBuffer::<DropCounter>::new(Capacity::exact(4));
        let (mut producer, consumer) = ring.split();

        producer.push(&mut ring, DropCounter::new(&counter)).unwrap();

        // Reserve + drop without commit -> tombstone, no value
        {
            producer.reserve(&mut ring).unwrap().drop(&mut ring);
        }

        producer.push(&mut ring, DropCounter::new(&counter)).unwrap();

        // Reserve + write but no commit -> value dropped now,
        // slot tombstoned
        {
            let w = producer.reserve(&mut ring).unwrap();
            w.write(&mut ring, DropCounter::new(&counter)).drop(&mut ring);
        }
        assert_eq!(
            counter.load(Ordering::Relaxed),
            1,
            "WrittenSlot::Drop runs immediately"
        );
        consumer.drop(&mut ring);
        producer.drop(&mut ring);
    }
    // Consumer's Drop drains via pop, walking past the tombstones
    // and dropping 2 published values.
    assert_eq!(
        counter.load(Ordering::Relaxed),
        3,
        "1 in-flight + 2 published = 3 drops"
    );
}

#[test]
fn mod_pop_block_drains_before_close() {
    let mut ring = RingBuffer::<u32>::new(Capacity::exact(4));
    let (mut p, mut c) = ring.split();
    p.push(&mut ring, 1).unwrap();
    p.push(&mut ring, 2).unwrap();
    p.drop(&mut ring);
    let mut got = vec![
        done(c.pop_block(&mut ring, false)).unwrap(),
        done(c.pop_block(&mut ring, false)).unwrap(),
    ];
    got.sort_unstable();
    assert_eq!(got, vec![1, 2]);
    assert_eq!(done(c.pop_block(&mut ring, false)), None);
}

#[test]
fn mod_pop_ref_block_drains_before_close() {
    let mut ring = RingBuffer::<u32>::new(Capacity::exact(4));
    let (mut p, mut c) = ring.split();
    p.push(&mut ring, 1).unwrap();
    p.push(&mut ring, 2).unwrap();
    p.drop(&mut ring);
    let v1 = done(c.pop_ref_block(&mut ring, false)).unwrap().drop(&mut ring);
    let v2 = done(c.pop_ref_block(&mut ring, false)).unwrap().drop(&mut ring);
    let mut got = vec![v1, v2];
    got.sort_unstable();
    assert_eq!(got, vec![1, 2]);
    assert!(done(c.pop_ref_block(&mut ring, false)).is_none());
}

#[test]
fn cancelled_pushes_do_not_accumulate_registrations() {
    let mut ring = RingBuffer::<u64>::new(Capacity::exact(2));
    let (mut producer, mut consumer) = ring.split();
    // Every park slot is leased, so the last handle made has none.
    let mut handles = Vec::new();
    for _ in 1..PARK_SLOTS {
        handles.push(producer.clone(&mut ring));
    }
    let mut slotless = producer.clone(&mut ring);
    assert_eq!(slotless.park_slot(), ParkSlot::Slotless);
    producer.push(&mut ring, 1).unwrap();
    producer.push(&mut ring, 2).unwrap();

    for _ in 0..1_000 {
        assert!(
            matches!(slotless.push_async(&mut ring, 99), PushPoll::Pending(99)),
            "the ring must stay full"
        );
        slotless.cancel_async(&mut ring);
        assert!(matches!(producer.push_async(&mut ring, 99), PushPoll::Pending(99)));
        producer.cancel_async(&mut ring);
    }

    // What is left comes due with the next pop: nothing under a slot, and
    // one wake of those without.
    assert_eq!(consumer.pop(&mut ring), Some(1));
    for slot in 0..PARK_SLOTS {
        assert!(!ring.take_producer_waker(slot));
    }
    assert!(ring.take_producer_overflow_wakers());
    assert_eq!(consumer.pop(&mut ring), Some(2));
    assert!(!ring.take_producer_overflow_wakers());
}

#[test]
fn borrowed_split_push_pop() {
    let mut ring = RingBuffer::<u32>::new(Capacity::exact(4));
    let (mut producer, mut consumer) = ring.split_borrowed();

    producer.push(&mut ring, 1).unwrap();
    producer.push(&mut ring, 2).unwrap();
    assert_eq!(consumer.pop(&mut ring), Some(1));
    assert_eq!(consumer.pop(&mut ring), Some(2));
    assert_eq!(consumer.pop(&mut ring), None);
}

#[test]
fn borrowed_split_non_static_lifetime() {
    let wire_buf = [10u8, 20, 30, 40];
    let mut ring = RingBuffer::<&[u8]>::new(Capacity::exact(4));
    let (mut producer, mut consumer) = ring.split_borrowed();

    producer.push(&mut ring, &wire_buf[0..2]).unwrap();
    producer.push(&mut ring, &wire_buf[2..4]).unwrap();

    assert_eq!(consumer.pop(&mut ring).unwrap(), &[10, 20]);
    assert_eq!(consumer.pop(&mut ring).unwrap(), &[30, 40]);
}
