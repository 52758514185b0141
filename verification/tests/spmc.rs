use std::sync::atomic::{AtomicUsize, Ordering};
use std::sync::Arc;

use quetzalcoatl::capacity::Capacity;
use quetzalcoatl::common::step::{PopStep, PushStep};
use quetzalcoatl::spmc::RingBuffer;

/// Counts its destructions.
#[derive(Debug)]
struct DropCounter {
    counter: Arc<AtomicUsize>,
}

impl DropCounter {
    fn new(counter: &Arc<AtomicUsize>) -> Self {
        DropCounter {
            counter: Arc::clone(counter),
        }
    }
}

impl Drop for DropCounter {
    fn drop(&mut self) {
        self.counter.fetch_add(1, Ordering::Relaxed);
    }
}

/// Counts its destructions on a counter that it borrows.
#[derive(Debug)]
struct BorrowedDropCounter<'a> {
    counter: &'a AtomicUsize,
}

impl Drop for BorrowedDropCounter<'_> {
    fn drop(&mut self) {
        self.counter.fetch_add(1, Ordering::Relaxed);
    }
}

static DROPS: AtomicUsize = AtomicUsize::new(0);

/// A zero-sized value with a destructor.
#[derive(Debug)]
struct RealZst;

impl Drop for RealZst {
    fn drop(&mut self) {
        DROPS.fetch_add(1, Ordering::Relaxed);
    }
}

fn done<V>(step: PopStep<V>) -> Option<V> {
    match step {
        PopStep::Done(val) => val,
        PopStep::Spin | PopStep::Park => panic!("the pop has to wait"),
    }
}

#[test]
fn spmc_capacity_one() {
    let mut ring = RingBuffer::<u8>::new(Capacity::exact(1));
    let (mut producer, mut consumer) = ring.split();
    assert_eq!(producer.len(&ring), 0);
    producer.push(&mut ring, 1).unwrap();
    assert_eq!(producer.len(&ring), 1);
    assert_eq!(consumer.pop(&mut ring), Some(1));
    assert_eq!(consumer.len(&ring), 0);
}

#[test]
fn spmc_zero_sized_types() {
    let mut ring = RingBuffer::<()>::new(Capacity::exact(4));
    let (mut producer, mut consumer) = ring.split();

    producer.push(&mut ring, ()).unwrap();
    assert_eq!(consumer.pop(&mut ring), Some(()));
    producer.push(&mut ring, ()).unwrap();
    assert_eq!(consumer.pop(&mut ring), Some(()));
}

#[test]
fn spmc_pop_empty_is_idempotent() {
    let mut ring = RingBuffer::<u8>::new(Capacity::exact(1));
    let (mut producer, mut consumer) = ring.split();
    assert_eq!(consumer.pop(&mut ring), None);
    assert!(consumer.is_empty(&ring));
    assert_eq!(consumer.len(&ring), 0);
    assert_eq!(consumer.pop(&mut ring), None);
    assert!(consumer.is_empty(&ring));
    assert_eq!(consumer.len(&ring), 0);
    producer.push(&mut ring, 1).unwrap();
    assert_eq!(consumer.pop(&mut ring), Some(1));
    assert!(consumer.is_empty(&ring));
    assert_eq!(consumer.len(&ring), 0);
}

#[test]
fn spmc_length_invariants() {
    let mut ring = RingBuffer::<u8>::new(Capacity::exact(2));
    let (mut producer, mut consumer) = ring.split();
    assert_eq!(producer.len(&ring), 0);
    producer.push(&mut ring, 1).unwrap();
    assert_eq!(producer.len(&ring), 1);
    producer.push(&mut ring, 2).unwrap();
    assert_eq!(producer.len(&ring), 2);
    assert_eq!(producer.push(&mut ring, 3), Err(3));
    assert_eq!(producer.len(&ring), 2);
    // After pop, len() may underestimate by up to BATCH_SIZE per
    // consumer because consumers reserve positions in batches via
    // the head cursor. We only check that len() is bounded by the
    // count of remaining items.
    assert_eq!(consumer.pop(&mut ring), Some(1));
    assert!(consumer.len(&ring) <= 1);
    assert_eq!(consumer.pop(&mut ring), Some(2));
    assert_eq!(consumer.len(&ring), 0);
}

#[test]
fn spmc_overwrite_oldest_element() {
    let mut ring = RingBuffer::<u8>::new(Capacity::exact(4));
    let (mut producer, mut consumer) = ring.split();
    producer.push(&mut ring, 1).unwrap();
    producer.push(&mut ring, 2).unwrap();
    producer.push(&mut ring, 3).unwrap();
    producer.push(&mut ring, 4).unwrap();

    assert_eq!(producer.push(&mut ring, 5), Err(5));
    assert_eq!(consumer.pop(&mut ring), Some(1));
    producer.push(&mut ring, 5).unwrap();

    assert_eq!(consumer.pop(&mut ring), Some(2));
    assert_eq!(consumer.pop(&mut ring), Some(3));
    assert_eq!(consumer.pop(&mut ring), Some(4));
    assert_eq!(consumer.pop(&mut ring), Some(5));
    assert_eq!(consumer.pop(&mut ring), None);
}

#[test]
fn spmc_wraparound_behavior() {
    let mut ring = RingBuffer::<u8>::new(Capacity::exact(4));
    let (mut producer, mut consumer) = ring.split();
    producer.push(&mut ring, 1).unwrap();
    producer.push(&mut ring, 2).unwrap();
    assert_eq!(consumer.pop(&mut ring), Some(1));
    producer.push(&mut ring, 3).unwrap();
    producer.push(&mut ring, 4).unwrap();
    producer.push(&mut ring, 5).unwrap(); // wraps here
    assert_eq!(consumer.pop(&mut ring), Some(2));
    assert_eq!(consumer.pop(&mut ring), Some(3));
    assert_eq!(consumer.pop(&mut ring), Some(4));
    assert_eq!(consumer.pop(&mut ring), Some(5));
    assert_eq!(consumer.pop(&mut ring), None);
}

#[test]
fn spmc_fill_to_capacity() {
    let mut ring = RingBuffer::<u8>::new(Capacity::exact(16));
    let (mut producer, mut consumer) = ring.split();

    for i in 0..16 {
        producer.push(&mut ring, i).unwrap();
    }
    assert_eq!(producer.len(&ring), 16);
    assert!(!producer.is_empty(&ring));
    assert!(producer.is_full(&ring));

    for i in 0..16 {
        assert_eq!(consumer.pop(&mut ring), Some(i));
    }
    assert_eq!(consumer.len(&ring), 0);
    assert!(consumer.is_empty(&ring));
    assert!(!consumer.is_full(&ring));
}

#[test]
fn spmc_drop_items_on_consumer_drop() {
    let counter = Arc::new(AtomicUsize::new(0));
    {
        let mut ring = RingBuffer::new(Capacity::exact(4));
        let (mut producer, consumer) = ring.split();

        for _ in 0..4 {
            producer.push(&mut ring, DropCounter::new(&counter)).unwrap();
        }

        // A consumer takes only its own batch with it.
        drop(consumer.drop(&mut ring));
        assert_eq!(counter.load(Ordering::Relaxed), 0);

        producer.drop(&mut ring);
        assert_eq!(ring.drop().len(), 4);
    }
    assert_eq!(counter.load(Ordering::Relaxed), 4);
}

#[test]
fn spmc_drop_items_on_pop() {
    let counter = Arc::new(AtomicUsize::new(0));
    {
        let mut ring = RingBuffer::new(Capacity::exact(4));
        let (mut producer, mut consumer) = ring.split();

        for _ in 0..3 {
            producer.push(&mut ring, DropCounter::new(&counter)).unwrap();
        }

        // Pop 2 - should drop when they go out of scope
        let a = consumer.pop(&mut ring).unwrap();
        let b = consumer.pop(&mut ring).unwrap();
        drop(a);
        drop(b);
        assert_eq!(counter.load(Ordering::Relaxed), 2);

        // The last one goes with the consumer's batch.
        drop(consumer.drop(&mut ring));
        producer.drop(&mut ring);
        drop(ring.drop());
    }
    assert_eq!(counter.load(Ordering::Relaxed), 3);
}

#[test]
fn spmc_wraparound_exercises_all_slots() {
    let mut ring = RingBuffer::<u32>::new(Capacity::exact(4));
    let (mut producer, mut consumer) = ring.split();

    // 3 full laps = 12 push/pops, covering slot indices 0-3 three times
    for lap in 0..3u32 {
        for i in 0..4 {
            producer.push(&mut ring, lap * 4 + i).unwrap();
        }
        for i in 0..4 {
            assert_eq!(consumer.pop(&mut ring), Some(lap * 4 + i));
        }
    }
    assert_eq!(consumer.pop(&mut ring), None);
}

#[test]
fn forgotten_writer_does_not_publish_uninitialized_slot() {
    let mut ring = RingBuffer::<u32>::new(Capacity::exact(4));
    let (mut producer, mut consumer) = ring.split();

    std::mem::forget(producer.reserve(&ring).unwrap());

    producer.push(&mut ring, 7).unwrap();

    assert_eq!(
        consumer.pop(&mut ring),
        Some(7),
        "the forgotten slot must be reused, not published uninitialized"
    );
    assert_eq!(consumer.pop(&mut ring), None, "no phantom item may become visible");
}

#[test]
fn forgotten_written_slot_leaks_without_publishing() {
    let counter = AtomicUsize::new(0);
    let mut ring = RingBuffer::<BorrowedDropCounter<'_>>::new(Capacity::exact(4));
    let (mut producer, mut consumer) = ring.split_borrowed();

    let writer = producer.reserve(&ring).unwrap();
    std::mem::forget(writer.write(&mut ring, BorrowedDropCounter { counter: &counter }));

    assert!(
        consumer.pop(&mut ring).is_none(),
        "an uncommitted value must not be visible"
    );
    assert_eq!(
        counter.load(Ordering::Relaxed),
        0,
        "a forgotten guard runs no destructor - the value leaks in place"
    );

    producer.push(&mut ring, BorrowedDropCounter { counter: &counter }).unwrap();
    assert!(consumer.pop(&mut ring).is_some(), "the slot must be reusable");
    assert_eq!(
        counter.load(Ordering::Relaxed),
        1,
        "only the popped value is dropped; the leaked one is never freed"
    );
}

#[test]
fn forgotten_writer_does_not_consume_capacity() {
    let mut ring = RingBuffer::<u32>::new(Capacity::exact(4));
    let (mut producer, mut consumer) = ring.split();

    std::mem::forget(producer.reserve(&ring).unwrap());

    for i in 0..4 {
        producer.push(&mut ring, i).unwrap();
    }
    assert!(producer.push(&mut ring, 99).is_err(), "ring should now be full");

    let mut got = vec![];
    while let Some(v) = consumer.pop(&mut ring) {
        got.push(v);
    }
    assert_eq!(got, vec![0, 1, 2, 3]);
}

#[test]
fn spmc_reserve_write_commit_pop_ref_cycle() {
    let mut ring = RingBuffer::<u64>::new(Capacity::exact(4));
    let (mut producer, mut consumer) = ring.split();

    let writer = producer.reserve(&ring).unwrap();
    writer.write(&mut ring, 42).commit(&mut ring, &mut producer);

    let reader = consumer.pop_ref(&mut ring).unwrap();
    assert_eq!(*reader.deref(&ring), 42);
    reader.drop(&mut ring);

    assert_eq!(consumer.pop(&mut ring), None);
}

#[test]
fn spmc_reserve_slot_mut_commit() {
    let mut ring = RingBuffer::<[u8; 64]>::new(Capacity::exact(4));
    let (mut producer, mut consumer) = ring.split();

    let writer = producer.reserve(&ring).unwrap();
    *writer.slot_mut(&mut ring) = Some([0xAB; 64]);
    writer.commit_unchecked(&mut ring, &mut producer);

    let reader = consumer.pop_ref(&mut ring).unwrap();
    assert_eq!(reader.deref(&ring)[0], 0xAB);
    assert_eq!(reader.deref(&ring)[63], 0xAB);
}

#[test]
fn spmc_reserve_returns_none_when_full() {
    let mut ring = RingBuffer::<u64>::new(Capacity::exact(2));
    let (mut producer, _consumer) = ring.split();

    let w1 = producer.reserve(&ring).unwrap();
    w1.write(&mut ring, 1).commit(&mut ring, &mut producer);

    let w2 = producer.reserve(&ring).unwrap();
    w2.write(&mut ring, 2).commit(&mut ring, &mut producer);

    assert!(producer.reserve(&ring).is_none());
}

#[test]
fn spmc_pop_ref_returns_none_when_empty() {
    let mut ring = RingBuffer::<u64>::new(Capacity::exact(4));
    let (_producer, mut consumer) = ring.split();
    assert!(consumer.pop_ref(&mut ring).is_none());
}

#[test]
fn spmc_mixed_push_reserve_pop_pop_ref() {
    let mut ring = RingBuffer::<u64>::new(Capacity::exact(8));
    let (mut producer, mut consumer) = ring.split();

    // Mix of push and reserve
    producer.push(&mut ring, 1).unwrap();
    let w = producer.reserve(&ring).unwrap();
    w.write(&mut ring, 2).commit(&mut ring, &mut producer);
    producer.push(&mut ring, 3).unwrap();

    // Mix of pop and pop_ref
    assert_eq!(consumer.pop(&mut ring), Some(1));
    let r = consumer.pop_ref(&mut ring).unwrap();
    assert_eq!(*r.deref(&ring), 2);
    r.drop(&mut ring);
    assert_eq!(consumer.pop(&mut ring), Some(3));
    assert_eq!(consumer.pop(&mut ring), None);
}

#[test]
fn spmc_slot_reader_drops_value() {
    let counter = Arc::new(AtomicUsize::new(0));
    let mut ring = RingBuffer::new(Capacity::exact(4));
    let (mut producer, mut consumer) = ring.split();

    producer.push(&mut ring, DropCounter::new(&counter)).unwrap();

    assert_eq!(counter.load(Ordering::Relaxed), 0);

    {
        let reader = consumer.pop_ref(&mut ring).unwrap();
        // Value is alive while reader exists
        assert_eq!(counter.load(Ordering::Relaxed), 0);
        reader.drop(&mut ring);
    }

    // Value should be dropped when SlotReader is dropped
    assert_eq!(counter.load(Ordering::Relaxed), 1);
}

#[test]
fn spmc_reserve_pop_ref_wraparound() {
    let mut ring = RingBuffer::<u32>::new(Capacity::exact(4));
    let (mut producer, mut consumer) = ring.split();

    // 3 full laps via reserve/pop_ref
    for lap in 0..3u32 {
        for i in 0..4 {
            let w = producer.reserve(&ring).unwrap();
            w.write(&mut ring, lap * 4 + i).commit(&mut ring, &mut producer);
        }
        for i in 0..4 {
            let r = consumer.pop_ref(&mut ring).unwrap();
            assert_eq!(*r.deref(&ring), lap * 4 + i);
            r.drop(&mut ring);
        }
    }
    assert!(consumer.pop_ref(&mut ring).is_none());
}

#[test]
fn producer_drop_marks_closed_after_drain() {
    let mut ring = RingBuffer::<u32>::new(Capacity::exact(4));
    let (mut producer, mut consumer) = ring.split();

    for i in 0..3 {
        producer.push(&mut ring, i).unwrap();
    }
    producer.drop(&mut ring);

    assert!(consumer.is_closed(&ring));

    let mut got = Vec::new();
    while let Some(v) = consumer.pop(&mut ring) {
        got.push(v);
    }
    assert_eq!(got, vec![0, 1, 2]);
    assert!(consumer.is_closed(&ring));
    assert_eq!(consumer.pop(&mut ring), None);
}

#[test]
fn consumer_drop_mid_batch_releases_done() {
    let counter = Arc::new(AtomicUsize::new(0));
    let cap = 4;
    let mut ring = RingBuffer::new(Capacity::exact(cap));
    let (mut producer, mut consumer) = ring.split();

    // Fill the buffer.
    for _ in 0..cap {
        producer.push(&mut ring, DropCounter::new(&counter)).unwrap();
    }

    // Pop one item, claiming a batch of size cap. The consumer's
    // private cursor now sits mid-batch; positions [1, cap) are
    // claimed-but-unread.
    let v = consumer.pop(&mut ring).unwrap();
    drop(v);
    assert_eq!(
        counter.load(Ordering::Relaxed),
        1,
        "the popped item should be dropped"
    );

    // Drop the consumer mid-batch: must drop the unread items AND
    // release each `done[s] = pos + cap` so the producer can reuse.
    drop(consumer.drop(&mut ring));
    assert_eq!(
        counter.load(Ordering::Relaxed),
        cap,
        "all unread items in the batch must be dropped"
    );

    // Producer can now push `cap` more items into the released slots.
    for _ in 0..cap {
        producer.push(&mut ring, DropCounter::new(&counter)).unwrap();
    }

    // The new items go down with the ring.
    producer.drop(&mut ring);
    drop(ring.drop());
    assert_eq!(
        counter.load(Ordering::Relaxed),
        cap * 2,
        "all items ever pushed should be dropped exactly once"
    );
}

#[test]
fn zst_with_drop_glue() {
    assert_eq!(std::mem::size_of::<RealZst>(), 0);

    DROPS.store(0, Ordering::Relaxed);
    {
        let mut ring = RingBuffer::<RealZst>::new(Capacity::exact(4));
        let (mut producer, mut consumer) = ring.split();
        for _ in 0..4 {
            producer.push(&mut ring, RealZst).unwrap();
        }
        drop(consumer.pop(&mut ring).unwrap());
        drop(consumer.pop(&mut ring).unwrap());
        assert_eq!(DROPS.load(Ordering::Relaxed), 2);
        drop(consumer.drop(&mut ring));
        producer.drop(&mut ring);
        drop(ring.drop());
    }
    assert_eq!(DROPS.load(Ordering::Relaxed), 4);
}

#[test]
fn spmc_pop_block_drains_before_close() {
    let mut ring = RingBuffer::<u32>::new(Capacity::exact(4));
    let (mut p, mut c) = ring.split();
    p.push(&mut ring, 1).unwrap();
    p.push(&mut ring, 2).unwrap();
    p.drop(&mut ring);
    assert_eq!(done(c.pop_block(&mut ring, false)), Some(1));
    assert_eq!(done(c.pop_block(&mut ring, false)), Some(2));
    assert_eq!(done(c.pop_block(&mut ring, false)), None);
}

#[test]
fn spmc_pop_ref_block_drains_before_close() {
    let mut ring = RingBuffer::<u32>::new(Capacity::exact(4));
    let (mut p, mut c) = ring.split();
    p.push(&mut ring, 1).unwrap();
    p.push(&mut ring, 2).unwrap();
    p.drop(&mut ring);
    let v1 = done(c.pop_ref_block(&mut ring, false)).unwrap().drop(&mut ring);
    let v2 = done(c.pop_ref_block(&mut ring, false)).unwrap().drop(&mut ring);
    assert_eq!(v1, 1);
    assert_eq!(v2, 2);
    assert!(done(c.pop_ref_block(&mut ring, false)).is_none());
}

#[test]
fn spmc_drain_empty_returns_zero() {
    let mut ring = RingBuffer::<u32>::new(Capacity::exact(4));
    let (_p, mut c) = ring.split();
    assert_eq!(c.drain(&mut ring, &mut Vec::new()), 0);
}

#[test]
fn drain_collects_all_items() {
    let mut ring = RingBuffer::<u32>::new(Capacity::exact(8));
    let (mut p, mut c) = ring.split();
    for i in 0..5u32 {
        p.push(&mut ring, i).unwrap();
    }
    let mut out = Vec::new();
    let count = c.drain(&mut ring, &mut out);
    assert_eq!(count, 5);
    assert_eq!(out, [0, 1, 2, 3, 4]);
}

#[test]
fn drain_up_to_respects_limit() {
    let mut ring = RingBuffer::<u32>::new(Capacity::exact(8));
    let (mut p, mut c) = ring.split();
    for i in 0..5u32 {
        p.push(&mut ring, i).unwrap();
    }
    let mut out = Vec::new();
    let count = c.drain_up_to(&mut ring, 3, &mut out);
    assert_eq!(count, 3);
    assert_eq!(out, [0, 1, 2]);
    // Remaining items still poppable.
    assert_eq!(c.pop(&mut ring), Some(3));
    assert_eq!(c.pop(&mut ring), Some(4));
}

#[test]
fn drain_frees_slots_for_producer() {
    let mut ring = RingBuffer::<u32>::new(Capacity::exact(4));
    let (mut p, mut c) = ring.split();
    for i in 0..4u32 {
        p.push(&mut ring, i).unwrap();
    }
    // Buffer full - producer can't push.
    assert!(p.push(&mut ring, 99).is_err());
    c.drain(&mut ring, &mut Vec::new());
    // Slots freed - producer can push again.
    p.push(&mut ring, 99).unwrap();
    assert_eq!(c.pop(&mut ring), Some(99));
}

#[test]
fn mod_borrowed_split_push_pop() {
    let mut ring = RingBuffer::<u32>::new(Capacity::exact(4));
    let (mut producer, mut consumer) = ring.split_borrowed();

    producer.push(&mut ring, 1).unwrap();
    producer.push(&mut ring, 2).unwrap();
    assert_eq!(consumer.pop(&mut ring), Some(1));
    assert_eq!(consumer.pop(&mut ring), Some(2));
    assert_eq!(consumer.pop(&mut ring), None);
}

#[test]
fn mod_borrowed_split_non_static_lifetime() {
    let wire_buf = [10u8, 20, 30, 40];
    let mut ring = RingBuffer::<&[u8]>::new(Capacity::exact(4));
    let (mut producer, mut consumer) = ring.split_borrowed();

    producer.push(&mut ring, &wire_buf[0..2]).unwrap();
    producer.push(&mut ring, &wire_buf[2..4]).unwrap();

    assert_eq!(consumer.pop(&mut ring).unwrap(), &[10, 20]);
    assert_eq!(consumer.pop(&mut ring).unwrap(), &[30, 40]);
}

#[test]
fn borrowed_split_last_consumer_drop_closes_the_ring() {
    let mut ring = RingBuffer::<u32>::new(Capacity::exact(2));
    let (mut producer, consumer) = ring.split_borrowed();

    producer.push(&mut ring, 1).unwrap();
    producer.push(&mut ring, 2).unwrap();
    assert!(producer.is_full(&ring));
    consumer.drop(&mut ring);

    assert!(
        matches!(producer.push_block(&mut ring, 3, false), PushStep::Done(Err(3))),
        "a full ring with no consumers must not block the producer"
    );
}

#[test]
fn borrowed_consumers_close_the_ring_on_the_last_drop() {
    let mut ring = RingBuffer::<u32>::new(Capacity::exact(2));
    let (mut producer, c1) = ring.split_borrowed();
    let mut c2 = c1.new_consumer(&mut ring);

    producer.push(&mut ring, 1).unwrap();
    producer.push(&mut ring, 2).unwrap();
    c1.drop(&mut ring);
    assert!(!c2.is_closed(&ring), "one consumer still holds the ring open");

    assert_eq!(c2.pop(&mut ring), Some(1));
    c2.drop(&mut ring);
    assert!(matches!(producer.push_block(&mut ring, 3, false), PushStep::Done(Err(3))));
}
