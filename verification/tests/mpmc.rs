use std::sync::atomic::{AtomicUsize, Ordering};
use std::sync::Arc;

use quetzalcoatl::capacity::Capacity;
use quetzalcoatl::common::step::PopStep;
use quetzalcoatl::mpmc::{Cfg, RingBuffer};

/// Counts its destructions.
#[derive(Debug)]
struct DropCounter {
    counter: Arc<AtomicUsize>,
}

impl DropCounter {
    fn new(counter: &Arc<AtomicUsize>) -> Self {
        DropCounter {
            counter: Arc::clone(counter),
        }
    }
}

impl Drop for DropCounter {
    fn drop(&mut self) {
        self.counter.fetch_add(1, Ordering::Relaxed);
    }
}

fn done<V>(step: PopStep<V>) -> Option<V> {
    match step {
        PopStep::Done(val) => val,
        PopStep::Spin | PopStep::Park => panic!("the pop has to wait"),
    }
}

#[test]
fn a_producer_holding_a_partial_batch_is_pinned_to_its_own_position() {
    let mut ring = RingBuffer::<u64, Cfg<2, 128, 1>>::new(Capacity::exact(4));
    let (mut producer, consumer) = ring.split();
    let mut filler = producer.clone(&mut ring);
    // The clone starts at slot 1 (the stagger is capacity/8, at least
    // one), so claim order is deterministic.
    let mut drainer = consumer.clone(&mut ring);
    let mut holder = consumer;

    producer.push(&mut ring, 0).unwrap();
    producer.push(&mut ring, 1).unwrap();
    filler.push(&mut ring, 2).unwrap();
    filler.push(&mut ring, 3).unwrap();

    // Slot 0 stays unreleased for as long as this lives.
    let held = holder.pop_ref(&mut ring).unwrap();
    assert_eq!(*held.deref(&ring), 0);

    assert_eq!(drainer.pop(&mut ring), Some(1));
    assert_eq!(drainer.pop(&mut ring), Some(2));

    // Two slots free, so the next batch is positions 4 and 5.
    // Position 4 is slot 0 (still held); position 5 is slot 1.
    // The producer publishes into 5 and keeps 4 reserved.
    producer.push(&mut ring, 99).unwrap();
    assert!(
        producer.push(&mut ring, 100).is_err(),
        "the batch's remaining position is slot 0, which is still held"
    );

    // Free every other slot in the ring.
    let mut freed = vec![drainer.pop(&mut ring), drainer.pop(&mut ring)];
    freed.sort_unstable();
    assert_eq!(freed, vec![Some(3), Some(99)]);

    assert!(
        producer.push(&mut ring, 100).is_err(),
        "three of four slots are now free, and none of them is the \
         position this producer reserved: a wake delivered here buys \
         nothing"
    );

    held.drop(&mut ring);
    assert!(
        producer.push(&mut ring, 100).is_ok(),
        "only the producer's own position releases it"
    );
}

#[test]
fn basic_push_pop() {
    let mut ring = RingBuffer::<u32>::new(Capacity::exact(4));
    let (mut p, mut c) = ring.split();
    p.push(&mut ring, 1).unwrap();
    p.push(&mut ring, 2).unwrap();
    let mut got = vec![c.pop(&mut ring).unwrap(), c.pop(&mut ring).unwrap()];
    got.sort_unstable();
    assert_eq!(got, vec![1, 2]);
    assert_eq!(c.pop(&mut ring), None);
}

#[test]
fn fill_and_drain() {
    let mut ring = RingBuffer::<u32>::new(Capacity::exact(8));
    let (mut p, mut c) = ring.split();
    for i in 0..8 {
        p.push(&mut ring, i).unwrap();
    }
    assert!(p.push(&mut ring, 99).is_err());
    let mut got: Vec<u32> = (0..8).map(|_| c.pop(&mut ring).unwrap()).collect();
    got.sort_unstable();
    assert_eq!(got, (0..8).collect::<Vec<_>>());
    assert_eq!(c.pop(&mut ring), None);
}

#[test]
fn wraparound() {
    let mut ring = RingBuffer::<u32>::new(Capacity::exact(4));
    let (mut p, mut c) = ring.split();
    for lap in 0..3u32 {
        for i in 0..4 {
            p.push(&mut ring, lap * 4 + i).unwrap();
        }
        let mut got: Vec<u32> = (0..4).map(|_| c.pop(&mut ring).unwrap()).collect();
        got.sort_unstable();
        assert_eq!(got, (lap * 4..lap * 4 + 4).collect::<Vec<_>>());
    }
    assert_eq!(c.pop(&mut ring), None);
}

#[test]
fn empty_returns_none() {
    let mut ring = RingBuffer::<u32>::new(Capacity::exact(4));
    let (_p, mut c) = ring.split();
    assert_eq!(c.pop(&mut ring), None);
}

#[test]
fn mpmc_pop_block_drains_before_close() {
    // Items pushed before the producer drops must still be
    // returned, even when the producer drops between push
    // and pop_block.
    let mut ring = RingBuffer::<u32>::new(Capacity::exact(4));
    let (mut p, mut c) = ring.split();
    p.push(&mut ring, 1).unwrap();
    p.push(&mut ring, 2).unwrap();
    p.drop(&mut ring).unwrap();
    let mut watch = ring.watch_backstop_consumer();
    let mut got = vec![
        done(c.pop_block(&mut ring, &mut watch, false)).unwrap(),
        done(c.pop_block(&mut ring, &mut watch, false)).unwrap(),
    ];
    got.sort_unstable();
    assert_eq!(got, vec![1, 2]);
    assert_eq!(done(c.pop_block(&mut ring, &mut watch, false)), None);
}

#[test]
fn drop_left_in_buffer() {
    let counter = Arc::new(AtomicUsize::new(0));
    {
        let mut ring = RingBuffer::<DropCounter>::new(Capacity::exact(4));
        let (mut p, c) = ring.split();
        for _ in 0..4 {
            p.push(&mut ring, DropCounter::new(&counter)).unwrap();
        }
        c.drop(&mut ring);
        p.drop(&mut ring).unwrap();
        assert_eq!(ring.drop().len(), 4);
    }
    assert_eq!(counter.load(Ordering::Relaxed), 4);
}

#[test]
fn drop_after_partial_drain() {
    let counter = Arc::new(AtomicUsize::new(0));
    {
        let mut ring = RingBuffer::<DropCounter>::new(Capacity::exact(4));
        let (mut p, mut c) = ring.split();
        for _ in 0..4 {
            p.push(&mut ring, DropCounter::new(&counter)).unwrap();
        }
        drop(c.pop(&mut ring).unwrap());
        drop(c.pop(&mut ring).unwrap());
        assert_eq!(counter.load(Ordering::Relaxed), 2);
        c.drop(&mut ring);
        p.drop(&mut ring).unwrap();
        assert_eq!(ring.drop().len(), 2);
    }
    assert_eq!(counter.load(Ordering::Relaxed), 4);
}

#[test]
fn many_wraps_single_threaded() {
    let mut ring = RingBuffer::<u32>::new(Capacity::exact(8));
    let (mut p, mut c) = ring.split();
    for batch in 0..8 {
        let base = batch * 4;
        for i in 0..4 {
            p.push(&mut ring, base + i).unwrap();
        }
        for i in 0..4 {
            let v = c.pop(&mut ring).unwrap();
            assert_eq!(v, base + i, "batch {batch} item {i}");
        }
    }
}

#[test]
fn reserve_write_commit_cycle() {
    let mut ring = RingBuffer::<u64>::new(Capacity::exact(4));
    let (mut p, mut c) = ring.split();
    let w = p.reserve(&mut ring).unwrap();
    w.write(&mut ring, 42).commit(&mut ring);
    assert_eq!(c.pop(&mut ring), Some(42));
    assert_eq!(c.pop(&mut ring), None);
}

#[test]
fn reserve_slot_mut_commit_unchecked() {
    let mut ring = RingBuffer::<[u8; 32]>::new(Capacity::exact(4));
    let (mut p, mut c) = ring.split();
    let w = p.reserve(&mut ring).unwrap();
    *w.slot_mut(&mut ring) = Some([0xAB; 32]);
    w.commit_unchecked(&mut ring);
    let v = c.pop(&mut ring).unwrap();
    assert_eq!(v[0], 0xAB);
    assert_eq!(v[31], 0xAB);
}

#[test]
fn pop_ref_zero_copy_read() {
    let mut ring = RingBuffer::<u64>::new(Capacity::exact(4));
    let (mut p, mut c) = ring.split();
    p.reserve(&mut ring).unwrap().write(&mut ring, 99).commit(&mut ring);
    let r = c.pop_ref(&mut ring).unwrap();
    assert_eq!(*r.deref(&ring), 99);
    r.drop(&mut ring);
    assert!(c.pop_ref(&mut ring).is_none());
}

#[test]
fn reserve_drop_without_commit_restores_bit() {
    // Capacity 4, batch size = 32 (DefaultConfig::PRODUCER_BATCH).
    // The first reserve claims a batch starting at pos 0, takes
    // bit 0. Dropping rolls back the bit; a subsequent reserve
    // from the same handle should reuse pos 0 (and write succeeds).
    let mut ring = RingBuffer::<u32>::new(Capacity::exact(4));
    let (mut p, mut c) = ring.split();
    {
        let w = p.reserve(&mut ring).unwrap();
        w.drop(&ring, &mut p);
        // _w dropped here without commit - bit must be restored.
    }
    // The next reserve reuses the same batch position.
    p.reserve(&mut ring).unwrap().write(&mut ring, 7).commit(&mut ring);
    assert_eq!(c.pop(&mut ring), Some(7));
}

#[test]
fn mpmc_reserve_drop_does_not_leak() {
    let counter = Arc::new(AtomicUsize::new(0));
    {
        let mut ring = RingBuffer::<DropCounter>::new(Capacity::exact(4));
        let (mut p, _c) = ring.split();
        let w = p.reserve(&mut ring).unwrap();
        w.write(&mut ring, DropCounter::new(&counter)).drop(&mut ring, &mut p);
        // WrittenSlot dropped without commit -> must drop the value.
    }
    assert_eq!(counter.load(Ordering::Relaxed), 1);
}

#[test]
fn reserve_uncommitted_then_producer_drop_tombstones() {
    // SlotWriter dropped without commit leaves the bit in
    // batch_unused. Producer::drop must tombstone it so the
    // ring is left in a consistent state (not leaking a slot).
    let mut ring = RingBuffer::<u32>::new(Capacity::exact(4));
    let (mut p, mut c) = ring.split();
    {
        let w = p.reserve(&mut ring).unwrap();
        w.drop(&ring, &mut p);
        // SlotWriter dropped without commit; bit restored.
    }
    // Drop the producer - its drop tombstones the unused bits,
    // including the one we restored. Consumer should see closed
    // and observe an empty queue cleanly.
    p.drop(&mut ring).unwrap();
    assert!(c.is_closed(&ring));
    assert_eq!(c.pop(&mut ring), None);
}

#[test]
fn pop_ref_drop_releases_slot_for_reuse() {
    let mut ring = RingBuffer::<u32>::new(Capacity::exact(4));
    let (mut p, mut c) = ring.split();
    // Fill the ring.
    for i in 0..4 {
        p.push(&mut ring, i).unwrap();
    }
    assert!(p.push(&mut ring, 99).is_err());

    // The slot is reusable only after the reader drops.
    {
        let r = c.pop_ref(&mut ring).unwrap();
        assert!(p.push(&mut ring, 99).is_err());
        r.drop(&mut ring);
    }
    // After drop, the producer can push again into the freed slot.
    p.push(&mut ring, 99).unwrap();
    // We can drain everything - order is publish-order, not
    // push-order, so just check the multiset.
    let mut got = Vec::new();
    while let Some(v) = c.pop(&mut ring) {
        got.push(v);
    }
    got.sort_unstable();
    assert_eq!(got, vec![1, 2, 3, 99]);
}

#[test]
fn pop_ref_drops_value_on_reader_drop() {
    let counter = Arc::new(AtomicUsize::new(0));
    let mut ring = RingBuffer::<DropCounter>::new(Capacity::exact(4));
    let (mut p, mut c) = ring.split();
    p.reserve(&mut ring)
        .unwrap()
        .write(&mut ring, DropCounter::new(&counter))
        .commit(&mut ring);
    assert_eq!(counter.load(Ordering::Relaxed), 0);
    {
        let r = c.pop_ref(&mut ring).unwrap();
        assert_eq!(counter.load(Ordering::Relaxed), 0);
        r.drop(&mut ring);
    }
    // SlotReader::drop must drop the value exactly once.
    assert_eq!(counter.load(Ordering::Relaxed), 1);
}

#[test]
fn mpmc_mixed_push_reserve_pop_pop_ref() {
    let mut ring = RingBuffer::<u32>::new(Capacity::exact(8));
    let (mut p, mut c) = ring.split();
    p.push(&mut ring, 1).unwrap();
    p.reserve(&mut ring).unwrap().write(&mut ring, 2).commit(&mut ring);
    p.push(&mut ring, 3).unwrap();

    // Order is publish order. With a single producer and no
    // contention, that matches push order.
    assert_eq!(c.pop(&mut ring), Some(1));
    let r = c.pop_ref(&mut ring).unwrap();
    assert_eq!(*r.deref(&ring), 2);
    r.drop(&mut ring);
    assert_eq!(c.pop(&mut ring), Some(3));
    assert_eq!(c.pop(&mut ring), None);
}

#[test]
fn mpmc_pop_ref_block_drains_before_close() {
    let mut ring = RingBuffer::<u32>::new(Capacity::exact(4));
    let (mut p, mut c) = ring.split();
    p.push(&mut ring, 1).unwrap();
    p.push(&mut ring, 2).unwrap();
    p.drop(&mut ring).unwrap();
    let mut watch = ring.watch_backstop_consumer();
    let v1 = done(c.pop_ref_block(&mut ring, &mut watch, false)).unwrap().drop(&mut ring);
    let v2 = done(c.pop_ref_block(&mut ring, &mut watch, false)).unwrap().drop(&mut ring);
    let mut got = vec![v1, v2];
    got.sort_unstable();
    assert_eq!(got, vec![1, 2]);
    assert!(done(c.pop_ref_block(&mut ring, &mut watch, false)).is_none());
}

#[test]
fn mpmc_drain_empty_returns_zero() {
    let mut ring = RingBuffer::<u32>::new(Capacity::exact(4));
    let (_p, mut c) = ring.split();
    let n = c.drain(&mut ring, &mut Vec::new());
    assert_eq!(n, 0);
}

#[test]
fn drain_all_published() {
    let mut ring = RingBuffer::<u32>::new(Capacity::exact(4));
    let (mut p, mut c) = ring.split();
    for i in 0..4 {
        p.push(&mut ring, i).unwrap();
    }
    let mut got = Vec::new();
    let n = c.drain(&mut ring, &mut got);
    assert_eq!(n, 4);
    got.sort_unstable();
    assert_eq!(got, vec![0, 1, 2, 3]);
}

#[test]
fn mod_drain_up_to_limit() {
    let mut ring = RingBuffer::<u32>::new(Capacity::exact(4));
    let (mut p, mut c) = ring.split();
    for i in 0..4 {
        p.push(&mut ring, i).unwrap();
    }
    let mut got = Vec::new();
    let n = c.drain_up_to(&mut ring, 2, &mut got);
    assert_eq!(n, 2);
    // Remaining 2 still claimable.
    let mut rest = Vec::new();
    c.drain(&mut ring, &mut rest);
    let mut all: Vec<u32> = got.into_iter().chain(rest).collect();
    all.sort_unstable();
    assert_eq!(all, vec![0, 1, 2, 3]);
}
