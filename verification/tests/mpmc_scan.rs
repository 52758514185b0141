use std::sync::atomic::{AtomicUsize, Ordering};
use std::sync::Arc;

use quetzalcoatl::capacity::Capacity;
use quetzalcoatl::mpmc_scan::{Refused, RingBuffer};

/// Counts its destructions.
#[derive(Debug)]
struct DropCounter {
    counter: Arc<AtomicUsize>,
}

impl DropCounter {
    fn new(counter: &Arc<AtomicUsize>) -> Self {
        DropCounter {
            counter: Arc::clone(counter),
        }
    }
}

impl Drop for DropCounter {
    fn drop(&mut self) {
        self.counter.fetch_add(1, Ordering::Relaxed);
    }
}

#[test]
fn mod_basic_push_pop() {
    let mut ring = RingBuffer::<u32>::new(Capacity::exact(4));
    let (mut p, mut c) = ring.split();
    p.push(&mut ring, 1).unwrap();
    p.push(&mut ring, 2).unwrap();
    let mut got = vec![c.pop(&mut ring).unwrap(), c.pop(&mut ring).unwrap()];
    got.sort_unstable();
    assert_eq!(got, vec![1, 2]);
    assert_eq!(c.pop(&mut ring), None);
}

#[test]
fn mod_fill_and_drain() {
    let mut ring = RingBuffer::<u32>::new(Capacity::exact(8));
    let (mut p, mut c) = ring.split();
    for i in 0..8 {
        p.push(&mut ring, i).unwrap();
    }
    assert!(p.push(&mut ring, 99).is_err());
    let mut got: Vec<u32> = (0..8).map(|_| c.pop(&mut ring).unwrap()).collect();
    got.sort_unstable();
    assert_eq!(got, (0..8).collect::<Vec<_>>());
    assert_eq!(c.pop(&mut ring), None);
}

#[test]
fn mod_wraparound() {
    let mut ring = RingBuffer::<u32>::new(Capacity::exact(4));
    let (mut p, mut c) = ring.split();
    for lap in 0..3u32 {
        for i in 0..4 {
            p.push(&mut ring, lap * 4 + i).unwrap();
        }
        let mut got: Vec<u32> = (0..4).map(|_| c.pop(&mut ring).unwrap()).collect();
        got.sort_unstable();
        assert_eq!(got, (lap * 4..lap * 4 + 4).collect::<Vec<_>>());
    }
    assert_eq!(c.pop(&mut ring), None);
}

#[test]
fn mod_empty_returns_none() {
    let mut ring = RingBuffer::<u32>::new(Capacity::exact(4));
    let (_p, mut c) = ring.split();
    assert_eq!(c.pop(&mut ring), None);
}

#[test]
fn mod_drop_left_in_buffer() {
    let counter = Arc::new(AtomicUsize::new(0));
    {
        let mut ring = RingBuffer::new(Capacity::exact(4));
        let (mut p, c) = ring.split();
        for _ in 0..4 {
            p.push(&mut ring, DropCounter::new(&counter)).unwrap();
        }
        c.drop(&mut ring);
        p.drop(&mut ring).unwrap();
        assert_eq!(ring.drop().len(), 4);
    }
    assert_eq!(counter.load(Ordering::Relaxed), 4);
}

#[test]
fn mod_drop_after_partial_drain() {
    let counter = Arc::new(AtomicUsize::new(0));
    {
        let mut ring = RingBuffer::new(Capacity::exact(4));
        let (mut p, mut c) = ring.split();
        for _ in 0..4 {
            p.push(&mut ring, DropCounter::new(&counter)).unwrap();
        }
        drop(c.pop(&mut ring).unwrap());
        drop(c.pop(&mut ring).unwrap());
        assert_eq!(counter.load(Ordering::Relaxed), 2);
        c.drop(&mut ring);
        p.drop(&mut ring).unwrap();
        assert_eq!(ring.drop().len(), 2);
    }
    assert_eq!(counter.load(Ordering::Relaxed), 4);
}

#[test]
fn mod_many_wraps_single_threaded() {
    let mut ring = RingBuffer::<u32>::new(Capacity::exact(8));
    let (mut p, mut c) = ring.split();
    for batch in 0..8 {
        let base = batch * 4;
        for i in 0..4 {
            p.push(&mut ring, base + i).unwrap();
        }
        for i in 0..4 {
            let v = c.pop(&mut ring).unwrap();
            assert_eq!(v, base + i, "batch {batch} item {i}");
        }
    }
}

#[test]
fn a_refused_push_tells_why() {
    let mut ring = RingBuffer::<u32>::new(Capacity::exact(64));
    let (mut p, mut first) = ring.split();
    let mut second = first.clone(&mut ring);
    for i in 0..64 {
        p.push(&mut ring, i).unwrap();
    }
    assert!(matches!(p.push(&mut ring, 999), Err(Refused::Full(999))));
    for i in 0..64 {
        assert_eq!(first.pop(&mut ring), Some(i));
    }
    for i in 64..128 {
        p.push(&mut ring, i).unwrap();
    }
    // The second consumer starts one eighth of the ring further on.
    for i in 0..32 {
        assert_eq!(second.pop(&mut ring), Some(72 + i));
    }
    second.drop(&mut ring);
    // Half of the ring counts as free; the first eight slots are not.
    for i in 0..24 {
        p.push(&mut ring, 200 + i).unwrap();
    }
    assert!(matches!(p.push(&mut ring, 300), Err(Refused::Held(300))));
    assert_eq!(p.push_primary(&mut ring, 300), Err(300));
    assert_eq!(first.pop(&mut ring), Some(64));
    assert_eq!(p.push_primary(&mut ring, 300), Ok(()));
    assert_eq!(first.approx_len(&ring), 64);
    assert!(!first.is_closed(&ring));
}

#[test]
fn what_is_left_comes_back_at_the_end() {
    let mut ring = RingBuffer::<u32>::new(Capacity::exact(4));
    let (mut p, mut c) = ring.split();
    for i in 0..3 {
        p.push(&mut ring, i).unwrap();
    }
    assert_eq!(c.pop(&mut ring), Some(0));
    p.drop(&mut ring).unwrap();
    assert!(c.is_closed(&ring));
    assert_eq!(ring.drop(), vec![1, 2]);
}
