//! What holds of a ring from its first call to its teardown.

use quetzalcoatl::capacity::Capacity;
use quetzalcoatl::common::step::PopStep;
use quetzalcoatl::{mpmc, mpmc_scan, mpsc, spmc, spsc};

/// Interleaved calls: `true` pushes the next number, `false` pops.
const CALLS: [bool; 16] = [
    false, true, true, false, true, true, true, true, false, false, true, false, false, false,
    false, false,
];

/// Checks what the calls returned against a plain queue.
fn follows_a_queue(
    capacity: usize,
    mut push: impl FnMut(u32) -> Result<(), u32>,
    mut pop: impl FnMut() -> Option<u32>,
) {
    let mut pushed: Vec<u32> = Vec::new();
    let mut popped: Vec<u32> = Vec::new();
    for (n, call) in CALLS.into_iter().enumerate() {
        let n = n as u32;
        if call {
            let full = pushed.len() - popped.len() == capacity;
            assert_eq!(push(n), if full { Err(n) } else { Ok(()) });
            if !full {
                pushed.push(n);
            }
        } else {
            let all_popped = pushed.len() == popped.len();
            let val = pop();
            assert_eq!(val.is_none(), all_popped);
            popped.extend(val);
        }
        assert!(pushed.starts_with(&popped));
    }
    assert_eq!(pushed, popped);
    assert_eq!(pushed, vec![1, 2, 4, 5, 6, 10]);
}

#[test]
fn spsc_pops_give_back_the_pushes() {
    let ring = std::cell::RefCell::new(spsc::RingBuffer::<u32>::new(Capacity::exact(4)));
    let (mut p, mut c) = ring.borrow_mut().split();
    follows_a_queue(
        4,
        |n| p.push(&mut ring.borrow_mut(), n),
        || c.pop(&mut ring.borrow_mut()),
    );
}

#[test]
fn mpsc_pops_give_back_the_pushes() {
    let ring = std::cell::RefCell::new(mpsc::RingBuffer::<u32>::new(Capacity::exact(4)));
    let (mut p, mut c) = ring.borrow_mut().split();
    follows_a_queue(
        4,
        |n| p.push(&mut ring.borrow_mut(), n),
        || c.pop(&mut ring.borrow_mut()),
    );
}

#[test]
fn spmc_pops_give_back_the_pushes() {
    let ring = std::cell::RefCell::new(spmc::RingBuffer::<u32>::new(Capacity::exact(4)));
    let (mut p, mut c) = ring.borrow_mut().split();
    follows_a_queue(
        4,
        |n| p.push(&mut ring.borrow_mut(), n),
        || c.pop(&mut ring.borrow_mut()),
    );
}

#[test]
fn spsc_every_value_leaves_once() {
    let mut ring = spsc::RingBuffer::<u32>::new(Capacity::exact(4));
    let (mut p, mut c) = ring.split();
    for n in 0..4 {
        p.push(&mut ring, n).unwrap();
    }
    assert_eq!(c.pop(&mut ring), Some(0));
    p.drop(&mut ring);
    assert_eq!(c.drop(&mut ring), vec![1, 2, 3]);
}

#[test]
fn mpsc_every_value_leaves_once() {
    let mut ring = mpsc::RingBuffer::<u32>::new(Capacity::exact(8));
    let (mut p, mut c) = ring.split();
    for n in 0..3 {
        p.push(&mut ring, n).unwrap();
    }
    let given_up = p.reserve(&mut ring).unwrap();
    let open = p.reserve(&mut ring).unwrap();
    p.push(&mut ring, 3).unwrap();
    given_up.drop(&mut ring);
    assert_eq!(c.pop(&mut ring), Some(0));
    // The consumer takes what it can reach; the rest waits behind the
    // position that is not published.
    assert_eq!(c.drop(&mut ring), vec![1, 2]);
    open.write(&mut ring, 9).commit(&mut ring);
    p.drop(&mut ring);
    assert_eq!(ring.drop(), vec![9, 3]);
}

#[test]
fn spmc_every_value_leaves_once() {
    let mut ring = spmc::RingBuffer::<u32>::new(Capacity::exact(8));
    let (mut p, mut a) = ring.split();
    let mut b = a.clone(&mut ring);
    for n in 0..8 {
        p.push(&mut ring, n).unwrap();
    }
    // Each consumer claims a batch and takes from it.
    assert_eq!(a.pop(&mut ring), Some(0));
    assert_eq!(b.pop(&mut ring), Some(4));
    for n in 8..9 {
        p.push(&mut ring, n).unwrap();
    }
    assert_eq!(b.drop(&mut ring), vec![5, 6, 7]);
    assert_eq!(a.drop(&mut ring), vec![1, 2, 3]);
    p.drop(&mut ring);
    assert_eq!(ring.drop(), vec![8]);
}

#[test]
fn mpmc_every_value_leaves_once() {
    let mut ring = mpmc::RingBuffer::<u32>::new(Capacity::exact(8));
    let (mut p, mut c) = ring.split();
    for n in 0..5 {
        p.push(&mut ring, n).unwrap();
    }
    let reader = c.pop_ref(&mut ring).unwrap();
    assert_eq!(c.pop(&mut ring), Some(1));
    assert_eq!(reader.drop(&mut ring), 0);
    // What the producer reserved and never wrote is given up, and takes
    // no value with it.
    p.drop(&mut ring).unwrap();
    assert_eq!(c.pop(&mut ring), Some(2));
    c.drop(&mut ring);
    assert_eq!(ring.drop(), vec![3, 4]);
}

#[test]
fn mpmc_scan_every_value_leaves_once() {
    let mut ring = mpmc_scan::RingBuffer::<u32>::new(Capacity::exact(8));
    let (mut p, mut c) = ring.split();
    for n in 0..5 {
        p.push(&mut ring, n).unwrap();
    }
    assert_eq!(c.pop(&mut ring), Some(0));
    p.drop(&mut ring).unwrap();
    assert!(c.is_closed(&ring));
    assert_eq!(c.pop(&mut ring), Some(1));
    c.drop(&mut ring);
    assert_eq!(ring.drop(), vec![2, 3, 4]);
}

/// A pop finds nothing exactly when all that was pushed has been taken,
/// whichever producer pushed it and whichever consumer asks.
#[test]
fn mpmc_pop_is_empty_exactly_when_all_is_taken() {
    let mut ring = mpmc::RingBuffer::<u32>::new(Capacity::exact(8));
    let (mut p, mut c) = ring.split();
    let mut q = p.clone(&mut ring);
    let mut d = c.clone(&mut ring);
    assert_eq!(d.pop(&mut ring), None);
    p.push(&mut ring, 1).unwrap();
    // The first producer has reserved the whole ring.
    assert_eq!(q.push(&mut ring, 2), Err(2));
    p.push(&mut ring, 3).unwrap();
    let mut got = vec![d.pop(&mut ring).unwrap(), c.pop(&mut ring).unwrap()];
    got.sort_unstable();
    assert_eq!(got, vec![1, 3]);
    assert_eq!(d.pop(&mut ring), None);
    assert_eq!(c.pop(&mut ring), None);
}

/// While a producer lives, a blocked reader waits; it ends without a
/// value only once the last producer is gone and nothing is left.
#[test]
fn mpmc_pop_ref_block_ends_only_with_the_last_producer() {
    let mut ring = mpmc::RingBuffer::<u32>::new(Capacity::exact(8));
    let (p, mut c) = ring.split();
    let mut q = p.clone(&mut ring);
    let mut watch = ring.watch_backstop_consumer();
    assert!(matches!(c.pop_ref_block(&mut ring, &mut watch, true), PopStep::Spin));
    p.drop(&mut ring).unwrap();
    assert!(!c.is_closed(&ring));
    assert!(matches!(c.pop_ref_block(&mut ring, &mut watch, true), PopStep::Spin));
    q.push(&mut ring, 7).unwrap();
    q.drop(&mut ring).unwrap();
    assert!(c.is_closed(&ring));
    match c.pop_ref_block(&mut ring, &mut watch, true) {
        PopStep::Done(Some(reader)) => assert_eq!(reader.drop(&mut ring), 7),
        _ => panic!("the published value comes before the end"),
    }
    assert!(matches!(c.pop_ref_block(&mut ring, &mut watch, true), PopStep::Done(None)));
}

/// A ring can be closed before it is split: it reports closed and still
/// takes pushes, and a blocked pop ends once it is empty.
#[test]
fn mpsc_close_before_the_split_carries_over() {
    let mut ring = mpsc::RingBuffer::<u32>::new(Capacity::exact(4));
    ring.close();
    let (mut p, mut c) = ring.split();
    assert!(c.is_closed(&ring));
    assert_eq!(p.push(&mut ring, 1), Ok(()));
    assert!(matches!(c.pop_block(&mut ring, false), PopStep::Done(Some(1))));
    assert!(matches!(c.pop_block(&mut ring, false), PopStep::Done(None)));
    p.drop(&mut ring);
}

#[test]
fn mpsc_close_before_a_borrowed_split_carries_over() {
    let mut ring = mpsc::RingBuffer::<u32>::new(Capacity::exact(4));
    ring.close();
    let (mut p, mut c) = ring.split_borrowed();
    assert!(c.is_closed(&ring));
    assert_eq!(p.push(&mut ring, 1), Ok(()));
    assert!(matches!(c.pop_block(&mut ring, false), PopStep::Done(Some(1))));
    assert!(matches!(c.pop_block(&mut ring, false), PopStep::Done(None)));
}
