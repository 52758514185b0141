use quetzalcoatl::capacity::Capacity;
use quetzalcoatl::common::park_registry::{ParkSlot, PARK_SLOTS};
use quetzalcoatl::common::step::{DrainStep, PopPoll, PopStep, PushPoll, PushStep, ReserveStep};
use quetzalcoatl::{mpsc, spmc, spsc};

#[test]
fn spsc_pop_block_wakes_on_push() {
    let mut ring = spsc::RingBuffer::<u32>::new(Capacity::exact(4));
    let (mut p, mut c) = ring.split();
    assert!(matches!(c.pop_block(&mut ring, true), PopStep::Spin));
    assert!(matches!(c.pop_block(&mut ring, false), PopStep::Park));
    p.push(&mut ring, 7).unwrap();
    assert!(ring.consumer_waiter().take_unpark());
    c.woke(&mut ring);
    assert!(matches!(c.pop_block(&mut ring, false), PopStep::Done(Some(7))));
}

#[test]
fn spsc_pop_block_returns_none_on_close() {
    let mut ring = spsc::RingBuffer::<u32>::new(Capacity::exact(4));
    let (p, mut c) = ring.split();
    assert!(matches!(c.pop_block(&mut ring, false), PopStep::Park));
    p.drop(&mut ring);
    assert!(ring.consumer_waiter().take_unpark());
    c.woke(&mut ring);
    assert!(matches!(c.pop_block(&mut ring, false), PopStep::Done(None)));
    assert!(matches!(c.pop_ref_block(&mut ring, false), PopStep::Done(None)));
}

#[test]
fn spsc_push_block_unblocks_on_pop() {
    let mut ring = spsc::RingBuffer::<u32>::new(Capacity::exact(4));
    let (mut p, mut c) = ring.split();
    for i in 0..4 {
        p.push(&mut ring, i).unwrap();
    }
    assert!(p.push(&mut ring, 99).is_err());
    assert!(matches!(p.push_block(&mut ring, 99, true), PushStep::Spin(99)));
    assert!(matches!(p.push_block(&mut ring, 99, false), PushStep::Park(99)));
    assert_eq!(c.pop(&mut ring), Some(0));
    assert!(ring.producer_waiter().take_unpark());
    p.woke(&mut ring);
    assert!(matches!(p.push_block(&mut ring, 99, false), PushStep::Done(Ok(()))));
    let mut rest = Vec::new();
    c.drain(&mut ring, &mut rest);
    assert_eq!(rest, vec![1, 2, 3, 99]);
}

#[test]
fn spsc_push_block_returns_err_on_consumer_close() {
    let mut ring = spsc::RingBuffer::<u32>::new(Capacity::exact(4));
    let (mut p, c) = ring.split();
    for i in 0..4 {
        p.push(&mut ring, i).unwrap();
    }
    assert!(matches!(p.push_block(&mut ring, 99, false), PushStep::Park(99)));
    assert_eq!(c.drop(&mut ring), vec![0, 1, 2, 3]);
    assert!(ring.producer_waiter().take_unpark());
    p.woke(&mut ring);
    assert!(matches!(p.push_block(&mut ring, 99, false), PushStep::Done(Err(99))));
    assert!(matches!(p.reserve_block(&mut ring, false), ReserveStep::Done(None)));
}

#[test]
fn spsc_reserve_block_unblocks_on_pop() {
    let mut ring = spsc::RingBuffer::<u32>::new(Capacity::exact(2));
    let (mut p, mut c) = ring.split();
    p.push(&mut ring, 1).unwrap();
    p.push(&mut ring, 2).unwrap();
    assert!(p.reserve(&ring).is_none());
    assert!(matches!(p.reserve_block(&mut ring, false), ReserveStep::Park));
    assert_eq!(c.pop(&mut ring), Some(1));
    p.woke(&mut ring);
    match p.reserve_block(&mut ring, false) {
        ReserveStep::Done(Some(w)) => w.write(&mut ring, 99).commit(&mut ring, &mut p),
        _ => panic!("the freed slot is there to take"),
    }
    assert_eq!(c.pop(&mut ring), Some(2));
    assert_eq!(c.pop(&mut ring), Some(99));
}

#[test]
fn drain_wakes_producer() {
    let mut ring = spsc::RingBuffer::<u32>::new(Capacity::exact(4));
    let (mut p, mut c) = ring.split();
    for i in 0..4 {
        p.push(&mut ring, i).unwrap();
    }
    assert!(matches!(p.push_block(&mut ring, 4, false), PushStep::Park(4)));
    assert_eq!(c.drain(&mut ring, &mut Vec::new()), 4);
    assert!(ring.producer_waiter().take_unpark());
}

#[test]
fn spsc_drain_block_drains_to_close() {
    let mut ring = spsc::RingBuffer::<u32>::new(Capacity::exact(4));
    let (mut p, mut c) = ring.split();
    let mut got = Vec::new();
    p.push(&mut ring, 1).unwrap();
    assert_eq!(c.drain_block(&mut ring, &mut got, false), (1, DrainStep::Park));
    p.push(&mut ring, 2).unwrap();
    p.push(&mut ring, 3).unwrap();
    p.drop(&mut ring);
    c.woke(&mut ring);
    let (n, step) = c.drain_block(&mut ring, &mut got, false);
    assert_eq!((n, step), (2, DrainStep::Done));
    assert_eq!(got, vec![1, 2, 3]);
}

#[test]
fn spsc_async_calls_are_polled_again() {
    let mut ring = spsc::RingBuffer::<u64>::new(Capacity::exact(1));
    let (mut p, mut c) = ring.split();
    assert!(matches!(c.pop_async(&mut ring), PopPoll::Pending));
    assert!(matches!(p.push_async(&mut ring, 1), PushPoll::Ready(Ok(()))));
    assert!(ring.consumer_waiter().take_waker());
    assert!(matches!(p.push_async(&mut ring, 2), PushPoll::Pending(2)));
    assert!(matches!(c.pop_async(&mut ring), PopPoll::Ready(Some(1))));
    assert!(ring.producer_waiter().take_waker());
    assert!(matches!(p.push_async(&mut ring, 2), PushPoll::Ready(Ok(()))));
    assert!(matches!(p.push_async(&mut ring, 3), PushPoll::Pending(3)));
    p.cancel_async(&mut ring);
    assert_eq!(c.pop(&mut ring), Some(2));
    assert!(!ring.producer_waiter().take_waker());
    c.drop(&mut ring);
    assert!(matches!(p.push_async(&mut ring, 4), PushPoll::Ready(Err(4))));
}

#[test]
fn mpsc_pop_block_wakes_on_push() {
    let mut ring = mpsc::RingBuffer::<u32>::new(Capacity::exact(4));
    let (mut p, mut c) = ring.split();
    assert!(matches!(c.pop_block(&mut ring, false), PopStep::Park));
    p.push(&mut ring, 7).unwrap();
    assert!(ring.consumer_waiter().take_unpark());
    c.woke(&mut ring);
    assert!(matches!(c.pop_block(&mut ring, false), PopStep::Done(Some(7))));
}

#[test]
fn mpsc_pop_block_returns_none_on_close() {
    let mut ring = mpsc::RingBuffer::<u32>::new(Capacity::exact(4));
    let (p, mut c) = ring.split();
    let second = p.clone(&mut ring);
    assert!(matches!(c.pop_block(&mut ring, false), PopStep::Park));
    p.drop(&mut ring);
    assert!(!ring.consumer_waiter().take_unpark(), "a producer is left");
    second.drop(&mut ring);
    assert!(ring.consumer_waiter().take_unpark());
    c.woke(&mut ring);
    assert!(matches!(c.pop_block(&mut ring, false), PopStep::Done(None)));
}

/// A blocking read passes over an abandoned reservation and waits for the
/// value behind it.
#[test]
fn pop_ref_block_skips_a_tombstone_and_waits_for_the_value() {
    let mut ring = mpsc::RingBuffer::<u32>::new(Capacity::exact(4));
    let (mut p, mut c) = ring.split();
    p.reserve(&mut ring).unwrap().drop(&mut ring);
    assert!(matches!(c.pop_ref_block(&mut ring, false), PopStep::Park));
    p.push(&mut ring, 7).unwrap();
    c.woke(&mut ring);
    match c.pop_ref_block(&mut ring, false) {
        PopStep::Done(Some(reader)) => assert_eq!(reader.drop(&mut ring), 7),
        _ => panic!("the value is there to take"),
    }
}

#[test]
fn mpsc_push_block_returns_err_on_consumer_close() {
    let mut ring = mpsc::RingBuffer::<u32>::new(Capacity::exact(2));
    let (mut p, c) = ring.split();
    p.push(&mut ring, 1).unwrap();
    p.push(&mut ring, 2).unwrap();
    assert!(matches!(p.push_block(&mut ring, 99, false), PushStep::Park(99)));
    assert_eq!(c.drop(&mut ring), vec![1, 2]);
    assert!(ring.take_producer_unpark(0));
    p.woke(&mut ring);
    assert!(matches!(p.push_block(&mut ring, 99, false), PushStep::Done(Err(99))));
}

#[test]
fn mpsc_drain_wakes_all_parked_producers() {
    let mut ring = mpsc::RingBuffer::<u32>::new(Capacity::exact(4));
    let (mut p, mut c) = ring.split();
    for i in 0..4 {
        p.push(&mut ring, i).unwrap();
    }
    for tid in 0..4 {
        let mut sleeper = p.clone(&mut ring);
        assert!(matches!(sleeper.push_block(&mut ring, 1000 + tid, false), PushStep::Park(_)));
    }
    assert_eq!(c.drain(&mut ring, &mut Vec::new()), 4);
    for slot in 1..5 {
        assert!(ring.take_producer_unpark(slot));
    }
    assert!(!ring.take_producer_unpark(0));
}

#[test]
fn push_block_two_producers_serialize_through_capacity_one() {
    let mut ring = mpsc::RingBuffer::<u32>::new(Capacity::exact(1));
    let (mut a, mut c) = ring.split();
    let mut b = a.clone(&mut ring);
    assert!(matches!(a.push_block(&mut ring, 1, false), PushStep::Done(Ok(()))));
    assert!(matches!(b.push_block(&mut ring, 2, false), PushStep::Park(2)));
    assert_eq!(c.pop(&mut ring), Some(1));
    assert!(ring.take_producer_unpark(1));
    b.woke(&mut ring);
    assert!(matches!(b.push_block(&mut ring, 2, false), PushStep::Done(Ok(()))));
    assert_eq!(c.pop(&mut ring), Some(2));
}

#[test]
fn mpsc_push_block_completes_with_more_producers_than_park_slots() {
    let mut ring = mpsc::RingBuffer::<usize>::new(Capacity::exact(2));
    let (mut p, mut c) = ring.split();
    p.push(&mut ring, 0).unwrap();
    p.push(&mut ring, 1).unwrap();
    let mut handles = Vec::new();
    for _ in 1..PARK_SLOTS {
        handles.push(p.clone(&mut ring));
    }
    let mut surplus = p.clone(&mut ring);
    assert_eq!(surplus.park_slot(), ParkSlot::Slotless);
    assert!(matches!(surplus.push_block(&mut ring, 2, false), PushStep::Park(2)));
    assert_eq!(c.pop(&mut ring), Some(0));
    assert!(ring.take_producer_overflow_unparks());
    surplus.woke(&mut ring);
    assert!(matches!(surplus.push_block(&mut ring, 2, false), PushStep::Done(Ok(()))));
}

#[test]
fn park_slots_do_not_alias_after_churning_producers() {
    let mut ring = mpsc::RingBuffer::<u32>::new(Capacity::exact(2));
    let (mut p, mut c) = ring.split();
    p.push(&mut ring, 1).unwrap();
    p.push(&mut ring, 2).unwrap();
    for _ in 0..(PARK_SLOTS * 2) {
        p.clone(&mut ring).drop(&mut ring);
    }
    let mut blocked = p.clone(&mut ring);
    assert_eq!(blocked.park_slot(), ParkSlot::Leased(1));
    assert!(matches!(blocked.push_block(&mut ring, 3, false), PushStep::Park(3)));
    assert_eq!(c.pop(&mut ring), Some(1));
    assert!(ring.take_producer_unpark(1));
    assert!(!ring.take_producer_unpark(0));
}

#[test]
fn mpsc_close_reaches_a_waiting_consumer() {
    let mut ring = mpsc::RingBuffer::<u32>::new(Capacity::exact(4));
    let (_p, mut c) = ring.split();
    assert!(matches!(c.pop_async(&mut ring), PopPoll::Pending));
    ring.close();
    assert!(ring.consumer_waiter().take_waker());
    assert!(c.is_closed(&ring));
    assert!(matches!(c.pop_async(&mut ring), PopPoll::Ready(None)));
}

/// A claim that another producer won is seen, and nothing is lost by it.
#[test]
fn a_claim_at_a_stale_tail_loses() {
    let mut ring = mpsc::RingBuffer::<u32>::new(Capacity::exact(2));
    let (mut a, mut c) = ring.split();
    let mut b = a.clone(&mut ring);
    a.push(&mut ring, 1).unwrap();
    assert!(matches!(b.attempt(&mut ring, 0), mpsc::producer::Attempt::Lost(1)));
    assert!(matches!(b.attempt(&mut ring, 1), mpsc::producer::Attempt::Won(1)));
    assert!(matches!(b.attempt(&mut ring, 2), mpsc::producer::Attempt::Full));
    assert_eq!(c.pop(&mut ring), Some(1));
    assert_eq!(c.pop(&mut ring), None);
}

#[test]
fn spmc_pop_block_multi_consumer_wakes_all_on_close() {
    let mut ring = spmc::RingBuffer::<u32>::new(Capacity::exact(4));
    let (p, mut a) = ring.split();
    let mut b = a.clone(&mut ring);
    assert!(matches!(a.pop_block(&mut ring, false), PopStep::Park));
    assert!(matches!(b.pop_block(&mut ring, false), PopStep::Park));
    p.drop(&mut ring);
    assert!(ring.take_consumer_unpark(0));
    assert!(ring.take_consumer_unpark(1));
    a.woke(&mut ring);
    b.woke(&mut ring);
    assert!(matches!(a.pop_block(&mut ring, false), PopStep::Done(None)));
    assert!(matches!(b.pop_block(&mut ring, false), PopStep::Done(None)));
}

#[test]
fn spmc_push_wakes_one_consumer_at_a_time() {
    let mut ring = spmc::RingBuffer::<u32>::new(Capacity::exact(4));
    let (mut p, mut a) = ring.split();
    let mut b = a.clone(&mut ring);
    assert!(matches!(a.pop_block(&mut ring, false), PopStep::Park));
    assert!(matches!(b.pop_block(&mut ring, false), PopStep::Park));
    p.push(&mut ring, 1).unwrap();
    assert!(ring.take_consumer_unpark(0));
    assert!(!ring.take_consumer_unpark(1));
    p.push(&mut ring, 2).unwrap();
    assert!(ring.take_consumer_unpark(1));
}

#[test]
fn spmc_push_block_unblocks_on_pop() {
    let mut ring = spmc::RingBuffer::<u32>::new(Capacity::exact(4));
    let (mut p, mut c) = ring.split();
    for i in 0..4 {
        p.push(&mut ring, i).unwrap();
    }
    assert!(matches!(p.push_block(&mut ring, 99, true), PushStep::Spin(99)));
    assert!(matches!(p.push_block(&mut ring, 99, false), PushStep::Park(99)));
    assert_eq!(c.pop(&mut ring), Some(0));
    assert!(ring.producer_waiter().take_unpark());
    p.woke(&mut ring);
    assert!(matches!(p.push_block(&mut ring, 99, false), PushStep::Done(Ok(()))));
    let mut rest = Vec::new();
    c.drain(&mut ring, &mut rest);
    assert_eq!(rest, vec![1, 2, 3, 99]);
}

#[test]
fn spmc_reserve_block_returns_none_on_consumer_close() {
    let mut ring = spmc::RingBuffer::<u32>::new(Capacity::exact(2));
    let (mut p, c) = ring.split();
    p.push(&mut ring, 1).unwrap();
    p.push(&mut ring, 2).unwrap();
    assert!(matches!(p.reserve_block(&mut ring, false), ReserveStep::Park));
    c.drop(&mut ring);
    assert!(ring.producer_waiter().take_unpark());
    p.woke(&mut ring);
    assert!(matches!(p.reserve_block(&mut ring, false), ReserveStep::Done(None)));
}

#[test]
fn drain_block_runs_until_producer_drops() {
    let mut ring = spmc::RingBuffer::<u32>::new(Capacity::exact(4));
    let (mut p, mut c) = ring.split();
    let mut got = Vec::new();
    p.push(&mut ring, 1).unwrap();
    assert_eq!(c.drain_block(&mut ring, &mut got, true), (1, DrainStep::Spin));
    assert_eq!(c.drain_block(&mut ring, &mut got, false), (0, DrainStep::Park));
    p.push(&mut ring, 2).unwrap();
    p.drop(&mut ring);
    c.woke(&mut ring);
    assert_eq!(c.drain_block(&mut ring, &mut got, false), (1, DrainStep::Done));
    assert_eq!(got, vec![1, 2]);
}

#[test]
fn spmc_async_calls_are_polled_again() {
    let mut ring = spmc::RingBuffer::<u64>::new(Capacity::exact(1));
    let (mut p, mut a) = ring.split();
    let mut b = a.clone(&mut ring);
    assert!(matches!(a.pop_async(&mut ring), PopPoll::Pending));
    assert!(matches!(b.pop_async(&mut ring), PopPoll::Pending));
    assert!(matches!(p.push_async(&mut ring, 1), PushPoll::Ready(Ok(()))));
    assert!(ring.take_consumer_waker(0));
    assert!(ring.take_consumer_waker(1));
    assert!(matches!(p.push_async(&mut ring, 2), PushPoll::Pending(2)));
    assert!(matches!(b.pop_async(&mut ring), PopPoll::Ready(Some(1))));
    assert!(ring.producer_waiter().take_waker());
    assert!(matches!(a.pop_async(&mut ring), PopPoll::Pending));
    a.drop(&mut ring);
    b.drop(&mut ring);
    assert!(matches!(p.push_async(&mut ring, 2), PushPoll::Ready(Err(2))));
}

/// Each consumer claims its own run of positions and sees the order of
/// the pushes; nothing goes to two of them.
#[test]
fn spmc_batches_are_disjoint_and_in_order() {
    let mut ring = spmc::RingBuffer::<u32>::new(Capacity::exact(8));
    let (mut p, mut a) = ring.split();
    let mut b = a.clone(&mut ring);
    for i in 0..8 {
        p.push(&mut ring, i).unwrap();
    }
    assert_eq!(a.pop(&mut ring), Some(0));
    assert_eq!(a.len(&ring), 4, "four positions went into the batch");
    assert_eq!(b.pop(&mut ring), Some(4));
    assert_eq!(a.pop(&mut ring), Some(1));
    assert_eq!(b.pop(&mut ring), Some(5));
    // The slot of position 2 is still claimed, those of 0 and 1 are free.
    p.push(&mut ring, 8).unwrap();
    p.push(&mut ring, 9).unwrap();
    assert_eq!(p.push(&mut ring, 10), Err(10));
    // A batch goes down with its consumer.
    assert_eq!(a.drop(&mut ring), vec![2, 3]);
    p.push(&mut ring, 10).unwrap();
    let mut rest = Vec::new();
    assert_eq!(b.drain(&mut ring, &mut rest), 5);
    assert_eq!(rest, vec![6, 7, 8, 9, 10]);
}

/// A consumer that leaves with part of its batch makes room, and the
/// producer that waits for it is told, though another consumer stays.
#[test]
fn spmc_departing_consumer_wakes_the_producer_it_makes_room_for() {
    let mut ring = spmc::RingBuffer::<u32>::new(Capacity::exact(4));
    let (mut p, mut a) = ring.split();
    let mut b = a.clone(&mut ring);
    for i in 0..4 {
        p.push(&mut ring, i).unwrap();
    }
    assert_eq!(a.pop(&mut ring), Some(0));
    p.push(&mut ring, 4).unwrap();
    assert!(matches!(p.push_block(&mut ring, 5, false), PushStep::Park(5)));
    // Another slot is freed, but not the one that the producer needs.
    assert_eq!(b.pop(&mut ring), Some(4));
    assert!(ring.producer_waiter().take_unpark());
    p.woke(&mut ring);
    assert!(matches!(p.push_block(&mut ring, 5, false), PushStep::Park(5)));
    assert_eq!(a.drop(&mut ring), vec![1, 2, 3]);
    assert!(ring.producer_waiter().take_unpark(), "the ring has room again");
    p.woke(&mut ring);
    assert!(matches!(p.push_block(&mut ring, 5, false), PushStep::Done(Ok(()))));
    assert_eq!(b.pop(&mut ring), Some(5));
}

#[test]
fn spmc_departing_consumer_wakes_the_producer_task() {
    let mut ring = spmc::RingBuffer::<u32>::new(Capacity::exact(2));
    let (mut p, mut a) = ring.split();
    let b = a.clone(&mut ring);
    for i in 0..2 {
        p.push(&mut ring, i).unwrap();
    }
    assert_eq!(a.pop(&mut ring), Some(0));
    p.push(&mut ring, 2).unwrap();
    assert!(matches!(p.push_async(&mut ring, 3), PushPoll::Pending(3)));
    // One that leaves with nothing claimed makes no room.
    b.drop(&mut ring);
    assert!(!ring.producer_waiter().take_waker());
    let c = a.clone(&mut ring);
    assert_eq!(a.drop(&mut ring), vec![1]);
    assert!(ring.producer_waiter().take_waker());
    assert!(matches!(p.push_async(&mut ring, 3), PushPoll::Ready(Ok(()))));
    assert!(c.drop(&mut ring).is_empty());
}

#[test]
fn a_batch_at_a_stale_head_is_lost() {
    let mut ring = spmc::RingBuffer::<u32>::new(Capacity::exact(8));
    let (mut p, mut a) = ring.split();
    let mut b = a.clone(&mut ring);
    assert_eq!(b.attempt_batch(&mut ring, 0), spmc::consumer::BatchAttempt::Empty);
    p.push(&mut ring, 1).unwrap();
    p.push(&mut ring, 2).unwrap();
    assert_eq!(a.pop(&mut ring), Some(1));
    p.push(&mut ring, 3).unwrap();
    assert_eq!(b.attempt_batch(&mut ring, 0), spmc::consumer::BatchAttempt::Lost);
    assert_eq!(b.attempt_batch(&mut ring, 2), spmc::consumer::BatchAttempt::Won(2));
}
