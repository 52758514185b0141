use quetzalcoatl::capacity::Capacity;
use quetzalcoatl::common::park_registry::{ParkSlot, PARK_SLOTS};
use quetzalcoatl::common::step::{DrainStep, PopPoll, PopStep, PushPoll, PushStep, ReserveStep};
use quetzalcoatl::mpmc::ring_snapshot::RingSnapshot;
use quetzalcoatl::mpmc::{Cfg, RingBuffer};

#[test]
fn the_monitor_counts_a_wake_that_bought_the_waiter_nothing() {
    let mut ring = RingBuffer::<u64>::new(Capacity::exact(4));
    let (mut producer, mut consumer) = ring.split();
    let mut thief = consumer.clone(&mut ring);
    let mut watch = ring.watch_backstop_consumer();

    assert!(matches!(consumer.pop_block(&mut ring, &mut watch, false), PopStep::Park));
    // A real unpark, but a peer takes the value first.
    producer.push(&mut ring, 1).unwrap();
    assert!(ring.take_consumer_unpark(0));
    assert_eq!(thief.pop(&mut ring), Some(1));
    consumer.woke(&mut ring, &mut watch, false);
    assert!(matches!(consumer.pop_block(&mut ring, &mut watch, false), PopStep::Park));

    producer.push(&mut ring, 7).unwrap();
    consumer.woke(&mut ring, &mut watch, false);
    assert!(matches!(consumer.pop_block(&mut ring, &mut watch, false), PopStep::Done(Some(7))));

    let stats = ring.backstop_stats();
    assert!(stats.saw_futile_wake(), "the consumer was woken, found nothing, and re-parked");
    assert_eq!(stats.futile_wakes, 1, "the last push delivered a wake that was used");
    assert!(!stats.saw_blind_futile_wake(), "the ring was empty at the second park");
    assert!(!stats.saw_rescue());
}

#[test]
fn a_wake_the_waiter_uses_is_not_counted_as_futile() {
    let mut ring = RingBuffer::<u64>::new(Capacity::exact(4));
    let (mut producer, mut consumer) = ring.split();
    let mut watch = ring.watch_backstop_consumer();

    assert!(matches!(consumer.pop_block(&mut ring, &mut watch, false), PopStep::Park));
    producer.push(&mut ring, 7).unwrap();
    consumer.woke(&mut ring, &mut watch, false);
    assert!(matches!(consumer.pop_block(&mut ring, &mut watch, false), PopStep::Done(Some(7))));
    assert!(!ring.backstop_stats().saw_futile_wake());
}

/// A sleeper that comes round by itself and finds work was rescued; with
/// a peer asleep beside it the wake may have gone there.
#[test]
fn a_spurious_wakeup_that_finds_work_is_a_rescue() {
    let mut ring = RingBuffer::<u64>::new(Capacity::exact(4));
    let (mut producer, mut first) = ring.split();
    let mut second = first.clone(&mut ring);
    let mut first_watch = ring.watch_backstop_consumer();
    let mut second_watch = ring.watch_backstop_consumer();

    assert!(matches!(first.pop_block(&mut ring, &mut first_watch, false), PopStep::Park));
    assert!(matches!(second.pop_block(&mut ring, &mut second_watch, false), PopStep::Park));
    producer.push(&mut ring, 7).unwrap();
    assert!(ring.take_consumer_unpark(0), "the wake went to the first sleeper");
    assert!(!ring.take_consumer_unpark(1));

    second.woke(&mut ring, &mut second_watch, false);
    assert!(matches!(second.pop_block(&mut ring, &mut second_watch, false), PopStep::Done(Some(7))));
    let stats = ring.backstop_stats();
    assert_eq!(stats.unwoken_timeouts, 1);
    assert_eq!(stats.rescues, 1);
    assert_eq!(stats.sole_waiter_rescues, 0);
    assert!(!stats.saw_unexplained_rescue());
}

#[test]
fn a_release_a_pinned_producer_cannot_use_does_not_reach_it() {
    let mut ring = RingBuffer::<u64, Cfg<2, 128, 1>>::new(Capacity::exact(4));
    let (mut producer, mut holder) = ring.split();
    let mut filler = producer.clone(&mut ring);
    let mut drainer = holder.clone(&mut ring);
    let mut watch = ring.watch_backstop_producer();

    producer.push(&mut ring, 0).unwrap();
    producer.push(&mut ring, 1).unwrap();
    filler.push(&mut ring, 2).unwrap();
    filler.push(&mut ring, 3).unwrap();

    let held = holder.pop_ref(&mut ring).unwrap();
    assert_eq!(*held.deref(&ring), 0);
    assert_eq!(drainer.pop(&mut ring), Some(1));
    assert_eq!(drainer.pop(&mut ring), Some(2));

    producer.push(&mut ring, 99).unwrap();
    assert!(producer.push(&mut ring, 100).is_err(), "pinned to slot 0");
    let park_slot = producer.park_slot();
    assert!(matches!(
        producer.push_block(&mut ring, &mut watch, 100, false),
        PushStep::Park(100)
    ));

    // The only sleeping producer cannot use this release.
    assert_eq!(drainer.pop(&mut ring), Some(3));
    assert!(ring.producer_is_armed(park_slot));
    assert!(!ring.take_producer_unpark(0));

    // Its own position at last.
    assert_eq!(held.drop(&mut ring), 0);
    assert!(!ring.producer_is_armed(park_slot));
    assert!(ring.take_producer_unpark(0));
    producer.woke(&mut ring, &mut watch, false);
    assert!(matches!(
        producer.push_block(&mut ring, &mut watch, 100, false),
        PushStep::Done(Ok(()))
    ));
    assert_eq!(ring.backstop_stats().futile_wakes, 0);
}

/// The cursor points at the producer that cannot use the release, so only
/// routing gets the wake to the one that can.
#[test]
fn a_release_wakes_the_producer_that_reserved_the_position() {
    let mut ring = RingBuffer::<u64, Cfg<2, 128, 1>>::new(Capacity::exact(4));
    let (mut other, mut holder) = ring.split();
    let mut producer = other.clone(&mut ring);
    let mut drainer = holder.clone(&mut ring);
    let mut watch = ring.watch_backstop_producer();
    let mut other_watch = ring.watch_backstop_producer();
    assert_eq!(other.park_slot(), ParkSlot::Leased(0));

    producer.push(&mut ring, 0).unwrap();
    producer.push(&mut ring, 1).unwrap();
    other.push(&mut ring, 2).unwrap();
    other.push(&mut ring, 3).unwrap();

    let held = holder.pop_ref(&mut ring).unwrap();
    assert_eq!(*held.deref(&ring), 0);
    assert_eq!(drainer.pop(&mut ring), Some(1));
    assert_eq!(drainer.pop(&mut ring), Some(2));

    producer.push(&mut ring, 99).unwrap();
    assert!(producer.push(&mut ring, 100).is_err(), "pinned to slot 0");
    other.push(&mut ring, 98).unwrap();
    assert!(other.push(&mut ring, 97).is_err(), "pinned to slot 3");

    assert!(matches!(
        producer.push_block(&mut ring, &mut watch, 100, false),
        PushStep::Park(100)
    ));
    assert!(matches!(
        other.push_block(&mut ring, &mut other_watch, 97, false),
        PushStep::Park(97)
    ));
    assert_eq!(ring.parked_producer_count(), 2);

    assert_eq!(held.drop(&mut ring), 0);
    assert_eq!(ring.parked_producer_count(), 1);
    assert!(ring.producer_is_armed(other.park_slot()));
    assert!(ring.take_producer_unpark(1));
    producer.woke(&mut ring, &mut watch, false);
    assert!(matches!(
        producer.push_block(&mut ring, &mut watch, 100, false),
        PushStep::Done(Ok(()))
    ));

    // Free slot 3 so the second producer can finish.
    assert_eq!(drainer.pop(&mut ring), Some(3));
    assert!(ring.take_producer_unpark(0));
    other.woke(&mut ring, &mut other_watch, false);
    assert!(matches!(
        other.push_block(&mut ring, &mut other_watch, 97, false),
        PushStep::Done(Ok(()))
    ));

    let mut rest = Vec::new();
    drainer.drain(&mut ring, &mut rest);
    rest.sort_unstable();
    assert_eq!(rest, vec![97, 98, 99, 100]);
}

#[test]
fn a_recycled_park_slot_advertises_nothing_from_its_last_holder() {
    let mut ring = RingBuffer::<u64, Cfg<2, 128, 1>>::new(Capacity::exact(4));
    let (mut producer, mut holder) = ring.split();
    let mut drainer = holder.clone(&mut ring);
    let mut watch = ring.watch_backstop_producer();
    for val in 0..4 {
        producer.push(&mut ring, val).unwrap();
    }
    let held = holder.pop_ref(&mut ring).unwrap();
    assert_eq!(*held.deref(&ring), 0);
    assert_eq!(drainer.pop(&mut ring), Some(1));
    assert_eq!(drainer.pop(&mut ring), Some(2));

    producer.push(&mut ring, 99).unwrap();
    assert!(producer.push(&mut ring, 100).is_err(), "pinned to slot 0");
    assert!(matches!(
        producer.push_block(&mut ring, &mut watch, 100, false),
        PushStep::Park(100)
    ));
    assert!(ring.announced(0).is_some(), "the sleeper has announced its batch");

    held.drop(&mut ring);
    producer.woke(&mut ring, &mut watch, false);
    assert_eq!(ring.announced(0), None);
    assert!(matches!(
        producer.push_block(&mut ring, &mut watch, 100, false),
        PushStep::Done(Ok(()))
    ));
    producer.drop(&mut ring).unwrap();
    assert_eq!(ring.announced(0), None);
}

#[test]
fn a_release_no_producer_reserved_goes_to_one_that_can_use_it() {
    let mut ring = RingBuffer::<u64, Cfg<2, 128, 1>>::new(Capacity::exact(4));
    let (mut producer, mut holder) = ring.split();
    let mut refilling = producer.clone(&mut ring);
    let mut drainer = holder.clone(&mut ring);
    let mut watch = ring.watch_backstop_producer();
    let mut refill_watch = ring.watch_backstop_producer();

    producer.push(&mut ring, 0).unwrap();
    producer.push(&mut ring, 1).unwrap();
    refilling.push(&mut ring, 2).unwrap();
    refilling.push(&mut ring, 3).unwrap();

    let held = holder.pop_ref(&mut ring).unwrap();
    assert_eq!(*held.deref(&ring), 0);
    assert_eq!(drainer.pop(&mut ring), Some(1));

    producer.push(&mut ring, 99).unwrap();
    assert!(producer.push(&mut ring, 100).is_err(), "pinned to slot 0");
    assert_eq!(producer.park_slot(), ParkSlot::Leased(0));
    assert!(matches!(
        producer.push_block(&mut ring, &mut watch, 100, false),
        PushStep::Park(100)
    ));
    assert!(matches!(
        refilling.push_block(&mut ring, &mut refill_watch, 101, false),
        PushStep::Park(101)
    ));
    assert_eq!(ring.parked_producer_count(), 2);

    // The pinned producer declines; the cursor points at it all the same.
    assert_eq!(drainer.pop(&mut ring), Some(2));
    assert_eq!(ring.parked_producer_count(), 1);
    assert!(ring.producer_is_armed(producer.park_slot()));
    refilling.woke(&mut ring, &mut refill_watch, false);
    assert!(matches!(
        refilling.push_block(&mut ring, &mut refill_watch, 101, false),
        PushStep::Done(Ok(()))
    ));

    held.drop(&mut ring);
    producer.woke(&mut ring, &mut watch, false);
    assert!(matches!(
        producer.push_block(&mut ring, &mut watch, 100, false),
        PushStep::Done(Ok(()))
    ));

    let mut rest = Vec::new();
    drainer.drain(&mut ring, &mut rest);
    rest.sort_unstable();
    assert_eq!(rest, vec![3, 99, 100, 101]);
}

#[test]
fn producers_blocked_by_a_full_ring_can_absorb_each_others_wakes() {
    let mut ring = RingBuffer::<u64, Cfg<1, 128, 1>>::new(Capacity::exact(4));
    let (mut producer, mut consumer) = ring.split();
    let mut second = producer.clone(&mut ring);
    let mut watch = ring.watch_backstop_producer();
    let mut second_watch = ring.watch_backstop_producer();
    for val in 0..4u64 {
        producer.push(&mut ring, val).unwrap();
    }
    assert!(matches!(
        producer.push_block(&mut ring, &mut watch, 100, false),
        PushStep::Park(100)
    ));
    assert!(matches!(
        second.push_block(&mut ring, &mut second_watch, 101, false),
        PushStep::Park(101)
    ));
    assert_eq!(ring.parked_producer_count(), 2);

    // One pop, one freed position, one wake.
    assert_eq!(consumer.pop(&mut ring), Some(0));
    assert_eq!(ring.parked_producer_count(), 1);
    producer.woke(&mut ring, &mut watch, false);
    assert!(matches!(
        producer.push_block(&mut ring, &mut watch, 100, false),
        PushStep::Done(Ok(()))
    ));

    for expected in [1, 2, 3] {
        assert_eq!(consumer.pop(&mut ring), Some(expected));
    }
    second.woke(&mut ring, &mut second_watch, false);
    assert!(matches!(
        second.push_block(&mut ring, &mut second_watch, 101, false),
        PushStep::Done(Ok(()))
    ));
    assert!(!ring.backstop_stats().saw_unexplained_rescue());
}

#[test]
fn push_block_completes_with_more_producers_than_park_slots() {
    let mut ring = RingBuffer::<usize, Cfg<1, 128, 1>>::new(Capacity::exact(4));
    let (mut producer, mut consumer) = ring.split();
    for i in 0..4 {
        producer.push(&mut ring, i).unwrap();
    }
    let mut handles = Vec::new();
    for _ in 1..PARK_SLOTS {
        handles.push(producer.clone(&mut ring));
    }
    let mut surplus = producer.clone(&mut ring);
    assert_eq!(surplus.park_slot(), ParkSlot::Slotless);
    let mut watch = ring.watch_backstop_producer();
    assert!(matches!(surplus.push_block(&mut ring, &mut watch, 9, false), PushStep::Park(9)));
    assert_eq!(consumer.pop(&mut ring), Some(0));
    assert!(ring.take_producer_overflow_unparks());
    surplus.woke(&mut ring, &mut watch, false);
    assert!(matches!(surplus.push_block(&mut ring, &mut watch, 9, false), PushStep::Done(Ok(()))));
}

#[test]
fn pop_block_completes_with_more_consumers_than_park_slots() {
    let mut ring = RingBuffer::<usize>::new(Capacity::exact(4));
    let (mut producer, consumer) = ring.split();
    let mut handles = Vec::new();
    for _ in 1..PARK_SLOTS {
        handles.push(consumer.clone(&mut ring));
    }
    let mut surplus = consumer.clone(&mut ring);
    assert_eq!(surplus.park_slot(), ParkSlot::Slotless);
    let mut watch = ring.watch_backstop_consumer();
    assert!(matches!(surplus.pop_block(&mut ring, &mut watch, false), PopStep::Park));
    producer.push(&mut ring, 5).unwrap();
    assert!(ring.take_consumer_overflow_unparks());
    surplus.woke(&mut ring, &mut watch, false);
    assert!(matches!(surplus.pop_block(&mut ring, &mut watch, false), PopStep::Done(Some(5))));
}

#[test]
fn mpmc_pop_block_returns_none_on_close() {
    let mut ring = RingBuffer::<u32>::new(Capacity::exact(4));
    let (p, mut c) = ring.split();
    let mut watch = ring.watch_backstop_consumer();
    assert!(matches!(c.pop_block(&mut ring, &mut watch, true), PopStep::Spin));
    assert!(matches!(c.pop_block(&mut ring, &mut watch, false), PopStep::Park));
    p.drop(&mut ring).unwrap();
    assert!(ring.take_consumer_unpark(0));
    c.woke(&mut ring, &mut watch, false);
    assert!(matches!(c.pop_block(&mut ring, &mut watch, false), PopStep::Done(None)));
}

#[test]
fn mpmc_push_block_returns_err_on_consumer_close() {
    let mut ring = RingBuffer::<u32>::new(Capacity::exact(4));
    let (mut p, c) = ring.split();
    let mut watch = ring.watch_backstop_producer();
    for i in 0..4 {
        p.push(&mut ring, i).unwrap();
    }
    assert!(matches!(p.push_block(&mut ring, &mut watch, 99, true), PushStep::Spin(99)));
    assert!(matches!(p.push_block(&mut ring, &mut watch, 99, false), PushStep::Park(99)));
    c.drop(&mut ring);
    assert!(ring.take_producer_unpark(0));
    p.woke(&mut ring, &mut watch, false);
    assert!(matches!(
        p.push_block(&mut ring, &mut watch, 99, false),
        PushStep::Done(Err(99))
    ));
    assert!(matches!(p.reserve_block(&mut ring, &mut watch, false), ReserveStep::Done(None)));
}

#[test]
fn mpmc_reserve_block_unblocks_on_pop() {
    let mut ring = RingBuffer::<u32>::new(Capacity::exact(4));
    let (mut p, mut c) = ring.split();
    let mut watch = ring.watch_backstop_producer();
    for i in 0..4 {
        p.push(&mut ring, i).unwrap();
    }
    assert!(p.reserve(&mut ring).is_none());
    assert!(matches!(p.reserve_block(&mut ring, &mut watch, true), ReserveStep::Spin));
    assert!(matches!(p.reserve_block(&mut ring, &mut watch, false), ReserveStep::Park));
    assert!(c.pop(&mut ring).is_some());
    assert!(ring.take_producer_unpark(0));
    p.woke(&mut ring, &mut watch, false);
    match p.reserve_block(&mut ring, &mut watch, false) {
        ReserveStep::Done(Some(writer)) => writer.write(&mut ring, 99).commit(&mut ring),
        _ => panic!("the freed slot is there to take"),
    }
    let mut got = Vec::new();
    c.drain(&mut ring, &mut got);
    assert_eq!(got.len(), 4);
    assert!(got.contains(&99));
}

#[test]
fn mpmc_pop_ref_block_wakes_on_push() {
    let mut ring = RingBuffer::<u32>::new(Capacity::exact(4));
    let (mut p, mut c) = ring.split();
    let mut watch = ring.watch_backstop_consumer();
    assert!(matches!(c.pop_ref_block(&mut ring, &mut watch, false), PopStep::Park));
    p.push(&mut ring, 7).unwrap();
    c.woke(&mut ring, &mut watch, false);
    match c.pop_ref_block(&mut ring, &mut watch, false) {
        PopStep::Done(Some(reader)) => assert_eq!(reader.drop(&mut ring), 7),
        _ => panic!("the value is there to take"),
    }
}

#[test]
fn mpmc_drain_block_drains_to_close() {
    let mut ring = RingBuffer::<u32>::new(Capacity::exact(4));
    let (mut p, mut c) = ring.split();
    let mut watch = ring.watch_backstop_consumer();
    let mut got = Vec::new();
    for i in 0..3u32 {
        p.push(&mut ring, i).unwrap();
    }
    let (n, step) = c.drain_block(&mut ring, &mut watch, &mut got, false);
    assert_eq!((n, step), (3, DrainStep::Park));
    for i in 100..103u32 {
        p.push(&mut ring, i).unwrap();
    }
    p.drop(&mut ring).unwrap();
    c.woke(&mut ring, &mut watch, false);
    let (n, step) = c.drain_block(&mut ring, &mut watch, &mut got, false);
    assert_eq!((n, step), (3, DrainStep::Done));
    got.sort_unstable();
    assert_eq!(got, vec![0, 1, 2, 100, 101, 102]);
}

#[test]
fn mpmc_drain_wakes_all_parked_producers() {
    let mut ring = RingBuffer::<u32, Cfg<1, 128, 1>>::new(Capacity::exact(4));
    let (mut p, mut c) = ring.split();
    for i in 0..4 {
        p.push(&mut ring, i).unwrap();
    }
    for tid in 0..4 {
        let mut sleeper = p.clone(&mut ring);
        let mut watch = ring.watch_backstop_producer();
        assert!(matches!(
            sleeper.push_block(&mut ring, &mut watch, 1000 + tid, false),
            PushStep::Park(_)
        ));
    }
    assert_eq!(ring.parked_producer_count(), 4);
    assert_eq!(c.drain(&mut ring, &mut Vec::new()), 4);
    assert_eq!(ring.parked_producer_count(), 0);
    for slot in 1..5 {
        assert!(ring.take_producer_unpark(slot));
    }
}

#[test]
fn mpmc_async_pop_is_polled_again_after_a_push() {
    let mut ring = RingBuffer::<u64>::new(Capacity::exact(4));
    let (mut p, mut c) = ring.split();
    assert!(matches!(c.pop_async(&mut ring), PopPoll::Pending));
    p.push(&mut ring, 3).unwrap();
    assert!(ring.take_consumer_waker(0));
    assert!(!ring.take_consumer_waker(0));
    assert!(matches!(c.pop_async(&mut ring), PopPoll::Ready(Some(3))));
    assert!(matches!(c.pop_async(&mut ring), PopPoll::Pending));
    p.drop(&mut ring).unwrap();
    assert!(ring.take_consumer_waker(0));
    assert!(matches!(c.pop_async(&mut ring), PopPoll::Ready(None)));
}

#[test]
fn mpmc_async_push_returns_err_on_consumer_close() {
    let mut ring = RingBuffer::<u64>::new(Capacity::exact(4));
    let (mut p, mut c) = ring.split();
    for i in 0..4 {
        p.push(&mut ring, i).unwrap();
    }
    assert!(matches!(p.push_async(&mut ring, 99), PushPoll::Pending(99)));
    assert_eq!(c.pop(&mut ring), Some(0));
    assert!(ring.take_producer_waker(0));
    assert!(matches!(p.push_async(&mut ring, 99), PushPoll::Ready(Ok(()))));
    assert!(matches!(p.push_async(&mut ring, 98), PushPoll::Pending(98)));
    c.drop(&mut ring);
    assert!(ring.take_producer_waker(0));
    assert!(matches!(p.push_async(&mut ring, 98), PushPoll::Ready(Err(98))));
}

#[test]
fn a_cancelled_poll_is_owed_nothing() {
    let mut ring = RingBuffer::<u64>::new(Capacity::exact(4));
    let (mut p, mut c) = ring.split();
    assert!(matches!(c.pop_async(&mut ring), PopPoll::Pending));
    c.cancel_async(&mut ring);
    p.push(&mut ring, 1).unwrap();
    assert!(!ring.take_consumer_waker(0));
}

#[test]
fn producer_drop_completes_after_consumers_are_gone() {
    let mut ring = RingBuffer::<u64>::new(Capacity::exact(4));
    let (mut p, c) = ring.split();
    for i in 0..4 {
        p.push(&mut ring, i).unwrap();
    }
    c.drop(&mut ring);
    assert!(p.drop(&mut ring).is_ok());
    assert_eq!(ring.drop(), vec![0, 1, 2, 3]);
}

#[test]
fn producer_drop_with_reservation_completes_after_consumers_are_gone() {
    let mut ring = RingBuffer::<u64>::new(Capacity::exact(4));
    let (mut p, c) = ring.split();
    for i in 0..4 {
        p.push(&mut ring, i).unwrap();
    }
    assert!(p.reserve(&mut ring).is_none());
    c.drop(&mut ring);
    assert!(p.drop(&mut ring).is_ok());
}

/// A producer whose reserved position is still being read has to come
/// back once it is released.
#[test]
fn a_departing_producer_waits_for_the_reader_of_its_position() {
    let mut ring = RingBuffer::<u64, Cfg<2, 128, 1>>::new(Capacity::exact(4));
    let (mut producer, mut holder) = ring.split();
    let mut filler = producer.clone(&mut ring);
    let mut drainer = holder.clone(&mut ring);
    producer.push(&mut ring, 0).unwrap();
    producer.push(&mut ring, 1).unwrap();
    filler.push(&mut ring, 2).unwrap();
    filler.push(&mut ring, 3).unwrap();
    let held = holder.pop_ref(&mut ring).unwrap();
    assert_eq!(drainer.pop(&mut ring), Some(1));
    assert_eq!(drainer.pop(&mut ring), Some(2));
    producer.push(&mut ring, 99).unwrap();
    assert!(producer.push(&mut ring, 100).is_err());

    let producer = match producer.drop(&mut ring) {
        Err(waiting) => waiting,
        Ok(()) => panic!("the position is still being read"),
    };
    held.drop(&mut ring);
    assert!(producer.drop(&mut ring).is_ok());
    // The abandoned position delivers nothing and does not block the lap.
    assert_eq!(drainer.pop(&mut ring), Some(3));
    assert_eq!(drainer.pop(&mut ring), Some(99));
    assert_eq!(drainer.pop(&mut ring), None);
    for val in 10..14 {
        filler.push(&mut ring, val).unwrap();
    }
    let mut got = Vec::new();
    drainer.drain(&mut ring, &mut got);
    got.sort_unstable();
    assert_eq!(got, vec![10, 11, 12, 13]);
}

#[test]
fn snapshots_show_the_words_of_the_slots() {
    let mut ring = RingBuffer::<u64>::new(Capacity::exact(4));
    let (mut p, mut c) = ring.split();
    let (claim, ready, done) = ring.debug_snapshot();
    assert_eq!((claim, ready, done), (0, vec![0, 1, 2, 3], vec![0, 1, 2, 3]));
    p.push(&mut ring, 7).unwrap();
    let (claim, ready, _) = ring.debug_snapshot();
    assert_eq!((claim, ready), (4, vec![1, 1, 2, 3]));
    assert_eq!(c.approx_len(&ring), 4);
    assert_eq!(c.pop(&mut ring), Some(7));
    let (_, ready, done) = ring.debug_snapshot();
    assert_eq!((ready, done), (vec![2, 1, 2, 3], vec![4, 1, 2, 3]));
    assert_eq!(ring.debug_park_snapshot(), (0, 0));
    let mut watch = ring.watch_backstop_consumer();
    assert!(matches!(c.pop_block(&mut ring, &mut watch, false), PopStep::Park));
    let snapshot = RingSnapshot::take(&ring);
    assert_eq!(snapshot.claim, 4);
    assert_eq!(snapshot.ready, vec![2, 1, 2, 3]);
    assert_eq!((snapshot.producer_park, snapshot.consumer_park), (0, 1));
    assert!(snapshot.awaited.is_empty());
}

#[test]
fn a_snapshot_lists_what_the_sleepers_wait_for() {
    let mut ring = RingBuffer::<u64, Cfg<1, 128, 1>>::new(Capacity::exact(4));
    let (mut p, _c) = ring.split();
    let mut second = p.clone(&mut ring);
    let mut watch = ring.watch_backstop_producer();
    for val in 0..4 {
        p.push(&mut ring, val).unwrap();
    }
    assert!(matches!(second.push_block(&mut ring, &mut watch, 9, false), PushStep::Park(9)));
    let snapshot = RingSnapshot::take(&ring);
    assert_eq!(snapshot.producer_park, 0b10);
    assert_eq!(snapshot.awaited, vec![(1, None)]);
}

/// A sleeper that comes round by itself while work is visible is given a
/// moment; a wake that comes within it counts as late, and not as a
/// rescue.
#[test]
fn a_wake_within_the_grace_is_late_and_no_rescue() {
    let mut ring = RingBuffer::<u64>::new(Capacity::exact(4));
    let (mut producer, mut first) = ring.split();
    let mut second = first.clone(&mut ring);
    let mut first_watch = ring.watch_backstop_consumer();
    let mut second_watch = ring.watch_backstop_consumer();

    assert!(matches!(first.pop_block(&mut ring, &mut first_watch, false), PopStep::Park));
    assert!(matches!(second.pop_block(&mut ring, &mut second_watch, false), PopStep::Park));
    assert!(!second.deserves_grace(&ring, &second_watch), "nothing is there to wake for");
    producer.push(&mut ring, 7).unwrap();
    assert!(first.wake_arrived(&ring));
    assert!(!first.deserves_grace(&ring, &first_watch), "its wake came in time");
    assert!(!second.wake_arrived(&ring));
    assert!(second.deserves_grace(&ring, &second_watch));
    producer.push(&mut ring, 8).unwrap();
    assert!(second.wake_arrived(&ring));
    second.woke_late(&mut ring, &mut second_watch);
    assert!(matches!(
        second.pop_block(&mut ring, &mut second_watch, false),
        PopStep::Done(Some(_))
    ));

    let stats = ring.backstop_stats();
    assert_eq!(stats.wakes_arriving_after_timeout, 1);
    assert_eq!(stats.unwoken_timeouts, 0);
    assert_eq!(stats.rescues, 0);
}

#[test]
fn a_producer_can_be_woken_late_as_well() {
    let mut ring = RingBuffer::<u64>::new(Capacity::exact(4));
    let (mut first, mut consumer) = ring.split();
    let mut second = first.clone(&mut ring);
    for n in 0..4 {
        first.push(&mut ring, n).unwrap();
    }
    let mut first_watch = ring.watch_backstop_producer();
    let mut second_watch = ring.watch_backstop_producer();
    assert!(matches!(first.push_block(&mut ring, &mut first_watch, 4, false), PushStep::Park(4)));
    assert!(matches!(second.push_block(&mut ring, &mut second_watch, 5, false), PushStep::Park(5)));
    assert!(!second.deserves_grace(&ring, &second_watch));
    consumer.pop(&mut ring).unwrap();
    assert!(first.wake_arrived(&ring));
    assert!(second.deserves_grace(&ring, &second_watch));
    assert!(!second.wake_arrived(&ring));
    consumer.pop(&mut ring).unwrap();
    assert!(second.wake_arrived(&ring));
    second.woke_late(&mut ring, &mut second_watch);
    assert!(matches!(
        second.push_block(&mut ring, &mut second_watch, 5, false),
        PushStep::Done(Ok(()))
    ));
    assert_eq!(ring.backstop_stats().wakes_arriving_after_timeout, 1);
    assert_eq!(ring.backstop_stats().rescues, 0);
}
