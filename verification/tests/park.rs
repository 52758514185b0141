use quetzalcoatl::common::park::WakeSet;
use quetzalcoatl::common::park_registry::{ParkRegistry, ParkSlot, PARK_SLOTS};
use quetzalcoatl::common::sole_waiter::SoleWaiter;
use quetzalcoatl::common::wake_delivery::WakeDelivery;

#[test]
fn wakes_go_round() {
    let mut set = WakeSet::new();
    for slot in [3, 10, 63] {
        set.arm(ParkSlot::Leased(slot));
    }
    set.wake_one();
    assert!(set.take_unpark(3));
    // The first sleeps again at once; the others come before it.
    set.arm(ParkSlot::Leased(3));
    set.wake_one();
    assert!(set.take_unpark(10));
    set.wake_one();
    assert!(set.take_unpark(63));
    set.wake_one();
    assert!(set.take_unpark(3));
    set.wake_one();
    for slot in 0..PARK_SLOTS {
        assert!(!set.take_unpark(slot));
    }
}

#[test]
fn a_wake_of_several_stops_when_nobody_is_left() {
    let mut set = WakeSet::new();
    for slot in 0..3 {
        set.arm(ParkSlot::Leased(slot));
    }
    set.wake_n(2);
    assert!(set.take_unpark(0));
    assert!(set.take_unpark(1));
    assert!(!set.take_unpark(2));
    assert_eq!(set.others_parked(ParkSlot::Leased(0)), 1);
    set.wake_n(5);
    assert!(set.take_unpark(2));
    assert_eq!(set.others_parked(ParkSlot::Leased(0)), 0);
}

#[test]
fn a_flush_reaches_everybody() {
    let mut set = WakeSet::new();
    for slot in 0..PARK_SLOTS {
        set.arm(ParkSlot::Leased(slot));
    }
    set.arm(ParkSlot::Slotless);
    set.flush();
    for slot in 0..PARK_SLOTS {
        assert!(set.take_unpark(slot));
        assert!(!set.is_armed(ParkSlot::Leased(slot)));
    }
    assert!(set.take_overflow());
    assert!(!set.take_overflow());
}

#[test]
fn waiters_without_a_slot_are_woken_together() {
    let mut set = WakeSet::new();
    set.wake_one();
    assert!(!set.take_overflow());
    set.arm(ParkSlot::Slotless);
    set.arm(ParkSlot::Slotless);
    set.disarm(ParkSlot::Slotless);
    set.wake_n(0);
    assert!(!set.take_overflow());
    set.wake_n(1);
    assert!(set.take_overflow());
}

#[test]
fn a_sleep_tells_how_far_its_wake_came() {
    let mut set = WakeSet::new();
    let slot = ParkSlot::Leased(5);
    set.arm(slot);
    assert_eq!(WakeDelivery::sample(&set, slot), WakeDelivery::Untouched);
    set.wake = 0;
    assert_eq!(WakeDelivery::sample(&set, slot), WakeDelivery::InFlight);
    set.disarm(slot);
    assert_eq!(WakeDelivery::sample(&set, slot), WakeDelivery::Delivered);
    assert_eq!(WakeDelivery::sample(&set, ParkSlot::Slotless), WakeDelivery::Slotless);
}

#[test]
fn leases_are_exclusive_and_come_back() {
    let mut registry = ParkRegistry::new();
    for slot in 0..PARK_SLOTS {
        assert_eq!(registry.lease(), ParkSlot::Leased(slot));
    }
    assert_eq!(registry.lease(), ParkSlot::Slotless);
    registry.release(ParkSlot::Slotless);
    registry.release(ParkSlot::Leased(17));
    assert_eq!(registry.lease(), ParkSlot::Leased(17));
    assert_eq!(registry.lease(), ParkSlot::Slotless);
}

#[test]
fn a_sole_waiter_is_woken_both_ways() {
    let mut waiter = SoleWaiter::new();
    waiter.wake();
    assert!(!waiter.take_unpark());
    waiter.arm();
    waiter.register();
    waiter.wake();
    assert!(waiter.take_unpark());
    assert!(waiter.take_waker());
    assert!(!waiter.take_unpark());
    waiter.arm();
    waiter.disarm();
    waiter.register();
    waiter.deregister();
    waiter.wake();
    assert!(!waiter.take_unpark());
    assert!(!waiter.take_waker());
}
