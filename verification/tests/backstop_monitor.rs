use quetzalcoatl::common::park::WakeSet;
use quetzalcoatl::common::park_registry::ParkSlot;
use quetzalcoatl::common::wake_delivery::WakeDelivery;
use quetzalcoatl::mpmc::backstop_monitor::{
    BackstopMonitor, BackstopStats, BackstopWatch, WaiterSide,
};

/// Drives a watch through one park cycle, so the counter logic is
/// tested without threads, rings or timing.
struct Cycle {
    monitor: BackstopMonitor,
}

impl Cycle {
    fn new() -> Self {
        Self {
            monitor: BackstopMonitor::new(),
        }
    }

    fn watch(&self, side: WaiterSide) -> BackstopWatch {
        BackstopWatch::new(side)
    }
}

/// A wake that ends a park and leaves the waiter with nothing is
/// futile; whether it was *blind* is the question of whether work
/// was visible when it gave up, and both answers must be
/// recordable.
#[test]
fn a_futile_wake_is_blind_only_when_work_was_visible() {
    let mut cycle = Cycle::new();
    let mut watch = cycle.watch(WaiterSide::Consumer);

    watch.about_to_park(&mut cycle.monitor, 0, false);
    watch.parked(&mut cycle.monitor, WakeDelivery::Delivered, 0, false);
    watch.about_to_park(&mut cycle.monitor, 0, true);

    let stats = cycle.monitor.stats();
    assert_eq!(stats.futile_wakes, 1);
    assert_eq!(
        stats.blind_futile_wakes, 1,
        "work was visible when the waiter re-parked: {stats:?}"
    );
}

#[test]
fn a_futile_wake_on_an_empty_ring_is_not_blind() {
    let mut cycle = Cycle::new();
    let mut watch = cycle.watch(WaiterSide::Consumer);

    watch.about_to_park(&mut cycle.monitor, 0, false);
    watch.parked(&mut cycle.monitor, WakeDelivery::Delivered, 0, false);
    watch.about_to_park(&mut cycle.monitor, 0, false);

    let stats = cycle.monitor.stats();
    assert_eq!(stats.futile_wakes, 1);
    assert_eq!(
        stats.blind_futile_wakes, 0,
        "nothing was there to be missed: {stats:?}"
    );
}

/// Work being visible is only interesting when a wake was wasted.
/// A park that ends on the timeout is not a futile wake, so it
/// must not be counted as a blind one however much work is around.
#[test]
fn a_timeout_with_work_visible_is_not_a_blind_futile_wake() {
    let mut cycle = Cycle::new();
    let mut watch = cycle.watch(WaiterSide::Consumer);

    watch.about_to_park(&mut cycle.monitor, 0, false);
    watch.parked(&mut cycle.monitor, WakeDelivery::Untouched, 0, true);
    watch.about_to_park(&mut cycle.monitor, 0, true);

    let stats = cycle.monitor.stats();
    assert_eq!(stats.unwoken_timeouts, 1);
    assert_eq!(stats.futile_wakes, 0);
    assert_eq!(
        stats.blind_futile_wakes, 0,
        "no wake was spent, so nothing was wasted: {stats:?}"
    );
}

/// A waiter that uses its wake has not suffered a futile one, so
/// the visibility flag on its next park must not be attributed to
/// the wake it already spent.
#[test]
fn progress_clears_the_pending_wake_before_the_next_park() {
    let mut cycle = Cycle::new();
    let mut watch = cycle.watch(WaiterSide::Producer);

    watch.about_to_park(&mut cycle.monitor, 0, false);
    watch.parked(&mut cycle.monitor, WakeDelivery::Delivered, 0, false);
    watch.made_progress(&mut cycle.monitor);
    watch.about_to_park(&mut cycle.monitor, 0, true);

    let stats = cycle.monitor.stats();
    assert_eq!(stats.futile_wakes, 0);
    assert_eq!(stats.blind_futile_wakes, 0);
}

/// A taken bit splits the rescue into the narrower population but
/// must not remove it from the sole-waiter count.
#[test]
fn a_rescue_with_a_taken_bit_still_counts_as_a_sole_waiters() {
    let mut cycle = Cycle::new();
    let mut watch = cycle.watch(WaiterSide::Consumer);

    watch.about_to_park(&mut cycle.monitor, 0, false);
    watch.parked(&mut cycle.monitor, WakeDelivery::InFlight, 0, true);
    watch.made_progress(&mut cycle.monitor);

    let stats = cycle.monitor.stats();
    assert_eq!(stats.rescues, 1);
    assert_eq!(
        stats.sole_waiter_rescues, 1,
        "a stolen wake bit reads exactly like a late one: {stats:?}"
    );
    assert_eq!(stats.bit_taken_rescues, 1);
    assert_eq!(stats.untouched_sole_waiter_rescues(), 0);
    assert!(stats.saw_unexplained_rescue(), "{stats:?}");
}

/// The other population: nobody had touched this waiter's bit at
/// all, and it still had work waiting.
#[test]
fn a_rescue_with_an_untouched_bit_is_the_narrower_population() {
    let mut cycle = Cycle::new();
    let mut watch = cycle.watch(WaiterSide::Consumer);

    watch.about_to_park(&mut cycle.monitor, 0, false);
    watch.parked(&mut cycle.monitor, WakeDelivery::Untouched, 0, true);
    watch.made_progress(&mut cycle.monitor);

    let stats = cycle.monitor.stats();
    assert_eq!(stats.sole_waiter_rescues, 1);
    assert_eq!(stats.bit_taken_rescues, 0);
    assert_eq!(
        stats.untouched_sole_waiter_rescues(),
        1,
        "no peer had begun to wake this waiter: {stats:?}"
    );
}

/// A slotless waiter can never be found by a peer, so its timeouts
/// are structural. Counting them as unexplained lost wakes would
/// be a permanent false positive.
#[test]
fn a_slotless_waiters_rescue_is_not_evidence_of_a_lost_wake() {
    let mut cycle = Cycle::new();
    let mut watch = cycle.watch(WaiterSide::Consumer);

    watch.about_to_park(&mut cycle.monitor, 0, false);
    watch.parked(&mut cycle.monitor, WakeDelivery::Slotless, 0, true);
    watch.made_progress(&mut cycle.monitor);

    let stats = cycle.monitor.stats();
    assert_eq!(stats.unwoken_timeouts, 1, "the sleep did end on the clock");
    assert_eq!(
        stats.slotless_rescues, 1,
        "a waiter with no bit has no wake to lose: {stats:?}"
    );
    assert_eq!(
        stats.sole_waiter_rescues, 0,
        "structural, not a defect: {stats:?}"
    );
}

/// The observation must survive to the rescue that follows it: a
/// waiter can time out, loop, and only then find work.
#[test]
fn a_taken_bit_is_remembered_across_a_later_timeout() {
    let mut cycle = Cycle::new();
    let mut watch = cycle.watch(WaiterSide::Consumer);

    watch.about_to_park(&mut cycle.monitor, 0, false);
    watch.parked(&mut cycle.monitor, WakeDelivery::InFlight, 0, true);
    watch.about_to_park(&mut cycle.monitor, 0, false);
    watch.parked(&mut cycle.monitor, WakeDelivery::Untouched, 0, true);
    watch.made_progress(&mut cycle.monitor);

    let stats = cycle.monitor.stats();
    assert_eq!(stats.sole_waiter_rescues, 1);
    assert_eq!(stats.bit_taken_rescues, 1, "{stats:?}");
}

/// A waiter that parks with work already visible was not owed a
/// wake, so its rescue is explained without one going missing.
/// It stays in the raw sole-waiter count and leaves the
/// unexplained residual.
#[test]
fn a_sole_waiter_that_parked_blind_is_an_explained_rescue() {
    let mut cycle = Cycle::new();
    let mut watch = cycle.watch(WaiterSide::Consumer);

    watch.about_to_park(&mut cycle.monitor, 0, true);
    watch.parked(&mut cycle.monitor, WakeDelivery::Untouched, 0, true);
    watch.made_progress(&mut cycle.monitor);

    let stats = cycle.monitor.stats();
    assert_eq!(stats.sole_waiter_rescues, 1);
    assert_eq!(stats.blind_sole_waiter_rescues, 1, "{stats:?}");
    assert_eq!(
        stats.unexplained_sole_waiter_rescues(),
        0,
        "the item was there before the park; no wake was owed: {stats:?}"
    );
}

/// Nothing before the sleep, work the instant it ended, nobody
/// else parked, bit untouched: every benign explanation is ruled
/// out, and this is the residual.
#[test]
fn a_sole_waiter_whose_work_arrived_during_the_sleep_is_unexplained() {
    let mut cycle = Cycle::new();
    let mut watch = cycle.watch(WaiterSide::Consumer);

    watch.about_to_park(&mut cycle.monitor, 0, false);
    watch.parked(&mut cycle.monitor, WakeDelivery::Untouched, 0, true);
    watch.made_progress(&mut cycle.monitor);

    let stats = cycle.monitor.stats();
    assert_eq!(stats.blind_sole_waiter_rescues, 0);
    assert_eq!(stats.late_sole_waiter_rescues, 0);
    assert_eq!(stats.waiting_sole_waiter_rescues, 1, "{stats:?}");
    assert_eq!(stats.unexplained_sole_waiter_rescues(), 1, "{stats:?}");
}

/// Work absent when the park returned: the timeout preceded the
/// work rather than rescuing the waiter from it. Still counted as
/// a rescue and a sole-waiter one, but explained.
#[test]
fn a_sole_waiter_whose_work_arrived_after_the_park_is_explained() {
    let mut cycle = Cycle::new();
    let mut watch = cycle.watch(WaiterSide::Consumer);

    watch.about_to_park(&mut cycle.monitor, 0, false);
    watch.parked(&mut cycle.monitor, WakeDelivery::Untouched, 0, false);
    watch.made_progress(&mut cycle.monitor);

    let stats = cycle.monitor.stats();
    assert_eq!(stats.sole_waiter_rescues, 1);
    assert_eq!(stats.late_sole_waiter_rescues, 1, "{stats:?}");
    assert_eq!(
        stats.unexplained_sole_waiter_rescues(),
        0,
        "nothing was there while the waiter slept: {stats:?}"
    );
}

/// The return-time sample is only taken when the park ended on
/// the clock: a delivered wake has no rescue to time, and the
/// closure is the cost of a ring scan.
#[test]
fn a_delivered_wake_does_not_sample_the_ring() {
    let mut cycle = Cycle::new();
    let mut watch = cycle.watch(WaiterSide::Consumer);
    let mut set = WakeSet::new();
    let slot = ParkSlot::Leased(0);
    set.arm(slot);
    set.wake_one();

    watch.about_to_park(&mut cycle.monitor, 0, false);
    watch.parked_at(
        &mut cycle.monitor,
        &set,
        slot,
        || panic!("a woken waiter must not pay for the sample"),
        || panic!("a woken waiter needs no grace"),
    );
}

/// A waker that claims the handle within the grace was in flight when the
/// sleep timed out, and the park is recorded as woken.
#[test]
fn a_wake_arriving_within_the_grace_is_not_a_rescue() {
    let mut cycle = Cycle::new();
    let mut watch = cycle.watch(WaiterSide::Consumer);
    let mut set = WakeSet::new();
    let slot = ParkSlot::Leased(0);
    set.arm(slot);

    watch.about_to_park(&mut cycle.monitor, 0, false);
    watch.parked_at(&mut cycle.monitor, &set, slot, || true, || true);
    watch.made_progress(&mut cycle.monitor);

    let stats = cycle.monitor.stats();
    assert_eq!(stats.wakes_arriving_after_timeout, 1);
    assert_eq!(stats.waiting_sole_waiter_rescues, 0);
    assert_eq!(stats.rescues, 0);
}

/// The grace must not invent a wake: with nobody coming, the park
/// stays a residual rescue.
#[test]
fn a_wake_that_never_arrives_is_still_the_residual() {
    let mut cycle = Cycle::new();
    let mut watch = cycle.watch(WaiterSide::Consumer);
    let mut set = WakeSet::new();
    let slot = ParkSlot::Leased(0);
    set.arm(slot);

    watch.about_to_park(&mut cycle.monitor, 0, false);
    watch.parked_at(&mut cycle.monitor, &set, slot, || true, || false);
    watch.made_progress(&mut cycle.monitor);

    let stats = cycle.monitor.stats();
    assert_eq!(stats.wakes_arriving_after_timeout, 0, "{stats:?}");
    assert_eq!(stats.waiting_sole_waiter_rescues, 1, "{stats:?}");
}

#[test]
fn an_unwoken_timeout_samples_the_ring_at_return() {
    let mut cycle = Cycle::new();
    let mut watch = cycle.watch(WaiterSide::Consumer);
    let mut set = WakeSet::new();
    let slot = ParkSlot::Leased(0);
    set.arm(slot);

    watch.about_to_park(&mut cycle.monitor, 0, false);
    watch.parked_at(&mut cycle.monitor, &set, slot, || true, || false);
    watch.made_progress(&mut cycle.monitor);

    let stats = cycle.monitor.stats();
    assert_eq!(stats.waiting_sole_waiter_rescues, 1, "{stats:?}");
}

#[test]
fn readings_sum_field_by_field() {
    let mut cycle = Cycle::new();
    let mut watch = cycle.watch(WaiterSide::Producer);
    watch.about_to_park(&mut cycle.monitor, 0, false);
    watch.parked(&mut cycle.monitor, WakeDelivery::Untouched, 0, true);
    watch.made_progress(&mut cycle.monitor);
    let one = cycle.monitor.stats();

    let mut total = BackstopStats::zero();
    total.add_assign(one);
    total.add_assign(one);

    assert_eq!(total.rescues, 2);
    assert_eq!(total.sole_waiter_rescues, 2);
    assert_eq!(total.producer_sole_waiter_rescues, 2);
    assert_eq!(total.unwoken_timeouts, 2);
}

#[test]
fn a_sole_waiter_rescue_is_attributed_to_its_side() {
    let mut cycle = Cycle::new();
    let mut producer = cycle.watch(WaiterSide::Producer);
    producer.about_to_park(&mut cycle.monitor, 0, false);
    producer.parked(&mut cycle.monitor, WakeDelivery::Untouched, 0, true);
    producer.made_progress(&mut cycle.monitor);

    let mut consumer = cycle.watch(WaiterSide::Consumer);
    consumer.about_to_park(&mut cycle.monitor, 0, false);
    consumer.parked(&mut cycle.monitor, WakeDelivery::Untouched, 0, true);
    consumer.made_progress(&mut cycle.monitor);

    let stats = cycle.monitor.stats();
    assert_eq!(stats.sole_waiter_rescues, 2);
    assert_eq!(stats.producer_sole_waiter_rescues, 1, "{stats:?}");
    assert_eq!(stats.consumer_sole_waiter_rescues(), 1, "{stats:?}");
}

/// The side split and the blindness split are independent axes.
#[test]
fn a_blind_futile_wake_is_attributed_to_its_side() {
    let mut cycle = Cycle::new();
    let mut producer = cycle.watch(WaiterSide::Producer);
    producer.about_to_park(&mut cycle.monitor, 0, false);
    producer.parked(&mut cycle.monitor, WakeDelivery::Delivered, 0, false);
    producer.about_to_park(&mut cycle.monitor, 0, true);

    let mut consumer = cycle.watch(WaiterSide::Consumer);
    consumer.about_to_park(&mut cycle.monitor, 0, false);
    consumer.parked(&mut cycle.monitor, WakeDelivery::Delivered, 0, false);
    consumer.about_to_park(&mut cycle.monitor, 0, true);

    let stats = cycle.monitor.stats();
    assert_eq!(stats.futile_wakes, 2);
    assert_eq!(stats.blind_futile_wakes, 2);
    assert_eq!(
        stats.producer_futile_wakes, 1,
        "only the producer's is the producer's: {stats:?}"
    );
    assert_eq!(
        stats.producer_blind_futile_wakes, 1,
        "the two splits are independent axes: {stats:?}"
    );
}

/// Over several watches each rescue follows a timeout of its own, and
/// what is left to explain is what was neither blind nor late.
#[test]
fn the_counters_of_several_watches_fit_together() {
    let mut cycle = Cycle::new();
    let mut waiting = cycle.watch(WaiterSide::Consumer);
    let mut blind = cycle.watch(WaiterSide::Producer);
    let mut late = cycle.watch(WaiterSide::Consumer);
    let mut idle = cycle.watch(WaiterSide::Consumer);

    waiting.about_to_park(&mut cycle.monitor, 0, false);
    blind.about_to_park(&mut cycle.monitor, 0, true);
    late.about_to_park(&mut cycle.monitor, 0, false);
    idle.about_to_park(&mut cycle.monitor, 0, false);
    waiting.parked(&mut cycle.monitor, WakeDelivery::InFlight, 0, true);
    blind.parked(&mut cycle.monitor, WakeDelivery::Untouched, 0, true);
    late.parked(&mut cycle.monitor, WakeDelivery::Untouched, 0, false);
    idle.parked(&mut cycle.monitor, WakeDelivery::Untouched, 0, false);
    waiting.made_progress(&mut cycle.monitor);
    blind.made_progress(&mut cycle.monitor);
    late.made_progress(&mut cycle.monitor);
    late.made_progress(&mut cycle.monitor);

    let stats = cycle.monitor.stats();
    assert_eq!(stats.unwoken_timeouts, 4);
    assert_eq!(stats.rescues, 3);
    assert_eq!(stats.sole_waiter_rescues, 3);
    assert_eq!(stats.blind_sole_waiter_rescues, 1);
    assert_eq!(stats.late_sole_waiter_rescues, 1);
    assert_eq!(stats.bit_taken_rescues, 1);
    assert_eq!(stats.unexplained_sole_waiter_rescues(), 1);
}
