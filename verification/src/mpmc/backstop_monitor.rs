//! Instrumentation for the park path.
//!
//! A waiter's park handle is claimed by whoever wakes it, so a handle
//! still armed after the park returns proves no peer delivered a wake:
//! an *unwoken timeout*. The diagnostic count is a *rescue*: an unwoken
//! timeout whose very next check found work. Rescues are an upper bound
//! on lost wakes. `sole_waiter_rescues` narrows them to those where no
//! other waiter on the side was parked at either end of the sleep, and
//! the timing split narrows these again to those whose work appeared
//! during the sleep.
//!
//! A *futile wake* is a park that a peer's wake genuinely ended, whose
//! waiter then found nothing to do and parked again. It separates "the
//! wake was lost" from "the wake was delivered to the wrong waiter".

use vstd::prelude::*;

use crate::common::park::WakeSet;
use crate::common::park_registry::ParkSlot;
use crate::common::wake_delivery::WakeDelivery;
use crate::mpmc::rescue_evidence::{Facts, RescueEvidence, RescueExplanation, RescueTiming};

verus! {

/// A reading of one ring's backstop counters.
#[derive(Debug, Clone, Copy, PartialEq, Eq, Structural)]
pub struct BackstopStats {
    /// Parks that ended without a peer's wake.
    pub unwoken_timeouts: u64,
    /// Unwoken timeouts whose next check found work waiting.
    pub rescues: u64,
    /// Rescues where no other waiter was parked on this side, so
    /// round-robin cannot explain the wake going elsewhere.
    pub sole_waiter_rescues: u64,
    /// Sole-waiter rescues suffered by producers specifically.
    pub producer_sole_waiter_rescues: u64,
    /// Sole-waiter rescues where work was already visible to the
    /// waiter when it parked: no wake was owed.
    pub blind_sole_waiter_rescues: u64,
    /// Sole-waiter rescues where work was *not* visible the instant
    /// the park returned: it arrived in the gap after the sleep.
    pub late_sole_waiter_rescues: u64,
    /// Sole-waiter rescues where work was absent before the sleep
    /// and present the instant it ended: the signature of a wake that
    /// went missing.
    pub waiting_sole_waiter_rescues: u64,
    /// Parks that looked like a missing wake, whose handle a waker then
    /// claimed within the grace. They leave the rescue counts.
    pub wakes_arriving_after_timeout: u64,
    /// Sole-waiter rescues where the waiter's wake bit had been
    /// cleared but no unpark ever arrived. Not an exoneration: a wake
    /// that was consumed without being delivered reads the same.
    pub bit_taken_rescues: u64,
    /// Rescues of a waiter holding no park slot. No peer can reach such
    /// a waiter, so they are excluded from the sole-waiter count.
    pub slotless_rescues: u64,
    /// Futile wakes where work was still visible to the waiter at
    /// the moment it gave up and parked again.
    pub blind_futile_wakes: u64,
    /// Blind futile wakes suffered by producers specifically.
    pub producer_blind_futile_wakes: u64,
    /// Futile wakes suffered by producers specifically. Only producers
    /// can be pinned to a position, so only theirs can be removed by
    /// routing a wake to the position it frees.
    pub producer_futile_wakes: u64,
    /// Parks that a peer's wake genuinely ended, but whose waiter
    /// then found nothing to do and parked again.
    pub futile_wakes: u64,
}

/// Which side of the ring a watched waiter sits on.
///
/// Producers can be pinned to a specific position; consumers take any
/// published slot. The distinction decides whether a futile wake is
/// something wake routing could have prevented.
#[derive(Clone, Copy, PartialEq, Eq, Debug, Structural)]
pub enum WaiterSide {
    Producer,
    Consumer,
}

/// A counter after one more event; it wraps.
pub open spec fn bumped(count: u64) -> u64 {
    if count == u64::MAX {
        0
    } else {
        (count + 1) as u64
    }
}

/// `bumped(count)` where `event` holds, else `count`.
pub open spec fn bumped_if(count: u64, event: bool) -> u64 {
    if event {
        bumped(count)
    } else {
        count
    }
}

fn bump(count: u64) -> (next: u64)
    ensures
        next == bumped(count),
{
    count.wrapping_add(1)
}

impl BackstopStats {
    /// The all-zero reading.
    pub open spec fn nothing() -> Self {
        BackstopStats {
            unwoken_timeouts: 0,
            rescues: 0,
            sole_waiter_rescues: 0,
            producer_sole_waiter_rescues: 0,
            blind_sole_waiter_rescues: 0,
            late_sole_waiter_rescues: 0,
            waiting_sole_waiter_rescues: 0,
            wakes_arriving_after_timeout: 0,
            bit_taken_rescues: 0,
            slotless_rescues: 0,
            blind_futile_wakes: 0,
            producer_blind_futile_wakes: 0,
            producer_futile_wakes: 0,
            futile_wakes: 0,
        }
    }

    /// This reading after one unwoken timeout.
    pub open spec fn with_timeout(self) -> Self {
        BackstopStats { unwoken_timeouts: bumped(self.unwoken_timeouts), ..self }
    }

    /// This reading after one wake that arrived within the grace.
    pub open spec fn with_late_wake(self) -> Self {
        BackstopStats {
            wakes_arriving_after_timeout: bumped(self.wakes_arriving_after_timeout),
            ..self
        }
    }

    /// This reading after the rescue of a waiter of `side`, of which
    /// `facts` are known. A slotless waiter's rescue is counted apart;
    /// of the others only those of a sole waiter are split further.
    pub open spec fn with_rescue(self, side: WaiterSide, facts: Facts) -> Self {
        let slotless: bool = facts.explanation == RescueExplanation::Slotless;
        let sole: bool = !slotless && facts.sole_waiter;
        BackstopStats {
            rescues: bumped(self.rescues),
            slotless_rescues: bumped_if(self.slotless_rescues, slotless),
            sole_waiter_rescues: bumped_if(self.sole_waiter_rescues, sole),
            producer_sole_waiter_rescues: bumped_if(
                self.producer_sole_waiter_rescues,
                sole && side == WaiterSide::Producer,
            ),
            blind_sole_waiter_rescues: bumped_if(
                self.blind_sole_waiter_rescues,
                sole && facts.when() == RescueTiming::Blind,
            ),
            late_sole_waiter_rescues: bumped_if(
                self.late_sole_waiter_rescues,
                sole && facts.when() == RescueTiming::Late,
            ),
            waiting_sole_waiter_rescues: bumped_if(
                self.waiting_sole_waiter_rescues,
                sole && facts.when() == RescueTiming::Waiting,
            ),
            bit_taken_rescues: bumped_if(
                self.bit_taken_rescues,
                sole && facts.explanation == RescueExplanation::BitTaken,
            ),
            ..self
        }
    }

    /// This reading after a wake that bought a waiter of `side` nothing.
    pub open spec fn with_futile_wake(self, side: WaiterSide, work_visible: bool) -> Self {
        let producer: bool = side == WaiterSide::Producer;
        BackstopStats {
            futile_wakes: bumped(self.futile_wakes),
            producer_futile_wakes: bumped_if(self.producer_futile_wakes, producer),
            blind_futile_wakes: bumped_if(self.blind_futile_wakes, work_visible),
            producer_blind_futile_wakes: bumped_if(
                self.producer_blind_futile_wakes,
                work_visible && producer,
            ),
            ..self
        }
    }

    /// The all-zero reading, for accumulating across rings.
    pub fn zero() -> (stats: Self)
        ensures
            stats == Self::nothing(),
    {
        BackstopStats {
            unwoken_timeouts: 0,
            rescues: 0,
            sole_waiter_rescues: 0,
            producer_sole_waiter_rescues: 0,
            blind_sole_waiter_rescues: 0,
            late_sole_waiter_rescues: 0,
            waiting_sole_waiter_rescues: 0,
            wakes_arriving_after_timeout: 0,
            bit_taken_rescues: 0,
            slotless_rescues: 0,
            blind_futile_wakes: 0,
            producer_blind_futile_wakes: 0,
            producer_futile_wakes: 0,
            futile_wakes: 0,
        }
    }

    /// Whether the sums of the two readings fit, field by field.
    pub open spec fn sum_fits(self, other: Self) -> bool {
        &&& self.unwoken_timeouts + other.unwoken_timeouts <= u64::MAX
        &&& self.rescues + other.rescues <= u64::MAX
        &&& self.sole_waiter_rescues + other.sole_waiter_rescues <= u64::MAX
        &&& self.producer_sole_waiter_rescues + other.producer_sole_waiter_rescues <= u64::MAX
        &&& self.blind_sole_waiter_rescues + other.blind_sole_waiter_rescues <= u64::MAX
        &&& self.late_sole_waiter_rescues + other.late_sole_waiter_rescues <= u64::MAX
        &&& self.waiting_sole_waiter_rescues + other.waiting_sole_waiter_rescues <= u64::MAX
        &&& self.wakes_arriving_after_timeout + other.wakes_arriving_after_timeout <= u64::MAX
        &&& self.bit_taken_rescues + other.bit_taken_rescues <= u64::MAX
        &&& self.slotless_rescues + other.slotless_rescues <= u64::MAX
        &&& self.blind_futile_wakes + other.blind_futile_wakes <= u64::MAX
        &&& self.producer_blind_futile_wakes + other.producer_blind_futile_wakes <= u64::MAX
        &&& self.producer_futile_wakes + other.producer_futile_wakes <= u64::MAX
        &&& self.futile_wakes + other.futile_wakes <= u64::MAX
    }

    /// Adds `other` to this reading, field by field.
    pub fn add_assign(&mut self, other: Self)
        requires
            old(self).sum_fits(other),
        ensures
            final(self).unwoken_timeouts == old(self).unwoken_timeouts + other.unwoken_timeouts,
            final(self).rescues == old(self).rescues + other.rescues,
            final(self).sole_waiter_rescues == old(self).sole_waiter_rescues
                + other.sole_waiter_rescues,
            final(self).producer_sole_waiter_rescues == old(self).producer_sole_waiter_rescues
                + other.producer_sole_waiter_rescues,
            final(self).blind_sole_waiter_rescues == old(self).blind_sole_waiter_rescues
                + other.blind_sole_waiter_rescues,
            final(self).late_sole_waiter_rescues == old(self).late_sole_waiter_rescues
                + other.late_sole_waiter_rescues,
            final(self).waiting_sole_waiter_rescues == old(self).waiting_sole_waiter_rescues
                + other.waiting_sole_waiter_rescues,
            final(self).wakes_arriving_after_timeout == old(self).wakes_arriving_after_timeout
                + other.wakes_arriving_after_timeout,
            final(self).bit_taken_rescues == old(self).bit_taken_rescues + other.bit_taken_rescues,
            final(self).slotless_rescues == old(self).slotless_rescues + other.slotless_rescues,
            final(self).blind_futile_wakes == old(self).blind_futile_wakes
                + other.blind_futile_wakes,
            final(self).producer_blind_futile_wakes == old(self).producer_blind_futile_wakes
                + other.producer_blind_futile_wakes,
            final(self).producer_futile_wakes == old(self).producer_futile_wakes
                + other.producer_futile_wakes,
            final(self).futile_wakes == old(self).futile_wakes + other.futile_wakes,
    {
        self.unwoken_timeouts += other.unwoken_timeouts;
        self.rescues += other.rescues;
        self.sole_waiter_rescues += other.sole_waiter_rescues;
        self.producer_sole_waiter_rescues += other.producer_sole_waiter_rescues;
        self.blind_sole_waiter_rescues += other.blind_sole_waiter_rescues;
        self.late_sole_waiter_rescues += other.late_sole_waiter_rescues;
        self.waiting_sole_waiter_rescues += other.waiting_sole_waiter_rescues;
        self.wakes_arriving_after_timeout += other.wakes_arriving_after_timeout;
        self.bit_taken_rescues += other.bit_taken_rescues;
        self.slotless_rescues += other.slotless_rescues;
        self.blind_futile_wakes += other.blind_futile_wakes;
        self.producer_blind_futile_wakes += other.producer_blind_futile_wakes;
        self.producer_futile_wakes += other.producer_futile_wakes;
        self.futile_wakes += other.futile_wakes;
    }

    /// Whether a waiter that had work available was ever released by
    /// anything but a wake.
    #[must_use]
    pub fn saw_rescue(self) -> (seen: bool)
        ensures
            seen == (self.rescues > 0),
    {
        self.rescues > 0
    }

    /// Whether a rescue happened with no peer parked to absorb the
    /// wake. Round-robin cannot account for these.
    #[must_use]
    pub fn saw_unexplained_rescue(self) -> (seen: bool)
        ensures
            seen == (self.sole_waiter_rescues > 0),
    {
        self.sole_waiter_rescues > 0
    }

    /// Sole-waiter rescues suffered by consumers.
    #[must_use]
    pub fn consumer_sole_waiter_rescues(self) -> (n: u64)
        ensures
            n == if self.sole_waiter_rescues >= self.producer_sole_waiter_rescues {
                self.sole_waiter_rescues - self.producer_sole_waiter_rescues
            } else {
                0
            },
    {
        self.sole_waiter_rescues.saturating_sub(self.producer_sole_waiter_rescues)
    }

    /// The residual a lost wake would have to be found in: sole-waiter
    /// rescues that were neither blind nor late.
    #[must_use]
    pub fn unexplained_sole_waiter_rescues(self) -> (n: u64)
        ensures
            n == self.waiting_sole_waiter_rescues,
    {
        self.waiting_sole_waiter_rescues
    }

    /// Sole-waiter rescues where nobody had even taken the wake bit.
    #[must_use]
    pub fn untouched_sole_waiter_rescues(self) -> (n: u64)
        ensures
            n == if self.sole_waiter_rescues >= self.bit_taken_rescues {
                self.sole_waiter_rescues - self.bit_taken_rescues
            } else {
                0
            },
    {
        self.sole_waiter_rescues.saturating_sub(self.bit_taken_rescues)
    }

    /// Whether any delivered wake was spent on a waiter that could
    /// not use it.
    #[must_use]
    pub fn saw_futile_wake(self) -> (seen: bool)
        ensures
            seen == (self.futile_wakes > 0),
    {
        self.futile_wakes > 0
    }

    /// Whether a waiter ever parked again with work still visible to it.
    #[must_use]
    pub fn saw_blind_futile_wake(self) -> (seen: bool)
        ensures
            seen == (self.blind_futile_wakes > 0),
    {
        self.blind_futile_wakes > 0
    }
}

/// Per-ring backstop counters.
#[derive(Debug)]
pub struct BackstopMonitor {
    counters: BackstopStats,
}

impl View for BackstopMonitor {
    type V = BackstopStats;

    closed spec fn view(&self) -> BackstopStats {
        self.counters
    }
}

impl BackstopMonitor {
    pub fn new() -> (monitor: Self)
        ensures
            monitor@ == BackstopStats::nothing(),
    {
        BackstopMonitor { counters: BackstopStats::zero() }
    }

    pub fn record_timeout(&mut self)
        ensures
            final(self)@ == old(self)@.with_timeout(),
    {
        self.counters.unwoken_timeouts = bump(self.counters.unwoken_timeouts);
    }

    pub fn record_late_wake(&mut self)
        ensures
            final(self)@ == old(self)@.with_late_wake(),
    {
        self.counters.wakes_arriving_after_timeout = bump(
            self.counters.wakes_arriving_after_timeout,
        );
    }

    pub fn record_rescue(&mut self, side: WaiterSide, evidence: RescueEvidence)
        ensures
            final(self)@ == old(self)@.with_rescue(side, evidence@),
    {
        self.counters.rescues = bump(self.counters.rescues);
        if evidence.explanation() == RescueExplanation::Slotless {
            self.counters.slotless_rescues = bump(self.counters.slotless_rescues);
            return;
        }
        if !evidence.is_sole_waiter() {
            return;
        }
        self.counters.sole_waiter_rescues = bump(self.counters.sole_waiter_rescues);
        if side == WaiterSide::Producer {
            self.counters.producer_sole_waiter_rescues = bump(
                self.counters.producer_sole_waiter_rescues,
            );
        }
        match evidence.timing() {
            RescueTiming::Blind => {
                self.counters.blind_sole_waiter_rescues = bump(
                    self.counters.blind_sole_waiter_rescues,
                );
            },
            RescueTiming::Late => {
                self.counters.late_sole_waiter_rescues = bump(
                    self.counters.late_sole_waiter_rescues,
                );
            },
            RescueTiming::Waiting => {
                self.counters.waiting_sole_waiter_rescues = bump(
                    self.counters.waiting_sole_waiter_rescues,
                );
            },
        }
        if evidence.explanation() == RescueExplanation::BitTaken {
            self.counters.bit_taken_rescues = bump(self.counters.bit_taken_rescues);
        }
    }

    pub fn record_futile_wake(&mut self, side: WaiterSide, work_visible: bool)
        ensures
            final(self)@ == old(self)@.with_futile_wake(side, work_visible),
    {
        self.counters.futile_wakes = bump(self.counters.futile_wakes);
        if side == WaiterSide::Producer {
            self.counters.producer_futile_wakes = bump(self.counters.producer_futile_wakes);
        }
        if work_visible {
            self.counters.blind_futile_wakes = bump(self.counters.blind_futile_wakes);
            if side == WaiterSide::Producer {
                self.counters.producer_blind_futile_wakes = bump(
                    self.counters.producer_blind_futile_wakes,
                );
            }
        }
    }

    /// Reads the counters.
    pub fn stats(&self) -> (stats: BackstopStats)
        ensures
            stats == self@,
    {
        self.counters
    }
}

impl Default for BackstopMonitor {
    fn default() -> (monitor: Self)
        ensures
            monitor@ == BackstopStats::nothing(),
    {
        Self::new()
    }
}

/// Tracks one waiter's park loop, attributing a rescue to the sleep
/// that preceded it.
///
/// Held across a single blocking call. `parked` records how each sleep
/// ended; `made_progress` closes the loop, counting a rescue when the
/// waiter succeeds directly after an unwoken timeout. The monitor that
/// the events are counted in is handed to each of them.
#[derive(Debug)]
pub struct BackstopWatch {
    side: WaiterSide,
    evidence: RescueEvidence,
    timed_out: bool,
    woken: bool,
}

/// The state of a [`BackstopWatch`].
pub struct WatchState {
    pub side: WaiterSide,
    pub facts: Facts,
    /// The last sleep ended without a wake.
    pub timed_out: bool,
    /// The last sleep was ended by a wake that has not been used yet.
    pub woken: bool,
}

impl WatchState {
    /// A watch that has seen nothing yet.
    pub open spec fn fresh(side: WaiterSide) -> Self {
        WatchState { side, facts: Facts::none(), timed_out: false, woken: false }
    }

    /// This state just before a sleep.
    pub open spec fn before_park(self, peers_parked: nat, work_visible: bool) -> Self {
        WatchState {
            facts: self.facts.before_park(peers_parked, work_visible),
            woken: false,
            ..self
        }
    }

    /// The counters just before a sleep: a wake that ended the last one
    /// and was not used counts as futile.
    pub open spec fn counted_before_park(
        self,
        counters: BackstopStats,
        work_visible: bool,
    ) -> BackstopStats {
        if self.woken {
            counters.with_futile_wake(self.side, work_visible)
        } else {
            counters
        }
    }

    /// The counters once the waiter has found work: a success right
    /// after an unwoken sleep counts as a rescue.
    pub open spec fn counted_progress(self, counters: BackstopStats) -> BackstopStats {
        if self.timed_out {
            counters.with_rescue(self.side, self.facts)
        } else {
            counters
        }
    }

    /// This state once a sleep has ended as `delivery` says.
    pub open spec fn after_park(
        self,
        delivery: WakeDelivery,
        peers_parked: nat,
        work_visible: bool,
    ) -> Self {
        WatchState {
            side: self.side,
            facts: self.facts.after_park(delivery, peers_parked, work_visible),
            timed_out: delivery.unwoken(),
            woken: !delivery.unwoken(),
        }
    }

    /// Whether a sleep that ended as `delivery` says looks like a wake
    /// that went missing, so that it is worth a moment's grace.
    pub open spec fn deserves_grace(
        self,
        delivery: WakeDelivery,
        peers_parked: nat,
        work_visible: bool,
    ) -> bool {
        &&& delivery == WakeDelivery::Untouched
        &&& work_visible
        &&& peers_parked == 0
        &&& !self.facts.blind
    }

    /// The state and the counters once a sleep that ended as `found`
    /// says has been recorded. `work` tells whether work was visible
    /// then, and `claimed` whether a waker claimed the handle within the
    /// grace; each counts only where it was asked for.
    pub open spec fn sleep_ended(
        self,
        counters: BackstopStats,
        found: WakeDelivery,
        peers_parked: nat,
        work: bool,
        claimed: bool,
    ) -> (WatchState, BackstopStats) {
        let seen: bool = found.unwoken() && work;
        if self.deserves_grace(found, peers_parked, seen) && claimed {
            (
                self.after_park(WakeDelivery::Delivered, peers_parked, seen),
                counters.with_late_wake(),
            )
        } else {
            (
                self.after_park(found, peers_parked, seen),
                if found.unwoken() {
                    counters.with_timeout()
                } else {
                    counters
                },
            )
        }
    }
}

impl View for BackstopWatch {
    type V = WatchState;

    closed spec fn view(&self) -> WatchState {
        WatchState {
            side: self.side,
            facts: self.evidence@,
            timed_out: self.timed_out,
            woken: self.woken,
        }
    }
}

impl BackstopWatch {
    pub fn new(side: WaiterSide) -> (watch: Self)
        ensures
            watch@ == WatchState::fresh(side),
    {
        BackstopWatch { side, evidence: RescueEvidence::new(), timed_out: false, woken: false }
    }

    /// Records the peer count sampled just before the sleep, so a
    /// waiter that was already parked when we went to sleep is not
    /// mistaken for an absent one.
    ///
    /// Reaching this a second time without an intervening
    /// [`made_progress`](Self::made_progress) means the wake that
    /// ended the last park bought nothing: the waiter looped, found
    /// no work, and is parking again.
    pub fn about_to_park(
        &mut self,
        monitor: &mut BackstopMonitor,
        peers_parked: u32,
        work_visible: bool,
    )
        ensures
            final(self)@ == old(self)@.before_park(peers_parked as nat, work_visible),
            final(monitor)@ == old(self)@.counted_before_park(old(monitor)@, work_visible),
    {
        if self.woken {
            self.woken = false;
            monitor.record_futile_wake(self.side, work_visible);
        }
        self.evidence.about_to_park(peers_parked, work_visible);
    }

    /// Records how the park that just returned ended, reading the
    /// waiter's state out of `set` itself.
    ///
    /// `work_visible` is consulted only when the park ended without a
    /// peer's wake: a delivered wake has no rescue to time, and this
    /// spares the woken path a scan of the ring.
    ///
    /// A sleep that ended with the look of a lost wake is given a grace:
    /// `claimed_within_grace` waits for a waker to claim the handle and
    /// tells whether one did. A wake that came is counted as late, and
    /// the park then reads as woken.
    pub fn parked_at<W: FnOnce() -> bool, G: FnOnce() -> bool>(
        &mut self,
        monitor: &mut BackstopMonitor,
        set: &WakeSet,
        slot: ParkSlot,
        work_visible: W,
        claimed_within_grace: G,
    )
        requires
            slot.wf(),
            WakeDelivery::found(*set, slot).unwoken() ==> work_visible.requires(()),
            claimed_within_grace.requires(()),
        ensures
            exists|work: bool, claimed: bool|
                {
                    &&& WakeDelivery::found(*set, slot).unwoken() ==> work_visible.ensures(
                        (),
                        work,
                    )
                    &&& old(self)@.deserves_grace(
                        WakeDelivery::found(*set, slot),
                        set.others(slot),
                        work,
                    ) ==> claimed_within_grace.ensures((), claimed)
                    &&& (final(self)@, final(monitor)@) == #[trigger] old(self)@.sleep_ended(
                        old(monitor)@,
                        WakeDelivery::found(*set, slot),
                        set.others(slot),
                        work,
                        claimed,
                    )
                },
    {
        let found: WakeDelivery = WakeDelivery::sample(set, slot);
        let peers: u32 = set.others_parked(slot);
        let mut delivery: WakeDelivery = found;
        let mut work: bool = false;
        let mut claimed: bool = false;
        if found.is_unwoken() {
            work = work_visible();
        }
        if self.looks_unwoken(found, peers, work) {
            claimed = claimed_within_grace();
            if claimed {
                monitor.record_late_wake();
                delivery = WakeDelivery::Delivered;
            }
        }
        self.parked(monitor, delivery, peers, work);
        proof {
            let ended = old(self)@.sleep_ended(old(monitor)@, found, peers as nat, work, claimed);
            assert(self@ == ended.0 && monitor@ == ended.1);
        }
    }

    /// Whether a sleep that ended as `delivery` says has the look of one
    /// whose wake went missing, so that it is worth a moment's grace.
    pub fn looks_unwoken(
        &self,
        delivery: WakeDelivery,
        peers_parked: u32,
        work_visible: bool,
    ) -> (looks: bool)
        ensures
            looks == self@.deserves_grace(delivery, peers_parked as nat, work_visible),
    {
        delivery == WakeDelivery::Untouched && work_visible && peers_parked == 0
            && !self.evidence.was_blind()
    }

    /// Records how the park that just returned ended. `delivery` says
    /// whether a peer's unpark reached us, was in flight, or had not
    /// begun; `peers_parked` is how many other waiters on this side
    /// were parked; `work_visible` is whether the ring held work the
    /// instant the park returned.
    pub fn parked(
        &mut self,
        monitor: &mut BackstopMonitor,
        delivery: WakeDelivery,
        peers_parked: u32,
        work_visible: bool,
    )
        ensures
            final(self)@ == old(self)@.after_park(
                delivery,
                peers_parked as nat,
                work_visible,
            ),
            final(monitor)@ == if delivery.unwoken() {
                old(monitor)@.with_timeout()
            } else {
                old(monitor)@
            },
    {
        let unwoken: bool = delivery.is_unwoken();
        self.timed_out = unwoken;
        self.woken = !unwoken;
        self.evidence.parked(delivery, peers_parked, work_visible);
        if unwoken {
            monitor.record_timeout();
        }
    }

    /// Records that the waiter found work. Counts a rescue when the
    /// preceding park ended without a wake.
    pub fn made_progress(&mut self, monitor: &mut BackstopMonitor)
        ensures
            final(self)@ == WatchState::fresh(old(self)@.side),
            final(monitor)@ == old(self)@.counted_progress(old(monitor)@),
    {
        self.woken = false;
        let evidence: RescueEvidence = self.evidence.take();
        if self.timed_out {
            self.timed_out = false;
            monitor.record_rescue(self.side, evidence);
        }
    }
}

/// How the counters of a reading fit together: the timings partition the
/// sole-waiter rescues, and each narrower count stays within the wider
/// one that it was split from.
pub open spec fn counters_agree(stats: BackstopStats) -> bool {
    &&& stats.sole_waiter_rescues == stats.blind_sole_waiter_rescues
        + stats.late_sole_waiter_rescues + stats.waiting_sole_waiter_rescues
    &&& stats.sole_waiter_rescues + stats.slotless_rescues <= stats.rescues
    &&& stats.producer_sole_waiter_rescues <= stats.sole_waiter_rescues
    &&& stats.bit_taken_rescues <= stats.sole_waiter_rescues
    &&& stats.producer_futile_wakes <= stats.futile_wakes
    &&& stats.blind_futile_wakes <= stats.futile_wakes
    &&& stats.producer_blind_futile_wakes <= stats.blind_futile_wakes
    &&& stats.producer_blind_futile_wakes <= stats.producer_futile_wakes
}

/// Every event keeps the counters in agreement, until one wraps; and the
/// empty reading agrees.
pub proof fn lemma_events_keep_the_counters_in_agreement(
    stats: BackstopStats,
    side: WaiterSide,
    facts: Facts,
    work_visible: bool,
)
    requires
        counters_agree(stats),
        stats.rescues < u64::MAX,
        stats.futile_wakes < u64::MAX,
    ensures
        counters_agree(BackstopStats::nothing()),
        counters_agree(stats.with_timeout()),
        counters_agree(stats.with_late_wake()),
        counters_agree(stats.with_rescue(side, facts)),
        counters_agree(stats.with_futile_wake(side, work_visible)),
{
}

/// The count to explain grows with a rescue exactly if the waiter could
/// be reached, was alone, was not blind, and found its work there when
/// the sleep ended.
pub proof fn lemma_residual_is_waiting_rescues(
    stats: BackstopStats,
    side: WaiterSide,
    facts: Facts,
)
    requires
        stats.waiting_sole_waiter_rescues < u64::MAX,
    ensures
        stats.with_rescue(side, facts).waiting_sole_waiter_rescues
            == stats.waiting_sole_waiter_rescues + if facts.explanation
            != RescueExplanation::Slotless && facts.sole_waiter && !facts.blind
            && facts.work_at_return {
            1int
        } else {
            0int
        },
{
}

/// One event of a monitor and the watches that count in it, by the number
/// of the watch.
pub enum WatchEvent {
    /// A waiter of the side starts to be watched.
    Watch(WaiterSide),
    /// It is about to sleep.
    AboutToPark(int, nat, bool),
    /// Its sleep has ended as the delivery says.
    Parked(int, WakeDelivery, nat, bool),
    /// Its sleep has ended, with the grace that it may deserve.
    SleepEnded(int, WakeDelivery, nat, bool, bool),
    /// It has found work.
    MadeProgress(int),
}

/// A monitor's counters and the watches that count in it.
pub struct Watched {
    pub counters: BackstopStats,
    pub watches: Seq<WatchState>,
}

impl Watched {
    /// A new monitor that nobody counts in.
    pub open spec fn nothing() -> Self {
        Watched { counters: BackstopStats::nothing(), watches: Seq::empty() }
    }

    /// The counters and the watches after the event. Nothing happens to a
    /// watch that does not exist.
    pub open spec fn stepped(self, event: WatchEvent) -> Self {
        match event {
            WatchEvent::Watch(side) => Watched {
                watches: self.watches.push(WatchState::fresh(side)),
                ..self
            },
            WatchEvent::AboutToPark(i, peers, work) => if 0 <= i < self.watches.len() {
                Watched {
                    counters: self.watches[i].counted_before_park(self.counters, work),
                    watches: self.watches.update(i, self.watches[i].before_park(peers, work)),
                }
            } else {
                self
            },
            WatchEvent::Parked(i, delivery, peers, work) => if 0 <= i < self.watches.len() {
                Watched {
                    counters: if delivery.unwoken() {
                        self.counters.with_timeout()
                    } else {
                        self.counters
                    },
                    watches: self.watches.update(
                        i,
                        self.watches[i].after_park(delivery, peers, work),
                    ),
                }
            } else {
                self
            },
            WatchEvent::SleepEnded(i, found, peers, work, claimed) => if 0 <= i
                < self.watches.len() {
                let (watch, counters) = self.watches[i].sleep_ended(
                    self.counters,
                    found,
                    peers,
                    work,
                    claimed,
                );
                Watched { counters, watches: self.watches.update(i, watch) }
            } else {
                self
            },
            WatchEvent::MadeProgress(i) => if 0 <= i < self.watches.len() {
                Watched {
                    counters: self.watches[i].counted_progress(self.counters),
                    watches: self.watches.update(i, WatchState::fresh(self.watches[i].side)),
                }
            } else {
                self
            },
        }
    }

    /// The counters and the watches after the events of `run`, in order.
    pub open spec fn after(self, run: Seq<WatchEvent>) -> Self
        decreases run.len(),
    {
        if run.len() == 0 {
            self
        } else {
            self.after(run.drop_last()).stepped(run.last())
        }
    }
}

/// How many of the watches last saw a sleep end without a wake.
pub open spec fn timed_out_count(watches: Seq<WatchState>) -> nat
    decreases watches.len(),
{
    if watches.len() == 0 {
        0
    } else {
        timed_out_count(watches.drop_last()) + if watches.last().timed_out {
            1nat
        } else {
            0nat
        }
    }
}

proof fn lemma_timed_out_count_update(watches: Seq<WatchState>, i: int, watch: WatchState)
    requires
        0 <= i < watches.len(),
    ensures
        timed_out_count(watches.update(i, watch)) == timed_out_count(watches) + (
        if watch.timed_out {
            1int
        } else {
            0int
        }) - (if watches[i].timed_out {
            1int
        } else {
            0int
        }),
    decreases watches.len(),
{
    let last: int = watches.len() - 1;
    if i == last {
        assert(watches.update(i, watch).drop_last() =~= watches.drop_last());
    } else {
        lemma_timed_out_count_update(watches.drop_last(), i, watch);
        assert(watches.update(i, watch).drop_last() =~= watches.drop_last().update(i, watch));
    }
}

/// Over any run of watches the counters fit together: they agree, each
/// rescue follows an unwoken timeout of its own, and what is left to
/// explain is the sole-waiter rescues that were neither blind nor late.
/// The run is one that no counter can wrap in.
pub proof fn lemma_watched_runs_keep_the_counters_in_agreement(run: Seq<WatchEvent>)
    requires
        run.len() <= u64::MAX,
    ensures
        ({
            let stats = Watched::nothing().after(run).counters;
            &&& counters_agree(stats)
            &&& stats.rescues <= stats.unwoken_timeouts
            &&& stats.waiting_sole_waiter_rescues == stats.sole_waiter_rescues
                - stats.blind_sole_waiter_rescues - stats.late_sole_waiter_rescues
        }),
{
    lemma_watched_run(run);
}

proof fn lemma_watched_run(run: Seq<WatchEvent>)
    requires
        run.len() <= u64::MAX,
    ensures
        ({
            let watched = Watched::nothing().after(run);
            let stats = watched.counters;
            &&& counters_agree(stats)
            &&& stats.rescues + timed_out_count(watched.watches) <= stats.unwoken_timeouts
            &&& stats.unwoken_timeouts <= run.len()
            &&& stats.futile_wakes <= run.len()
        }),
    decreases run.len(),
{
    if run.len() > 0 {
        lemma_watched_run(run.drop_last());
        let before = Watched::nothing().after(run.drop_last());
        match run.last() {
            WatchEvent::Watch(side) => {
                assert(before.watches.push(WatchState::fresh(side)).drop_last() =~= before.watches);
            },
            WatchEvent::AboutToPark(i, peers, work) => if 0 <= i < before.watches.len() {
                lemma_timed_out_count_update(
                    before.watches,
                    i,
                    before.watches[i].before_park(peers, work),
                );
            },
            WatchEvent::Parked(i, delivery, peers, work) => if 0 <= i < before.watches.len() {
                lemma_timed_out_count_update(
                    before.watches,
                    i,
                    before.watches[i].after_park(delivery, peers, work),
                );
            },
            WatchEvent::SleepEnded(i, found, peers, work, claimed) => if 0 <= i
                < before.watches.len() {
                lemma_timed_out_count_update(
                    before.watches,
                    i,
                    before.watches[i].sleep_ended(before.counters, found, peers, work, claimed).0,
                );
            },
            WatchEvent::MadeProgress(i) => if 0 <= i < before.watches.len() {
                lemma_timed_out_count_update(
                    before.watches,
                    i,
                    WatchState::fresh(before.watches[i].side),
                );
            },
        }
    }
}

/// A counter grows by one with each event, and starts over behind the
/// largest number.
pub proof fn lemma_counters_wrap(count: u64, event: bool)
    ensures
        bumped(count) == (count + 1) % 0x1_0000_0000_0000_0000,
        bumped_if(count, event) == (count + if event {
            1int
        } else {
            0int
        }) % 0x1_0000_0000_0000_0000,
{
}

/// A monitor starts with nothing counted.
pub proof fn lemma_nothing_is_counted()
    ensures
        BackstopStats::nothing().unwoken_timeouts == 0,
        BackstopStats::nothing().rescues == 0,
        BackstopStats::nothing().sole_waiter_rescues == 0,
        BackstopStats::nothing().producer_sole_waiter_rescues == 0,
        BackstopStats::nothing().blind_sole_waiter_rescues == 0,
        BackstopStats::nothing().late_sole_waiter_rescues == 0,
        BackstopStats::nothing().waiting_sole_waiter_rescues == 0,
        BackstopStats::nothing().wakes_arriving_after_timeout == 0,
        BackstopStats::nothing().bit_taken_rescues == 0,
        BackstopStats::nothing().slotless_rescues == 0,
        BackstopStats::nothing().blind_futile_wakes == 0,
        BackstopStats::nothing().producer_blind_futile_wakes == 0,
        BackstopStats::nothing().producer_futile_wakes == 0,
        BackstopStats::nothing().futile_wakes == 0,
{
}

/// A timeout and a late wake are each counted once, and in one counter
/// only.
pub proof fn lemma_sleeps_are_counted_once(stats: BackstopStats)
    requires
        stats.unwoken_timeouts < u64::MAX,
        stats.wakes_arriving_after_timeout < u64::MAX,
    ensures
        stats.with_timeout() == (BackstopStats {
            unwoken_timeouts: stats.with_timeout().unwoken_timeouts,
            ..stats
        }),
        stats.with_timeout().unwoken_timeouts == stats.unwoken_timeouts + 1,
        stats.with_late_wake() == (BackstopStats {
            wakes_arriving_after_timeout: stats.with_late_wake().wakes_arriving_after_timeout,
            ..stats
        }),
        stats.with_late_wake().wakes_arriving_after_timeout == stats.wakes_arriving_after_timeout
            + 1,
{
}

/// A futile wake is counted once, once more among those of the producers
/// if it was one's, and in both once more among the blind ones if work
/// was visible. No other counter moves.
pub proof fn lemma_futile_wake_is_counted_once(stats: BackstopStats, producer: bool, visible: bool)
    requires
        counters_agree(stats),
        stats.futile_wakes < u64::MAX,
    ensures
        ({
            let side = if producer {
                WaiterSide::Producer
            } else {
                WaiterSide::Consumer
            };
            let after = stats.with_futile_wake(side, visible);
            &&& after == (BackstopStats {
                futile_wakes: after.futile_wakes,
                producer_futile_wakes: after.producer_futile_wakes,
                blind_futile_wakes: after.blind_futile_wakes,
                producer_blind_futile_wakes: after.producer_blind_futile_wakes,
                ..stats
            })
            &&& after.futile_wakes == stats.futile_wakes + 1
            &&& after.producer_futile_wakes - stats.producer_futile_wakes == if producer {
                1int
            } else {
                0int
            }
            &&& after.blind_futile_wakes - stats.blind_futile_wakes == if visible {
                1int
            } else {
                0int
            }
            &&& after.producer_blind_futile_wakes - stats.producer_blind_futile_wakes == if visible
                && producer {
                1int
            } else {
                0int
            }
        }),
{
}

/// A rescue is counted once. One without a park slot goes to a counter of
/// its own; one of a waiter that was alone is split by side, by timing and
/// by whether the wake bit was gone; one of a waiter that was not alone is
/// split no further. No other counter moves.
pub proof fn lemma_rescue_is_counted_once(stats: BackstopStats, producer: bool, facts: Facts)
    requires
        counters_agree(stats),
        stats.rescues < u64::MAX,
    ensures
        ({
            let side = if producer {
                WaiterSide::Producer
            } else {
                WaiterSide::Consumer
            };
            let after = stats.with_rescue(side, facts);
            let sole: bool = facts.sole_waiter && !(facts.explanation is Slotless);
            &&& after == (BackstopStats {
                rescues: after.rescues,
                slotless_rescues: after.slotless_rescues,
                sole_waiter_rescues: after.sole_waiter_rescues,
                producer_sole_waiter_rescues: after.producer_sole_waiter_rescues,
                blind_sole_waiter_rescues: after.blind_sole_waiter_rescues,
                late_sole_waiter_rescues: after.late_sole_waiter_rescues,
                waiting_sole_waiter_rescues: after.waiting_sole_waiter_rescues,
                bit_taken_rescues: after.bit_taken_rescues,
                ..stats
            })
            &&& after.rescues == stats.rescues + 1
            &&& after.slotless_rescues - stats.slotless_rescues == if facts.explanation is Slotless {
                1int
            } else {
                0int
            }
            &&& after.sole_waiter_rescues - stats.sole_waiter_rescues == if sole {
                1int
            } else {
                0int
            }
            &&& after.producer_sole_waiter_rescues - stats.producer_sole_waiter_rescues == if sole
                && producer {
                1int
            } else {
                0int
            }
            &&& after.blind_sole_waiter_rescues - stats.blind_sole_waiter_rescues == if sole
                && facts.blind {
                1int
            } else {
                0int
            }
            &&& after.late_sole_waiter_rescues - stats.late_sole_waiter_rescues == if sole
                && !facts.blind && !facts.work_at_return {
                1int
            } else {
                0int
            }
            &&& after.waiting_sole_waiter_rescues - stats.waiting_sole_waiter_rescues == if sole
                && !facts.blind && facts.work_at_return {
                1int
            } else {
                0int
            }
            &&& after.bit_taken_rescues - stats.bit_taken_rescues == if sole
                && facts.explanation is BitTaken {
                1int
            } else {
                0int
            }
        }),
{
}

/// A watch has seen no sleep when it starts.
pub proof fn lemma_new_watch_has_seen_nothing(side: WaiterSide)
    ensures
        WatchState::fresh(side).side == side,
        !WatchState::fresh(side).timed_out,
        !WatchState::fresh(side).woken,
        !WatchState::fresh(side).facts.sole_waiter,
        !WatchState::fresh(side).facts.blind,
        !WatchState::fresh(side).facts.work_at_return,
        WatchState::fresh(side).facts.explanation is Untouched,
{
}

/// What the end of a sleep comes to. One that a wake ended counts nothing.
/// One that no wake ended counts as a timeout, unless it has the look of a
/// lost wake, which is that nobody touched the slot, nobody else slept and
/// work came during the sleep, and a waker claims the handle within the
/// grace: then the wake was late, and the waiter counts as woken.
pub proof fn lemma_end_of_a_sleep(
    watch: WatchState,
    counters: BackstopStats,
    found: WakeDelivery,
    peers: nat,
    work: bool,
    claimed: bool,
)
    requires
        counters.unwoken_timeouts < u64::MAX,
        counters.wakes_arriving_after_timeout < u64::MAX,
    ensures
        ({
            let (after, counted) = watch.sleep_ended(counters, found, peers, work, claimed);
            let late: bool = found is Untouched && work && peers == 0 && !watch.facts.blind
                && claimed;
            &&& after.side == watch.side
            &&& after.timed_out == !(found is Delivered || late)
            &&& after.woken == (found is Delivered || late)
            &&& after.facts.blind == watch.facts.blind
            &&& after.facts.sole_waiter == (watch.facts.sole_waiter && peers == 0)
            &&& after.facts.work_at_return == (work && !(found is Delivered))
            &&& late ==> after.facts.explanation == watch.facts.explanation
            &&& counted == (BackstopStats {
                unwoken_timeouts: counted.unwoken_timeouts,
                wakes_arriving_after_timeout: counted.wakes_arriving_after_timeout,
                ..counters
            })
            &&& counted.unwoken_timeouts - counters.unwoken_timeouts == if after.timed_out {
                1int
            } else {
                0int
            }
            &&& counted.wakes_arriving_after_timeout - counters.wakes_arriving_after_timeout
                == if late {
                1int
            } else {
                0int
            }
        }),
{
}

/// Going to sleep forgets a wake that bought nothing, but keeps the rest
/// of what was seen; the end of a sleep says whether a wake ended it.
pub proof fn lemma_watch_of_one_sleep(
    watch: WatchState,
    delivery: WakeDelivery,
    peers: nat,
    work: bool,
)
    ensures
        watch.before_park(peers, work).side == watch.side,
        watch.before_park(peers, work).timed_out == watch.timed_out,
        !watch.before_park(peers, work).woken,
        watch.before_park(peers, work).facts.sole_waiter == (peers == 0),
        watch.before_park(peers, work).facts.blind == (watch.facts.blind || work),
        watch.before_park(peers, work).facts.work_at_return == watch.facts.work_at_return,
        watch.before_park(peers, work).facts.explanation == watch.facts.explanation,
        watch.after_park(delivery, peers, work).side == watch.side,
        watch.after_park(delivery, peers, work).timed_out == !(delivery is Delivered),
        watch.after_park(delivery, peers, work).woken == (delivery is Delivered),
        watch.after_park(delivery, peers, work).facts.blind == watch.facts.blind,
        watch.after_park(delivery, peers, work).facts.work_at_return == work,
{
}

/// A success right after a sleep counts as a rescue exactly if no wake
/// ended that sleep, and another sleep right after one counts as a futile
/// wake exactly if a wake did.
pub proof fn lemma_what_follows_a_sleep(
    watch: WatchState,
    counters: BackstopStats,
    delivery: WakeDelivery,
    peers: nat,
    work: bool,
    visible: bool,
)
    requires
        counters.rescues < u64::MAX,
        counters.futile_wakes < u64::MAX,
    ensures
        ({
            let slept = watch.after_park(delivery, peers, work);
            let progress = slept.counted_progress(counters);
            let again = slept.counted_before_park(counters, visible);
            &&& delivery is Delivered ==> progress == counters
            &&& !(delivery is Delivered) ==> again == counters
            &&& progress.rescues - counters.rescues == if delivery is Delivered {
                0int
            } else {
                1int
            }
            &&& again.futile_wakes - counters.futile_wakes == if delivery is Delivered {
                1int
            } else {
                0int
            }
            &&& again.blind_futile_wakes == if delivery is Delivered && visible {
                bumped(counters.blind_futile_wakes)
            } else {
                counters.blind_futile_wakes
            }
            &&& progress.futile_wakes == counters.futile_wakes
            &&& again.rescues == counters.rescues
            &&& !(delivery is Delivered) ==> progress == counters.with_rescue(
                watch.side,
                slept.facts,
            )
            &&& delivery is Delivered ==> again == counters.with_futile_wake(watch.side, visible)
        }),
{
}

/// A sleep is worth a grace exactly if nobody touched the slot, nobody
/// else on the side slept, and work is there that was not there before.
pub proof fn lemma_when_a_grace_is_deserved(
    watch: WatchState,
    delivery: WakeDelivery,
    peers: nat,
    work: bool,
)
    ensures
        watch.deserves_grace(delivery, peers, work) <==> delivery is Untouched && work && peers == 0
            && !watch.facts.blind,
{
}

} // verus!
