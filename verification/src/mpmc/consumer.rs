//! The consuming end of the ring.

use core::marker::PhantomData;

use vstd::prelude::*;
use vstd::wrapping::usize_specs;

use crate::capacity::{lemma_next_lap, slot_of};
use crate::common::park_registry::ParkSlot;
use crate::common::step::{DrainStep, PopPoll, PopStep};
use crate::common::wake_delivery::WakeDelivery;
use crate::mpmc::backstop_monitor::{BackstopWatch, WatchState};
use crate::mpmc::config::{Config, DefaultConfig};
use crate::mpmc::consumed_watermark::ConsumedTally;
use crate::mpmc::ready_word::ReadyState;
use crate::mpmc::ring::RingBuffer;
use crate::mpmc::ring_model::{
    lemma_claimable_iff_published, lemma_emptying_keeps_the_rest, lemma_claiming_disturbs_nobody,
    lemma_first_published, lemma_published_count_bound, lemma_published_count_falls,
    lemma_published_count_stays, lemma_releasing_disturbs_nobody, published_count, RingModel, Scan,
};
use crate::mpmc::scan_budget::ScanBudget;
use crate::mpmc::slot_table::{ready_word_of, Phase, Slot};

verus! {

/// A consumer of the ring; it can be cloned.
///
/// Each consumer keeps a private scan cursor and walks the ring looking
/// for published slots, claiming the first one it finds. There is no
/// shared head.
#[derive(Debug)]
pub struct Consumer<T, C: Config = DefaultConfig> {
    /// The position that the next scan starts at.
    next_scan: usize,
    /// The pops since the last flush to the shared watermark.
    consumed: ConsumedTally,
    park_slot: ParkSlot,
    _ring: PhantomData<(T, C)>,
}

impl<T, C: Config> View for Consumer<T, C> {
    type V = Scan;

    closed spec fn view(&self) -> Scan {
        Scan { next: self.next_scan, pending: self.consumed@, slot: self.park_slot }
    }
}

/// Where the scan of the `n`-th clone starts: an eighth of the ring, and
/// at least one slot, further on than that of the one before, so that
/// clones do not all begin at one slot.
pub open spec fn stagger(n: usize, cap: nat) -> int {
    let apart: nat = if cap / 8 >= 1 {
        cap / 8
    } else {
        1
    };
    slot_of((n * apart) % (usize::MAX + 1), cap)
}

impl<T, C: Config> Consumer<T, C> {
    /// The tally is below the flush boundary.
    pub open spec fn wf(&self) -> bool {
        &&& self@.slot.wf()
        &&& self@.pending < C::CONSUMED_FLUSH
    }

    /// Whether the positions of the next three laps of the scan fit the
    /// machine word.
    pub open spec fn can_scan(&self, ring: &RingBuffer<T, C>) -> bool {
        self@.next + 3 * ring@.cap <= usize::MAX
    }

    pub(crate) fn new(park_slot: ParkSlot) -> (consumer: Self)
        ensures
            consumer@ == (Scan { next: 0, pending: 0, slot: park_slot }),
    {
        Consumer {
            next_scan: 0,
            consumed: ConsumedTally::new(),
            park_slot,
            _ring: PhantomData,
        }
    }

    /// Makes another consumer of the ring, with a park slot of its own
    /// and a scan that starts further on.
    pub fn clone(&self, ring: &mut RingBuffer<T, C>) -> (consumer: Self)
        requires
            old(ring).wf(),
            0 < old(ring)@.consumers < usize::MAX,
        ensures
            final(ring).wf(),
            final(ring)@ == old(ring)@.consumer_joined(),
            consumer@.next == stagger(final(ring)@.clones, final(ring)@.cap),
            consumer@.pending == 0,
            consumer@.slot == old(ring)@.consumer_slots.next(),
            consumer.wf(),
    {
        let (slot, n) = ring.join_consumer();
        let cap: usize = ring.capacity();
        let apart: usize = if cap / 8 >= 1 {
            cap / 8
        } else {
            1
        };
        let next_scan: usize = ring.index_of(n.wrapping_mul(apart));
        Consumer { next_scan, consumed: ConsumedTally::new(), park_slot: slot, _ring: PhantomData }
    }

    /// The park slot of this consumer.
    pub fn park_slot(&self) -> (slot: ParkSlot)
        ensures
            slot == self@.slot,
    {
        self.park_slot
    }

    /// Whether a pop would find something. Changes nothing.
    fn has_item(&self, ring: &RingBuffer<T, C>) -> (found: bool)
        requires
            ring.wf(),
            self.can_scan(ring),
        ensures
            found == (ring@.claimable(self@.next) is Some),
    {
        let cap: usize = ring.capacity();
        let start: usize = self.next_scan;
        let mut offset: usize = 0;
        while offset < cap
            invariant
                offset <= cap,
                cap == ring@.cap,
                start == self@.next,
                ring.wf(),
                self.can_scan(ring),
                ring@.claimable(self@.next) == ring@.first_published(
                    start + offset,
                    (cap - offset) as nat,
                ),
            decreases cap - offset,
        {
            if ring.state(start + offset).is_published() {
                return true;
            }
            offset = offset + 1;
        }
        false
    }

    /// Examines one position of a scan, where the slot was `seen` in some
    /// state a moment ago, and claims it if it was published and still
    /// is.
    ///
    /// A claim lost to a peer moves the scan clear of the contended slots;
    /// a slot that was not published moves it by one.
    pub fn examine(
        ring: &mut RingBuffer<T, C>,
        budget: &mut ScanBudget,
        seen: ReadyState,
    ) -> (got: Option<usize>)
        requires
            old(ring).wf(),
            seen is Published ==> seen.pos() + 2 <= usize::MAX,
            old(budget)@.position < usize::MAX,
            old(budget)@.position + old(budget)@.jump <= usize::MAX,
            old(budget)@.floor < usize::MAX,
            old(budget)@.spent < usize::MAX,
        ensures
            final(ring).wf(),
            ({
                let slot = old(ring)@.at(seen.pos() as int);
                if !(seen is Published) {
                    &&& got is None
                    &&& final(ring)@ == old(ring)@
                    &&& final(budget)@ == old(budget)@.stepped()
                } else if slot.pos == seen.pos() && slot.phase is Published {
                    &&& got == Some(seen.pos())
                    &&& final(ring)@ == old(ring)@.taken(seen.pos() as int)
                    &&& final(budget)@ == old(budget)@
                } else {
                    &&& got is None
                    &&& final(ring)@ == old(ring)@
                    &&& final(budget)@ == old(budget)@.skipped()
                }
            }),
    {
        if !seen.is_published() {
            budget.step();
            return None;
        }
        let round_pos: usize = seen.round_pos();
        if ring.take(round_pos) {
            Some(round_pos)
        } else {
            budget.skip_contended();
            None
        }
    }

    /// Scans for a published slot and claims it. The claimed position is
    /// this consumer's until it releases it.
    ///
    /// A claim moves the scan past the claimed position and counts one
    /// pop; a whole lap without one moves the scan by the lap.
    fn claim_slot(&mut self, ring: &mut RingBuffer<T, C>) -> (claimed: Option<usize>)
        requires
            old(ring).wf(),
            old(ring)@.headroom(),
            old(self).wf(),
            old(self)@.next + 2 * old(ring)@.cap <= usize::MAX,
        ensures
            final(ring).wf(),
            final(self).wf(),
            (final(ring)@, final(self)@) == old(ring)@.claimed(
                old(self)@,
                C::CONSUMED_FLUSH as nat,
            ),
            claimed == (match old(ring)@.claimable(old(self)@.next) {
                Some(pos) => Some(pos as usize),
                None => None,
            }),
            claimed is None <==> old(ring)@.drained(),
            claimed matches Some(pos) ==> {
                &&& old(ring)@.claimable(old(self)@.next) == Some(pos as int)
                &&& final(ring)@.lent(pos as int)
                &&& final(ring)@.at(pos as int).value() == old(ring)@.at(pos as int).value()
            },
    {
        let start: usize = self.next_scan;
        let cap: usize = ring.capacity();
        let mut budget: ScanBudget = ScanBudget::new(start, cap, C::CAS_FAIL_SKIP);
        let mut n: usize = 0;
        proof {
            lemma_claimable_iff_published(ring@, start);
        }
        while n < cap
            invariant
                n <= cap,
                cap == ring@.cap,
                start == self@.next,
                ring.wf(),
                ring@.headroom(),
                ring@ == old(ring)@,
                self@ == old(self)@,
                self.wf(),
                start + 2 * ring@.cap <= usize::MAX,
                old(ring)@.claimable(start) == ring@.first_published(start + n, (cap - n) as nat),
                budget@.position == start + n,
                budget@.floor == start + n,
                budget@.end == start + cap,
                budget@.spent == n,
                budget@.probe_limit == cap,
                0 <= budget@.jump < cap,
                old(ring)@.claimable(start) is None <==> old(ring)@.drained(),
            decreases cap - n,
        {
            let seen: ReadyState = ring.state(budget.position());
            proof {
                lemma_next_lap(start + n, ring@.cap);
                let slot = ring@.at(start + n);
                assert(slot.pos < ring@.claim + ring@.cap);
                lemma_first_published(ring@, start + n, (cap - n) as nat);
                if slot.phase is Published {
                    lemma_claiming_disturbs_nobody(ring@, slot.pos as int);
                }
            }
            match Self::examine(ring, &mut budget, seen) {
                Some(round_pos) => {
                    self.next_scan = if round_pos >= start {
                        round_pos + 1
                    } else {
                        start + 1
                    };
                    ring.count_pop(&mut self.consumed);
                    return Some(round_pos);
                },
                None => {},
            }
            n = n + 1;
        }
        self.next_scan = budget.position();
        None
    }

    /// Pops the first published value that the scan meets, or tells that
    /// nothing is published.
    pub fn pop(&mut self, ring: &mut RingBuffer<T, C>) -> (val: Option<T>)
        requires
            old(ring).wf(),
            old(ring)@.headroom(),
            old(self).wf(),
            old(self).can_scan(old(ring)),
        ensures
            final(ring).wf(),
            final(self).wf(),
            val is None <==> old(ring)@.drained(),
            ({
                let (claimed, scan) = old(ring)@.claimed(old(self)@, C::CONSUMED_FLUSH as nat);
                &&& final(self)@ == scan
                &&& match old(ring)@.claimable(old(self)@.next) {
                    Some(pos) => {
                        &&& val == Some(old(ring)@.at(pos).value())
                        &&& final(ring)@ == claimed.freed(pos).producer_tasks_woken()
                    },
                    None => val is None && final(ring)@ == claimed,
                }
            }),
    {
        match self.claim_slot(ring) {
            None => None,
            Some(pos) => {
                let val: T = ring.free(pos);
                ring.notify_producers();
                Some(val)
            },
        }
    }

    /// Claims the first published value that the scan meets, for reading
    /// in place, or tells that nothing is published. The slot stays
    /// claimed until the reader is released.
    pub fn pop_ref(&mut self, ring: &mut RingBuffer<T, C>) -> (reader: Option<SlotReader<T, C>>)
        requires
            old(ring).wf(),
            old(ring)@.headroom(),
            old(self).wf(),
            old(self).can_scan(old(ring)),
        ensures
            final(ring).wf(),
            final(self).wf(),
            (final(ring)@, final(self)@) == old(ring)@.claimed(
                old(self)@,
                C::CONSUMED_FLUSH as nat,
            ),
            reader is None <==> old(ring)@.drained(),
            match old(ring)@.claimable(old(self)@.next) {
                Some(pos) => reader matches Some(r) && r@ == pos && r.held(final(ring))
                    && final(ring)@.at(pos).value() == old(ring)@.at(pos).value(),
                None => reader is None,
            },
    {
        match self.claim_slot(ring) {
            None => None,
            Some(round_pos) => Some(SlotReader { round_pos, _ring: PhantomData }),
        }
    }

    /// Drains everything that is published, appending it to `out`, and
    /// tells how much it was. Each release wakes the sleeping producer it
    /// frees; the waiting producer tasks are woken once for the whole
    /// drain, as many as there were releases.
    pub fn drain(&mut self, ring: &mut RingBuffer<T, C>, out: &mut Vec<T>) -> (n: usize)
        requires
            old(ring).wf(),
            old(ring)@.headroom(),
            old(self).wf(),
            old(self).can_scan(old(ring)),
        ensures
            final(ring).wf(),
            final(self).wf(),
            ({
                let (emptied, scan, values) = old(ring)@.emptied(
                    old(self)@,
                    C::CONSUMED_FLUSH as nat,
                    usize::MAX as nat,
                );
                &&& final(out)@ == old(out)@ + values
                &&& n == values.len()
                &&& final(self)@ == scan
                &&& final(ring)@ == emptied.producer_tasks_woken_n(n as nat)
            }),
    {
        self.drain_up_to(ring, usize::MAX, out)
    }

    /// Drains up to `limit` values, appending them to `out`, and tells
    /// how many they were. Wakes as [`drain`](Self::drain) does.
    pub fn drain_up_to(
        &mut self,
        ring: &mut RingBuffer<T, C>,
        limit: usize,
        out: &mut Vec<T>,
    ) -> (n: usize)
        requires
            old(ring).wf(),
            old(ring)@.headroom(),
            old(self).wf(),
            old(self).can_scan(old(ring)),
        ensures
            final(ring).wf(),
            final(self).wf(),
            n <= limit,
            ({
                let (emptied, scan, values) = old(ring)@.emptied(
                    old(self)@,
                    C::CONSUMED_FLUSH as nat,
                    limit as nat,
                );
                &&& final(out)@ == old(out)@ + values
                &&& n == values.len()
                &&& final(self)@ == scan
                &&& final(ring)@ == emptied.producer_tasks_woken_n(n as nat)
            }),
    {
        let mut count: usize = 0;
        let ghost flush: nat = C::CONSUMED_FLUSH as nat;
        let ghost (last, end, values) = old(ring)@.emptied(old(self)@, flush, limit as nat);
        let ghost high: int = if self@.next >= ring@.claim {
            self@.next as int
        } else {
            ring@.claim as int
        };
        proof {
            lemma_published_count_bound(ring@.slots, ring@.cap as int);
            assert(values =~= Seq::<T>::empty() + values);
            assert(out@ =~= old(out)@ + Seq::<T>::empty());
        }
        let ghost mut delivered: Seq<T> = Seq::empty();
        let ghost mut rest: Seq<T> = values;
        while count < limit
            invariant_except_break
                (last, end, rest) == ring@.emptied(self@, flush, (limit - count) as nat),
                self@.next <= high + count,
                count + published_count(ring@.slots, ring@.cap as int) <= ring@.cap,
            invariant
                flush == C::CONSUMED_FLUSH,
                ring.wf(),
                ring@.headroom(),
                ring@.cap == old(ring)@.cap,
                ring@.claim == old(ring)@.claim,
                self.wf(),
                high + 3 * ring@.cap <= usize::MAX,
                ring@.claim <= high,
                count <= limit,
                delivered.len() == count,
                values == delivered + rest,
                out@ == old(out)@ + delivered,
            ensures
                rest.len() == 0,
                ring@ == last,
                self@ == end,
            decreases limit - count,
        {
            let ghost before = ring@;
            let ghost scan = self@;
            proof {
                lemma_claimable_iff_published(before, scan.next);
                lemma_published_count_bound(before.slots, before.cap as int);
            }
            match self.claim_slot(ring) {
                None => {
                    break;
                },
                Some(pos) => {
                    let ghost taken = ring@;
                    proof {
                        let p = pos as int;
                        let s = slot_of(p, before.cap);
                        lemma_next_lap(p, before.cap);
                        lemma_releasing_disturbs_nobody(taken, p);
                        let slot = Slot {
                            pos: pos as nat,
                            phase: Phase::Taken(before.at(p).value()),
                        };
                        lemma_published_count_falls(before.slots, s, slot, before.cap as int);
                        lemma_published_count_stays(
                            taken.slots,
                            s,
                            Slot::open_for((p + before.cap) as nat),
                            before.cap as int,
                        );
                    }
                    let val: T = ring.free(pos);
                    out.push(val);
                    count = count + 1;
                    proof {
                        let (l, e, tail) = ring@.emptied(self@, flush, (limit - count) as nat);
                        assert(rest =~= seq![val] + tail);
                        assert(delivered.push(val) + tail =~= delivered + rest);
                        assert(old(out)@ + delivered.push(val) =~= (old(out)@ + delivered).push(
                            val,
                        ));
                        delivered = delivered.push(val);
                        rest = tail;
                    }
                },
            }
        }
        assert(delivered + rest =~= delivered);
        ring.notify_producers_n(count);
        count
    }

    /// One lap of a drain that blocks while the ring is empty, until the
    /// ring is closed and empty. Appends what it drained to `out` and
    /// tells how much it was.
    ///
    /// The lap is indivisible, so nothing is published between the drain
    /// and the announcement of the sleep. A consumer that is told to park
    /// calls [`woke`](Self::woke) when its sleep ends.
    pub fn drain_block(
        &mut self,
        ring: &mut RingBuffer<T, C>,
        watch: &mut BackstopWatch,
        out: &mut Vec<T>,
        may_spin: bool,
    ) -> (lap: (usize, DrainStep))
        requires
            old(ring).wf(),
            old(ring)@.headroom(),
            old(self).wf(),
            old(self).can_scan(old(ring)),
        ensures
            final(ring).wf(),
            final(self).wf(),
            ({
                let (emptied, scan, values) = old(ring)@.emptied(
                    old(self)@,
                    C::CONSUMED_FLUSH as nat,
                    usize::MAX as nat,
                );
                let drained = emptied.producer_tasks_woken_n(values.len());
                let counted = if values.len() > 0 {
                    drained.with_backstop(old(watch)@.counted_progress(drained.backstop))
                } else {
                    drained
                };
                let watched = if values.len() > 0 {
                    WatchState::fresh(old(watch)@.side)
                } else {
                    old(watch)@
                };
                &&& final(out)@ == old(out)@ + values
                &&& lap.0 == values.len()
                &&& final(self)@ == scan
                &&& lap.1 == if old(ring)@.producers_gone {
                    DrainStep::Done
                } else if may_spin {
                    DrainStep::Spin
                } else {
                    DrainStep::Park
                }
                &&& final(ring)@ == if lap.1 == DrainStep::Park {
                    counted.consumer_parked(scan.slot).with_backstop(
                        watched.counted_before_park(counted.backstop, false),
                    )
                } else {
                    counted
                }
                &&& final(watch)@ == if lap.1 == DrainStep::Park {
                    watched.before_park(
                        counted.consumer_park.armed(scan.slot).others(scan.slot),
                        false,
                    )
                } else {
                    watched
                }
            }),
    {
        proof {
            lemma_emptying_keeps_the_rest(
                ring@,
                self@,
                C::CONSUMED_FLUSH as nat,
                usize::MAX as nat,
            );
        }
        let n: usize = self.drain(ring, out);
        if n > 0 {
            ring.record_progress(watch);
        }
        if ring.producers_gone() {
            return (n, DrainStep::Done);
        }
        if may_spin {
            return (n, DrainStep::Spin);
        }
        ring.park_consumer(self.park_slot, watch, false);
        (n, DrainStep::Park)
    }

    /// One lap of a pop that blocks while the ring is empty, until a
    /// producer publishes something or the ring is closed and empty.
    ///
    /// The lap is indivisible, so nothing is published between the failed
    /// attempt and the announcement of the sleep. A consumer that is told
    /// to park calls [`woke`](Self::woke) when its sleep ends, and then
    /// runs the next lap.
    pub fn pop_block(
        &mut self,
        ring: &mut RingBuffer<T, C>,
        watch: &mut BackstopWatch,
        may_spin: bool,
    ) -> (step: PopStep<T>)
        requires
            old(ring).wf(),
            old(ring)@.headroom(),
            old(self).wf(),
            old(self).can_scan(old(ring)),
        ensures
            final(ring).wf(),
            final(self).wf(),
            ({
                let (claimed, scan) = old(ring)@.claimed(old(self)@, C::CONSUMED_FLUSH as nat);
                &&& final(self)@ == scan
                &&& match old(ring)@.claimable(old(self)@.next) {
                    Some(pos) => {
                        let popped = claimed.freed(pos).producer_tasks_woken();
                        &&& step == PopStep::Done(Some(old(ring)@.at(pos).value()))
                        &&& final(ring)@ == popped.with_backstop(
                            old(watch)@.counted_progress(popped.backstop),
                        )
                        &&& final(watch)@ == WatchState::fresh(old(watch)@.side)
                    },
                    None => if old(ring)@.producers_gone || may_spin {
                        &&& step == if old(ring)@.producers_gone {
                            PopStep::<T>::Done(None)
                        } else {
                            PopStep::<T>::Spin
                        }
                        &&& final(ring)@ == claimed
                        &&& final(watch)@ == old(watch)@
                    } else {
                        &&& step == PopStep::<T>::Park
                        &&& final(ring)@ == claimed.consumer_parked(scan.slot).with_backstop(
                            old(watch)@.counted_before_park(claimed.backstop, false),
                        )
                        &&& final(watch)@ == old(watch)@.before_park(
                            claimed.consumer_park.armed(scan.slot).others(scan.slot),
                            false,
                        )
                    },
                }
            }),
            step == PopStep::<T>::Done(None) ==> old(ring)@.producers == 0 && old(ring)@.drained(),
    {
        proof {
            lemma_claimable_iff_published(ring@, self@.next);
        }
        match self.pop(ring) {
            Some(val) => {
                ring.record_progress(watch);
                PopStep::Done(Some(val))
            },
            None => {
                if ring.producers_gone() {
                    return PopStep::Done(None);
                }
                if may_spin {
                    return PopStep::Spin;
                }
                ring.park_consumer(self.park_slot, watch, false);
                PopStep::Park
            },
        }
    }

    /// Records how a sleep ended and takes this consumer off the record.
    ///
    /// `claimed_within_grace` tells whether a waker came for the handle
    /// shortly after the sleep ended; it counts only where the sleep looks
    /// like one whose wake went missing.
    pub fn woke(
        &self,
        ring: &mut RingBuffer<T, C>,
        watch: &mut BackstopWatch,
        claimed_within_grace: bool,
    )
        requires
            old(ring).wf(),
            self.wf(),
            self.can_scan(old(ring)),
        ensures
            final(ring).wf(),
            ({
                let ended = old(watch)@.sleep_ended(
                    old(ring)@.backstop,
                    WakeDelivery::found(old(ring)@.consumer_park, self@.slot),
                    old(ring)@.consumer_park.others(self@.slot),
                    old(ring)@.claimable(self@.next) is Some,
                    claimed_within_grace,
                );
                &&& final(watch)@ == ended.0
                &&& final(ring)@ == old(ring)@.consumer_unparked(self@.slot).with_backstop(ended.1)
            }),
    {
        let work: bool = if ring.consumer_delivery(self.park_slot).is_unwoken() {
            self.has_item(ring)
        } else {
            false
        };
        ring.unpark_consumer(self.park_slot, watch, work, claimed_within_grace);
    }

    /// Whether the sleep that just ended looks like one whose wake went
    /// missing: the record stands, nobody else on this side sleeps, and
    /// there is work that was not there before. A waker may be about to
    /// come, so it is worth a moment's wait before [`woke`](Self::woke).
    pub fn deserves_grace(&self, ring: &RingBuffer<T, C>, watch: &BackstopWatch) -> (deserves: bool)
        requires
            ring.wf(),
            self.wf(),
            self.can_scan(ring),
        ensures
            deserves == watch@.deserves_grace(
                WakeDelivery::found(ring@.consumer_park, self@.slot),
                ring@.consumer_park.others(self@.slot),
                ring@.claimable(self@.next) is Some,
            ),
    {
        let work: bool = self.has_item(ring);
        ring.consumer_deserves_grace(self.park_slot, watch, work)
    }

    /// Whether a waker has come for this consumer since it went to sleep.
    pub fn wake_arrived(&self, ring: &RingBuffer<T, C>) -> (arrived: bool)
        requires
            self.wf(),
        ensures
            arrived == (WakeDelivery::found(ring@.consumer_park, self@.slot)
                == WakeDelivery::Delivered),
    {
        ring.consumer_delivery(self.park_slot) == WakeDelivery::Delivered
    }

    /// Records that a wake came within the grace of a sleep that deserved
    /// one, and takes this consumer off the record: the sleep reads as woken,
    /// and the wake is counted as late.
    pub fn woke_late(&self, ring: &mut RingBuffer<T, C>, watch: &mut BackstopWatch)
        requires
            old(ring).wf(),
            self.wf(),
        ensures
            final(ring).wf(),
            final(watch)@ == old(watch)@.after_park(WakeDelivery::Delivered, 0, true),
            final(ring)@ == old(ring)@.consumer_unparked(self@.slot).with_backstop(
                old(ring)@.backstop.with_late_wake(),
            ),
    {
        ring.unpark_consumer_late(self.park_slot, watch);
    }

    /// One poll of a pop that yields while the ring is empty, until a
    /// producer publishes something or the ring is closed and empty.
    /// While it is pending the task is on record under this consumer's
    /// park slot; a future that is dropped calls
    /// [`cancel_async`](Self::cancel_async).
    pub fn pop_async(&mut self, ring: &mut RingBuffer<T, C>) -> (poll: PopPoll<T>)
        requires
            old(ring).wf(),
            old(ring)@.headroom(),
            old(self).wf(),
            old(self).can_scan(old(ring)),
        ensures
            final(ring).wf(),
            final(self).wf(),
            ({
                let (claimed, scan) = old(ring)@.claimed(old(self)@, C::CONSUMED_FLUSH as nat);
                &&& final(self)@ == scan
                &&& match old(ring)@.claimable(old(self)@.next) {
                    Some(pos) => {
                        &&& poll == PopPoll::Ready(Some(old(ring)@.at(pos).value()))
                        &&& final(ring)@
                            == claimed.freed(pos).producer_tasks_woken().consumer_task_set(
                            scan.slot,
                            false,
                        )
                    },
                    None => {
                        &&& poll == if old(ring)@.producers_gone {
                            PopPoll::<T>::Ready(None)
                        } else {
                            PopPoll::<T>::Pending
                        }
                        &&& final(ring)@ == claimed.consumer_task_set(
                            scan.slot,
                            !old(ring)@.producers_gone,
                        )
                    },
                }
            }),
    {
        match self.pop(ring) {
            Some(val) => {
                self.cancel_async(ring);
                PopPoll::Ready(Some(val))
            },
            None => {
                if ring.producers_gone() {
                    self.cancel_async(ring);
                    return PopPoll::Ready(None);
                }
                ring.set_consumer_task(self.park_slot, true);
                PopPoll::Pending
            },
        }
    }

    /// Takes this consumer's task off the record. The record stands for all
    /// the calls of this consumer that are pending, so this is for when the
    /// last of them is dropped.
    pub fn cancel_async(&self, ring: &mut RingBuffer<T, C>)
        requires
            old(ring).wf(),
            self.wf(),
        ensures
            final(ring).wf(),
            final(ring)@ == old(ring)@.consumer_task_set(self@.slot, false),
    {
        ring.set_consumer_task(self.park_slot, false);
    }

    /// One lap of [`pop_ref`](Self::pop_ref) that blocks while the ring
    /// is empty, until a producer publishes something or the ring is
    /// closed and empty. Waits as [`pop_block`](Self::pop_block) does.
    ///
    /// Only a claim proves ownership. The check before it changes nothing,
    /// so a lap that finds the ring empty leaves the scan where it was.
    pub fn pop_ref_block(
        &mut self,
        ring: &mut RingBuffer<T, C>,
        watch: &mut BackstopWatch,
        may_spin: bool,
    ) -> (step: PopStep<SlotReader<T, C>>)
        requires
            old(ring).wf(),
            old(ring)@.headroom(),
            old(self).wf(),
            old(self).can_scan(old(ring)),
        ensures
            final(ring).wf(),
            final(self).wf(),
            ({
                let (claimed, scan) = old(ring)@.claimed(old(self)@, C::CONSUMED_FLUSH as nat);
                match old(ring)@.claimable(old(self)@.next) {
                    Some(pos) => {
                        &&& step matches PopStep::Done(Some(r)) && r@ == pos && r.held(final(ring))
                        &&& final(ring)@.at(pos).value() == old(ring)@.at(pos).value()
                        &&& final(self)@ == scan
                        &&& final(ring)@ == claimed.with_backstop(
                            old(watch)@.counted_progress(claimed.backstop),
                        )
                        &&& final(watch)@ == WatchState::fresh(old(watch)@.side)
                    },
                    None => if old(ring)@.producers_gone {
                        &&& step == PopStep::<SlotReader<T, C>>::Done(None)
                        &&& final(self)@ == scan
                        &&& final(ring)@ == claimed
                        &&& final(watch)@ == old(watch)@
                    } else if may_spin {
                        &&& step == PopStep::<SlotReader<T, C>>::Spin
                        &&& final(self)@ == old(self)@
                        &&& final(ring)@ == old(ring)@
                        &&& final(watch)@ == old(watch)@
                    } else {
                        &&& step == PopStep::<SlotReader<T, C>>::Park
                        &&& final(self)@ == old(self)@
                        &&& final(ring)@ == old(ring)@.consumer_parked(
                            old(self)@.slot,
                        ).with_backstop(old(watch)@.counted_before_park(old(ring)@.backstop, false))
                        &&& final(watch)@ == old(watch)@.before_park(
                            old(ring)@.consumer_park.armed(old(self)@.slot).others(old(self)@.slot),
                            false,
                        )
                    },
                }
            }),
            step == PopStep::<SlotReader<T, C>>::Done(None) ==> old(ring)@.producers == 0
                && old(ring)@.drained(),
    {
        proof {
            lemma_claimable_iff_published(ring@, self@.next);
        }
        if self.has_item(ring) || ring.producers_gone() {
            return match self.pop_ref(ring) {
                Some(reader) => {
                    ring.record_progress(watch);
                    PopStep::Done(Some(reader))
                },
                None => PopStep::Done(None),
            };
        }
        if may_spin {
            return PopStep::Spin;
        }
        ring.park_consumer(self.park_slot, watch, false);
        PopStep::Park
    }

    /// A rough length: how far the claim cursor is ahead of this
    /// consumer's scan, at most the capacity. The distance wraps.
    pub fn approx_len(&self, ring: &RingBuffer<T, C>) -> (len: usize)
        requires
            ring.wf(),
        ensures
            ({
                let ahead = usize_specs::wrapping_sub(ring@.claim, self@.next);
                len == if ahead <= ring@.cap {
                    ahead as nat
                } else {
                    ring@.cap
                }
            }),
    {
        let ahead: usize = ring.claim_cursor().wrapping_sub(self.next_scan);
        let cap: usize = ring.capacity();
        if ahead <= cap {
            ahead
        } else {
            cap
        }
    }

    /// Whether the positions of the next three laps of the scan fit the
    /// machine word.
    pub fn has_scan_room(&self, ring: &RingBuffer<T, C>) -> (fits: bool)
        requires
            ring.wf(),
        ensures
            fits == self.can_scan(ring),
    {
        let cap: usize = ring.capacity();
        cap <= usize::MAX / 3 && self.next_scan <= usize::MAX - 3 * cap
    }

    /// Whether the last producer is gone.
    pub fn is_closed(&self, ring: &RingBuffer<T, C>) -> (closed: bool)
        ensures
            closed == ring@.producers_gone,
    {
        ring.producers_gone()
    }

    /// Diagnostic snapshot: where the scan starts, the claim cursor, and
    /// the `ready` and `done` words of every slot.
    pub fn debug_snapshot(&self, ring: &RingBuffer<T, C>) -> (snapshot: (
        usize,
        usize,
        Vec<usize>,
        Vec<usize>,
    ))
        requires
            ring.wf(),
        ensures
            snapshot.0 == self@.next,
            snapshot.1 == ring@.claim,
            snapshot.2@.len() == ring@.cap,
            snapshot.3@.len() == ring@.cap,
            forall|s: int|
                0 <= s < ring@.cap ==> #[trigger] snapshot.2@[s] == ready_word_of(
                    ring@.slots[s],
                    ring@.cap,
                ),
            forall|s: int| 0 <= s < ring@.cap ==> #[trigger] snapshot.3@[s] == ring@.slots[s].pos,
    {
        let (claim, ready, done) = ring.debug_snapshot();
        (self.next_scan, claim, ready, done)
    }

    /// Lets this consumer go: publishes the rest of its tally, returns its
    /// park slot and, if it was the last, wakes every producer, which then
    /// fails.
    pub fn drop(self, ring: &mut RingBuffer<T, C>)
        requires
            old(ring).wf(),
            old(ring)@.consumers > 0,
            self.wf(),
        ensures
            final(ring).wf(),
            final(ring)@ == (RingModel {
                consumed: usize_specs::wrapping_add(
                    old(ring)@.consumed,
                    self@.pending as usize,
                ),
                ..old(ring)@
            }).consumer_left(self@.slot),
    {
        let mut tally: ConsumedTally = self.consumed;
        ring.flush_tally(&mut tally);
        ring.leave_consumer(self.park_slot);
    }
}

/// A claimed value, read in place.
///
/// While it is held the slot is claimed and not released, and the
/// producer of the next lap has to wait for it.
#[derive(Debug)]
pub struct SlotReader<T, C: Config = DefaultConfig> {
    round_pos: usize,
    _ring: PhantomData<(T, C)>,
}

impl<T, C: Config> View for SlotReader<T, C> {
    type V = int;

    /// The claimed position.
    closed spec fn view(&self) -> int {
        self.round_pos as int
    }
}

impl<T, C: Config> SlotReader<T, C> {
    /// Whether the position is claimed in `ring` and not released.
    pub open spec fn held(&self, ring: &RingBuffer<T, C>) -> bool {
        ring@.lent(self@)
    }

    /// The claimed value.
    pub fn deref<'r>(&self, ring: &'r RingBuffer<T, C>) -> (val: &'r T)
        requires
            ring.wf(),
            self.held(ring),
        ensures
            *val == ring@.at(self@).value(),
    {
        ring.peek(self.round_pos)
    }

    /// Takes the value out, releases the slot and wakes the producer that
    /// this frees.
    pub fn drop(self, ring: &mut RingBuffer<T, C>) -> (val: T)
        requires
            old(ring).wf(),
            old(ring)@.headroom(),
            self.held(old(ring)),
        ensures
            final(ring).wf(),
            val == old(ring)@.at(self@).value(),
            final(ring)@ == old(ring)@.freed(self@).producer_tasks_woken(),
    {
        let val: T = ring.free(self.round_pos);
        ring.notify_producers();
        val
    }
}

} // verus!
