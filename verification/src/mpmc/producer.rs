//! The producing end of the ring.

use core::marker::PhantomData;

use vstd::prelude::*;

use crate::common::bits::{bit32, has_bit32, lemma_zero_bits32, with_bit32, without_bit32};
use crate::common::park_registry::ParkSlot;
use crate::common::step::{PushPoll, PushStep, ReserveStep};
use crate::common::wake_delivery::WakeDelivery;
use crate::mpmc::backstop_monitor::{BackstopWatch, WatchState};
use crate::mpmc::config::{Config, DefaultConfig};
use crate::mpmc::ring::RingBuffer;
use crate::mpmc::ring_model::{
    full_batch, lemma_abandoning_keeps_the_rest, lemma_backs_by_slots, lemma_first_writable,
    lemma_full_batch, lemma_publishing_disturbs_nobody, lemma_refill_is_backed,
    lemma_releasing_disturbs_nobody, Batch,
};
use crate::mpmc::slot_table::Phase;

verus! {

/// A producer of the ring; it can be cloned.
///
/// Each producer reserves a batch of positions from the shared claim
/// cursor and publishes into them out of order, using whichever slot of
/// the batch is released first.
#[derive(Debug)]
pub struct Producer<T, C: Config = DefaultConfig> {
    /// The first position of the current batch.
    batch_start: usize,
    /// The positions reserved and not used: bit `i` is `batch_start + i`.
    batch_unused: u32,
    /// How many positions the batch was reserved with.
    batch_size: u32,
    park_slot: ParkSlot,
    _ring: PhantomData<(T, C)>,
}

impl<T, C: Config> View for Producer<T, C> {
    type V = Batch;

    closed spec fn view(&self) -> Batch {
        Batch {
            start: self.batch_start,
            unused: self.batch_unused,
            size: self.batch_size,
            slot: self.park_slot,
        }
    }
}

impl<T, C: Config> Producer<T, C> {
    /// Whether this is a producer of `ring`: the ring honours what it
    /// has reserved.
    pub open spec fn attached(&self, ring: &RingBuffer<T, C>) -> bool {
        &&& self@.slot.wf()
        &&& ring@.backs(self@)
    }

    pub(crate) fn new(park_slot: ParkSlot) -> (producer: Self)
        ensures
            producer@ == (Batch { start: 0, unused: 0, size: 0, slot: park_slot }),
            forall|pos: int| !(#[trigger] producer@.reserves(pos)),
    {
        proof {
            assert forall|i: int| !(#[trigger] bit32(0, i)) by {
                lemma_zero_bits32(i);
            }
        }
        Producer {
            batch_start: 0,
            batch_unused: 0,
            batch_size: 0,
            park_slot,
            _ring: PhantomData,
        }
    }

    /// Makes another producer of the ring, with a batch and a park slot
    /// of its own.
    pub fn clone(&self, ring: &mut RingBuffer<T, C>) -> (producer: Self)
        requires
            old(ring).wf(),
            self.attached(old(ring)),
            0 < old(ring)@.producers < usize::MAX,
        ensures
            final(ring).wf(),
            final(ring)@ == old(ring)@.producer_joined(),
            producer@ == (Batch {
                start: 0,
                unused: 0,
                size: 0,
                slot: old(ring)@.producer_slots.next(),
            }),
            producer.attached(final(ring)),
            self.attached(final(ring)),
            self@.disjoint(producer@),
    {
        let slot: ParkSlot = ring.join_producer();
        let producer: Self = Producer::new(slot);
        proof {
            assert forall|pos: int| #[trigger] self@.reserves(pos) implies ring@.honours(pos) by {
                assert(old(ring)@.honours(pos));
            }
        }
        producer
    }

    /// The park slot of this producer.
    pub fn park_slot(&self) -> (slot: ParkSlot)
        ensures
            slot == self@.slot,
    {
        self.park_slot
    }

    /// Refills an exhausted batch from the claim cursor, and tells whether
    /// there was anything to reserve.
    ///
    /// The size is bounded by the free space that the lagging watermark
    /// shows, which can only be too little. Where it shows none, the next
    /// slot itself is asked before giving up.
    fn refill_batch(&mut self, ring: &mut RingBuffer<T, C>) -> (refilled: bool)
        requires
            old(ring).wf(),
            old(ring)@.headroom(),
            old(self).attached(old(ring)),
            old(self)@.unused == 0,
        ensures
            final(ring).wf(),
            (final(ring)@, final(self)@) == old(ring)@.refilled(
                old(self)@,
                C::PRODUCER_BATCH as nat,
            ),
            refilled == (old(ring)@.refill_size(C::PRODUCER_BATCH as nat) is Some),
            refilled ==> final(self)@.unused != 0,
            final(self).attached(final(ring)),
            final(ring)@.claim <= old(ring)@.claim + 32,
    {
        match ring.refill_size(C::PRODUCER_BATCH) {
            None => false,
            Some(n) => {
                proof {
                    lemma_refill_is_backed(ring@, n as nat, self@);
                    lemma_full_batch(n as nat);
                }
                let start: usize = ring.claim_cursor();
                ring.claim_up(n);
                self.batch_start = start;
                self.batch_unused = full_batch_of(n);
                self.batch_size = n as u32;
                true
            },
        }
    }

    /// Takes a position that can be written now out of the batch, after a
    /// refill if the batch is exhausted. The caller either publishes at
    /// the position or puts it back.
    fn acquire_slot(&mut self, ring: &mut RingBuffer<T, C>) -> (got: Option<usize>)
        requires
            old(ring).wf(),
            old(ring)@.headroom(),
            old(self).attached(old(ring)),
        ensures
            final(ring).wf(),
            (final(ring)@, final(self)@) == old(ring)@.acquired(
                old(self)@,
                C::PRODUCER_BATCH as nat,
            ),
            got == (match old(ring)@.acquirable(old(self)@, C::PRODUCER_BATCH as nat) {
                Some(pos) => Some(pos as usize),
                None => None,
            }),
            final(self).attached(final(ring)),
            final(ring)@.claim <= old(ring)@.claim + 32,
            got matches Some(pos) ==> {
                &&& old(ring)@.acquirable(old(self)@, C::PRODUCER_BATCH as nat) == Some(pos as int)
                &&& final(ring)@.honours(pos as int)
                &&& final(ring)@.writable(pos as int)
                &&& final(self)@.start <= pos < final(self)@.start + 32
                &&& !final(self)@.reserves(pos as int)
            },
    {
        if self.batch_unused == 0 {
            if !self.refill_batch(ring) {
                proof {
                    assert forall|i: int| !(#[trigger] bit32(self@.unused, i)) by {
                        lemma_zero_bits32(i);
                    }
                    lemma_first_writable(ring@, self@, 0);
                }
                return None;
            }
        }
        let ghost full = self@;
        let mut bit: u32 = 0;
        while bit < 32
            invariant
                bit <= 32,
                self@ == full,
                ring.wf(),
                self.attached(ring),
                ring@.first_writable(full, 0) == ring@.first_writable(full, bit as int),
                (ring@, full) == old(ring)@.refilled(old(self)@, C::PRODUCER_BATCH as nat),
                ring@.claim <= old(ring)@.claim + 32,
            decreases 32 - bit,
        {
            if has_bit32(self.batch_unused, bit) {
                assert(full.reserves(full.start + bit));
                let pos: usize = self.batch_start + bit as usize;
                if ring.is_writable(pos) {
                    self.batch_unused = without_bit32(self.batch_unused, bit);
                    assert forall|q: int| #[trigger] self@.reserves(q) implies ring@.honours(q) by {
                        assert(full.reserves(q));
                    }
                    return Some(pos);
                }
            }
            bit = bit + 1;
        }
        None
    }

    /// Pushes a value. It comes back if the ring is full from this
    /// producer's point of view: no position of its batch can be written
    /// and, where the batch was exhausted, none could be reserved.
    pub fn push(&mut self, ring: &mut RingBuffer<T, C>, val: T) -> (result: Result<(), T>)
        requires
            old(ring).wf(),
            old(ring)@.headroom(),
            old(self).attached(old(ring)),
        ensures
            final(ring).wf(),
            final(self).attached(final(ring)),
            result == (match old(ring)@.acquirable(old(self)@, C::PRODUCER_BATCH as nat) {
                Some(_) => Ok(()),
                None => Err(val),
            }),
            (final(ring)@, final(self)@) == old(ring)@.pushed(
                old(self)@,
                C::PRODUCER_BATCH as nat,
                val,
            ),
    {
        match self.acquire_slot(ring) {
            None => Err(val),
            Some(pos) => {
                let ghost acquired = ring@;
                ring.stage(pos, val);
                proof {
                    lemma_publishing_disturbs_nobody(acquired, pos as int, Some(val));
                    lemma_publishing_disturbs_nobody(ring@, pos as int, None);
                }
                ring.publish(pos);
                assert forall|q: int| #[trigger] self@.reserves(q) implies ring@.honours(q) by {
                    assert(acquired.honours(q));
                }
                Ok(())
            },
        }
    }

    /// Reserves a slot for writing in place, or tells that the ring is
    /// full from this producer's point of view. The value becomes visible
    /// once it is committed; a reservation that is dropped goes back to
    /// the batch.
    pub fn reserve(&mut self, ring: &mut RingBuffer<T, C>) -> (writer: Option<SlotWriter<T, C>>)
        requires
            old(ring).wf(),
            old(ring)@.headroom(),
            old(self).attached(old(ring)),
        ensures
            final(ring).wf(),
            final(self).attached(final(ring)),
            (final(ring)@, final(self)@) == old(ring)@.acquired(
                old(self)@,
                C::PRODUCER_BATCH as nat,
            ),
            match old(ring)@.acquirable(old(self)@, C::PRODUCER_BATCH as nat) {
                Some(pos) => writer matches Some(w) && w@ == pos && w.held(final(ring))
                    && w.of_batch(final(self)@),
                None => writer is None,
            },
    {
        match self.acquire_slot(ring) {
            None => None,
            Some(pos) => Some(SlotWriter { pos, _ring: PhantomData }),
        }
    }

    /// Whether an attempt to write would get a position now. Changes
    /// nothing.
    pub fn can_acquire(&self, ring: &RingBuffer<T, C>) -> (can: bool)
        requires
            ring.wf(),
            ring@.headroom(),
            self.attached(ring),
        ensures
            can == (ring@.acquirable(self@, C::PRODUCER_BATCH as nat) is Some),
    {
        let mut start: usize = self.batch_start;
        let mut unused: u32 = self.batch_unused;
        if unused == 0 {
            match ring.refill_size(C::PRODUCER_BATCH) {
                None => {
                    proof {
                        assert forall|i: int| !(#[trigger] bit32(self@.unused, i)) by {
                            lemma_zero_bits32(i);
                        }
                        lemma_first_writable(ring@, self@, 0);
                    }
                    return false;
                },
                Some(n) => {
                    proof {
                        lemma_refill_is_backed(ring@, n as nat, self@);
                        lemma_full_batch(n as nat);
                    }
                    start = ring.claim_cursor();
                    unused = full_batch_of(n);
                },
            }
        }
        let ghost (after, batch) = ring@.refilled(self@, C::PRODUCER_BATCH as nat);
        let mut bit: u32 = 0;
        while bit < 32
            invariant
                bit <= 32,
                ring.wf(),
                batch.start == start,
                batch.unused == unused,
                after.backs(batch),
                after.slots == ring@.slots,
                after.cap == ring@.cap,
                (after, batch) == ring@.refilled(self@, C::PRODUCER_BATCH as nat),
                after.first_writable(batch, 0) == after.first_writable(batch, bit as int),
            decreases 32 - bit,
        {
            if has_bit32(unused, bit) {
                assert(batch.reserves(batch.start + bit));
                assert(after.honours(batch.start + bit));
                if ring.is_writable(start + bit as usize) {
                    return true;
                }
            }
            bit = bit + 1;
        }
        false
    }

    /// One lap of a push that blocks while the ring is full, until a
    /// consumer makes space or the last one is gone.
    ///
    /// The lap is indivisible, so nothing can come between the failed
    /// attempt and the announcement of the sleep. A producer that is told
    /// to park calls [`woke`](Self::woke) when its sleep ends, and then
    /// runs the next lap.
    pub fn push_block(
        &mut self,
        ring: &mut RingBuffer<T, C>,
        watch: &mut BackstopWatch,
        val: T,
        may_spin: bool,
    ) -> (step: PushStep<T>)
        requires
            old(ring).wf(),
            old(ring)@.headroom(),
            old(self).attached(old(ring)),
        ensures
            final(ring).wf(),
            final(self).attached(final(ring)),
            ({
                let limit = C::PRODUCER_BATCH as nat;
                let free = old(ring)@.acquirable(old(self)@, limit) is Some;
                let gone = old(ring)@.consumers_gone;
                let (pushed, batch) = old(ring)@.pushed(old(self)@, limit, val);
                &&& final(self)@ == batch
                &&& step == if free {
                    PushStep::Done(Ok(()))
                } else if gone {
                    PushStep::Done(Err(val))
                } else if may_spin {
                    PushStep::Spin(val)
                } else {
                    PushStep::Park(val)
                }
                &&& final(ring)@ == if free {
                    pushed.with_backstop(old(watch)@.counted_progress(pushed.backstop))
                } else if gone || may_spin {
                    pushed
                } else {
                    pushed.producer_parked(batch).with_backstop(
                        old(watch)@.counted_before_park(pushed.backstop, false),
                    )
                }
                &&& final(watch)@ == if free {
                    WatchState::fresh(old(watch)@.side)
                } else if gone || may_spin {
                    old(watch)@
                } else {
                    old(watch)@.before_park(
                        pushed.producer_park.armed(batch.slot).others(batch.slot),
                        false,
                    )
                }
            }),
    {
        match self.push(ring, val) {
            Ok(()) => {
                let ghost pushed = ring@;
                ring.record_progress(watch);
                assert(self.attached(ring)) by {
                    lemma_backs_by_slots(pushed, ring@, self@);
                }
                PushStep::Done(Ok(()))
            },
            Err(val) => {
                if ring.consumers_gone() {
                    return PushStep::Done(Err(val));
                }
                if may_spin {
                    return PushStep::Spin(val);
                }
                self.park(ring, watch);
                PushStep::Park(val)
            },
        }
    }

    /// Announces the batch and goes on record as asleep.
    fn park(&self, ring: &mut RingBuffer<T, C>, watch: &mut BackstopWatch)
        requires
            old(ring).wf(),
            self.attached(old(ring)),
        ensures
            final(ring).wf(),
            self.attached(final(ring)),
            final(ring)@ == old(ring)@.producer_parked(self@).with_backstop(
                old(watch)@.counted_before_park(old(ring)@.backstop, false),
            ),
            final(watch)@ == old(watch)@.before_park(
                old(ring)@.producer_park.armed(self@.slot).others(self@.slot),
                false,
            ),
    {
        ring.park_producer(self.batch_start, self.batch_unused, self.park_slot, watch, false);
        proof {
            assert(ring@ == old(ring)@.producer_parked(self@).with_backstop(
                old(watch)@.counted_before_park(old(ring)@.backstop, false),
            ));
            lemma_backs_by_slots(old(ring)@, ring@, self@);
        }
    }

    /// Records how a sleep ended and takes this producer off the record:
    /// its slot is disarmed and its announcement withdrawn.
    ///
    /// `claimed_within_grace` tells whether a waker came for the handle
    /// shortly after the sleep ended; it counts only where the sleep looks
    /// like one whose wake went missing.
    pub fn woke(
        &self,
        ring: &mut RingBuffer<T, C>,
        watch: &mut BackstopWatch,
        claimed_within_grace: bool,
    )
        requires
            old(ring).wf(),
            old(ring)@.headroom(),
            self.attached(old(ring)),
        ensures
            final(ring).wf(),
            self.attached(final(ring)),
            ({
                let ended = old(watch)@.sleep_ended(
                    old(ring)@.backstop,
                    WakeDelivery::found(old(ring)@.producer_park, self@.slot),
                    old(ring)@.producer_park.others(self@.slot),
                    old(ring)@.acquirable(self@, C::PRODUCER_BATCH as nat) is Some,
                    claimed_within_grace,
                );
                &&& final(watch)@ == ended.0
                &&& final(ring)@ == old(ring)@.producer_unparked(self@.slot).with_backstop(ended.1)
            }),
    {
        let work: bool = if ring.producer_delivery(self.park_slot).is_unwoken() {
            self.can_acquire(ring)
        } else {
            false
        };
        ring.unpark_producer(self.park_slot, watch, work, claimed_within_grace);
        proof {
            lemma_backs_by_slots(old(ring)@, ring@, self@);
        }
    }

    /// Whether the sleep that just ended looks like one whose wake went
    /// missing: the record stands, nobody else on this side sleeps, and
    /// there is work that was not there before. A waker may be about to
    /// come, so it is worth a moment's wait before [`woke`](Self::woke).
    pub fn deserves_grace(&self, ring: &RingBuffer<T, C>, watch: &BackstopWatch) -> (deserves: bool)
        requires
            ring.wf(),
            ring@.headroom(),
            self.attached(ring),
        ensures
            deserves == watch@.deserves_grace(
                WakeDelivery::found(ring@.producer_park, self@.slot),
                ring@.producer_park.others(self@.slot),
                ring@.acquirable(self@, C::PRODUCER_BATCH as nat) is Some,
            ),
    {
        let work: bool = self.can_acquire(ring);
        ring.producer_deserves_grace(self.park_slot, watch, work)
    }

    /// Whether a waker has come for this producer since it went to sleep.
    pub fn wake_arrived(&self, ring: &RingBuffer<T, C>) -> (arrived: bool)
        requires
            self.attached(ring),
        ensures
            arrived == (WakeDelivery::found(ring@.producer_park, self@.slot)
                == WakeDelivery::Delivered),
    {
        ring.producer_delivery(self.park_slot) == WakeDelivery::Delivered
    }

    /// Records that a wake came within the grace of a sleep that deserved
    /// one, and takes this producer off the record: the sleep reads as woken,
    /// and the wake is counted as late.
    pub fn woke_late(&self, ring: &mut RingBuffer<T, C>, watch: &mut BackstopWatch)
        requires
            old(ring).wf(),
            self.attached(old(ring)),
        ensures
            final(ring).wf(),
            self.attached(final(ring)),
            final(watch)@ == old(watch)@.after_park(WakeDelivery::Delivered, 0, true),
            final(ring)@ == old(ring)@.producer_unparked(self@.slot).with_backstop(
                old(ring)@.backstop.with_late_wake(),
            ),
    {
        ring.unpark_producer_late(self.park_slot, watch);
        proof {
            lemma_backs_by_slots(old(ring)@, ring@, self@);
        }
    }

    /// One lap of a reservation that blocks while the ring is full, until
    /// a consumer makes space or the last one is gone. Waits as
    /// [`push_block`](Self::push_block) does.
    pub fn reserve_block(
        &mut self,
        ring: &mut RingBuffer<T, C>,
        watch: &mut BackstopWatch,
        may_spin: bool,
    ) -> (step: ReserveStep<SlotWriter<T, C>>)
        requires
            old(ring).wf(),
            old(ring)@.headroom(),
            old(self).attached(old(ring)),
        ensures
            final(ring).wf(),
            final(self).attached(final(ring)),
            ({
                let limit = C::PRODUCER_BATCH as nat;
                let got = old(ring)@.acquirable(old(self)@, limit);
                let (acquired, batch) = old(ring)@.acquired(old(self)@, limit);
                if old(ring)@.consumers_gone {
                    &&& step == ReserveStep::<SlotWriter<T, C>>::Done(None)
                    &&& final(ring)@ == old(ring)@
                    &&& final(self)@ == old(self)@
                    &&& final(watch)@ == old(watch)@
                } else {
                    &&& final(self)@ == batch
                    &&& match got {
                        Some(pos) => {
                            &&& step matches ReserveStep::Done(Some(w)) && w@ == pos && w.held(
                                final(ring),
                            ) && w.of_batch(final(self)@)
                            &&& final(ring)@ == acquired.with_backstop(
                                old(watch)@.counted_progress(acquired.backstop),
                            )
                            &&& final(watch)@ == WatchState::fresh(old(watch)@.side)
                        },
                        None => if may_spin {
                            &&& step == ReserveStep::<SlotWriter<T, C>>::Spin
                            &&& final(ring)@ == acquired
                            &&& final(watch)@ == old(watch)@
                        } else {
                            &&& step == ReserveStep::<SlotWriter<T, C>>::Park
                            &&& final(ring)@ == acquired.producer_parked(batch).with_backstop(
                                old(watch)@.counted_before_park(acquired.backstop, false),
                            )
                            &&& final(watch)@ == old(watch)@.before_park(
                                acquired.producer_park.armed(batch.slot).others(batch.slot),
                                false,
                            )
                        },
                    }
                }
            }),
    {
        if ring.consumers_gone() {
            return ReserveStep::Done(None);
        }
        match self.reserve(ring) {
            Some(writer) => {
                let ghost acquired = ring@;
                ring.record_progress(watch);
                proof {
                    lemma_backs_by_slots(acquired, ring@, self@);
                }
                ReserveStep::Done(Some(writer))
            },
            None => {
                if may_spin {
                    return ReserveStep::Spin;
                }
                self.park(ring, watch);
                ReserveStep::Park
            },
        }
    }

    /// One poll of a push that yields while the ring is full, until a
    /// consumer makes space or the last one is gone. While it is pending
    /// the task is on record under this producer's park slot; a future
    /// that is dropped calls [`cancel_async`](Self::cancel_async).
    pub fn push_async(&mut self, ring: &mut RingBuffer<T, C>, val: T) -> (poll: PushPoll<T>)
        requires
            old(ring).wf(),
            old(ring)@.headroom(),
            old(self).attached(old(ring)),
        ensures
            final(ring).wf(),
            final(self).attached(final(ring)),
            ({
                let limit = C::PRODUCER_BATCH as nat;
                let free = old(ring)@.acquirable(old(self)@, limit) is Some;
                let (pushed, batch) = old(ring)@.pushed(old(self)@, limit, val);
                if old(ring)@.consumers_gone {
                    &&& poll == PushPoll::Ready(Err(val))
                    &&& final(self)@ == old(self)@
                    &&& final(ring)@ == old(ring)@.producer_task_set(old(self)@.slot, false)
                } else {
                    &&& poll == if free {
                        PushPoll::Ready(Ok(()))
                    } else {
                        PushPoll::Pending(val)
                    }
                    &&& final(self)@ == batch
                    &&& final(ring)@ == pushed.producer_task_set(batch.slot, !free)
                }
            }),
    {
        if ring.consumers_gone() {
            self.cancel_async(ring);
            return PushPoll::Ready(Err(val));
        }
        match self.push(ring, val) {
            Ok(()) => {
                self.cancel_async(ring);
                PushPoll::Ready(Ok(()))
            },
            Err(val) => {
                let ghost pushed = ring@;
                ring.set_producer_task(self.park_slot, true);
                proof {
                    lemma_backs_by_slots(pushed, ring@, self@);
                }
                PushPoll::Pending(val)
            },
        }
    }

    /// Takes this producer's task off the record. The record stands for all
    /// the calls of this producer that are pending, so this is for when the
    /// last of them is dropped.
    pub fn cancel_async(&self, ring: &mut RingBuffer<T, C>)
        requires
            old(ring).wf(),
            self.attached(old(ring)),
        ensures
            final(ring).wf(),
            self.attached(final(ring)),
            final(ring)@ == old(ring)@.producer_task_set(self@.slot, false),
    {
        ring.set_producer_task(self.park_slot, false);
        proof {
            lemma_backs_by_slots(old(ring)@, ring@, self@);
        }
    }

    /// Gives up the positions that were reserved and never used, and
    /// tells whether it has to wait for a consumer first.
    ///
    /// A reserved position cannot simply be dropped: the producer of the
    /// next lap waits for the slot. It can be released only once the
    /// consumer of the lap before has let go of it. A consumer may be
    /// asleep while it holds the ring up, so each wait wakes one. With
    /// the consumers gone the wait would never end and nobody needs the
    /// slot, so it is left as it is.
    fn abandon_batch(&mut self, ring: &mut RingBuffer<T, C>) -> (blocked: bool)
        requires
            old(ring).wf(),
            old(ring)@.headroom(),
            old(self).attached(old(ring)),
        ensures
            final(ring).wf(),
            final(self).attached(final(ring)),
            (final(ring)@, final(self)@, blocked) == old(ring)@.abandoned(old(self)@, 0),
    {
        let mut bit: u32 = 0;
        while bit < 32
            invariant
                bit <= 32,
                ring.wf(),
                ring@.headroom(),
                self.attached(ring),
                old(ring)@.abandoned(old(self)@, 0) == ring@.abandoned(self@, bit as int),
            decreases 32 - bit,
        {
            if has_bit32(self.batch_unused, bit) {
                assert(self@.reserves(self@.start + bit));
                let pos: usize = self.batch_start + bit as usize;
                let ghost before = ring@;
                let ghost batch = self@;
                if ring.is_writable(pos) {
                    proof {
                        lemma_releasing_disturbs_nobody(before, pos as int);
                    }
                    ring.abandon(pos);
                    self.batch_unused = without_bit32(self.batch_unused, bit);
                } else if ring.consumers_gone() {
                    self.batch_unused = without_bit32(self.batch_unused, bit);
                } else {
                    ring.nudge_consumers();
                    proof {
                        lemma_backs_by_slots(before, ring@, self@);
                    }
                    return true;
                }
                assert forall|q: int| #[trigger] self@.reserves(q) implies ring@.honours(q) by {
                    assert(batch.reserves(q) && q != pos);
                    assert(before.honours(q));
                }
            }
            bit = bit + 1;
        }
        false
    }

    /// Lets this producer go: gives up what it has reserved, returns its
    /// park slot and, if it was the last, closes the ring and wakes
    /// everybody.
    ///
    /// Where a reserved position has to wait for a consumer, the producer
    /// comes back with what is left of its batch, and the call has to be
    /// made again.
    pub fn drop(self, ring: &mut RingBuffer<T, C>) -> (result: Result<(), Self>)
        requires
            old(ring).wf(),
            old(ring)@.headroom(),
            old(ring)@.producers > 0,
            self.attached(old(ring)),
        ensures
            final(ring).wf(),
            ({
                let (abandoned, batch, blocked) = old(ring)@.abandoned(self@, 0);
                if blocked {
                    &&& result matches Err(left) && left@ == batch && left.attached(final(ring))
                    &&& final(ring)@ == abandoned
                } else {
                    &&& result is Ok
                    &&& final(ring)@ == abandoned.producer_left(self@.slot)
                }
            }),
    {
        let mut this: Self = self;
        proof {
            lemma_abandoning_keeps_the_rest(ring@, this@, 0);
        }
        if this.abandon_batch(ring) {
            return Err(this);
        }
        ring.leave_producer(this.park_slot);
        Ok(())
    }
}

/// The bitmap of a full batch of `n` positions.
pub(crate) fn full_batch_of(n: usize) -> (unused: u32)
    ensures
        unused == full_batch(n as nat),
{
    if n >= 32 {
        u32::MAX
    } else {
        let width: u32 = n as u32;
        let top: u32 = 1u32 << width;
        assert(top >= 1) by (bit_vector)
            requires
                top == 1u32 << width,
                width < 32,
        ;
        top - 1
    }
}

/// A reservation of one position, to be written in place.
///
/// [`write`](Self::write) fills it and gives a [`WrittenSlot`] that can
/// be committed. A reservation that is dropped goes back to the batch of
/// its producer.
#[derive(Debug)]
pub struct SlotWriter<T, C: Config = DefaultConfig> {
    pos: usize,
    _ring: PhantomData<(T, C)>,
}

impl<T, C: Config> View for SlotWriter<T, C> {
    type V = int;

    /// The reserved position.
    closed spec fn view(&self) -> int {
        self.pos as int
    }
}

impl<T, C: Config> SlotWriter<T, C> {
    /// Whether the position is reserved in `ring` and can be written.
    pub open spec fn held(&self, ring: &RingBuffer<T, C>) -> bool {
        &&& ring@.honours(self@)
        &&& ring@.writable(self@)
    }

    /// Whether the position was taken out of `batch`.
    pub open spec fn of_batch(&self, batch: Batch) -> bool {
        &&& batch.start <= self@ < batch.start + 32
        &&& !batch.reserves(self@)
    }

    /// The cell of the slot. What is written there becomes visible with
    /// [`commit_unchecked`](Self::commit_unchecked); if that never comes,
    /// it is forgotten.
    pub fn slot_mut<'r>(&self, ring: &'r mut RingBuffer<T, C>) -> (cell: &'r mut Option<T>)
        requires
            old(ring).wf(),
            self.held(old(ring)),
        ensures
            old(ring)@.at(self@).phase == Phase::Open(*cell),
            final(ring).wf(),
            final(ring)@ == old(ring)@.staged(self@, *final(cell)),
    {
        ring.cell_mut(self.pos)
    }

    /// Writes a value into the slot.
    pub fn write(self, ring: &mut RingBuffer<T, C>, val: T) -> (written: WrittenSlot<T, C>)
        requires
            old(ring).wf(),
            self.held(old(ring)),
        ensures
            final(ring).wf(),
            final(ring)@ == old(ring)@.staged(self@, Some(val)),
            written@ == self@,
            written.held(final(ring)),
    {
        ring.stage(self.pos, val);
        proof {
            lemma_publishing_disturbs_nobody(old(ring)@, self@, Some(val));
            crate::capacity::lemma_next_lap(self@, old(ring)@.cap);
        }
        WrittenSlot { pos: self.pos, _ring: PhantomData }
    }

    /// Publishes what was written through [`slot_mut`](Self::slot_mut).
    pub fn commit_unchecked(self, ring: &mut RingBuffer<T, C>)
        requires
            old(ring).wf(),
            self.held(old(ring)),
            old(ring)@.at(self@).phase matches Phase::Open(staged) && staged is Some,
        ensures
            final(ring).wf(),
            final(ring)@ == old(ring)@.published(self@),
    {
        ring.publish(self.pos);
    }

    /// Returns the reservation to the batch of its producer.
    pub fn drop(self, ring: &RingBuffer<T, C>, producer: &mut Producer<T, C>)
        requires
            self.held(ring),
            old(producer).attached(ring),
            self.of_batch(old(producer)@),
        ensures
            final(producer)@ == old(producer)@.with(self@),
            final(producer).attached(ring),
    {
        producer.put_back(ring, self.pos);
    }
}

impl<T, C: Config> Producer<T, C> {
    /// Puts a position back into the batch.
    fn put_back(&mut self, ring: &RingBuffer<T, C>, pos: usize)
        requires
            ring@.honours(pos as int),
            old(self).attached(ring),
            old(self)@.start <= pos < old(self)@.start + 32,
        ensures
            final(self)@ == old(self)@.with(pos as int),
            final(self).attached(ring),
    {
        let bit: u32 = (pos - self.batch_start) as u32;
        self.batch_unused = with_bit32(self.batch_unused, bit);
        assert forall|q: int| #[trigger] self@.reserves(q) implies ring@.honours(q) by {
            assert(q == pos || old(self)@.reserves(q));
        }
    }
}

/// A reserved slot with a value in it.
///
/// [`commit`](Self::commit) makes it visible. If it is dropped instead,
/// so is the value, and the reservation goes back to the batch.
#[derive(Debug)]
pub struct WrittenSlot<T, C: Config = DefaultConfig> {
    pos: usize,
    _ring: PhantomData<(T, C)>,
}

impl<T, C: Config> View for WrittenSlot<T, C> {
    type V = int;

    /// The reserved position.
    closed spec fn view(&self) -> int {
        self.pos as int
    }
}

impl<T, C: Config> WrittenSlot<T, C> {
    /// Whether the position is reserved in `ring` and a value waits there.
    pub open spec fn held(&self, ring: &RingBuffer<T, C>) -> bool {
        &&& ring@.honours(self@)
        &&& ring@.writable(self@)
        &&& ring@.at(self@).phase matches Phase::Open(staged) && staged is Some
    }

    /// Whether the position was taken out of `batch`.
    pub open spec fn of_batch(&self, batch: Batch) -> bool {
        &&& batch.start <= self@ < batch.start + 32
        &&& !batch.reserves(self@)
    }

    /// Makes the value visible to the consumers.
    pub fn commit(self, ring: &mut RingBuffer<T, C>)
        requires
            old(ring).wf(),
            self.held(old(ring)),
        ensures
            final(ring).wf(),
            final(ring)@ == old(ring)@.published(self@),
    {
        ring.publish(self.pos);
    }

    /// Takes the value back and returns the reservation to the batch of
    /// its producer.
    pub fn drop(self, ring: &mut RingBuffer<T, C>, producer: &mut Producer<T, C>) -> (val: T)
        requires
            old(ring).wf(),
            self.held(old(ring)),
            old(producer).attached(old(ring)),
            self.of_batch(old(producer)@),
        ensures
            val == old(ring)@.at(self@).value(),
            final(ring).wf(),
            final(ring)@ == old(ring)@.staged(self@, None),
            final(producer)@ == old(producer)@.with(self@),
            final(producer).attached(final(ring)),
    {
        proof {
            lemma_publishing_disturbs_nobody(ring@, self@, None);
        }
        let val: Option<T> = ring.unstage(self.pos);
        assert forall|q: int| #[trigger] producer@.reserves(q) implies ring@.honours(q) by {
            assert(old(ring)@.honours(q) && q != self@);
        }
        producer.put_back(ring, self.pos);
        val.unwrap()
    }
}

} // verus!
