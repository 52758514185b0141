//! The producing ends of the ring.

use core::marker::PhantomData;

use vstd::prelude::*;
use vstd::wrapping::usize_specs;

use crate::common::park_registry::ParkSlot;
use crate::common::step::{PushPoll, PushStep, ReserveStep};
use crate::mpsc::ring::{Claim, ClaimModel, RingBuffer};

verus! {

/// A producer of the ring; it can be cloned.
#[derive(Debug)]
pub struct Producer<T> {
    /// A head that was read earlier: the ring has at least the room that
    /// it shows.
    cached_head: usize,
    park_slot: ParkSlot,
    _ring: PhantomData<T>,
}

/// The private state of a producer.
pub struct Sending {
    pub cached_head: usize,
    pub slot: ParkSlot,
}

/// What an attempt to claim the position that was seen at the tail comes
/// to.
#[derive(Clone, Copy, Debug, PartialEq, Eq, Structural)]
pub enum Attempt {
    /// The position is claimed.
    Won(usize),
    /// Another producer was first; the tail is now here.
    Lost(usize),
    /// There is no room at the position.
    Full,
}

impl<T> View for Producer<T> {
    type V = Sending;

    closed spec fn view(&self) -> Sending {
        Sending { cached_head: self.cached_head, slot: self.park_slot }
    }
}

impl<T> Producer<T> {
    /// Whether this is a producer of `ring`: its cached head is not ahead
    /// of the real one.
    pub open spec fn attached(&self, ring: &RingBuffer<T>) -> bool {
        &&& self@.cached_head <= ring@.head
        &&& self@.slot.wf()
    }

    pub(crate) fn new_with(park_slot: ParkSlot) -> (producer: Self)
        ensures
            producer@ == (Sending { cached_head: 0, slot: park_slot }),
    {
        Producer { cached_head: 0, park_slot, _ring: PhantomData }
    }

    /// Makes another producer of the ring, with a park slot of its own.
    pub fn clone(&self, ring: &mut RingBuffer<T>) -> (producer: Self)
        requires
            old(ring).wf(),
            old(ring)@.producers < usize::MAX,
        ensures
            final(ring).wf(),
            final(ring)@ == old(ring)@.producer_joined(),
            producer@ == (Sending { cached_head: 0, slot: old(ring)@.producer_slots.next() }),
            producer.attached(final(ring)),
    {
        Producer::new_with(ring.join_producer())
    }

    /// Makes another producer of a ring that stays with the caller.
    pub fn new_producer(&self, ring: &mut RingBuffer<T>) -> (producer: Self)
        requires
            old(ring).wf(),
            old(ring)@.producers < usize::MAX,
        ensures
            final(ring).wf(),
            final(ring)@ == old(ring)@.producer_joined(),
            producer@ == (Sending { cached_head: 0, slot: old(ring)@.producer_slots.next() }),
            producer.attached(final(ring)),
    {
        self.clone(ring)
    }

    /// The park slot of this producer.
    pub fn park_slot(&self) -> (slot: ParkSlot)
        ensures
            slot == self@.slot,
    {
        self.park_slot
    }

    /// Tries to claim the position `observed`, which was seen at the tail
    /// a moment ago.
    ///
    /// The check for room and the claim are one operation on the tail, so
    /// a claim never takes a position that is not free. The distances
    /// wrap. An observation that the consumer has already passed reads as
    /// no room.
    pub fn attempt(&mut self, ring: &mut RingBuffer<T>, observed: usize) -> (attempt: Attempt)
        requires
            old(ring).wf(),
            old(ring)@.headroom(),
            old(self).attached(old(ring)),
        ensures
            final(ring).wf(),
            final(self).attached(final(ring)),
            final(self)@.slot == old(self)@.slot,
            final(self)@.cached_head == if usize_specs::wrapping_sub(
                observed,
                old(self)@.cached_head,
            ) < old(ring)@.cap {
                old(self)@.cached_head
            } else {
                old(ring)@.head
            },
            ({
                let cap = old(ring)@.cap;
                let room = usize_specs::wrapping_sub(observed, old(self)@.cached_head) < cap
                    || usize_specs::wrapping_sub(observed, old(ring)@.head) < cap;
                &&& attempt == if !room {
                    Attempt::Full
                } else if observed == old(ring)@.tail {
                    Attempt::Won(observed)
                } else {
                    Attempt::Lost(old(ring)@.tail)
                }
                &&& final(ring)@ == if attempt is Won {
                    old(ring)@.claimed()
                } else {
                    old(ring)@
                }
            }),
            observed == old(ring)@.tail ==> attempt == if old(ring)@.is_full() {
                Attempt::Full
            } else {
                Attempt::Won(observed)
            },
    {
        if observed.wrapping_sub(self.cached_head) >= ring.cap() {
            let head: usize = ring.head();
            self.cached_head = head;
            if observed.wrapping_sub(head) >= ring.cap() {
                return Attempt::Full;
            }
        }
        if ring.claim_at_tail(observed) {
            Attempt::Won(observed)
        } else {
            Attempt::Lost(ring.tail())
        }
    }

    /// Claims the next position, if there is room.
    fn claim_slot(&mut self, ring: &mut RingBuffer<T>) -> (pos: Option<usize>)
        requires
            old(ring).wf(),
            old(ring)@.headroom(),
            old(self).attached(old(ring)),
        ensures
            final(ring).wf(),
            final(self).attached(final(ring)),
            final(self)@.slot == old(self)@.slot,
            if old(ring)@.is_full() {
                &&& pos is None
                &&& final(ring)@ == old(ring)@
            } else {
                &&& pos == Some(old(ring)@.tail)
                &&& final(ring)@ == old(ring)@.claimed()
                &&& final(ring)@.pending(old(ring)@.tail as int)
            },
    {
        let observed: usize = ring.tail();
        match self.attempt(ring, observed) {
            Attempt::Won(pos) => Some(pos),
            _ => None,
        }
    }

    /// Pushes a value behind every claim made so far. It comes back if the
    /// ring is full.
    pub fn push(&mut self, ring: &mut RingBuffer<T>, val: T) -> (result: Result<(), T>)
        requires
            old(ring).wf(),
            old(ring)@.headroom(),
            old(self).attached(old(ring)),
        ensures
            final(ring).wf(),
            final(self).attached(final(ring)),
            final(self)@.slot == old(self)@.slot,
            result == if old(ring)@.is_full() {
                Err(val)
            } else {
                Ok(())
            },
            final(ring)@ == if old(ring)@.is_full() {
                old(ring)@
            } else {
                old(ring)@.pushed(val)
            },
    {
        match self.claim_slot(ring) {
            None => Err(val),
            Some(pos) => {
                *ring.cell_mut(pos) = Some(val);
                ring.publish(pos);
                assert(ring@.claims =~= old(ring)@.pushed(val).claims);
                Ok(())
            },
        }
    }

    /// One lap of a push that blocks while the ring is full, until the
    /// consumer makes space or is gone. Nothing goes in once the consumer
    /// is gone.
    ///
    /// A producer that is told to park calls [`woke`](Self::woke) when its
    /// sleep ends, and then runs the next lap.
    pub fn push_block(
        &mut self,
        ring: &mut RingBuffer<T>,
        val: T,
        may_spin: bool,
    ) -> (step: PushStep<T>)
        requires
            old(ring).wf(),
            old(ring)@.headroom(),
            old(self).attached(old(ring)),
        ensures
            final(ring).wf(),
            final(self).attached(final(ring)),
            final(self)@.slot == old(self)@.slot,
            if old(ring)@.consumer_closed {
                &&& step == PushStep::Done(Err::<(), T>(val))
                &&& final(ring)@ == old(ring)@
            } else if !old(ring)@.is_full() {
                &&& step == PushStep::<T>::Done(Ok(()))
                &&& final(ring)@ == old(ring)@.pushed(val)
            } else if may_spin {
                &&& step == PushStep::Spin(val)
                &&& final(ring)@ == old(ring)@
            } else {
                &&& step == PushStep::Park(val)
                &&& final(ring)@ == (ClaimModel {
                    producer_park: old(ring)@.producer_park.armed(old(self)@.slot),
                    ..old(ring)@
                })
            },
    {
        if ring.consumer_gone() {
            return PushStep::Done(Err(val));
        }
        match self.push(ring, val) {
            Ok(()) => PushStep::Done(Ok(())),
            Err(val) => {
                if may_spin {
                    return PushStep::Spin(val);
                }
                ring.set_producer_parked(self.park_slot, true);
                PushStep::Park(val)
            },
        }
    }

    /// Takes this producer off the record of those asleep.
    pub fn woke(&self, ring: &mut RingBuffer<T>)
        requires
            old(ring).wf(),
            self.attached(old(ring)),
        ensures
            final(ring).wf(),
            self.attached(final(ring)),
            final(ring)@ == (ClaimModel {
                producer_park: old(ring)@.producer_park.disarmed(self@.slot),
                ..old(ring)@
            }),
    {
        ring.set_producer_parked(self.park_slot, false);
    }

    /// One poll of a push that yields while the ring is full, until the
    /// consumer makes space or is gone. While it is pending the task is on
    /// record under this producer's park slot; a future that is dropped
    /// calls [`cancel_async`](Self::cancel_async).
    pub fn push_async(&mut self, ring: &mut RingBuffer<T>, val: T) -> (poll: PushPoll<T>)
        requires
            old(ring).wf(),
            old(ring)@.headroom(),
            old(self).attached(old(ring)),
        ensures
            final(ring).wf(),
            final(self).attached(final(ring)),
            final(self)@.slot == old(self)@.slot,
            ({
                let waits = !old(ring)@.consumer_closed && old(ring)@.is_full();
                let after = if old(ring)@.consumer_closed || waits {
                    old(ring)@
                } else {
                    old(ring)@.pushed(val)
                };
                &&& poll == if waits {
                    PushPoll::Pending(val)
                } else if old(ring)@.consumer_closed {
                    PushPoll::Ready(Err(val))
                } else {
                    PushPoll::Ready(Ok(()))
                }
                &&& final(ring)@ == (ClaimModel {
                    producer_tasks: if waits {
                        after.producer_tasks.armed(old(self)@.slot)
                    } else {
                        after.producer_tasks.disarmed(old(self)@.slot)
                    },
                    ..after
                })
            }),
    {
        if ring.consumer_gone() {
            self.cancel_async(ring);
            return PushPoll::Ready(Err(val));
        }
        match self.push(ring, val) {
            Ok(()) => {
                self.cancel_async(ring);
                PushPoll::Ready(Ok(()))
            },
            Err(val) => {
                ring.set_producer_task(self.park_slot, true);
                PushPoll::Pending(val)
            },
        }
    }

    /// Takes this producer's task off the record. The record stands for all
    /// the calls of this producer that are pending, so this is for when the
    /// last of them is dropped.
    pub fn cancel_async(&self, ring: &mut RingBuffer<T>)
        requires
            old(ring).wf(),
            self.attached(old(ring)),
        ensures
            final(ring).wf(),
            self.attached(final(ring)),
            final(ring)@ == (ClaimModel {
                producer_tasks: old(ring)@.producer_tasks.disarmed(self@.slot),
                ..old(ring)@
            }),
    {
        ring.set_producer_task(self.park_slot, false);
    }

    /// Claims a position for writing in place, or tells that the ring is
    /// full. The position has its place in the order from now on; a
    /// reservation that is dropped leaves a tombstone there.
    pub fn reserve(&mut self, ring: &mut RingBuffer<T>) -> (writer: Option<SlotWriter<T>>)
        requires
            old(ring).wf(),
            old(ring)@.headroom(),
            old(self).attached(old(ring)),
        ensures
            final(ring).wf(),
            final(self).attached(final(ring)),
            final(self)@.slot == old(self)@.slot,
            if old(ring)@.is_full() {
                &&& writer is None
                &&& final(ring)@ == old(ring)@
            } else {
                &&& writer matches Some(w) && w@ == old(ring)@.tail && w.held(final(ring))
                &&& final(ring)@ == old(ring)@.claimed()
            },
    {
        match self.claim_slot(ring) {
            None => None,
            Some(pos) => Some(SlotWriter { pos, _ring: PhantomData }),
        }
    }

    /// One lap of a reservation that blocks while the ring is full, until
    /// the consumer makes space or is gone. Waits as
    /// [`push_block`](Self::push_block) does.
    pub fn reserve_block(
        &mut self,
        ring: &mut RingBuffer<T>,
        may_spin: bool,
    ) -> (step: ReserveStep<SlotWriter<T>>)
        requires
            old(ring).wf(),
            old(ring)@.headroom(),
            old(self).attached(old(ring)),
        ensures
            final(ring).wf(),
            final(self).attached(final(ring)),
            final(self)@.slot == old(self)@.slot,
            if old(ring)@.consumer_closed {
                &&& step == ReserveStep::<SlotWriter<T>>::Done(None)
                &&& final(ring)@ == old(ring)@
            } else if !old(ring)@.is_full() {
                &&& step matches ReserveStep::Done(Some(w)) && w@ == old(ring)@.tail && w.held(
                    final(ring),
                )
                &&& final(ring)@ == old(ring)@.claimed()
            } else if may_spin {
                &&& step == ReserveStep::<SlotWriter<T>>::Spin
                &&& final(ring)@ == old(ring)@
            } else {
                &&& step == ReserveStep::<SlotWriter<T>>::Park
                &&& final(ring)@ == (ClaimModel {
                    producer_park: old(ring)@.producer_park.armed(old(self)@.slot),
                    ..old(ring)@
                })
            },
    {
        if ring.consumer_gone() {
            return ReserveStep::Done(None);
        }
        match self.reserve(ring) {
            Some(writer) => ReserveStep::Done(Some(writer)),
            None => {
                if may_spin {
                    return ReserveStep::Spin;
                }
                ring.set_producer_parked(self.park_slot, true);
                ReserveStep::Park
            },
        }
    }

    /// The number of claimed positions that the consumer has not passed.
    #[must_use]
    pub fn len(&self, ring: &RingBuffer<T>) -> (n: usize)
        requires
            ring.wf(),
        ensures
            n == ring@.claims.len(),
    {
        ring.len()
    }

    /// Whether no position is claimed.
    #[must_use]
    pub fn is_empty(&self, ring: &RingBuffer<T>) -> (empty: bool)
        requires
            ring.wf(),
        ensures
            empty == (ring@.claims.len() == 0),
    {
        ring.is_empty()
    }

    /// Whether every position is claimed.
    #[must_use]
    pub fn is_full(&self, ring: &RingBuffer<T>) -> (full: bool)
        requires
            ring.wf(),
        ensures
            full == ring@.is_full(),
    {
        ring.is_full()
    }

    /// Lets this producer go: returns its park slot and, if it was the
    /// last, closes the ring and wakes the consumer.
    pub fn drop(self, ring: &mut RingBuffer<T>)
        requires
            old(ring).wf(),
            old(ring)@.producers > 0,
            self.attached(old(ring)),
        ensures
            final(ring).wf(),
            final(ring)@ == old(ring)@.producer_left(self@.slot),
    {
        ring.leave_producer(self.park_slot);
    }
}

/// A claimed position, to be written in place.
///
/// [`write`](Self::write) fills it and gives a [`WrittenSlot`] that can
/// be committed. If it is dropped, the position becomes a tombstone that
/// the consumer skips.
#[derive(Debug)]
pub struct SlotWriter<T> {
    pos: usize,
    _ring: PhantomData<T>,
}

impl<T> View for SlotWriter<T> {
    type V = usize;

    /// The claimed position.
    closed spec fn view(&self) -> usize {
        self.pos
    }
}

impl<T> SlotWriter<T> {
    /// Whether the position is claimed in `ring` and not settled.
    pub open spec fn held(&self, ring: &RingBuffer<T>) -> bool {
        ring@.pending(self@ as int)
    }

    /// The cell of the slot. What is written there becomes visible with
    /// [`commit_unchecked`](Self::commit_unchecked).
    pub fn slot_mut<'r>(&self, ring: &'r mut RingBuffer<T>) -> (cell: &'r mut Option<T>)
        requires
            old(ring).wf(),
            self.held(old(ring)),
        ensures
            old(ring)@.claim_of(self@ as int) == Claim::Pending(*cell),
            final(ring).wf(),
            final(ring)@ == old(ring)@.with_claim(self@ as int, Claim::Pending(*final(cell))),
    {
        ring.cell_mut(self.pos)
    }

    /// Writes a value into the slot.
    pub fn write(self, ring: &mut RingBuffer<T>, val: T) -> (written: WrittenSlot<T>)
        requires
            old(ring).wf(),
            self.held(old(ring)),
        ensures
            final(ring).wf(),
            final(ring)@ == old(ring)@.with_claim(self@ as int, Claim::Pending(Some(val))),
            written@ == self@,
            written.held(final(ring)),
    {
        *ring.cell_mut(self.pos) = Some(val);
        WrittenSlot { pos: self.pos, _ring: PhantomData }
    }

    /// Publishes what was written through [`slot_mut`](Self::slot_mut).
    pub fn commit_unchecked(self, ring: &mut RingBuffer<T>)
        requires
            old(ring).wf(),
            self.held(old(ring)),
            old(ring)@.claim_of(self@ as int)->Pending_0 is Some,
        ensures
            final(ring).wf(),
            final(ring)@ == old(ring)@.settled(
                self@ as int,
                Claim::Ready(old(ring)@.claim_of(self@ as int)->Pending_0->0),
            ),
    {
        ring.publish(self.pos);
    }

    /// Gives the position up: it becomes a tombstone, and what was written
    /// there is dropped.
    pub fn drop(self, ring: &mut RingBuffer<T>)
        requires
            old(ring).wf(),
            self.held(old(ring)),
        ensures
            final(ring).wf(),
            final(ring)@ == old(ring)@.settled(self@ as int, Claim::Tombstoned),
    {
        let _unpublished: Option<T> = ring.tombstone(self.pos);
    }
}

/// A claimed position with a value in it.
///
/// [`commit`](Self::commit) publishes it. If it is dropped instead, so is
/// the value, and the position becomes a tombstone.
#[derive(Debug)]
pub struct WrittenSlot<T> {
    pos: usize,
    _ring: PhantomData<T>,
}

impl<T> View for WrittenSlot<T> {
    type V = usize;

    /// The claimed position.
    closed spec fn view(&self) -> usize {
        self.pos
    }
}

impl<T> WrittenSlot<T> {
    /// Whether the position is claimed in `ring` and a value waits there.
    pub open spec fn held(&self, ring: &RingBuffer<T>) -> bool {
        &&& ring@.pending(self@ as int)
        &&& ring@.claim_of(self@ as int)->Pending_0 is Some
    }

    /// Makes the value visible to the consumer.
    pub fn commit(self, ring: &mut RingBuffer<T>)
        requires
            old(ring).wf(),
            self.held(old(ring)),
        ensures
            final(ring).wf(),
            final(ring)@ == old(ring)@.settled(
                self@ as int,
                Claim::Ready(old(ring)@.claim_of(self@ as int)->Pending_0->0),
            ),
    {
        ring.publish(self.pos);
    }

    /// Takes the value back and gives the position up.
    pub fn drop(self, ring: &mut RingBuffer<T>) -> (val: T)
        requires
            old(ring).wf(),
            self.held(old(ring)),
        ensures
            final(ring).wf(),
            old(ring)@.claim_of(self@ as int) == Claim::Pending(Some(val)),
            final(ring)@ == old(ring)@.settled(self@ as int, Claim::Tombstoned),
    {
        let val: Option<T> = ring.tombstone(self.pos);
        val.unwrap()
    }
}

} // verus!
