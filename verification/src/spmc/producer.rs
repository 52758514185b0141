//! The producing end of the ring.

use core::marker::PhantomData;

use vstd::prelude::*;

use crate::common::sole_waiter::SoleWaiter;
use crate::common::step::{PushPoll, PushStep, ReserveStep};
use crate::spmc::ring::{RingBuffer, ShareModel};

verus! {

/// The producer of the ring. There is one, and it cannot be cloned.
#[derive(Debug)]
pub struct Producer<T> {
    write_pos: usize,
    _ring: PhantomData<T>,
}

impl<T> View for Producer<T> {
    type V = usize;

    /// The position to write next.
    closed spec fn view(&self) -> usize {
        self.write_pos
    }
}

impl<T> Producer<T> {
    /// Whether this is the producer of `ring`: it writes at the tail.
    pub open spec fn attached(&self, ring: &RingBuffer<T>) -> bool {
        self@ == ring@.tail
    }

    pub(crate) fn new() -> (producer: Self)
        ensures
            producer@ == 0,
    {
        Producer { write_pos: 0, _ring: PhantomData }
    }

    /// The position to write, if its slot has been released. The cursor
    /// does not move until something is published, so a reservation that
    /// comes to nothing is simply made again.
    fn try_claim(&self, ring: &RingBuffer<T>) -> (pos: Option<usize>)
        requires
            ring.wf(),
            self.attached(ring),
        ensures
            pos == if ring@.blocked() {
                None
            } else {
                Some(ring@.tail)
            },
    {
        let pos: usize = self.write_pos;
        if !ring.is_free_for(pos) {
            return None;
        }
        Some(pos)
    }

    /// Whether there is room for one value.
    fn has_space(&self, ring: &RingBuffer<T>) -> (space: bool)
        requires
            ring.wf(),
            self.attached(ring),
        ensures
            space == !ring@.blocked(),
    {
        ring.is_free_for(self.write_pos)
    }

    /// Pushes a value at the tail. It comes back if the slot there still
    /// holds the value of the lap before.
    pub fn push(&mut self, ring: &mut RingBuffer<T>, val: T) -> (result: Result<(), T>)
        requires
            old(ring).wf(),
            old(ring)@.headroom(),
            old(self).attached(old(ring)),
        ensures
            final(ring).wf(),
            final(self).attached(final(ring)),
            result == if old(ring)@.blocked() {
                Err(val)
            } else {
                Ok(())
            },
            final(ring)@ == if old(ring)@.blocked() {
                old(ring)@
            } else {
                old(ring)@.pushed(val)
            },
    {
        match self.try_claim(ring) {
            None => Err(val),
            Some(pos) => {
                ring.stage(val);
                self.write_pos = pos + 1;
                ring.publish();
                Ok(())
            },
        }
    }

    /// One lap of a push that blocks while the ring is full, until a
    /// consumer makes space or the last one is gone. Nothing goes in once
    /// they are gone.
    ///
    /// A producer that is told to park calls [`woke`](Self::woke) when its
    /// sleep ends, and then runs the next lap.
    pub fn push_block(
        &mut self,
        ring: &mut RingBuffer<T>,
        val: T,
        may_spin: bool,
    ) -> (step: PushStep<T>)
        requires
            old(ring).wf(),
            old(ring)@.headroom(),
            old(self).attached(old(ring)),
        ensures
            final(ring).wf(),
            final(self).attached(final(ring)),
            if old(ring)@.consumer_closed {
                &&& step == PushStep::Done(Err::<(), T>(val))
                &&& final(ring)@ == old(ring)@
            } else if !old(ring)@.blocked() {
                &&& step == PushStep::<T>::Done(Ok(()))
                &&& final(ring)@ == old(ring)@.pushed(val)
            } else if may_spin {
                &&& step == PushStep::Spin(val)
                &&& final(ring)@ == old(ring)@
            } else {
                &&& step == PushStep::Park(val)
                &&& final(ring)@ == (ShareModel {
                    producer: SoleWaiter { parked: true, ..old(ring)@.producer },
                    ..old(ring)@
                })
            },
    {
        if ring.consumer_gone() {
            return PushStep::Done(Err(val));
        }
        match self.push(ring, val) {
            Ok(()) => PushStep::Done(Ok(())),
            Err(val) => {
                if may_spin {
                    return PushStep::Spin(val);
                }
                ring.producer_waiter().arm();
                PushStep::Park(val)
            },
        }
    }

    /// Takes this producer off the record of those asleep.
    pub fn woke(&self, ring: &mut RingBuffer<T>)
        requires
            old(ring).wf(),
            self.attached(old(ring)),
        ensures
            final(ring).wf(),
            self.attached(final(ring)),
            final(ring)@ == (ShareModel {
                producer: SoleWaiter { parked: false, ..old(ring)@.producer },
                ..old(ring)@
            }),
    {
        ring.producer_waiter().disarm();
    }

    /// One poll of a push that yields while the ring is full, until a
    /// consumer makes space or the last one is gone. While it is pending
    /// the task is on record; a future that is dropped calls
    /// [`cancel_async`](Self::cancel_async).
    pub fn push_async(&mut self, ring: &mut RingBuffer<T>, val: T) -> (poll: PushPoll<T>)
        requires
            old(ring).wf(),
            old(ring)@.headroom(),
            old(self).attached(old(ring)),
        ensures
            final(ring).wf(),
            final(self).attached(final(ring)),
            ({
                let waits = !old(ring)@.consumer_closed && old(ring)@.blocked();
                let after = if old(ring)@.consumer_closed || waits {
                    old(ring)@
                } else {
                    old(ring)@.pushed(val)
                };
                &&& poll == if waits {
                    PushPoll::Pending(val)
                } else if old(ring)@.consumer_closed {
                    PushPoll::Ready(Err(val))
                } else {
                    PushPoll::Ready(Ok(()))
                }
                &&& final(ring)@ == (ShareModel {
                    producer: SoleWaiter { pending: waits, ..after.producer },
                    ..after
                })
            }),
    {
        if ring.consumer_gone() {
            self.cancel_async(ring);
            return PushPoll::Ready(Err(val));
        }
        match self.push(ring, val) {
            Ok(()) => {
                self.cancel_async(ring);
                PushPoll::Ready(Ok(()))
            },
            Err(val) => {
                ring.producer_waiter().register();
                PushPoll::Pending(val)
            },
        }
    }

    /// Takes this producer's task off the record. The record stands for all
    /// the calls of this producer that are pending, so this is for when the
    /// last of them is dropped.
    pub fn cancel_async(&self, ring: &mut RingBuffer<T>)
        requires
            old(ring).wf(),
            self.attached(old(ring)),
        ensures
            final(ring).wf(),
            self.attached(final(ring)),
            final(ring)@ == (ShareModel {
                producer: SoleWaiter { pending: false, ..old(ring)@.producer },
                ..old(ring)@
            }),
    {
        ring.producer_waiter().deregister();
    }

    /// Reserves the slot at the tail for writing in place, or tells that
    /// it is not free. Until it is committed the slot is not visible.
    pub fn reserve(&mut self, ring: &RingBuffer<T>) -> (writer: Option<SlotWriter<T>>)
        requires
            ring.wf(),
            old(self).attached(ring),
        ensures
            final(self)@ == old(self)@,
            match writer {
                Some(w) => !ring@.blocked() && w.held(ring),
                None => ring@.blocked(),
            },
    {
        match self.try_claim(ring) {
            None => None,
            Some(pos) => Some(SlotWriter { pos, _ring: PhantomData }),
        }
    }

    /// One lap of a reservation that blocks while the ring is full, until
    /// a consumer makes space or the last one is gone. Waits as
    /// [`push_block`](Self::push_block) does.
    pub fn reserve_block(
        &mut self,
        ring: &mut RingBuffer<T>,
        may_spin: bool,
    ) -> (step: ReserveStep<SlotWriter<T>>)
        requires
            old(ring).wf(),
            old(self).attached(old(ring)),
        ensures
            final(ring).wf(),
            final(self)@ == old(self)@,
            if old(ring)@.consumer_closed {
                &&& step == ReserveStep::<SlotWriter<T>>::Done(None)
                &&& final(ring)@ == old(ring)@
            } else if !old(ring)@.blocked() {
                &&& step matches ReserveStep::Done(Some(w)) && w.held(final(ring))
                &&& final(ring)@ == old(ring)@
            } else if may_spin {
                &&& step == ReserveStep::<SlotWriter<T>>::Spin
                &&& final(ring)@ == old(ring)@
            } else {
                &&& step == ReserveStep::<SlotWriter<T>>::Park
                &&& final(ring)@ == (ShareModel {
                    producer: SoleWaiter { parked: true, ..old(ring)@.producer },
                    ..old(ring)@
                })
            },
    {
        if ring.consumer_gone() {
            return ReserveStep::Done(None);
        }
        if self.has_space(ring) {
            return ReserveStep::Done(self.reserve(ring));
        }
        if may_spin {
            return ReserveStep::Spin;
        }
        ring.producer_waiter().arm();
        ReserveStep::Park
    }

    /// The number of values that no consumer has claimed.
    #[must_use]
    pub fn len(&self, ring: &RingBuffer<T>) -> (n: usize)
        requires
            ring.wf(),
        ensures
            n == ring@.tail - ring@.head,
    {
        ring.len()
    }

    /// Whether every value has been claimed.
    #[must_use]
    pub fn is_empty(&self, ring: &RingBuffer<T>) -> (empty: bool)
        requires
            ring.wf(),
        ensures
            empty == (ring@.tail == ring@.head),
    {
        ring.is_empty()
    }

    /// Whether the ring is full of unclaimed values.
    #[must_use]
    pub fn is_full(&self, ring: &RingBuffer<T>) -> (full: bool)
        requires
            ring.wf(),
        ensures
            full == (ring@.tail - ring@.head == ring@.cap),
    {
        ring.is_full()
    }

    /// Lets the producer go: the ring is closed and every consumer woken
    /// to see it.
    pub fn drop(self, ring: &mut RingBuffer<T>)
        requires
            old(ring).wf(),
            self.attached(old(ring)),
        ensures
            final(ring).wf(),
            final(ring)@ == old(ring)@.producer_left(),
    {
        ring.close_producer();
    }

    /// Moves the cursor past what was published through a reservation.
    fn advance(&mut self, pos: usize)
        requires
            pos < usize::MAX,
        ensures
            final(self)@ == pos + 1,
    {
        self.write_pos = pos + 1;
    }
}

/// A reservation of the slot at the tail.
///
/// [`write`](Self::write) fills it and gives a [`WrittenSlot`] that can
/// be committed. If it is dropped, nothing has happened: the slot stays
/// free for the next claim.
#[derive(Debug)]
pub struct SlotWriter<T> {
    pos: usize,
    _ring: PhantomData<T>,
}

impl<T> View for SlotWriter<T> {
    type V = usize;

    /// The reserved position.
    closed spec fn view(&self) -> usize {
        self.pos
    }
}

impl<T> SlotWriter<T> {
    /// Whether the position is the tail of `ring`, and free.
    pub open spec fn held(&self, ring: &RingBuffer<T>) -> bool {
        &&& self@ == ring@.tail
        &&& !ring@.blocked()
    }

    /// The cell of the slot. What is written there becomes visible with
    /// [`commit_unchecked`](Self::commit_unchecked).
    pub fn slot_mut<'r>(&self, ring: &'r mut RingBuffer<T>) -> (cell: &'r mut Option<T>)
        requires
            old(ring).wf(),
            self.held(old(ring)),
        ensures
            *cell == old(ring)@.staged,
            final(ring).wf(),
            final(ring)@ == old(ring)@.with_staged(*final(cell)),
    {
        ring.tail_cell()
    }

    /// Writes a value into the slot.
    pub fn write(self, ring: &mut RingBuffer<T>, val: T) -> (written: WrittenSlot<T>)
        requires
            old(ring).wf(),
            self.held(old(ring)),
        ensures
            final(ring).wf(),
            final(ring)@ == old(ring)@.with_staged(Some(val)),
            written.held(final(ring)),
    {
        ring.stage(val);
        WrittenSlot { pos: self.pos, _ring: PhantomData }
    }

    /// Publishes what was written through [`slot_mut`](Self::slot_mut).
    pub fn commit_unchecked(self, ring: &mut RingBuffer<T>, producer: &mut Producer<T>)
        requires
            old(ring).wf(),
            old(ring)@.headroom(),
            self.held(old(ring)),
            old(producer).attached(old(ring)),
            old(ring)@.staged is Some,
        ensures
            final(ring).wf(),
            final(producer).attached(final(ring)),
            final(ring)@ == old(ring)@.pushed(old(ring)@.staged->0),
    {
        producer.advance(self.pos);
        ring.publish();
    }
}

/// A reserved slot with a value in it.
///
/// [`commit`](Self::commit) makes it visible. If it is dropped instead,
/// so is the value, and the slot stays free for the next claim.
#[derive(Debug)]
pub struct WrittenSlot<T> {
    pos: usize,
    _ring: PhantomData<T>,
}

impl<T> View for WrittenSlot<T> {
    type V = usize;

    /// The reserved position.
    closed spec fn view(&self) -> usize {
        self.pos
    }
}

impl<T> WrittenSlot<T> {
    /// Whether the position is the tail of `ring` and a value waits there.
    pub open spec fn held(&self, ring: &RingBuffer<T>) -> bool {
        &&& self@ == ring@.tail
        &&& ring@.staged is Some
    }

    /// Makes the value visible to the consumers.
    pub fn commit(self, ring: &mut RingBuffer<T>, producer: &mut Producer<T>)
        requires
            old(ring).wf(),
            old(ring)@.headroom(),
            self.held(old(ring)),
            old(producer).attached(old(ring)),
        ensures
            final(ring).wf(),
            final(producer).attached(final(ring)),
            final(ring)@ == old(ring)@.pushed(old(ring)@.staged->0),
    {
        producer.advance(self.pos);
        ring.publish();
    }

    /// Takes the value back; the slot stays free for the next claim.
    pub fn drop(self, ring: &mut RingBuffer<T>) -> (val: T)
        requires
            old(ring).wf(),
            self.held(old(ring)),
        ensures
            final(ring).wf(),
            Some(val) == old(ring)@.staged,
            final(ring)@ == old(ring)@.with_staged(None),
    {
        let val: Option<T> = ring.tail_cell().take();
        val.unwrap()
    }
}

} // verus!
