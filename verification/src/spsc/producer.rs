//! The producing end of the ring.

use core::marker::PhantomData;

use vstd::prelude::*;

use crate::common::sole_waiter::SoleWaiter;
use crate::common::step::{PushPoll, PushStep, ReserveStep};
use crate::spsc::ring::{QueueModel, RingBuffer};

verus! {

/// The producer of the ring. There is one, and it cannot be cloned.
#[derive(Debug)]
pub struct Producer<T> {
    write_pos: usize,
    /// A head that was read earlier: the ring has at least the room that
    /// it shows.
    cached_head: usize,
    _ring: PhantomData<T>,
}

/// The private cursors of a producer.
pub struct Writing {
    pub write_pos: usize,
    pub cached_head: usize,
}

impl<T> View for Producer<T> {
    type V = Writing;

    closed spec fn view(&self) -> Writing {
        Writing { write_pos: self.write_pos, cached_head: self.cached_head }
    }
}

impl<T> Producer<T> {
    /// Whether this is the producer of `ring`: it writes at the tail, and
    /// its cached head is not ahead of the real one.
    pub open spec fn attached(&self, ring: &RingBuffer<T>) -> bool {
        &&& self@.write_pos == ring@.tail
        &&& self@.cached_head <= ring@.head
    }

    pub(crate) fn new() -> (producer: Self)
        ensures
            producer@ == (Writing { write_pos: 0, cached_head: 0 }),
    {
        Producer { write_pos: 0, cached_head: 0, _ring: PhantomData }
    }

    /// The position to write, if the ring has room. The cursor does not
    /// move until something is published, so a reservation that comes to
    /// nothing is simply made again.
    fn try_claim(&mut self, ring: &RingBuffer<T>) -> (pos: Option<usize>)
        requires
            ring.wf(),
            old(self).attached(ring),
        ensures
            final(self).attached(ring),
            pos == if ring@.is_full() {
                None
            } else {
                Some(ring@.tail)
            },
    {
        let pos: usize = self.write_pos;
        if pos - self.cached_head >= ring.cap() {
            let head: usize = ring.head();
            self.cached_head = head;
            if pos - head >= ring.cap() {
                return None;
            }
        }
        Some(pos)
    }

    /// Whether there is room for one value.
    fn has_space(&mut self, ring: &RingBuffer<T>) -> (space: bool)
        requires
            ring.wf(),
            old(self).attached(ring),
        ensures
            final(self).attached(ring),
            space == !ring@.is_full(),
    {
        self.try_claim(ring).is_some()
    }

    /// Pushes a value at the tail. It comes back if the ring is full.
    pub fn push(&mut self, ring: &mut RingBuffer<T>, val: T) -> (result: Result<(), T>)
        requires
            old(ring).wf(),
            old(self).attached(old(ring)),
            old(ring)@.tail < usize::MAX,
        ensures
            final(ring).wf(),
            final(self).attached(final(ring)),
            result == if old(ring)@.is_full() {
                Err(val)
            } else {
                Ok(())
            },
            final(ring)@ == if old(ring)@.is_full() {
                old(ring)@
            } else {
                old(ring)@.pushed(val)
            },
    {
        match self.try_claim(ring) {
            None => Err(val),
            Some(pos) => {
                ring.stage(val);
                self.write_pos = pos + 1;
                ring.publish();
                Ok(())
            },
        }
    }

    /// One lap of a push that blocks while the ring is full, until the
    /// consumer makes space or is gone. Nothing goes in once the consumer
    /// is gone.
    ///
    /// A producer that is told to park calls [`woke`](Self::woke) when its
    /// sleep ends, and then runs the next lap.
    pub fn push_block(
        &mut self,
        ring: &mut RingBuffer<T>,
        val: T,
        may_spin: bool,
    ) -> (step: PushStep<T>)
        requires
            old(ring).wf(),
            old(self).attached(old(ring)),
            old(ring)@.tail < usize::MAX,
        ensures
            final(ring).wf(),
            final(self).attached(final(ring)),
            if old(ring)@.consumer_closed {
                &&& step == PushStep::Done(Err::<(), T>(val))
                &&& final(ring)@ == old(ring)@
            } else if !old(ring)@.is_full() {
                &&& step == PushStep::<T>::Done(Ok(()))
                &&& final(ring)@ == old(ring)@.pushed(val)
            } else if may_spin {
                &&& step == PushStep::Spin(val)
                &&& final(ring)@ == old(ring)@
            } else {
                &&& step == PushStep::Park(val)
                &&& final(ring)@ == (QueueModel {
                    producer: SoleWaiter { parked: true, ..old(ring)@.producer },
                    ..old(ring)@
                })
            },
    {
        if ring.consumer_gone() {
            return PushStep::Done(Err(val));
        }
        match self.push(ring, val) {
            Ok(()) => PushStep::Done(Ok(())),
            Err(val) => {
                if may_spin {
                    return PushStep::Spin(val);
                }
                ring.producer_waiter().arm();
                PushStep::Park(val)
            },
        }
    }

    /// Takes this producer off the record of those asleep.
    pub fn woke(&self, ring: &mut RingBuffer<T>)
        requires
            old(ring).wf(),
            self.attached(old(ring)),
        ensures
            final(ring).wf(),
            self.attached(final(ring)),
            final(ring)@ == (QueueModel {
                producer: SoleWaiter { parked: false, ..old(ring)@.producer },
                ..old(ring)@
            }),
    {
        ring.producer_waiter().disarm();
    }

    /// Reserves the slot at the tail for writing in place, or tells that
    /// the ring is full. Until it is committed the slot is not visible.
    pub fn reserve(&mut self, ring: &RingBuffer<T>) -> (writer: Option<SlotWriter<T>>)
        requires
            ring.wf(),
            old(self).attached(ring),
        ensures
            final(self).attached(ring),
            match writer {
                Some(w) => !ring@.is_full() && w.held(ring),
                None => ring@.is_full(),
            },
    {
        match self.try_claim(ring) {
            None => None,
            Some(pos) => Some(SlotWriter { pos, _ring: PhantomData }),
        }
    }

    /// One lap of a reservation that blocks while the ring is full, until
    /// the consumer makes space or is gone. Waits as
    /// [`push_block`](Self::push_block) does.
    pub fn reserve_block(
        &mut self,
        ring: &mut RingBuffer<T>,
        may_spin: bool,
    ) -> (step: ReserveStep<SlotWriter<T>>)
        requires
            old(ring).wf(),
            old(self).attached(old(ring)),
        ensures
            final(ring).wf(),
            final(self).attached(final(ring)),
            if old(ring)@.consumer_closed {
                &&& step == ReserveStep::<SlotWriter<T>>::Done(None)
                &&& final(ring)@ == old(ring)@
            } else if !old(ring)@.is_full() {
                &&& step matches ReserveStep::Done(Some(w)) && w.held(final(ring))
                &&& final(ring)@ == old(ring)@
            } else if may_spin {
                &&& step == ReserveStep::<SlotWriter<T>>::Spin
                &&& final(ring)@ == old(ring)@
            } else {
                &&& step == ReserveStep::<SlotWriter<T>>::Park
                &&& final(ring)@ == (QueueModel {
                    producer: SoleWaiter { parked: true, ..old(ring)@.producer },
                    ..old(ring)@
                })
            },
    {
        if ring.consumer_gone() {
            return ReserveStep::Done(None);
        }
        if self.has_space(ring) {
            return ReserveStep::Done(self.reserve(ring));
        }
        if may_spin {
            return ReserveStep::Spin;
        }
        ring.producer_waiter().arm();
        ReserveStep::Park
    }

    /// One poll of a push that yields while the ring is full, until the
    /// consumer makes space or is gone. While it is pending the task is on
    /// record; a future that is dropped calls
    /// [`cancel_async`](Self::cancel_async).
    pub fn push_async(&mut self, ring: &mut RingBuffer<T>, val: T) -> (poll: PushPoll<T>)
        requires
            old(ring).wf(),
            old(self).attached(old(ring)),
            old(ring)@.tail < usize::MAX,
        ensures
            final(ring).wf(),
            final(self).attached(final(ring)),
            ({
                let waits = !old(ring)@.consumer_closed && old(ring)@.is_full();
                let after = if old(ring)@.consumer_closed || waits {
                    old(ring)@
                } else {
                    old(ring)@.pushed(val)
                };
                &&& poll == if waits {
                    PushPoll::Pending(val)
                } else if old(ring)@.consumer_closed {
                    PushPoll::Ready(Err(val))
                } else {
                    PushPoll::Ready(Ok(()))
                }
                &&& final(ring)@ == (QueueModel {
                    producer: SoleWaiter { pending: waits, ..after.producer },
                    ..after
                })
            }),
    {
        if ring.consumer_gone() {
            self.cancel_async(ring);
            return PushPoll::Ready(Err(val));
        }
        match self.push(ring, val) {
            Ok(()) => {
                self.cancel_async(ring);
                PushPoll::Ready(Ok(()))
            },
            Err(val) => {
                ring.producer_waiter().register();
                PushPoll::Pending(val)
            },
        }
    }

    /// Takes this producer's task off the record. The record stands for all
    /// the calls of this producer that are pending, so this is for when the
    /// last of them is dropped.
    pub fn cancel_async(&self, ring: &mut RingBuffer<T>)
        requires
            old(ring).wf(),
            self.attached(old(ring)),
        ensures
            final(ring).wf(),
            self.attached(final(ring)),
            final(ring)@ == (QueueModel {
                producer: SoleWaiter { pending: false, ..old(ring)@.producer },
                ..old(ring)@
            }),
    {
        ring.producer_waiter().deregister();
    }

    /// The number of values in the ring.
    #[must_use]
    pub fn len(&self, ring: &RingBuffer<T>) -> (n: usize)
        requires
            ring.wf(),
        ensures
            n == ring@.queue.len(),
    {
        ring.len()
    }

    /// Whether there is nothing in the ring.
    #[must_use]
    pub fn is_empty(&self, ring: &RingBuffer<T>) -> (empty: bool)
        requires
            ring.wf(),
        ensures
            empty == (ring@.queue.len() == 0),
    {
        ring.is_empty()
    }

    /// Whether the ring is full.
    #[must_use]
    pub fn is_full(&self, ring: &RingBuffer<T>) -> (full: bool)
        requires
            ring.wf(),
        ensures
            full == ring@.is_full(),
    {
        ring.is_full()
    }

    /// Lets the producer go: the ring is closed on its side, and the
    /// consumer is woken to see it.
    pub fn drop(self, ring: &mut RingBuffer<T>)
        requires
            old(ring).wf(),
            self.attached(old(ring)),
        ensures
            final(ring).wf(),
            final(ring)@ == (QueueModel {
                producer_closed: true,
                consumer: old(ring)@.consumer.woken(),
                ..old(ring)@
            }),
    {
        ring.close_producer();
    }

    /// Moves the cursor past what was published through a reservation.
    fn advance(&mut self, pos: usize)
        requires
            pos < usize::MAX,
        ensures
            final(self)@ == (Writing { write_pos: (pos + 1) as usize, ..old(self)@ }),
    {
        self.write_pos = pos + 1;
    }
}

/// A reservation of the slot at the tail.
///
/// [`write`](Self::write) fills it and gives a [`WrittenSlot`] that can
/// be committed. If it is dropped, nothing has happened: the slot stays
/// free for the next claim.
#[derive(Debug)]
pub struct SlotWriter<T> {
    pos: usize,
    _ring: PhantomData<T>,
}

impl<T> View for SlotWriter<T> {
    type V = usize;

    /// The reserved position.
    closed spec fn view(&self) -> usize {
        self.pos
    }
}

impl<T> SlotWriter<T> {
    /// Whether the position is the tail of `ring`, and free.
    pub open spec fn held(&self, ring: &RingBuffer<T>) -> bool {
        &&& self@ == ring@.tail
        &&& !ring@.is_full()
    }

    /// The cell of the slot. What is written there becomes visible with
    /// [`commit_unchecked`](Self::commit_unchecked); if that never comes,
    /// the next claim writes over it.
    pub fn slot_mut<'r>(&self, ring: &'r mut RingBuffer<T>) -> (cell: &'r mut Option<T>)
        requires
            old(ring).wf(),
            self.held(old(ring)),
        ensures
            *cell == old(ring)@.staged,
            final(ring).wf(),
            final(ring)@ == old(ring)@.with_staged(*final(cell)),
    {
        ring.tail_cell()
    }

    /// Writes a value into the slot.
    pub fn write(self, ring: &mut RingBuffer<T>, val: T) -> (written: WrittenSlot<T>)
        requires
            old(ring).wf(),
            self.held(old(ring)),
        ensures
            final(ring).wf(),
            final(ring)@ == old(ring)@.with_staged(Some(val)),
            written.held(final(ring)),
    {
        ring.stage(val);
        WrittenSlot { pos: self.pos, _ring: PhantomData }
    }

    /// Publishes what was written through [`slot_mut`](Self::slot_mut).
    pub fn commit_unchecked(self, ring: &mut RingBuffer<T>, producer: &mut Producer<T>)
        requires
            old(ring).wf(),
            self.held(old(ring)),
            old(producer).attached(old(ring)),
            old(ring)@.staged is Some,
            old(ring)@.tail < usize::MAX,
        ensures
            final(ring).wf(),
            final(producer).attached(final(ring)),
            final(ring)@ == old(ring)@.pushed(old(ring)@.staged->0),
    {
        producer.advance(self.pos);
        ring.publish();
    }
}

/// A reserved slot with a value in it.
///
/// [`commit`](Self::commit) makes it visible. If it is dropped instead,
/// so is the value, and the slot stays free for the next claim.
#[derive(Debug)]
pub struct WrittenSlot<T> {
    pos: usize,
    _ring: PhantomData<T>,
}

impl<T> View for WrittenSlot<T> {
    type V = usize;

    /// The reserved position.
    closed spec fn view(&self) -> usize {
        self.pos
    }
}

impl<T> WrittenSlot<T> {
    /// Whether the position is the tail of `ring` and a value waits there.
    pub open spec fn held(&self, ring: &RingBuffer<T>) -> bool {
        &&& self@ == ring@.tail
        &&& ring@.staged is Some
    }

    /// Makes the value visible to the consumer.
    pub fn commit(self, ring: &mut RingBuffer<T>, producer: &mut Producer<T>)
        requires
            old(ring).wf(),
            self.held(old(ring)),
            old(producer).attached(old(ring)),
            old(ring)@.tail < usize::MAX,
        ensures
            final(ring).wf(),
            final(producer).attached(final(ring)),
            final(ring)@ == old(ring)@.pushed(old(ring)@.staged->0),
    {
        producer.advance(self.pos);
        ring.publish();
    }

    /// Takes the value back; the slot stays free for the next claim.
    pub fn drop(self, ring: &mut RingBuffer<T>) -> (val: T)
        requires
            old(ring).wf(),
            self.held(old(ring)),
        ensures
            final(ring).wf(),
            Some(val) == old(ring)@.staged,
            final(ring)@ == old(ring)@.with_staged(None),
    {
        let val: Option<T> = ring.tail_cell().take();
        val.unwrap()
    }
}

} // verus!
