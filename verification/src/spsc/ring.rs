//! The shared part of the ring, and its abstract state.

use std::mem::ManuallyDrop;

use vstd::prelude::*;

use crate::capacity::{lemma_first_lap, lemma_next_lap, lemma_slots_differ, slot_of, Capacity};
use crate::common::close_state::CloseState;
use crate::common::cursors::Cursors;
use crate::common::sole_waiter::SoleWaiter;
use crate::spsc::consumer::Consumer;
use crate::spsc::producer::Producer;

verus! {

/// The state of a ring.
#[verifier::ext_equal]
pub struct QueueModel<T> {
    /// The number of slots.
    pub cap: nat,
    /// The position to pop next and the position to fill next.
    pub head: usize,
    pub tail: usize,
    /// The values between them, oldest first.
    pub queue: Seq<T>,
    /// What the producer has written at the tail and not committed.
    pub staged: Option<T>,
    pub producer_closed: bool,
    pub consumer_closed: bool,
    /// How each side waits, and what it is owed.
    pub producer: SoleWaiter,
    pub consumer: SoleWaiter,
}

impl<T> QueueModel<T> {
    /// A ring of `cap` slots that nothing has happened to.
    pub open spec fn fresh(cap: nat) -> Self {
        QueueModel {
            cap,
            head: 0,
            tail: 0,
            queue: Seq::empty(),
            staged: None,
            producer_closed: false,
            consumer_closed: false,
            producer: SoleWaiter::idle(),
            consumer: SoleWaiter::idle(),
        }
    }

    /// What every ring keeps: the queue lies between the cursors, fits the
    /// slots, and something is staged only where there is room for it.
    pub open spec fn consistent(self) -> bool {
        &&& 0 < self.cap <= usize::MAX
        &&& self.head + self.queue.len() == self.tail
        &&& self.queue.len() <= self.cap
        &&& self.staged is Some ==> self.queue.len() < self.cap
    }

    pub open spec fn is_full(self) -> bool {
        self.queue.len() == self.cap
    }

    /// This ring with `staged` in the slot at the tail.
    pub open spec fn with_staged(self, staged: Option<T>) -> Self {
        QueueModel { staged, ..self }
    }

    /// This ring once `val` is published at the tail, and the consumer is
    /// woken.
    pub open spec fn pushed(self, val: T) -> Self {
        QueueModel {
            tail: (self.tail + 1) as usize,
            queue: self.queue.push(val),
            staged: None,
            consumer: self.consumer.woken(),
            ..self
        }
    }

    /// This ring once the `n` oldest values are taken, and the producer is
    /// woken if there were any.
    pub open spec fn taken(self, n: nat) -> Self {
        QueueModel {
            head: (self.head + n) as usize,
            queue: self.queue.skip(n as int),
            producer: if n > 0 {
                self.producer.woken()
            } else {
                self.producer
            },
            ..self
        }
    }
}

/// A single-producer, single-consumer ring.
#[derive(Debug)]
pub struct RingBuffer<T> {
    buf: Vec<Option<T>>,
    capacity: Capacity,
    cursors: Cursors,
    /// Set when the producer is gone; a blocked consumer then returns once
    /// the ring is empty.
    producer_closed: CloseState,
    /// Set when the consumer is gone; a blocked producer then fails.
    consumer_closed: CloseState,
    producer_park: SoleWaiter,
    consumer_park: SoleWaiter,
}

impl<T> View for RingBuffer<T> {
    type V = QueueModel<T>;

    closed spec fn view(&self) -> QueueModel<T> {
        let head: usize = self.cursors.head;
        let tail: usize = self.cursors.tail;
        QueueModel {
            cap: self.capacity@,
            head,
            tail,
            queue: Seq::new(
                (tail - head) as nat,
                |i: int| self.buf@[slot_of(head + i, self.capacity@)]->0,
            ),
            staged: if tail - head < self.capacity@ {
                self.buf@[slot_of(tail as int, self.capacity@)]
            } else {
                None
            },
            producer_closed: self.producer_closed.closed,
            consumer_closed: self.consumer_closed.closed,
            producer: self.producer_park,
            consumer: self.consumer_park,
        }
    }
}

impl<T> RingBuffer<T> {
    /// The slots between the cursors hold values, and those past the tail
    /// are empty.
    pub closed spec fn parts_wf(&self) -> bool {
        let head: usize = self.cursors.head;
        let tail: usize = self.cursors.tail;
        let cap: nat = self.capacity@;
        &&& self.capacity.wf()
        &&& self.buf@.len() == cap
        &&& head <= tail <= head + cap
        &&& forall|pos: int|
            head <= pos < tail ==> (#[trigger] self.buf@[slot_of(pos, cap)]) is Some
        &&& forall|pos: int|
            tail < pos < head + cap ==> (#[trigger] self.buf@[slot_of(pos, cap)]) is None
    }

    pub open spec fn wf(&self) -> bool {
        &&& self.parts_wf()
        &&& self@.consistent()
    }

    /// Creates a ring of the given capacity.
    #[must_use]
    pub fn new(capacity: Capacity) -> (ring: Self)
        requires
            capacity.wf(),
        ensures
            ring.wf(),
            ring@ == QueueModel::<T>::fresh(capacity@),
    {
        proof {
            capacity.lemma_bounds();
        }
        let cap: usize = capacity.get();
        let mut buf: Vec<Option<T>> = Vec::new();
        let mut i: usize = 0;
        while i < cap
            invariant
                i <= cap,
                buf@.len() == i,
                forall|j: int| 0 <= j < i ==> (#[trigger] buf@[j]) is None,
            decreases cap - i,
        {
            buf.push(None);
            i = i + 1;
        }
        let ring = RingBuffer {
            buf,
            capacity,
            cursors: Cursors::new(),
            producer_closed: CloseState::new(),
            consumer_closed: CloseState::new(),
            producer_park: SoleWaiter::new(),
            consumer_park: SoleWaiter::new(),
        };
        proof {
            assert forall|pos: int| 0 <= pos < cap implies (#[trigger] ring.buf@[slot_of(
                pos,
                capacity@,
            )]) is None by {
                lemma_first_lap(pos, capacity@);
            }
            assert(ring@ =~= QueueModel::<T>::fresh(capacity@));
        }
        ring
    }

    /// Hands out the producer and the consumer.
    pub fn split(&mut self) -> (handles: (Producer<T>, Consumer<T>))
        requires
            old(self).wf(),
            old(self)@ == QueueModel::<T>::fresh(old(self)@.cap),
        ensures
            *final(self) == *old(self),
            handles.0.attached(final(self)),
            handles.1.attached(final(self)),
    {
        (Producer::new(), Consumer::new())
    }

    /// Whether another position fits the machine word.
    #[must_use]
    pub fn has_headroom(&self) -> (fits: bool)
        ensures
            fits == (self@.tail < usize::MAX),
    {
        self.cursors.tail < usize::MAX
    }

    /// The number of values in the ring.
    #[must_use]
    pub fn len(&self) -> (n: usize)
        requires
            self.wf(),
        ensures
            n == self@.queue.len(),
    {
        self.cursors.len()
    }

    /// Whether there is nothing in the ring.
    #[must_use]
    pub fn is_empty(&self) -> (empty: bool)
        requires
            self.wf(),
        ensures
            empty == (self@.queue.len() == 0),
    {
        self.cursors.is_empty()
    }

    /// Whether the ring is full.
    #[must_use]
    pub fn is_full(&self) -> (full: bool)
        requires
            self.wf(),
        ensures
            full == self@.is_full(),
    {
        self.cursors.is_full(self.capacity.get())
    }

    /// The number of slots.
    pub(crate) fn cap(&self) -> (cap: usize)
        requires
            self.wf(),
        ensures
            cap == self@.cap,
    {
        self.capacity.get()
    }

    /// The position to pop next.
    pub(crate) fn head(&self) -> (head: usize)
        ensures
            head == self@.head,
    {
        self.cursors.head
    }

    /// The position to fill next.
    pub(crate) fn tail(&self) -> (tail: usize)
        ensures
            tail == self@.tail,
    {
        self.cursors.tail
    }

    /// The cell at the tail, for the producer to write.
    pub(crate) fn tail_cell(&mut self) -> (cell: &mut Option<T>)
        requires
            old(self).wf(),
            !old(self)@.is_full(),
        ensures
            *cell == old(self)@.staged,
            final(self).wf(),
            final(self)@ == old(self)@.with_staged(*final(cell)),
    {
        let s: usize = self.capacity.index_of(self.cursors.tail);
        proof {
            let cap: nat = self.capacity@;
            let tail: int = self.cursors.tail as int;
            let head: int = self.cursors.head as int;
            assert forall|pos: int| head <= pos < head + cap && pos != tail implies slot_of(
                pos,
                cap,
            ) != s && 0 <= slot_of(pos, cap) < cap by {
                lemma_next_lap(pos, cap);
                if pos < tail {
                    lemma_slots_differ(pos, tail, cap);
                } else {
                    lemma_slots_differ(tail, pos, cap);
                }
            }
        }
        &mut self.buf[s]
    }

    /// Writes `val` at the tail. What was written there before and never
    /// committed is not dropped: its owner forgot it.
    pub(crate) fn stage(&mut self, val: T)
        requires
            old(self).wf(),
            !old(self)@.is_full(),
        ensures
            final(self).wf(),
            final(self)@ == old(self)@.with_staged(Some(val)),
    {
        let stale: Option<T> = self.tail_cell().take();
        let _forgotten: ManuallyDrop<Option<T>> = ManuallyDrop::new(stale);
        *self.tail_cell() = Some(val);
    }

    /// Publishes what was written at the tail, and wakes the consumer.
    pub(crate) fn publish(&mut self)
        requires
            old(self).wf(),
            old(self)@.staged is Some,
            old(self)@.tail < usize::MAX,
        ensures
            final(self).wf(),
            final(self)@ == old(self)@.pushed(old(self)@.staged->0),
    {
        let ghost before = self@;
        self.cursors.tail = self.cursors.tail + 1;
        self.consumer_park.wake();
        assert(self@ =~= before.pushed(before.staged->0));
    }

    /// The oldest value.
    pub(crate) fn front(&self) -> (val: &T)
        requires
            self.wf(),
            self@.queue.len() > 0,
        ensures
            *val == self@.queue[0],
    {
        let s: usize = self.capacity.index_of(self.cursors.head);
        assert(self.buf@[slot_of(self.cursors.head as int, self.capacity@)] is Some);
        assert(self@.queue[0] == self.buf@[slot_of(self.cursors.head + 0, self.capacity@)]->0);
        self.buf[s].as_ref().unwrap()
    }

    /// Moves the oldest value out of its slot, and the head past it. The
    /// producer is not woken yet.
    pub(crate) fn take_front(&mut self) -> (val: T)
        requires
            old(self).wf(),
            old(self)@.queue.len() > 0,
        ensures
            final(self).wf(),
            val == old(self)@.queue[0],
            final(self)@ == (QueueModel {
                producer: old(self)@.producer,
                ..old(self)@.taken(1)
            }),
    {
        let ghost before = *self;
        let ghost cap: nat = self.capacity@;
        let ghost head: int = self.cursors.head as int;
        let ghost tail: int = self.cursors.tail as int;
        let s: usize = self.capacity.index_of(self.cursors.head);
        proof {
            assert(self.buf@[slot_of(head, cap)] is Some);
            assert(self@.queue[0] == self.buf@[slot_of(head + 0, cap)]->0);
            lemma_next_lap(head, cap);
            assert forall|pos: int| head < pos < head + cap implies slot_of(pos, cap) != s && 0
                <= slot_of(pos, cap) < cap by {
                lemma_next_lap(pos, cap);
                lemma_slots_differ(head, pos, cap);
            }
        }
        let val: Option<T> = self.buf[s].take();
        self.cursors.head = self.cursors.head + 1;
        proof {
            assert forall|pos: int| tail < pos < head + 1 + cap implies (#[trigger] self.buf@[slot_of(
                pos,
                cap,
            )]) is None by {
                if pos < head + cap {
                    assert(before.buf@[slot_of(pos, cap)] is None);
                }
            }
            assert forall|pos: int| head + 1 <= pos < tail implies (#[trigger] self.buf@[slot_of(
                pos,
                cap,
            )]) is Some by {
                assert(before.buf@[slot_of(pos, cap)] is Some);
            }
            assert(self@.queue =~= before@.queue.skip(1)) by {
                assert forall|i: int| 0 <= i < self@.queue.len() implies self@.queue[i]
                    == before@.queue.skip(1)[i] by {
                    assert(head + 1 + i == head + (i + 1));
                }
            }
            assert(self@.staged == before@.staged);
        }
        val.unwrap()
    }

    /// Wakes the producer, if it waits.
    pub(crate) fn wake_producer(&mut self)
        requires
            old(self).wf(),
        ensures
            final(self).wf(),
            final(self)@ == (QueueModel { producer: old(self)@.producer.woken(), ..old(self)@ }),
    {
        self.producer_park.wake();
    }

    /// Closes the producing side and wakes the consumer.
    pub(crate) fn close_producer(&mut self)
        requires
            old(self).wf(),
        ensures
            final(self).wf(),
            final(self)@ == (QueueModel {
                producer_closed: true,
                consumer: old(self)@.consumer.woken(),
                ..old(self)@
            }),
    {
        self.producer_closed.close();
        self.consumer_park.wake();
    }

    /// Closes the consuming side and wakes the producer.
    pub(crate) fn close_consumer(&mut self)
        requires
            old(self).wf(),
        ensures
            final(self).wf(),
            final(self)@ == (QueueModel {
                consumer_closed: true,
                producer: old(self)@.producer.woken(),
                ..old(self)@
            }),
    {
        self.consumer_closed.close();
        self.producer_park.wake();
    }

    /// Whether the producer is gone.
    pub(crate) fn producer_gone(&self) -> (gone: bool)
        ensures
            gone == self@.producer_closed,
    {
        self.producer_closed.is_closed()
    }

    /// Whether the consumer is gone.
    pub(crate) fn consumer_gone(&self) -> (gone: bool)
        ensures
            gone == self@.consumer_closed,
    {
        self.consumer_closed.is_closed()
    }

    /// How the producer waits, for it to arm, register and withdraw, and
    /// for whoever drives the ring to collect what is owed.
    pub fn producer_waiter(&mut self) -> (waiter: &mut SoleWaiter)
        requires
            old(self).wf(),
        ensures
            *waiter == old(self)@.producer,
            final(self).wf(),
            final(self)@ == (QueueModel { producer: *final(waiter), ..old(self)@ }),
    {
        &mut self.producer_park
    }

    /// How the consumer waits; see [`producer_waiter`](Self::producer_waiter).
    pub fn consumer_waiter(&mut self) -> (waiter: &mut SoleWaiter)
        requires
            old(self).wf(),
        ensures
            *waiter == old(self)@.consumer,
            final(self).wf(),
            final(self)@ == (QueueModel { consumer: *final(waiter), ..old(self)@ }),
    {
        &mut self.consumer_park
    }
}

} // verus!
