//! The consuming end of the ring.

use core::marker::PhantomData;

use vstd::prelude::*;

use crate::common::sole_waiter::SoleWaiter;
use crate::common::step::{DrainStep, PopPoll, PopStep};
use crate::spsc::ring::{QueueModel, RingBuffer};

verus! {

/// The consumer of the ring. There is one, and it cannot be cloned.
#[derive(Debug)]
pub struct Consumer<T> {
    /// A tail that was read earlier: what lies before it can be taken.
    cached_tail: usize,
    _ring: PhantomData<T>,
}

impl<T> View for Consumer<T> {
    type V = usize;

    /// The cached tail.
    closed spec fn view(&self) -> usize {
        self.cached_tail
    }
}

/// The smaller of a limit and the length of a queue.
pub open spec fn at_most(limit: nat, len: nat) -> nat {
    if limit <= len {
        limit
    } else {
        len
    }
}

impl<T> Consumer<T> {
    /// Whether this is the consumer of `ring`: its cached tail lies between
    /// the real cursors.
    pub open spec fn attached(&self, ring: &RingBuffer<T>) -> bool {
        ring@.head <= self@ <= ring@.tail
    }

    pub(crate) fn new() -> (consumer: Self)
        ensures
            consumer@ == 0,
    {
        Consumer { cached_tail: 0, _ring: PhantomData }
    }

    /// Whether there is a value at the head.
    fn available(&mut self, ring: &RingBuffer<T>) -> (available: bool)
        requires
            ring.wf(),
            old(self).attached(ring),
        ensures
            final(self).attached(ring),
            available == (ring@.queue.len() > 0),
            available ==> ring@.head < final(self)@,
    {
        let head: usize = ring.head();
        if head == self.cached_tail {
            let tail: usize = ring.tail();
            self.cached_tail = tail;
            head != tail
        } else {
            true
        }
    }

    /// Pops the oldest value, and wakes the producer.
    pub fn pop(&mut self, ring: &mut RingBuffer<T>) -> (val: Option<T>)
        requires
            old(ring).wf(),
            old(self).attached(old(ring)),
        ensures
            final(ring).wf(),
            final(self).attached(final(ring)),
            val == if old(ring)@.queue.len() > 0 {
                Some(old(ring)@.queue[0])
            } else {
                None
            },
            final(ring)@ == if old(ring)@.queue.len() > 0 {
                old(ring)@.taken(1)
            } else {
                old(ring)@
            },
    {
        if !self.available(ring) {
            return None;
        }
        let val: T = ring.take_front();
        ring.wake_producer();
        Some(val)
    }

    /// Drains everything that is in the ring, appending it to `out` in
    /// order, and tells how much it was. The producer is woken once, if
    /// anything was drained.
    pub fn drain(&mut self, ring: &mut RingBuffer<T>, out: &mut Vec<T>) -> (n: usize)
        requires
            old(ring).wf(),
            old(self).attached(old(ring)),
        ensures
            final(ring).wf(),
            final(self).attached(final(ring)),
            n == old(ring)@.queue.len(),
            final(out)@ == old(out)@ + old(ring)@.queue,
            final(ring)@ == old(ring)@.taken(n as nat),
    {
        let n: usize = self.drain_up_to(ring, usize::MAX, out);
        assert(old(ring)@.queue.take(n as int) =~= old(ring)@.queue);
        n
    }

    /// Drains up to `limit` values, appending them to `out` in order, and
    /// tells how many they were. The producer is woken once, if anything
    /// was drained.
    pub fn drain_up_to(
        &mut self,
        ring: &mut RingBuffer<T>,
        limit: usize,
        out: &mut Vec<T>,
    ) -> (n: usize)
        requires
            old(ring).wf(),
            old(self).attached(old(ring)),
        ensures
            final(ring).wf(),
            final(self).attached(final(ring)),
            n == at_most(limit as nat, old(ring)@.queue.len()),
            n <= limit,
            n <= old(ring)@.queue.len(),
            n == limit || n == old(ring)@.queue.len(),
            final(out)@ == old(out)@ + old(ring)@.queue.take(n as int),
            final(ring)@ == old(ring)@.taken(n as nat),
    {
        let mut count: usize = 0;
        let ghost first = ring@;
        proof {
            assert(out@ =~= old(out)@ + first.queue.take(0));
            assert(first.queue.skip(0) =~= first.queue);
        }
        while count < limit && self.available(ring)
            invariant
                count <= limit,
                count <= first.queue.len(),
                ring.wf(),
                self.attached(ring),
                first == old(ring)@,
                ring@ == (QueueModel { producer: first.producer, ..first.taken(count as nat) }),
                first.head + first.queue.len() == first.tail,
                out@ == old(out)@ + first.queue.take(count as int),
            ensures
                count == at_most(limit as nat, first.queue.len()),
            decreases limit - count,
        {
            let val: T = ring.take_front();
            out.push(val);
            count = count + 1;
            proof {
                assert(first.queue.skip(count - 1).skip(1) =~= first.queue.skip(count as int));
                assert(first.queue.take(count as int) =~= first.queue.take(count - 1).push(
                    first.queue[count - 1],
                ));
                assert(out@ =~= old(out)@ + first.queue.take(count as int));
            }
        }
        if count > 0 {
            ring.wake_producer();
        }
        count
    }

    /// One lap of a drain that blocks while the ring is empty, until the
    /// producer is gone and the ring is empty. Appends what it drained to
    /// `out` and tells how much it was.
    ///
    /// A consumer that is told to park calls [`woke`](Self::woke) when its
    /// sleep ends, and then runs the next lap.
    pub fn drain_block(
        &mut self,
        ring: &mut RingBuffer<T>,
        out: &mut Vec<T>,
        may_spin: bool,
    ) -> (lap: (usize, DrainStep))
        requires
            old(ring).wf(),
            old(self).attached(old(ring)),
        ensures
            final(ring).wf(),
            final(self).attached(final(ring)),
            lap.0 == old(ring)@.queue.len(),
            final(out)@ == old(out)@ + old(ring)@.queue,
            lap.1 == if old(ring)@.producer_closed {
                DrainStep::Done
            } else if may_spin {
                DrainStep::Spin
            } else {
                DrainStep::Park
            },
            ({
                let drained = old(ring)@.taken(lap.0 as nat);
                final(ring)@ == if lap.1 == DrainStep::Park {
                    QueueModel {
                        consumer: SoleWaiter { parked: true, ..drained.consumer },
                        ..drained
                    }
                } else {
                    drained
                }
            }),
    {
        let n: usize = self.drain(ring, out);
        if ring.producer_gone() {
            return (n, DrainStep::Done);
        }
        if may_spin {
            return (n, DrainStep::Spin);
        }
        ring.consumer_waiter().arm();
        (n, DrainStep::Park)
    }

    /// One lap of a pop that blocks while the ring is empty, until the
    /// producer pushes something or is gone. Nothing comes out only if the
    /// producer is gone and the ring is empty.
    ///
    /// A consumer that is told to park calls [`woke`](Self::woke) when its
    /// sleep ends, and then runs the next lap.
    pub fn pop_block(&mut self, ring: &mut RingBuffer<T>, may_spin: bool) -> (step: PopStep<T>)
        requires
            old(ring).wf(),
            old(self).attached(old(ring)),
        ensures
            final(ring).wf(),
            final(self).attached(final(ring)),
            if old(ring)@.queue.len() > 0 {
                &&& step == PopStep::Done(Some(old(ring)@.queue[0]))
                &&& final(ring)@ == old(ring)@.taken(1)
            } else if old(ring)@.producer_closed {
                &&& step == PopStep::<T>::Done(None)
                &&& final(ring)@ == old(ring)@
            } else if may_spin {
                &&& step == PopStep::<T>::Spin
                &&& final(ring)@ == old(ring)@
            } else {
                &&& step == PopStep::<T>::Park
                &&& final(ring)@ == (QueueModel {
                    consumer: SoleWaiter { parked: true, ..old(ring)@.consumer },
                    ..old(ring)@
                })
            },
    {
        match self.pop(ring) {
            Some(val) => PopStep::Done(Some(val)),
            None => {
                if ring.producer_gone() {
                    return PopStep::Done(None);
                }
                if may_spin {
                    return PopStep::Spin;
                }
                ring.consumer_waiter().arm();
                PopStep::Park
            },
        }
    }

    /// Takes this consumer off the record of those asleep.
    pub fn woke(&self, ring: &mut RingBuffer<T>)
        requires
            old(ring).wf(),
            self.attached(old(ring)),
        ensures
            final(ring).wf(),
            self.attached(final(ring)),
            final(ring)@ == (QueueModel {
                consumer: SoleWaiter { parked: false, ..old(ring)@.consumer },
                ..old(ring)@
            }),
    {
        ring.consumer_waiter().disarm();
    }

    /// One poll of a pop that yields while the ring is empty, until the
    /// producer pushes something or is gone. While it is pending the task
    /// is on record; a future that is dropped calls
    /// [`cancel_async`](Self::cancel_async), and nothing has been taken.
    pub fn pop_async(&mut self, ring: &mut RingBuffer<T>) -> (poll: PopPoll<T>)
        requires
            old(ring).wf(),
            old(self).attached(old(ring)),
        ensures
            final(ring).wf(),
            final(self).attached(final(ring)),
            ({
                let some = old(ring)@.queue.len() > 0;
                let waits = !some && !old(ring)@.producer_closed;
                let after = if some {
                    old(ring)@.taken(1)
                } else {
                    old(ring)@
                };
                &&& poll == if some {
                    PopPoll::Ready(Some(old(ring)@.queue[0]))
                } else if waits {
                    PopPoll::Pending
                } else {
                    PopPoll::Ready(None)
                }
                &&& final(ring)@ == (QueueModel {
                    consumer: SoleWaiter { pending: waits, ..after.consumer },
                    ..after
                })
            }),
    {
        match self.pop(ring) {
            Some(val) => {
                self.cancel_async(ring);
                PopPoll::Ready(Some(val))
            },
            None => {
                if ring.producer_gone() {
                    self.cancel_async(ring);
                    return PopPoll::Ready(None);
                }
                ring.consumer_waiter().register();
                PopPoll::Pending
            },
        }
    }

    /// Takes this consumer's task off the record. The record stands for all
    /// the calls of this consumer that are pending, so this is for when the
    /// last of them is dropped.
    pub fn cancel_async(&self, ring: &mut RingBuffer<T>)
        requires
            old(ring).wf(),
            self.attached(old(ring)),
        ensures
            final(ring).wf(),
            self.attached(final(ring)),
            final(ring)@ == (QueueModel {
                consumer: SoleWaiter { pending: false, ..old(ring)@.consumer },
                ..old(ring)@
            }),
    {
        ring.consumer_waiter().deregister();
    }

    /// Whether the producer is gone.
    #[must_use]
    pub fn is_closed(&self, ring: &RingBuffer<T>) -> (closed: bool)
        ensures
            closed == ring@.producer_closed,
    {
        ring.producer_gone()
    }

    /// Gives access to the oldest value in place, if there is one. The
    /// slot is released when the reader is dropped.
    pub fn pop_ref(&mut self, ring: &RingBuffer<T>) -> (reader: Option<SlotReader<T>>)
        requires
            ring.wf(),
            old(self).attached(ring),
        ensures
            final(self).attached(ring),
            match reader {
                Some(r) => r.held(ring) && r.of(final(self)@),
                None => ring@.queue.len() == 0,
            },
    {
        if !self.available(ring) {
            return None;
        }
        Some(SlotReader { head: ring.head(), _ring: PhantomData })
    }

    /// Whether a pop would find something.
    fn has_item(&mut self, ring: &RingBuffer<T>) -> (found: bool)
        requires
            ring.wf(),
            old(self).attached(ring),
        ensures
            final(self).attached(ring),
            found == (ring@.queue.len() > 0),
    {
        self.available(ring)
    }

    /// One lap of [`pop_ref`](Self::pop_ref) that blocks while the ring is
    /// empty, until the producer pushes something or is gone. Waits as
    /// [`pop_block`](Self::pop_block) does.
    pub fn pop_ref_block(
        &mut self,
        ring: &mut RingBuffer<T>,
        may_spin: bool,
    ) -> (step: PopStep<SlotReader<T>>)
        requires
            old(ring).wf(),
            old(self).attached(old(ring)),
        ensures
            final(ring).wf(),
            final(self).attached(final(ring)),
            if old(ring)@.queue.len() > 0 {
                &&& step matches PopStep::Done(Some(r)) && r.held(final(ring)) && r.of(final(self)@)
                &&& final(ring)@ == old(ring)@
            } else if old(ring)@.producer_closed {
                &&& step == PopStep::<SlotReader<T>>::Done(None)
                &&& final(ring)@ == old(ring)@
            } else if may_spin {
                &&& step == PopStep::<SlotReader<T>>::Spin
                &&& final(ring)@ == old(ring)@
            } else {
                &&& step == PopStep::<SlotReader<T>>::Park
                &&& final(ring)@ == (QueueModel {
                    consumer: SoleWaiter { parked: true, ..old(ring)@.consumer },
                    ..old(ring)@
                })
            },
    {
        if self.has_item(ring) {
            return PopStep::Done(self.pop_ref(ring));
        }
        if ring.producer_gone() {
            return PopStep::Done(None);
        }
        if may_spin {
            return PopStep::Spin;
        }
        ring.consumer_waiter().arm();
        PopStep::Park
    }

    /// The number of values in the ring.
    #[must_use]
    pub fn len(&self, ring: &RingBuffer<T>) -> (n: usize)
        requires
            ring.wf(),
        ensures
            n == ring@.queue.len(),
    {
        ring.len()
    }

    /// Whether there is nothing in the ring.
    #[must_use]
    pub fn is_empty(&self, ring: &RingBuffer<T>) -> (empty: bool)
        requires
            ring.wf(),
        ensures
            empty == (ring@.queue.len() == 0),
    {
        ring.is_empty()
    }

    /// Whether the ring is full.
    #[must_use]
    pub fn is_full(&self, ring: &RingBuffer<T>) -> (full: bool)
        requires
            ring.wf(),
        ensures
            full == ring@.is_full(),
    {
        ring.is_full()
    }

    /// Lets the consumer go: everything still in the ring is taken out and
    /// handed back in order, and then the ring is closed on this side and
    /// the producer woken to see it.
    pub fn drop(self, ring: &mut RingBuffer<T>) -> (left: Vec<T>)
        requires
            old(ring).wf(),
            self.attached(old(ring)),
        ensures
            final(ring).wf(),
            left@ == old(ring)@.queue,
            final(ring)@ == (QueueModel {
                consumer_closed: true,
                producer: old(ring)@.producer.woken(),
                ..old(ring)@.taken(old(ring)@.queue.len())
            }),
    {
        let mut this: Self = self;
        let mut left: Vec<T> = Vec::new();
        this.drain(ring, &mut left);
        ring.close_consumer();
        assert(Seq::<T>::empty() + old(ring)@.queue =~= old(ring)@.queue);
        left
    }
}

/// The oldest value of the ring, read in place.
#[derive(Debug)]
pub struct SlotReader<T> {
    head: usize,
    _ring: PhantomData<T>,
}

impl<T> View for SlotReader<T> {
    type V = usize;

    /// The position of the value.
    closed spec fn view(&self) -> usize {
        self.head
    }
}

impl<T> SlotReader<T> {
    /// Whether the position is the head of `ring`, with a value in it.
    pub open spec fn held(&self, ring: &RingBuffer<T>) -> bool {
        &&& self@ == ring@.head
        &&& ring@.queue.len() > 0
    }

    /// Whether the consumer whose cached tail is `cached_tail` may take
    /// the value.
    pub open spec fn of(&self, cached_tail: usize) -> bool {
        self@ < cached_tail
    }

    /// The value.
    pub fn deref<'r>(&self, ring: &'r RingBuffer<T>) -> (val: &'r T)
        requires
            ring.wf(),
            self.held(ring),
        ensures
            *val == ring@.queue[0],
    {
        ring.front()
    }

    /// Takes the value out, moves the head past it, and wakes the
    /// producer.
    pub fn drop(self, ring: &mut RingBuffer<T>) -> (val: T)
        requires
            old(ring).wf(),
            self.held(old(ring)),
        ensures
            final(ring).wf(),
            val == old(ring)@.queue[0],
            final(ring)@ == old(ring)@.taken(1),
    {
        let val: T = ring.take_front();
        ring.wake_producer();
        val
    }
}

} // verus!
