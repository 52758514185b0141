//! The consuming ends of the ring.

use core::marker::PhantomData;

use vstd::prelude::*;

use crate::common::park_registry::ParkSlot;
use crate::common::step::{DrainStep, PopPoll, PopStep};
use crate::spmc::ring::{values_from, Reading, RingBuffer, ShareModel, BATCH_SIZE};

verus! {

/// A consumer of the ring; it can be cloned.
#[derive(Debug)]
pub struct Consumer<T> {
    /// A tail that was read earlier: what lies before it is published.
    cached_tail: usize,
    /// The positions `batch_next..batch_end` are claimed and not taken.
    batch_next: usize,
    batch_end: usize,
    park_slot: ParkSlot,
    _ring: PhantomData<T>,
}

/// What an attempt to claim a batch at the head comes to.
#[derive(Clone, Copy, Debug, PartialEq, Eq, Structural)]
pub enum BatchAttempt {
    /// The batch is claimed; its first position is this.
    Won(usize),
    /// Another consumer was first.
    Lost,
    /// Nothing is published there.
    Empty,
}

impl<T> View for Consumer<T> {
    type V = Reading;

    closed spec fn view(&self) -> Reading {
        Reading {
            cached_tail: self.cached_tail,
            next: self.batch_next,
            end: self.batch_end,
            slot: self.park_slot,
        }
    }
}

impl<T> Consumer<T> {
    /// Whether this is a consumer of `ring`: the ring backs what it has
    /// claimed.
    pub open spec fn attached(&self, ring: &RingBuffer<T>) -> bool {
        &&& ring@.backs(self@)
        &&& self@.slot.wf()
    }

    pub(crate) fn new_with(park_slot: ParkSlot) -> (consumer: Self)
        ensures
            consumer@ == (Reading { cached_tail: 0, next: 0, end: 0, slot: park_slot }),
    {
        Consumer { cached_tail: 0, batch_next: 0, batch_end: 0, park_slot, _ring: PhantomData }
    }

    /// Makes another consumer of the ring, with a park slot of its own.
    pub fn clone(&self, ring: &mut RingBuffer<T>) -> (consumer: Self)
        requires
            old(ring).wf(),
            old(ring)@.consumers < usize::MAX,
        ensures
            final(ring).wf(),
            final(ring)@ == old(ring)@.consumer_joined(),
            consumer@ == (Reading {
                cached_tail: 0,
                next: 0,
                end: 0,
                slot: old(ring)@.consumer_slots.next(),
            }),
            consumer.attached(final(ring)),
    {
        Consumer::new_with(ring.join_consumer())
    }

    /// Makes another consumer of a ring that stays with the caller.
    pub fn new_consumer(&self, ring: &mut RingBuffer<T>) -> (consumer: Self)
        requires
            old(ring).wf(),
            old(ring)@.consumers < usize::MAX,
        ensures
            final(ring).wf(),
            final(ring)@ == old(ring)@.consumer_joined(),
            consumer@ == (Reading {
                cached_tail: 0,
                next: 0,
                end: 0,
                slot: old(ring)@.consumer_slots.next(),
            }),
            consumer.attached(final(ring)),
    {
        self.clone(ring)
    }

    /// The park slot of this consumer.
    pub fn park_slot(&self) -> (slot: ParkSlot)
        ensures
            slot == self@.slot,
    {
        self.park_slot
    }

    /// Tries to claim a batch at `observed`, which was seen at the head a
    /// moment ago. The batch reaches as far as this consumer knows the
    /// tail, and to four positions at most; the tail is read again only if
    /// what is known of it shows nothing.
    pub fn attempt_batch(
        &mut self,
        ring: &mut RingBuffer<T>,
        observed: usize,
    ) -> (attempt: BatchAttempt)
        requires
            old(ring).wf(),
            old(self).attached(old(ring)),
            old(self)@.next == old(self)@.end,
        ensures
            final(ring).wf(),
            final(self).attached(final(ring)),
            ({
                let seen = if observed >= old(self)@.cached_tail {
                    old(ring)@.tail
                } else {
                    old(self)@.cached_tail
                };
                let n = if seen - observed <= BATCH_SIZE {
                    seen - observed
                } else {
                    BATCH_SIZE as int
                };
                if observed >= seen {
                    &&& attempt == BatchAttempt::Empty
                    &&& final(ring)@ == old(ring)@
                    &&& final(self)@ == (Reading { cached_tail: seen, ..old(self)@ })
                } else if observed != old(ring)@.head {
                    &&& attempt == BatchAttempt::Lost
                    &&& final(ring)@ == old(ring)@
                    &&& final(self)@ == (Reading { cached_tail: seen, ..old(self)@ })
                } else {
                    &&& attempt == BatchAttempt::Won(observed)
                    &&& final(ring)@ == (ShareModel { head: (observed + n) as usize, ..old(ring)@ })
                    &&& final(self)@ == (Reading {
                        cached_tail: seen,
                        next: (observed + 1) as usize,
                        end: (observed + n) as usize,
                        ..old(self)@
                    })
                }
            }),
    {
        if observed >= self.cached_tail {
            self.cached_tail = ring.tail();
            if observed >= self.cached_tail {
                return BatchAttempt::Empty;
            }
        }
        match ring.claim_head(observed, self.cached_tail) {
            None => BatchAttempt::Lost,
            Some(take) => {
                self.batch_next = observed + 1;
                self.batch_end = observed + take;
                BatchAttempt::Won(observed)
            },
        }
    }

    /// Claims a batch at the head and takes its first position.
    fn claim_batch(&mut self, ring: &mut RingBuffer<T>) -> (pos: Option<usize>)
        requires
            old(ring).wf(),
            old(self).attached(old(ring)),
            old(self)@.next == old(self)@.end,
        ensures
            final(ring).wf(),
            final(self).attached(final(ring)),
            (final(ring)@, final(self)@) == old(ring)@.claimed(old(self)@),
            pos == (match old(ring)@.claimable(old(self)@) {
                Some(pos) => Some(pos as usize),
                None => None,
            }),
            pos matches Some(p) ==> p < final(ring)@.head && final(ring)@.live.dom().contains(
                p as int,
            ),
    {
        let observed: usize = ring.head();
        match self.attempt_batch(ring, observed) {
            BatchAttempt::Won(pos) => {
                assert(old(ring)@.live.dom().contains(pos as int));
                Some(pos)
            },
            _ => None,
        }
    }

    /// Takes the next position: of the batch, if it has one left, else of
    /// a new batch. The position is this consumer's until it releases it.
    fn claim_slot(&mut self, ring: &mut RingBuffer<T>) -> (pos: Option<usize>)
        requires
            old(ring).wf(),
            old(self).attached(old(ring)),
        ensures
            final(ring).wf(),
            final(self).attached(final(ring)),
            (final(ring)@, final(self)@) == old(ring)@.claimed(old(self)@),
            pos == (match old(ring)@.claimable(old(self)@) {
                Some(pos) => Some(pos as usize),
                None => None,
            }),
            pos matches Some(p) ==> {
                &&& p < final(ring)@.head
                &&& final(ring)@.live.dom().contains(p as int)
                &&& p < final(self)@.next
            },
    {
        let next: usize = self.batch_next;
        if next < self.batch_end {
            assert(ring@.live.dom().contains(next as int));
            self.batch_next = next + 1;
            return Some(next);
        }
        self.claim_batch(ring)
    }

    /// Whether a pop would find something.
    fn has_item(&mut self, ring: &RingBuffer<T>) -> (found: bool)
        requires
            ring.wf(),
            old(self).attached(ring),
        ensures
            final(self).attached(ring),
            found == (ring@.claimable(old(self)@) is Some),
            final(self)@ == (Reading {
                cached_tail: if old(self)@.next < old(self)@.end {
                    old(self)@.cached_tail
                } else {
                    ring@.seen_tail(old(self)@)
                },
                ..old(self)@
            }),
    {
        if self.batch_next < self.batch_end {
            return true;
        }
        let head: usize = ring.head();
        if head < self.cached_tail {
            return true;
        }
        let tail: usize = ring.tail();
        self.cached_tail = tail;
        head < tail
    }

    /// Pops the next value, and wakes the producer.
    pub fn pop(&mut self, ring: &mut RingBuffer<T>) -> (val: Option<T>)
        requires
            old(ring).wf(),
            old(ring)@.headroom(),
            old(self).attached(old(ring)),
        ensures
            final(ring).wf(),
            final(self).attached(final(ring)),
            ({
                let (claimed, reading) = old(ring)@.claimed(old(self)@);
                &&& final(self)@ == reading
                &&& match old(ring)@.claimable(old(self)@) {
                    Some(pos) => {
                        &&& val == Some(old(ring)@.live[pos])
                        &&& final(ring)@ == claimed.released(pos).producer_woken()
                    },
                    None => val is None && final(ring)@ == claimed,
                }
            }),
    {
        match self.claim_slot(ring) {
            None => None,
            Some(pos) => {
                let val: T = ring.release(pos);
                ring.wake_producer();
                Some(val)
            },
        }
    }

    /// Drains everything that is published, appending it to `out` in
    /// order, and tells how much it was. The producer is woken once, if
    /// anything was drained.
    pub fn drain(&mut self, ring: &mut RingBuffer<T>, out: &mut Vec<T>) -> (n: usize)
        requires
            old(ring).wf(),
            old(ring)@.headroom(),
            old(self).attached(old(ring)),
        ensures
            final(ring).wf(),
            final(self).attached(final(ring)),
            ({
                let (emptied, reading, values) = old(ring)@.emptied(
                    old(self)@,
                    usize::MAX as nat,
                );
                &&& n == values.len()
                &&& final(out)@ == old(out)@ + values
                &&& final(self)@ == reading
                &&& final(ring)@ == if n > 0 {
                    emptied.producer_woken()
                } else {
                    emptied
                }
            }),
    {
        self.drain_up_to(ring, usize::MAX, out)
    }

    /// Drains up to `limit` values, appending them to `out` in order, and
    /// tells how many they were. The producer is woken once, if anything
    /// was drained.
    pub fn drain_up_to(
        &mut self,
        ring: &mut RingBuffer<T>,
        limit: usize,
        out: &mut Vec<T>,
    ) -> (n: usize)
        requires
            old(ring).wf(),
            old(ring)@.headroom(),
            old(self).attached(old(ring)),
        ensures
            final(ring).wf(),
            final(self).attached(final(ring)),
            n <= limit,
            ({
                let (emptied, reading, values) = old(ring)@.emptied(old(self)@, limit as nat);
                &&& n == values.len()
                &&& final(out)@ == old(out)@ + values
                &&& final(self)@ == reading
                &&& final(ring)@ == if n > 0 {
                    emptied.producer_woken()
                } else {
                    emptied
                }
            }),
    {
        let mut count: usize = 0;
        let ghost (last, end, values) = old(ring)@.emptied(old(self)@, limit as nat);
        let ghost mut delivered: Seq<T> = Seq::empty();
        let ghost mut rest: Seq<T> = values;
        proof {
            assert(Seq::<T>::empty() + values =~= values);
            assert(out@ =~= old(out)@ + Seq::<T>::empty());
        }
        while count < limit
            invariant_except_break
                (last, end, rest) == ring@.emptied(self@, (limit - count) as nat),
            invariant
                count <= limit,
                ring.wf(),
                ring@.headroom(),
                self.attached(ring),
                delivered.len() == count,
                values == delivered + rest,
                out@ == old(out)@ + delivered,
            ensures
                rest.len() == 0,
                ring@ == last,
                self@ == end,
            decreases limit - count,
        {
            let ghost before = ring@;
            match self.claim_slot(ring) {
                None => {
                    break;
                },
                Some(pos) => {
                    let val: T = ring.release(pos);
                    out.push(val);
                    count = count + 1;
                    proof {
                        let tail = ring@.emptied(self@, (limit - count) as nat).2;
                        assert(rest =~= seq![val] + tail);
                        assert(delivered + rest =~= delivered.push(val) + tail);
                        assert(out@ =~= old(out)@ + delivered.push(val));
                        delivered = delivered.push(val);
                        rest = tail;
                    }
                },
            }
        }
        if count > 0 {
            ring.wake_producer();
        }
        assert(delivered + rest =~= delivered);
        count
    }

    /// One lap of a drain that blocks while nothing is published, until
    /// the producer is gone and nothing is left. Appends what it drained
    /// to `out` and tells how much it was.
    ///
    /// A consumer that is told to park calls [`woke`](Self::woke) when its
    /// sleep ends, and then runs the next lap.
    pub fn drain_block(
        &mut self,
        ring: &mut RingBuffer<T>,
        out: &mut Vec<T>,
        may_spin: bool,
    ) -> (lap: (usize, DrainStep))
        requires
            old(ring).wf(),
            old(ring)@.headroom(),
            old(self).attached(old(ring)),
        ensures
            final(ring).wf(),
            final(self).attached(final(ring)),
            ({
                let (emptied, reading, values) = old(ring)@.emptied(
                    old(self)@,
                    usize::MAX as nat,
                );
                let drained = if values.len() > 0 {
                    emptied.producer_woken()
                } else {
                    emptied
                };
                &&& lap.0 == values.len()
                &&& final(out)@ == old(out)@ + values
                &&& final(self)@ == reading
                &&& lap.1 == if old(ring)@.closed {
                    DrainStep::Done
                } else if may_spin {
                    DrainStep::Spin
                } else {
                    DrainStep::Park
                }
                &&& final(ring)@ == if lap.1 == DrainStep::Park {
                    ShareModel {
                        consumer_park: drained.consumer_park.armed(reading.slot),
                        ..drained
                    }
                } else {
                    drained
                }
            }),
    {
        proof {
            lemma_emptying_keeps_the_rest(ring@, self@, usize::MAX as nat);
        }
        let n: usize = self.drain(ring, out);
        if ring.producer_gone() {
            return (n, DrainStep::Done);
        }
        if may_spin {
            return (n, DrainStep::Spin);
        }
        ring.set_consumer_parked(self.park_slot, true);
        (n, DrainStep::Park)
    }

    /// One lap of a pop that blocks while nothing is published, until the
    /// producer pushes something or is gone.
    ///
    /// A consumer that is told to park calls [`woke`](Self::woke) when its
    /// sleep ends, and then runs the next lap.
    pub fn pop_block(&mut self, ring: &mut RingBuffer<T>, may_spin: bool) -> (step: PopStep<T>)
        requires
            old(ring).wf(),
            old(ring)@.headroom(),
            old(self).attached(old(ring)),
        ensures
            final(ring).wf(),
            final(self).attached(final(ring)),
            ({
                let (claimed, reading) = old(ring)@.claimed(old(self)@);
                &&& final(self)@ == reading
                &&& match old(ring)@.claimable(old(self)@) {
                    Some(pos) => {
                        &&& step == PopStep::Done(Some(old(ring)@.live[pos]))
                        &&& final(ring)@ == claimed.released(pos).producer_woken()
                    },
                    None => if old(ring)@.closed {
                        &&& step == PopStep::<T>::Done(None)
                        &&& final(ring)@ == claimed
                    } else if may_spin {
                        &&& step == PopStep::<T>::Spin
                        &&& final(ring)@ == claimed
                    } else {
                        &&& step == PopStep::<T>::Park
                        &&& final(ring)@ == (ShareModel {
                            consumer_park: claimed.consumer_park.armed(reading.slot),
                            ..claimed
                        })
                    },
                }
            }),
    {
        match self.pop(ring) {
            Some(val) => PopStep::Done(Some(val)),
            None => {
                if ring.producer_gone() {
                    return PopStep::Done(None);
                }
                if may_spin {
                    return PopStep::Spin;
                }
                ring.set_consumer_parked(self.park_slot, true);
                PopStep::Park
            },
        }
    }

    /// Takes this consumer off the record of those asleep.
    pub fn woke(&self, ring: &mut RingBuffer<T>)
        requires
            old(ring).wf(),
            self.attached(old(ring)),
        ensures
            final(ring).wf(),
            self.attached(final(ring)),
            final(ring)@ == (ShareModel {
                consumer_park: old(ring)@.consumer_park.disarmed(self@.slot),
                ..old(ring)@
            }),
    {
        ring.set_consumer_parked(self.park_slot, false);
    }

    /// One poll of a pop that yields while nothing is published, until the
    /// producer pushes something or is gone. While it is pending the task
    /// is on record under this consumer's park slot; a future that is
    /// dropped calls [`cancel_async`](Self::cancel_async).
    pub fn pop_async(&mut self, ring: &mut RingBuffer<T>) -> (poll: PopPoll<T>)
        requires
            old(ring).wf(),
            old(ring)@.headroom(),
            old(self).attached(old(ring)),
        ensures
            final(ring).wf(),
            final(self).attached(final(ring)),
            ({
                let (claimed, reading) = old(ring)@.claimed(old(self)@);
                &&& final(self)@ == reading
                &&& match old(ring)@.claimable(old(self)@) {
                    Some(pos) => {
                        let popped = claimed.released(pos).producer_woken();
                        &&& poll == PopPoll::Ready(Some(old(ring)@.live[pos]))
                        &&& final(ring)@ == (ShareModel {
                            consumer_tasks: popped.consumer_tasks.disarmed(reading.slot),
                            ..popped
                        })
                    },
                    None => if old(ring)@.closed {
                        &&& poll == PopPoll::<T>::Ready(None)
                        &&& final(ring)@ == (ShareModel {
                            consumer_tasks: claimed.consumer_tasks.disarmed(reading.slot),
                            ..claimed
                        })
                    } else {
                        &&& poll == PopPoll::<T>::Pending
                        &&& final(ring)@ == (ShareModel {
                            consumer_tasks: claimed.consumer_tasks.armed(reading.slot),
                            ..claimed
                        })
                    },
                }
            }),
    {
        match self.pop(ring) {
            Some(val) => {
                self.cancel_async(ring);
                PopPoll::Ready(Some(val))
            },
            None => {
                if ring.producer_gone() {
                    self.cancel_async(ring);
                    return PopPoll::Ready(None);
                }
                ring.set_consumer_task(self.park_slot, true);
                PopPoll::Pending
            },
        }
    }

    /// Takes this consumer's task off the record. The record stands for all
    /// the calls of this consumer that are pending, so this is for when the
    /// last of them is dropped.
    pub fn cancel_async(&self, ring: &mut RingBuffer<T>)
        requires
            old(ring).wf(),
            self.attached(old(ring)),
        ensures
            final(ring).wf(),
            self.attached(final(ring)),
            final(ring)@ == (ShareModel {
                consumer_tasks: old(ring)@.consumer_tasks.disarmed(self@.slot),
                ..old(ring)@
            }),
    {
        ring.set_consumer_task(self.park_slot, false);
    }

    /// Claims the next value for reading in place, if there is one. Its
    /// slot is released when the reader is dropped.
    pub fn pop_ref(&mut self, ring: &mut RingBuffer<T>) -> (reader: Option<SlotReader<T>>)
        requires
            old(ring).wf(),
            old(self).attached(old(ring)),
        ensures
            final(ring).wf(),
            final(self).attached(final(ring)),
            (final(ring)@, final(self)@) == old(ring)@.claimed(old(self)@),
            match old(ring)@.claimable(old(self)@) {
                Some(pos) => reader matches Some(r) && r@ == pos && r.held(final(ring)) && r.of(
                    final(self)@,
                ),
                None => reader is None,
            },
    {
        match self.claim_slot(ring) {
            None => None,
            Some(head) => Some(SlotReader { head, _ring: PhantomData }),
        }
    }

    /// One lap of [`pop_ref`](Self::pop_ref) that blocks while nothing is
    /// published, until the producer pushes something or is gone. Waits as
    /// [`pop_block`](Self::pop_block) does.
    pub fn pop_ref_block(
        &mut self,
        ring: &mut RingBuffer<T>,
        may_spin: bool,
    ) -> (step: PopStep<SlotReader<T>>)
        requires
            old(ring).wf(),
            old(self).attached(old(ring)),
        ensures
            final(ring).wf(),
            final(self).attached(final(ring)),
            ({
                let (claimed, reading) = old(ring)@.claimed(old(self)@);
                &&& final(self)@ == reading
                &&& match old(ring)@.claimable(old(self)@) {
                    Some(pos) => {
                        &&& step matches PopStep::Done(Some(r)) && r@ == pos && r.held(final(ring))
                            && r.of(final(self)@)
                        &&& final(ring)@ == claimed
                    },
                    None => if old(ring)@.closed {
                        &&& step == PopStep::<SlotReader<T>>::Done(None)
                        &&& final(ring)@ == claimed
                    } else if may_spin {
                        &&& step == PopStep::<SlotReader<T>>::Spin
                        &&& final(ring)@ == claimed
                    } else {
                        &&& step == PopStep::<SlotReader<T>>::Park
                        &&& final(ring)@ == (ShareModel {
                            consumer_park: claimed.consumer_park.armed(reading.slot),
                            ..claimed
                        })
                    },
                }
            }),
    {
        if self.has_item(ring) {
            return PopStep::Done(self.pop_ref(ring));
        }
        if ring.producer_gone() {
            return PopStep::Done(None);
        }
        if may_spin {
            return PopStep::Spin;
        }
        ring.set_consumer_parked(self.park_slot, true);
        PopStep::Park
    }

    /// The number of values that no consumer has claimed.
    #[must_use]
    pub fn len(&self, ring: &RingBuffer<T>) -> (n: usize)
        requires
            ring.wf(),
        ensures
            n == ring@.tail - ring@.head,
    {
        ring.len()
    }

    /// Whether every value has been claimed.
    #[must_use]
    pub fn is_empty(&self, ring: &RingBuffer<T>) -> (empty: bool)
        requires
            ring.wf(),
        ensures
            empty == (ring@.tail == ring@.head),
    {
        ring.is_empty()
    }

    /// Whether the ring is full of unclaimed values.
    #[must_use]
    pub fn is_full(&self, ring: &RingBuffer<T>) -> (full: bool)
        requires
            ring.wf(),
        ensures
            full == (ring@.tail - ring@.head == ring@.cap),
    {
        ring.is_full()
    }

    /// Whether the producer is gone.
    #[must_use]
    pub fn is_closed(&self, ring: &RingBuffer<T>) -> (closed: bool)
        ensures
            closed == ring@.closed,
    {
        ring.producer_gone()
    }

    /// Lets this consumer go: what is left of its batch is taken out and
    /// handed back in order, and the producer woken if that was anything;
    /// then its park slot is returned and, if it was the last, the
    /// producer is woken, which then fails.
    pub fn drop(self, ring: &mut RingBuffer<T>) -> (left: Vec<T>)
        requires
            old(ring).wf(),
            old(ring)@.headroom(),
            old(ring)@.consumers > 0,
            self.attached(old(ring)),
        ensures
            final(ring).wf(),
            left@ == values_from(
                old(ring)@.live,
                self@.next as int,
                (self@.end - self@.next) as nat,
            ),
            final(ring)@ == old(ring)@.consumer_departed(self@),
    {
        let mut left: Vec<T> = Vec::new();
        let next: usize = self.batch_next;
        let end: usize = self.batch_end;
        let mut pos: usize = next;
        assert(ring@.live =~= old(ring)@.batch_released(next as int, next as int).live);
        while pos < end
            invariant
                next == self@.next,
                end == self@.end,
                next <= pos <= end,
                ring.wf(),
                ring@.headroom(),
                ring@ == old(ring)@.batch_released(next as int, pos as int),
                old(ring)@.backs(self@),
                left@ == values_from(old(ring)@.live, next as int, (pos - next) as nat),
            decreases end - pos,
        {
            assert(old(ring)@.live.dom().contains(pos as int));
            assert(ring@.live.dom().contains(pos as int));
            let val: T = ring.release(pos);
            left.push(val);
            proof {
                assert(ring@.live =~= old(ring)@.batch_released(next as int, pos + 1).live);
                assert(left@ =~= values_from(
                    old(ring)@.live,
                    next as int,
                    (pos + 1 - next) as nat,
                ));
            }
            pos = pos + 1;
        }
        if next < end {
            ring.wake_producer();
        }
        ring.leave_consumer(self.park_slot);
        left
    }
}

/// Draining changes neither whether the producer is gone nor the park
/// slot of the consumer.
proof fn lemma_emptying_keeps_the_rest<T>(ring: ShareModel<T>, reading: Reading, limit: nat)
    ensures
        ring.emptied(reading, limit).0.closed == ring.closed,
        ring.emptied(reading, limit).1.slot == reading.slot,
    decreases limit,
{
    if limit > 0 {
        let (claimed, after) = ring.claimed(reading);
        match ring.claimable(reading) {
            None => {},
            Some(pos) => {
                lemma_emptying_keeps_the_rest(claimed.released(pos), after, (limit - 1) as nat);
            },
        }
    }
}

/// A claimed value, read in place.
#[derive(Debug)]
pub struct SlotReader<T> {
    head: usize,
    _ring: PhantomData<T>,
}

impl<T> View for SlotReader<T> {
    type V = int;

    /// The claimed position.
    closed spec fn view(&self) -> int {
        self.head as int
    }
}

impl<T> SlotReader<T> {
    /// Whether the position is claimed in `ring` and not released.
    pub open spec fn held(&self, ring: &RingBuffer<T>) -> bool {
        &&& self@ < ring@.head
        &&& ring@.live.dom().contains(self@)
    }

    /// Whether the consumer has moved past the position.
    pub open spec fn of(&self, reading: Reading) -> bool {
        self@ < reading.next
    }

    /// The value.
    pub fn deref<'r>(&self, ring: &'r RingBuffer<T>) -> (val: &'r T)
        requires
            ring.wf(),
            self.held(ring),
        ensures
            *val == ring@.live[self@],
    {
        ring.peek(self.head)
    }

    /// Takes the value out, releases the slot, and wakes the producer.
    pub fn drop(self, ring: &mut RingBuffer<T>) -> (val: T)
        requires
            old(ring).wf(),
            old(ring)@.headroom(),
            self.held(old(ring)),
        ensures
            final(ring).wf(),
            val == old(ring)@.live[self@],
            final(ring)@ == old(ring)@.released(self@).producer_woken(),
    {
        let val: T = ring.release(self.head);
        ring.wake_producer();
        val
    }
}

} // verus!
