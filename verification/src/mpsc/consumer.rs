//! The consuming end of the ring.

use core::marker::PhantomData;

use vstd::prelude::*;

use crate::common::sole_waiter::SoleWaiter;
use crate::common::step::{DrainStep, PopPoll, PopStep};
use crate::mpsc::ring::{drained, lemma_clearing_shortens, Claim, ClaimModel, RingBuffer};
use crate::mpsc::seq_slot::SlotSnapshot;

verus! {

/// The consumer of the ring. There is one, and it cannot be cloned.
#[derive(Debug)]
pub struct Consumer<T> {
    _ring: PhantomData<T>,
}

impl<T> Consumer<T> {
    pub(crate) fn new() -> Self {
        Consumer { _ring: PhantomData }
    }

    /// Whether a value is at the head, once the tombstones in the way are
    /// released. A tombstone is not an item.
    fn ready_for_claim(&mut self, ring: &mut RingBuffer<T>) -> (ready: bool)
        requires
            old(ring).wf(),
        ensures
            final(ring).wf(),
            final(ring)@ == old(ring)@.cleared(),
            ready == (old(ring)@.front() is Some),
            ready ==> final(ring)@.claims.len() > 0 && final(ring)@.claims[0] is Ready,
    {
        while ring.classify_head() == SlotSnapshot::Tombstoned
            invariant
                ring.wf(),
                ring@.cleared() == old(ring)@.cleared(),
            ensures
                ring@.claims.len() > 0 ==> !(ring@.claims[0] is Tombstoned),
            decreases ring@.claims.len(),
        {
            self.release_tombstone(ring);
        }
        ring.classify_head() == SlotSnapshot::Ready
    }

    /// Releases the tombstone at the head. A skipped position frees a slot
    /// just as a taken value does, so a producer is woken.
    fn release_tombstone(&mut self, ring: &mut RingBuffer<T>)
        requires
            old(ring).wf(),
            old(ring)@.claims.len() > 0,
            old(ring)@.claims[0] is Tombstoned,
        ensures
            final(ring).wf(),
            final(ring)@ == old(ring)@.released(),
    {
        let _nothing: Option<T> = ring.advance();
        ring.wake_producers();
    }

    /// Pops the oldest value, skipping positions that were given up.
    /// Nothing comes if the ring is empty or its oldest claim is not
    /// published yet.
    pub fn pop(&mut self, ring: &mut RingBuffer<T>) -> (val: Option<T>)
        requires
            old(ring).wf(),
        ensures
            final(ring).wf(),
            val == old(ring)@.front(),
            final(ring)@ == old(ring)@.popped(),
    {
        if !self.ready_for_claim(ring) {
            return None;
        }
        let val: Option<T> = ring.advance();
        ring.wake_producers();
        val
    }

    /// Gives access to the oldest value in place, skipping positions that
    /// were given up. The slot is released when the reader is dropped.
    pub fn pop_ref(&mut self, ring: &mut RingBuffer<T>) -> (reader: Option<SlotReader<T>>)
        requires
            old(ring).wf(),
        ensures
            final(ring).wf(),
            final(ring)@ == old(ring)@.cleared(),
            match old(ring)@.front() {
                Some(val) => {
                    &&& reader matches Some(r) && r.held(final(ring))
                    &&& final(ring)@.claims[0] == Claim::Ready(val)
                },
                None => reader is None,
            },
    {
        if !self.ready_for_claim(ring) {
            return None;
        }
        Some(SlotReader { head: ring.head(), _ring: PhantomData })
    }

    /// Drains everything that is available, appending it to `out` in
    /// order, and tells how many values came. Tombstones on the way are
    /// released too. As many producers are woken, in one go, as positions
    /// were released.
    pub fn drain(&mut self, ring: &mut RingBuffer<T>, out: &mut Vec<T>) -> (n: usize)
        requires
            old(ring).wf(),
        ensures
            final(ring).wf(),
            ({
                let (released, values) = drained(old(ring)@.claims, usize::MAX as nat);
                &&& n == values.len()
                &&& final(out)@ == old(out)@ + values
                &&& final(ring)@ == old(ring)@.released_n(released)
            }),
    {
        self.drain_up_to(ring, usize::MAX, out)
    }

    /// Drains up to `limit` values, appending them to `out` in order, and
    /// tells how many came. The limit counts values; tombstones are not
    /// charged against it. Wakes as [`drain`](Self::drain) does.
    pub fn drain_up_to(
        &mut self,
        ring: &mut RingBuffer<T>,
        limit: usize,
        out: &mut Vec<T>,
    ) -> (n: usize)
        requires
            old(ring).wf(),
        ensures
            final(ring).wf(),
            n <= limit,
            ({
                let (released, values) = drained(old(ring)@.claims, limit as nat);
                &&& n == values.len()
                &&& final(out)@ == old(out)@ + values
                &&& final(ring)@ == old(ring)@.released_n(released)
            }),
    {
        let ghost first = ring@;
        let ghost (total, values) = drained(first.claims, limit as nat);
        let ghost mut rest: Seq<T> = values;
        let ghost mut given: Seq<T> = Seq::empty();
        let mut released: usize = 0;
        let mut delivered: usize = 0;
        proof {
            assert(first.claims.skip(0) =~= first.claims);
            assert(out@ =~= old(out)@ + Seq::<T>::empty());
            assert(Seq::<T>::empty() + values =~= values);
        }
        while delivered < limit && ring.classify_head() != SlotSnapshot::NotReady
            invariant
                ring.wf(),
                first == old(ring)@,
                first.head + first.claims.len() == first.tail,
                delivered <= limit,
                delivered <= released <= first.claims.len(),
                ring@ == (ClaimModel {
                    head: (first.head + released) as usize,
                    claims: first.claims.skip(released as int),
                    ..first
                }),
                drained(ring@.claims, (limit - delivered) as nat) == ((total - released) as nat, rest),
                released <= total,
                delivered == given.len(),
                values == given + rest,
                out@ == old(out)@ + given,
            ensures
                rest.len() == 0,
                released == total,
            decreases ring@.claims.len(),
        {
            let ghost claims = ring@.claims;
            assert(claims.skip(1) =~= first.claims.skip(released + 1));
            match ring.advance() {
                Some(val) => {
                    out.push(val);
                    delivered = delivered + 1;
                    proof {
                        let (m, tail) = drained(claims.skip(1), (limit - delivered) as nat);
                        assert(rest =~= seq![val] + tail);
                        assert(given + rest =~= given.push(val) + tail);
                        assert(out@ =~= old(out)@ + given.push(val));
                        given = given.push(val);
                        rest = tail;
                    }
                },
                None => {},
            }
            released = released + 1;
        }
        if released > 0 {
            ring.wake_producers_n(released);
        }
        assert(given + rest =~= given);
        delivered
    }

    /// One lap of a drain that blocks while nothing is available, until
    /// the ring is closed and nothing is. Appends what it drained to `out`
    /// and tells how much it was.
    ///
    /// A consumer that is told to park calls [`woke`](Self::woke) when its
    /// sleep ends, and then runs the next lap.
    pub fn drain_block(
        &mut self,
        ring: &mut RingBuffer<T>,
        out: &mut Vec<T>,
        may_spin: bool,
    ) -> (lap: (usize, DrainStep))
        requires
            old(ring).wf(),
        ensures
            final(ring).wf(),
            ({
                let (released, values) = drained(old(ring)@.claims, usize::MAX as nat);
                let after = old(ring)@.released_n(released);
                &&& lap.0 == values.len()
                &&& final(out)@ == old(out)@ + values
                &&& lap.1 == if old(ring)@.closed {
                    DrainStep::Done
                } else if may_spin {
                    DrainStep::Spin
                } else {
                    DrainStep::Park
                }
                &&& final(ring)@ == if lap.1 == DrainStep::Park {
                    ClaimModel {
                        consumer: SoleWaiter { parked: true, ..after.consumer },
                        ..after
                    }
                } else {
                    after
                }
            }),
    {
        let n: usize = self.drain(ring, out);
        if ring.is_closed() {
            return (n, DrainStep::Done);
        }
        if may_spin {
            return (n, DrainStep::Spin);
        }
        ring.consumer_waiter().arm();
        (n, DrainStep::Park)
    }

    /// One lap of a pop that blocks while nothing is available, until a
    /// producer publishes something or the ring is closed.
    ///
    /// A consumer that is told to park calls [`woke`](Self::woke) when its
    /// sleep ends, and then runs the next lap.
    pub fn pop_block(&mut self, ring: &mut RingBuffer<T>, may_spin: bool) -> (step: PopStep<T>)
        requires
            old(ring).wf(),
        ensures
            final(ring).wf(),
            match old(ring)@.front() {
                Some(val) => {
                    &&& step == PopStep::Done(Some(val))
                    &&& final(ring)@ == old(ring)@.popped()
                },
                None => {
                    let clear = old(ring)@.cleared();
                    if old(ring)@.closed {
                        &&& step == PopStep::<T>::Done(None)
                        &&& final(ring)@ == clear
                    } else if may_spin {
                        &&& step == PopStep::<T>::Spin
                        &&& final(ring)@ == clear
                    } else {
                        &&& step == PopStep::<T>::Park
                        &&& final(ring)@ == (ClaimModel {
                            consumer: SoleWaiter { parked: true, ..clear.consumer },
                            ..clear
                        })
                    }
                },
            },
    {
        proof {
            lemma_clearing_shortens(ring@);
        }
        match self.pop(ring) {
            Some(val) => PopStep::Done(Some(val)),
            None => {
                if ring.is_closed() {
                    return PopStep::Done(None);
                }
                if may_spin {
                    return PopStep::Spin;
                }
                ring.consumer_waiter().arm();
                PopStep::Park
            },
        }
    }

    /// Takes this consumer off the record of those asleep.
    pub fn woke(&self, ring: &mut RingBuffer<T>)
        requires
            old(ring).wf(),
        ensures
            final(ring).wf(),
            final(ring)@ == (ClaimModel {
                consumer: SoleWaiter { parked: false, ..old(ring)@.consumer },
                ..old(ring)@
            }),
    {
        ring.consumer_waiter().disarm();
    }

    /// One poll of a pop that yields while nothing is available, until a
    /// producer publishes something or the ring is closed. While it is
    /// pending the task is on record; a future that is dropped calls
    /// [`cancel_async`](Self::cancel_async), and no value has been taken.
    pub fn pop_async(&mut self, ring: &mut RingBuffer<T>) -> (poll: PopPoll<T>)
        requires
            old(ring).wf(),
        ensures
            final(ring).wf(),
            ({
                let popped = old(ring)@.popped();
                let waits = old(ring)@.front() is None && !old(ring)@.closed;
                &&& poll == if waits {
                    PopPoll::Pending
                } else {
                    PopPoll::Ready(old(ring)@.front())
                }
                &&& final(ring)@ == (ClaimModel {
                    consumer: SoleWaiter { pending: waits, ..popped.consumer },
                    ..popped
                })
            }),
    {
        proof {
            lemma_clearing_shortens(ring@);
        }
        match self.pop(ring) {
            Some(val) => {
                self.cancel_async(ring);
                PopPoll::Ready(Some(val))
            },
            None => {
                if ring.is_closed() {
                    self.cancel_async(ring);
                    return PopPoll::Ready(None);
                }
                ring.consumer_waiter().register();
                PopPoll::Pending
            },
        }
    }

    /// Takes this consumer's task off the record. The record stands for all
    /// the calls of this consumer that are pending, so this is for when the
    /// last of them is dropped.
    pub fn cancel_async(&self, ring: &mut RingBuffer<T>)
        requires
            old(ring).wf(),
        ensures
            final(ring).wf(),
            final(ring)@ == (ClaimModel {
                consumer: SoleWaiter { pending: false, ..old(ring)@.consumer },
                ..old(ring)@
            }),
    {
        ring.consumer_waiter().deregister();
    }

    /// One lap of [`pop_ref`](Self::pop_ref) that blocks while nothing is
    /// available, until a producer publishes something or the ring is
    /// closed. Waits as [`pop_block`](Self::pop_block) does.
    pub fn pop_ref_block(
        &mut self,
        ring: &mut RingBuffer<T>,
        may_spin: bool,
    ) -> (step: PopStep<SlotReader<T>>)
        requires
            old(ring).wf(),
        ensures
            final(ring).wf(),
            ({
                let clear = old(ring)@.cleared();
                match old(ring)@.front() {
                    Some(val) => {
                        &&& step matches PopStep::Done(Some(r)) && r.held(final(ring))
                        &&& final(ring)@ == clear
                        &&& final(ring)@.claims[0] == Claim::Ready(val)
                    },
                    None => if old(ring)@.closed {
                        &&& step == PopStep::<SlotReader<T>>::Done(None)
                        &&& final(ring)@ == clear
                    } else if may_spin {
                        &&& step == PopStep::<SlotReader<T>>::Spin
                        &&& final(ring)@ == clear
                    } else {
                        &&& step == PopStep::<SlotReader<T>>::Park
                        &&& final(ring)@ == (ClaimModel {
                            consumer: SoleWaiter { parked: true, ..clear.consumer },
                            ..clear
                        })
                    },
                }
            }),
    {
        proof {
            lemma_clearing_shortens(ring@);
        }
        match self.pop_ref(ring) {
            Some(reader) => PopStep::Done(Some(reader)),
            None => {
                if ring.is_closed() {
                    return PopStep::Done(None);
                }
                if may_spin {
                    return PopStep::Spin;
                }
                ring.consumer_waiter().arm();
                PopStep::Park
            },
        }
    }

    /// Whether the ring is closed: the last producer is gone, or somebody
    /// closed it.
    #[must_use]
    pub fn is_closed(&self, ring: &RingBuffer<T>) -> (closed: bool)
        ensures
            closed == ring@.closed,
    {
        ring.is_closed()
    }

    /// The number of claimed positions that the consumer has not passed.
    #[must_use]
    pub fn len(&self, ring: &RingBuffer<T>) -> (n: usize)
        requires
            ring.wf(),
        ensures
            n == ring@.claims.len(),
    {
        ring.len()
    }

    /// Whether no position is claimed.
    #[must_use]
    pub fn is_empty(&self, ring: &RingBuffer<T>) -> (empty: bool)
        requires
            ring.wf(),
        ensures
            empty == (ring@.claims.len() == 0),
    {
        ring.is_empty()
    }

    /// Whether every position is claimed.
    #[must_use]
    pub fn is_full(&self, ring: &RingBuffer<T>) -> (full: bool)
        requires
            ring.wf(),
        ensures
            full == ring@.is_full(),
    {
        ring.is_full()
    }

    /// Lets the consumer go: every producer is told first, and then what
    /// is available is popped and handed back in order. Claims that are
    /// not published yet stay in the ring.
    pub fn drop(self, ring: &mut RingBuffer<T>) -> (left: Vec<T>)
        requires
            old(ring).wf(),
        ensures
            final(ring).wf(),
            (final(ring)@, left@) == old(ring)@.consumer_leaving().popped_dry(),
    {
        let mut this: Self = self;
        ring.close_consumer();
        let ghost first = ring@;
        let ghost (end, values) = first.popped_dry();
        let ghost mut rest: Seq<T> = values;
        let mut left: Vec<T> = Vec::new();
        let mut more: bool = true;
        assert(left@ + rest =~= values);
        while more
            invariant
                ring.wf(),
                (end, values) == first.popped_dry(),
                more ==> ring@.popped_dry() == (end, rest),
                !more ==> ring@ == end && rest.len() == 0,
                left@ + rest == values,
            decreases ring@.claims.len() + if more {
                    1nat
                } else {
                    0nat
                },
        {
            proof {
                lemma_clearing_shortens(ring@);
            }
            match this.pop(ring) {
                Some(val) => {
                    let ghost kept = left@;
                    left.push(val);
                    proof {
                        let tail = ring@.popped_dry().1;
                        assert(rest =~= seq![val] + tail);
                        assert(kept + rest =~= kept.push(val) + tail);
                        rest = tail;
                    }
                },
                None => {
                    more = false;
                },
            }
        }
        assert(left@ + rest =~= left@);
        left
    }
}

/// The oldest value of the ring, read in place.
#[derive(Debug)]
pub struct SlotReader<T> {
    head: usize,
    _ring: PhantomData<T>,
}

impl<T> View for SlotReader<T> {
    type V = usize;

    /// The position of the value.
    closed spec fn view(&self) -> usize {
        self.head
    }
}

impl<T> SlotReader<T> {
    /// Whether the position is the head of `ring`, with a value in it.
    pub open spec fn held(&self, ring: &RingBuffer<T>) -> bool {
        &&& self@ == ring@.head
        &&& ring@.claims.len() > 0
        &&& ring@.claims[0] is Ready
    }

    /// The value.
    pub fn deref<'r>(&self, ring: &'r RingBuffer<T>) -> (val: &'r T)
        requires
            ring.wf(),
            self.held(ring),
        ensures
            *val == ring@.claims[0]->Ready_0,
    {
        ring.front()
    }

    /// Takes the value out, releases the slot, and wakes a producer.
    pub fn drop(self, ring: &mut RingBuffer<T>) -> (val: T)
        requires
            old(ring).wf(),
            self.held(old(ring)),
        ensures
            final(ring).wf(),
            val == old(ring)@.claims[0]->Ready_0,
            final(ring)@ == old(ring)@.released(),
    {
        let val: Option<T> = ring.advance();
        ring.wake_producers();
        val.unwrap()
    }
}

} // verus!
