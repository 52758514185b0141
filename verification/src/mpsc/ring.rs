//! The shared part of the ring, and its abstract state.

use vstd::prelude::*;

use crate::capacity::{lemma_first_lap, lemma_next_lap, lemma_slots_differ, slot_of, Capacity};
use crate::common::close_state::CloseState;
use crate::common::cursors::Cursors;
use crate::common::endpoint_count::EndpointCount;
use crate::common::park::WakeSet;
use crate::common::park_registry::{ParkRegistry, ParkSlot, PARK_SLOTS};
use crate::common::sole_waiter::SoleWaiter;
use crate::mpsc::consumer::Consumer;
use crate::mpsc::producer::{Producer, Sending};
use crate::mpsc::seq_slot::{SeqSlot, SlotSequence, SlotSnapshot};

verus! {

/// One claimed position.
pub enum Claim<T> {
    /// Claimed and not published; holds what the owner has written ahead,
    /// if anything.
    Pending(Option<T>),
    /// Published.
    Ready(T),
    /// Given up.
    Tombstoned,
}

/// The state of a ring.
#[verifier::ext_equal]
pub struct ClaimModel<T> {
    /// The number of slots.
    pub cap: nat,
    /// The position to take next and the position to claim next.
    pub head: usize,
    pub tail: usize,
    /// The positions between them, oldest first.
    pub claims: Seq<Claim<T>>,
    /// The live producers.
    pub producers: usize,
    /// Whether the consumer is to stop once the ring is empty.
    pub closed: bool,
    /// Whether the consumer is gone.
    pub consumer_closed: bool,
    /// Which producers sleep, and are owed an unpark.
    pub producer_park: WakeSet,
    /// Which producer tasks wait, and are owed a waker call.
    pub producer_tasks: WakeSet,
    /// The leases of park slots.
    pub producer_slots: ParkRegistry,
    /// How the consumer waits, and what it is owed.
    pub consumer: SoleWaiter,
}

/// How many positions a drain of up to `limit` values releases, and what
/// it delivers: it takes published values and skips tombstones, in order,
/// up to the first position that is pending.
pub open spec fn drained<T>(claims: Seq<Claim<T>>, limit: nat) -> (nat, Seq<T>)
    decreases claims.len(),
{
    if claims.len() == 0 || limit == 0 {
        (0, Seq::empty())
    } else {
        match claims[0] {
            Claim::Pending(_) => (0, Seq::empty()),
            Claim::Tombstoned => {
                let (n, values) = drained(claims.skip(1), limit);
                (n + 1, values)
            },
            Claim::Ready(val) => {
                let (n, values) = drained(claims.skip(1), (limit - 1) as nat);
                (n + 1, seq![val] + values)
            },
        }
    }
}

/// The published values, in order.
pub open spec fn ready_values<T>(claims: Seq<Claim<T>>) -> Seq<T>
    decreases claims.len(),
{
    if claims.len() == 0 {
        Seq::empty()
    } else {
        match claims.last() {
            Claim::Ready(val) => ready_values(claims.drop_last()).push(val),
            _ => ready_values(claims.drop_last()),
        }
    }
}

impl<T> ClaimModel<T> {
    /// A ring of `cap` slots that nothing has happened to.
    pub open spec fn fresh(cap: nat) -> Self {
        ClaimModel {
            cap,
            head: 0,
            tail: 0,
            claims: Seq::empty(),
            producers: 1,
            closed: false,
            consumer_closed: false,
            producer_park: WakeSet::idle(),
            producer_tasks: WakeSet::idle(),
            producer_slots: ParkRegistry { leased: 0 },
            consumer: SoleWaiter::idle(),
        }
    }

    /// What every ring keeps: the claims lie between the cursors, fit the
    /// slots, and their sequence numbers fit the machine word.
    pub open spec fn consistent(self) -> bool {
        &&& 0 < self.cap
        &&& self.head + self.claims.len() == self.tail
        &&& self.claims.len() <= self.cap
        &&& 2 * (self.tail + self.cap) + 2 <= usize::MAX
        &&& self.producer_park.wf()
        &&& self.producer_tasks.wf()
    }

    /// Whether the sequence numbers still fit with one more claim.
    pub open spec fn headroom(self) -> bool {
        2 * (self.tail + 1 + self.cap) + 2 <= usize::MAX
    }

    pub open spec fn is_full(self) -> bool {
        self.claims.len() == self.cap
    }

    /// What became of the position `pos`.
    pub open spec fn claim_of(self, pos: int) -> Claim<T> {
        self.claims[pos - self.head]
    }

    /// Whether `pos` is claimed and not published.
    pub open spec fn pending(self, pos: int) -> bool {
        &&& self.head <= pos < self.tail
        &&& self.claim_of(pos) is Pending
    }

    /// This ring with another state for `pos`.
    pub open spec fn with_claim(self, pos: int, claim: Claim<T>) -> Self {
        ClaimModel { claims: self.claims.update(pos - self.head, claim), ..self }
    }

    /// This ring once the next position is claimed.
    pub open spec fn claimed(self) -> Self {
        ClaimModel {
            tail: (self.tail + 1) as usize,
            claims: self.claims.push(Claim::Pending(None)),
            ..self
        }
    }

    /// This ring once `pos` is settled, by a value or a tombstone, and the
    /// consumer is woken.
    pub open spec fn settled(self, pos: int, claim: Claim<T>) -> Self {
        ClaimModel { consumer: self.consumer.woken(), ..self.with_claim(pos, claim) }
    }

    /// This ring after a push of `val` that succeeds.
    pub open spec fn pushed(self, val: T) -> Self {
        ClaimModel {
            tail: (self.tail + 1) as usize,
            claims: self.claims.push(Claim::Ready(val)),
            consumer: self.consumer.woken(),
            ..self
        }
    }

    /// This ring once the oldest position is released: one sleeping
    /// producer and every waiting producer task are woken.
    pub open spec fn released(self) -> Self {
        ClaimModel {
            head: (self.head + 1) as usize,
            claims: self.claims.skip(1),
            producer_park: self.producer_park.woken(),
            producer_tasks: self.producer_tasks.flushed(),
            ..self
        }
    }

    /// This ring once the `n` oldest positions are released in one go: up
    /// to `n` sleeping producers and waiting tasks are woken.
    pub open spec fn released_n(self, n: nat) -> Self {
        ClaimModel {
            head: (self.head + n) as usize,
            claims: self.claims.skip(n as int),
            producer_park: self.producer_park.woken_n(n),
            producer_tasks: self.producer_tasks.woken_n(n),
            ..self
        }
    }

    /// This ring once the tombstones in front of it are released.
    pub open spec fn cleared(self) -> Self
        decreases self.claims.len(),
    {
        if self.claims.len() > 0 && self.claims[0] is Tombstoned {
            self.released().cleared()
        } else {
            self
        }
    }

    /// The value that the consumer can take: the oldest, if it is
    /// published, once the tombstones before it are out of the way.
    pub open spec fn front(self) -> Option<T> {
        let clear = self.cleared();
        if clear.claims.len() > 0 && clear.claims[0] is Ready {
            Some(clear.claims[0]->Ready_0)
        } else {
            None
        }
    }

    /// This ring after a pop.
    pub open spec fn popped(self) -> Self {
        match self.front() {
            Some(_) => self.cleared().released(),
            None => self.cleared(),
        }
    }

    /// The ring and the values after popping until nothing comes.
    pub open spec fn popped_dry(self) -> (Self, Seq<T>)
        decreases self.claims.len(),
        via Self::popped_dry_ends
    {
        match self.front() {
            Some(val) => {
                let (end, values) = self.popped().popped_dry();
                (end, seq![val] + values)
            },
            None => (self.popped(), Seq::empty()),
        }
    }

    #[via_fn]
    proof fn popped_dry_ends(self) {
        lemma_clearing_shortens(self);
    }

    /// This ring with one more producer.
    pub open spec fn producer_joined(self) -> Self {
        ClaimModel {
            producers: (self.producers + 1) as usize,
            producer_slots: self.producer_slots.after_lease(),
            ..self
        }
    }

    /// This ring once the producer of `slot` is gone; the last one closes
    /// it and wakes the consumer.
    pub open spec fn producer_left(self, slot: ParkSlot) -> Self {
        let left = ClaimModel {
            producers: (self.producers - 1) as usize,
            producer_slots: self.producer_slots.after_release(slot),
            ..self
        };
        if left.producers == 0 {
            left.closing()
        } else {
            left
        }
    }

    /// This ring once it is closed and the consumer is woken to see it.
    pub open spec fn closing(self) -> Self {
        ClaimModel { closed: true, consumer: self.consumer.woken(), ..self }
    }

    /// This ring once the consumer is marked as gone and every producer is
    /// woken to see it.
    pub open spec fn consumer_leaving(self) -> Self {
        ClaimModel {
            consumer_closed: true,
            producer_park: self.producer_park.flushed(),
            producer_tasks: self.producer_tasks.flushed(),
            ..self
        }
    }
}

/// Clearing tombstones only takes positions off the front.
pub proof fn lemma_clearing_shortens<T>(ring: ClaimModel<T>)
    ensures
        ring.cleared().claims.len() <= ring.claims.len(),
        ring.cleared().claims.len() > 0 ==> !(ring.cleared().claims[0] is Tombstoned),
        ring.cleared().tail == ring.tail,
        ring.cleared().cap == ring.cap,
        ring.cleared().closed == ring.closed,
        ring.cleared().consumer_closed == ring.consumer_closed,
        ring.cleared().consumer == ring.consumer,
    decreases ring.claims.len(),
{
    if ring.claims.len() > 0 && ring.claims[0] is Tombstoned {
        lemma_clearing_shortens(ring.released());
    }
}

/// The slot of `pos`.
spec fn slot_at<T>(buf: Seq<SeqSlot<T>>, cap: nat, pos: int) -> SeqSlot<T> {
    buf[slot_of(pos, cap)]
}

/// What the slot of `pos` says of it.
spec fn claim_at<T>(buf: Seq<SeqSlot<T>>, cap: nat, pos: int) -> Claim<T> {
    let slot = slot_at(buf, cap, pos);
    if slot.sequence@ == 2 * pos + 1 {
        Claim::Ready(slot.data->0)
    } else if slot.sequence@ == SlotSequence::TOMBSTONE {
        Claim::Tombstoned
    } else {
        Claim::Pending(slot.data)
    }
}

/// The sequence number and the cell of the slot of `pos` fit: a published
/// slot holds a value, and any other one carries the number of its
/// position or the tombstone.
spec fn claim_wf<T>(buf: Seq<SeqSlot<T>>, cap: nat, pos: int) -> bool {
    let slot = slot_at(buf, cap, pos);
    ||| slot.sequence@ == 2 * pos + 1 && slot.data is Some
    ||| slot.sequence@ == 2 * pos
    ||| slot.sequence@ == SlotSequence::TOMBSTONE && slot.data is None
}

/// A slot past the tail is free and empty.
spec fn free_wf<T>(buf: Seq<SeqSlot<T>>, cap: nat, pos: int) -> bool {
    let slot = slot_at(buf, cap, pos);
    slot.sequence@ == 2 * pos && slot.data is None
}

/// A multi-producer, single-consumer ring.
#[derive(Debug)]
pub struct RingBuffer<T> {
    buf: Vec<SeqSlot<T>>,
    capacity: Capacity,
    cursors: Cursors,
    producer_count: EndpointCount,
    closed: CloseState,
    consumer_closed: CloseState,
    producer_park: WakeSet,
    producer_slots: ParkRegistry,
    producer_waker: WakeSet,
    consumer_park: SoleWaiter,
}

impl<T> View for RingBuffer<T> {
    type V = ClaimModel<T>;

    closed spec fn view(&self) -> ClaimModel<T> {
        ClaimModel {
            cap: self.capacity@,
            head: self.cursors.head,
            tail: self.cursors.tail,
            claims: Seq::new(
                (self.cursors.tail - self.cursors.head) as nat,
                |i: int| claim_at(self.buf@, self.capacity@, self.cursors.head + i),
            ),
            producers: self.producer_count.live,
            closed: self.closed.closed,
            consumer_closed: self.consumer_closed.closed,
            producer_park: self.producer_park,
            producer_tasks: self.producer_waker,
            producer_slots: self.producer_slots,
            consumer: self.consumer_park,
        }
    }
}

impl<T> RingBuffer<T> {
    /// The slots agree with the cursors.
    pub closed spec fn parts_wf(&self) -> bool {
        let head: int = self.cursors.head as int;
        let tail: int = self.cursors.tail as int;
        let cap: nat = self.capacity@;
        &&& self.capacity.wf()
        &&& self.buf@.len() == cap
        &&& head <= tail <= head + cap
        &&& 2 * (tail + cap) + 2 <= usize::MAX
        &&& forall|pos: int| head <= pos < tail ==> #[trigger] claim_wf(self.buf@, self.capacity@, pos)
        &&& forall|pos: int| tail <= pos < head + cap ==> #[trigger] free_wf(self.buf@, self.capacity@, pos)
    }

    pub open spec fn wf(&self) -> bool {
        &&& self.parts_wf()
        &&& self@.consistent()
    }

    /// The slots of the positions of one lap are all different.
    proof fn lemma_lap(&self, pos: int)
        requires
            self.parts_wf(),
        ensures
            0 <= slot_of(pos, self.capacity@) < self.buf@.len(),
            forall|q: int|
                pos - self.capacity@ < q < pos + self.capacity@ && q != pos ==> #[trigger] slot_of(
                    q,
                    self.capacity@,
                ) != slot_of(pos, self.capacity@) && 0 <= slot_of(q, self.capacity@)
                    < self.buf@.len(),
    {
        let cap: nat = self.capacity@;
        self.capacity.lemma_bounds();
        lemma_next_lap(pos, cap);
        assert forall|q: int| pos - cap < q < pos + cap && q != pos implies #[trigger] slot_of(
            q,
            cap,
        ) != slot_of(pos, cap) && 0 <= slot_of(q, cap) < self.buf@.len() by {
            lemma_next_lap(q, cap);
            if q < pos {
                lemma_slots_differ(q, pos, cap);
            } else {
                lemma_slots_differ(pos, q, cap);
            }
        }
    }

    /// Creates a ring of the given capacity.
    #[must_use]
    pub fn new(capacity: Capacity) -> (ring: Self)
        requires
            capacity.wf(),
            2 * capacity@ + 2 <= usize::MAX,
        ensures
            ring.wf(),
            ring@ == ClaimModel::<T>::fresh(capacity@),
    {
        let cap: usize = capacity.get();
        let mut buf: Vec<SeqSlot<T>> = Vec::new();
        let mut i: usize = 0;
        while i < cap
            invariant
                i <= cap,
                2 * cap + 2 <= usize::MAX,
                buf@.len() == i,
                forall|j: int|
                    0 <= j < i ==> (#[trigger] buf@[j]).sequence@ == 2 * j && buf@[j].data is None,
            decreases cap - i,
        {
            buf.push(SeqSlot { data: None, sequence: SlotSequence::free_for(i) });
            i = i + 1;
        }
        let ring = RingBuffer {
            buf,
            capacity,
            cursors: Cursors::new(),
            producer_count: EndpointCount::new(),
            closed: CloseState::new(),
            consumer_closed: CloseState::new(),
            producer_park: WakeSet::new(),
            producer_slots: ParkRegistry::new(),
            producer_waker: WakeSet::new(),
            consumer_park: SoleWaiter::new(),
        };
        proof {
            assert forall|pos: int| 0 <= pos < cap implies #[trigger] free_wf(ring.buf@, ring.capacity@, pos) by {
                lemma_first_lap(pos, capacity@);
            }
            assert(ring@ =~= ClaimModel::<T>::fresh(capacity@));
        }
        ring
    }

    /// Whether the sequence numbers still fit with one more claim.
    #[must_use]
    pub fn has_headroom(&self) -> (fits: bool)
        requires
            self.wf(),
        ensures
            fits == self@.headroom(),
    {
        let limit: usize = (usize::MAX - 2) / 2;
        let cap: usize = self.capacity.get();
        cap < limit && self.cursors.tail < limit - cap
    }

    /// The number of claimed positions that the consumer has not passed.
    #[must_use]
    pub fn len(&self) -> (n: usize)
        requires
            self.wf(),
        ensures
            n == self@.claims.len(),
    {
        self.cursors.len()
    }

    /// Whether no position is claimed.
    #[must_use]
    pub fn is_empty(&self) -> (empty: bool)
        requires
            self.wf(),
        ensures
            empty == (self@.claims.len() == 0),
    {
        self.cursors.is_empty()
    }

    /// Whether every position is claimed.
    #[must_use]
    pub fn is_full(&self) -> (full: bool)
        requires
            self.wf(),
        ensures
            full == self@.is_full(),
    {
        self.cursors.is_full(self.capacity.get())
    }

    /// Closes the ring from outside: a blocked consumer returns once the
    /// ring is empty. Pushes still succeed.
    pub fn close(&mut self)
        requires
            old(self).wf(),
        ensures
            final(self).wf(),
            final(self)@ == old(self)@.closing(),
    {
        self.closed.close();
        self.consumer_park.wake();
    }

    /// Hands out the first producer and the consumer of a ring that nothing
    /// has happened to, except that it may have been closed already.
    pub fn split(&mut self) -> (handles: (Producer<T>, Consumer<T>))
        requires
            old(self).wf(),
            old(self)@ == (ClaimModel {
                closed: old(self)@.closed,
                ..ClaimModel::<T>::fresh(old(self)@.cap)
            }),
        ensures
            final(self).wf(),
            final(self)@ == (ClaimModel {
                producer_slots: old(self)@.producer_slots.after_lease(),
                ..old(self)@
            }),
            handles.0@ == (Sending { cached_head: 0, slot: old(self)@.producer_slots.next() }),
            handles.0.attached(final(self)),
    {
        let slot: ParkSlot = self.producer_slots.lease();
        (Producer::new_with(slot), Consumer::new())
    }

    /// Hands out the first producer and the consumer of a ring that stays
    /// with the caller; the same as [`split`](Self::split) here, where the
    /// handles never own the ring.
    pub fn split_borrowed(&mut self) -> (handles: (Producer<T>, Consumer<T>))
        requires
            old(self).wf(),
            old(self)@ == (ClaimModel {
                closed: old(self)@.closed,
                ..ClaimModel::<T>::fresh(old(self)@.cap)
            }),
        ensures
            final(self).wf(),
            final(self)@ == (ClaimModel {
                producer_slots: old(self)@.producer_slots.after_lease(),
                ..old(self)@
            }),
            handles.0@ == (Sending { cached_head: 0, slot: old(self)@.producer_slots.next() }),
            handles.0.attached(final(self)),
    {
        self.split()
    }

    /// Tears the ring down, handing back in order each value that was
    /// published and never taken. Claims that were given up or never
    /// published carry none.
    pub fn drop(self) -> (left: Vec<T>)
        requires
            self.wf(),
        ensures
            left@ == ready_values(self@.claims),
    {
        let RingBuffer { mut buf, capacity, cursors, .. } = self;
        let head: usize = cursors.head;
        let tail: usize = cursors.tail;
        let mut left: Vec<T> = Vec::new();
        let mut pos: usize = head;
        proof {
            assert(self@.claims.take(0) =~= Seq::<Claim<T>>::empty());
        }
        while pos < tail
            invariant
                self.wf(),
                capacity == self.capacity,
                head == self.cursors.head,
                tail == self.cursors.tail,
                head <= pos <= tail,
                buf@.len() == self.buf@.len(),
                forall|q: int|
                    pos <= q < tail ==> #[trigger] buf@[slot_of(q, self.capacity@)] == slot_at(self.buf@, self.capacity@, 
                        q,
                    ),
                left@ == ready_values(self@.claims.take(pos - head)),
            decreases tail - pos,
        {
            proof {
                self.lemma_lap(pos as int);
                assert(claim_wf(self.buf@, self.capacity@, pos as int));
                assert(self@.claims.take(pos + 1 - head).drop_last() =~= self@.claims.take(
                    pos - head,
                ));
                assert(self@.claims[pos - head] == claim_at(self.buf@, self.capacity@, head + (pos - head)));
            }
            let s: usize = capacity.index_of(pos);
            assert(buf@[slot_of(pos as int, self.capacity@)] == slot_at(self.buf@, self.capacity@, pos as int));
            if buf[s].sequence.classify(pos) == SlotSnapshot::Ready {
                let val: Option<T> = buf[s].data.take();
                left.push(val.unwrap());
            }
            pos = pos + 1;
        }
        assert(self@.claims.take(tail - head) =~= self@.claims);
        left
    }

    /// The position to claim next.
    pub(crate) fn tail(&self) -> (tail: usize)
        ensures
            tail == self@.tail,
    {
        self.cursors.tail
    }

    /// The position to take next.
    pub(crate) fn head(&self) -> (head: usize)
        ensures
            head == self@.head,
    {
        self.cursors.head
    }

    /// The number of slots.
    pub(crate) fn cap(&self) -> (cap: usize)
        requires
            self.wf(),
        ensures
            cap == self@.cap,
    {
        self.capacity.get()
    }

    /// Claims the next position if it is still `observed`.
    pub(crate) fn claim_at_tail(&mut self, observed: usize) -> (won: bool)
        requires
            old(self).wf(),
            old(self)@.headroom(),
            old(self)@.tail == observed ==> !old(self)@.is_full(),
        ensures
            final(self).wf(),
            won == (old(self)@.tail == observed),
            final(self)@ == if won {
                old(self)@.claimed()
            } else {
                old(self)@
            },
    {
        if self.cursors.tail != observed {
            return false;
        }
        let ghost before = *self;
        let ghost tail: int = self.cursors.tail as int;
        assert(free_wf(self.buf@, self.capacity@, tail));
        self.cursors.tail = self.cursors.tail + 1;
        proof {
            assert forall|pos: int| self.cursors.head <= pos < tail + 1 implies #[trigger] claim_wf(self.buf@, self.capacity@, 
                pos,
            ) by {
                if pos < tail {
                    assert(claim_wf(before.buf@, before.capacity@, pos));
                }
            }
            assert forall|pos: int|
                tail + 1 <= pos < self.cursors.head + self.capacity@ implies #[trigger] free_wf(self.buf@, self.capacity@, 
                pos,
            ) by {
                assert(free_wf(before.buf@, before.capacity@, pos));
            }
            assert(self@.claims =~= before@.claims.push(Claim::Pending(None)));
        }
        true
    }

    /// The cell of `pos`, for its owner to write.
    pub(crate) fn cell_mut(&mut self, pos: usize) -> (cell: &mut Option<T>)
        requires
            old(self).wf(),
            old(self)@.pending(pos as int),
        ensures
            old(self)@.claim_of(pos as int) == Claim::Pending(*cell),
            final(self).wf(),
            final(self)@ == old(self)@.with_claim(pos as int, Claim::Pending(*final(cell))),
    {
        let s: usize = self.capacity.index_of(pos);
        proof {
            self.lemma_lap(pos as int);
            assert(claim_wf(self.buf@, self.capacity@, pos as int));
            assert(self@.claims[pos - self.cursors.head] == claim_at(self.buf@, self.capacity@, 
                self.cursors.head + (pos - self.cursors.head),
            ));
        }
        proof {
            self.lemma_cell_writable(pos as int);
        }
        &mut self.buf[s].data
    }

    /// Publishes what was written at `pos`, and wakes the consumer.
    pub(crate) fn publish(&mut self, pos: usize)
        requires
            old(self).wf(),
            old(self)@.pending(pos as int),
            old(self)@.claim_of(pos as int)->Pending_0 is Some,
        ensures
            final(self).wf(),
            final(self)@ == old(self)@.settled(
                pos as int,
                Claim::Ready(old(self)@.claim_of(pos as int)->Pending_0->0),
            ),
    {
        let ghost before = *self;
        let s: usize = self.capacity.index_of(pos);
        proof {
            self.lemma_lap(pos as int);
            assert(claim_wf(self.buf@, self.capacity@, pos as int));
            assert(self@.claims[pos - self.cursors.head] == claim_at(self.buf@, self.capacity@, 
                self.cursors.head + (pos - self.cursors.head),
            ));
        }
        self.buf[s].sequence.publish(pos);
        self.consumer_park.wake();
        proof {
            assert(self.buf@ =~= before.buf@.update(s as int, self.buf@[s as int]));
            before.lemma_slot_changed(*self, pos as int);
        }
    }

    /// Gives up the claim of `pos`, dropping what was written there, and
    /// wakes the consumer.
    pub(crate) fn tombstone(&mut self, pos: usize) -> (val: Option<T>)
        requires
            old(self).wf(),
            old(self)@.pending(pos as int),
        ensures
            final(self).wf(),
            old(self)@.claim_of(pos as int) == Claim::Pending(val),
            final(self)@ == old(self)@.settled(pos as int, Claim::Tombstoned),
    {
        let ghost before = *self;
        let s: usize = self.capacity.index_of(pos);
        proof {
            self.lemma_lap(pos as int);
            assert(claim_wf(self.buf@, self.capacity@, pos as int));
            assert(self@.claims[pos - self.cursors.head] == claim_at(self.buf@, self.capacity@, 
                self.cursors.head + (pos - self.cursors.head),
            ));
        }
        let val: Option<T> = self.buf[s].data.take();
        self.buf[s].sequence.tombstone();
        self.consumer_park.wake();
        proof {
            assert(self.buf@ =~= before.buf@.update(s as int, self.buf@[s as int]));
            before.lemma_slot_changed(*self, pos as int);
        }
        val
    }

    /// Whatever is written into the cell of a pending position changes
    /// that claim alone.
    proof fn lemma_cell_writable(&self, pos: int)
        requires
            self.wf(),
            self@.pending(pos),
        ensures
            ({
                let cap = self.capacity@;
                let head = self.cursors.head as int;
                let tail = self.cursors.tail as int;
                forall|slot: SeqSlot<T>|
                    slot.sequence == slot_at(self.buf@, cap, pos).sequence ==> {
                        let buf = #[trigger] self.buf@.update(slot_of(pos, cap), slot);
                        &&& forall|q: int| head <= q < tail ==> #[trigger] claim_wf(buf, cap, q)
                        &&& forall|q: int| tail <= q < head + cap ==> #[trigger] free_wf(
                            buf,
                            cap,
                            q,
                        )
                        &&& Seq::new((tail - head) as nat, |i: int| claim_at(buf, cap, head + i))
                            == self@.claims.update(pos - head, Claim::Pending(slot.data))
                    }
            }),
    {
        let cap = self.capacity@;
        let head = self.cursors.head as int;
        let tail = self.cursors.tail as int;
        self.lemma_lap(pos);
        assert(claim_wf(self.buf@, cap, pos));
        assert(self@.claims[pos - head] == claim_at(self.buf@, cap, head + (pos - head)));
        assert forall|slot: SeqSlot<T>|
            slot.sequence == slot_at(self.buf@, cap, pos).sequence implies {
            let buf = #[trigger] self.buf@.update(slot_of(pos, cap), slot);
            &&& forall|q: int| head <= q < tail ==> #[trigger] claim_wf(buf, cap, q)
            &&& forall|q: int| tail <= q < head + cap ==> #[trigger] free_wf(buf, cap, q)
            &&& Seq::new((tail - head) as nat, |i: int| claim_at(buf, cap, head + i))
                == self@.claims.update(pos - head, Claim::Pending(slot.data))
        } by {
            let buf = self.buf@.update(slot_of(pos, cap), slot);
            assert forall|q: int| head <= q < tail implies #[trigger] claim_wf(buf, cap, q) by {
                assert(claim_wf(self.buf@, cap, q));
                if q != pos {
                    assert(slot_of(q, cap) != slot_of(pos, cap));
                }
            }
            assert forall|q: int| tail <= q < head + cap implies #[trigger] free_wf(buf, cap, q) by {
                assert(free_wf(self.buf@, cap, q));
                assert(slot_of(q, cap) != slot_of(pos, cap));
            }
            let claims = Seq::new((tail - head) as nat, |i: int| claim_at(buf, cap, head + i));
            assert forall|i: int| 0 <= i < claims.len() implies claims[i] == self@.claims.update(
                pos - head,
                Claim::Pending(slot.data),
            )[i] by {
                if head + i != pos {
                    assert(slot_of(head + i, cap) != slot_of(pos, cap));
                }
            }
            assert(claims =~= self@.claims.update(pos - head, Claim::Pending(slot.data)));
        }
    }

    /// A change of the slot of one claimed position changes that claim
    /// alone.
    proof fn lemma_slot_changed(self, after: Self, pos: int)
        requires
            self.wf(),
            self.cursors.head <= pos < self.cursors.tail,
            after.capacity == self.capacity,
            after.cursors == self.cursors,
            after.buf@ == self.buf@.update(slot_of(pos, self.capacity@), slot_at(after.buf@, after.capacity@, pos)),
            claim_wf(after.buf@, after.capacity@, pos),
        ensures
            after.parts_wf(),
            after@.claims == self@.claims.update(pos - self.cursors.head, claim_at(after.buf@, after.capacity@, pos)),
    {
        self.lemma_lap(pos);
        let head: int = self.cursors.head as int;
        assert forall|q: int| head <= q < after.cursors.tail implies #[trigger] claim_wf(after.buf@, after.capacity@, 
            q,
        ) by {
            assert(claim_wf(self.buf@, self.capacity@, q));
            if q != pos {
                assert(slot_of(q, self.capacity@) != slot_of(pos, self.capacity@));
            }
        }
        assert forall|q: int|
            after.cursors.tail <= q < head + self.capacity@ implies #[trigger] free_wf(after.buf@, after.capacity@, q) by {
            assert(free_wf(self.buf@, self.capacity@, q));
            assert(slot_of(q, self.capacity@) != slot_of(pos, self.capacity@));
        }
        assert forall|i: int| 0 <= i < after@.claims.len() implies after@.claims[i]
            == self@.claims.update(pos - head, claim_at(after.buf@, after.capacity@, pos))[i] by {
            if head + i != pos {
                assert(slot_of(head + i, self.capacity@) != slot_of(pos, self.capacity@));
            }
        }
        assert(after@.claims =~= self@.claims.update(pos - head, claim_at(after.buf@, after.capacity@, pos)));
    }

    /// What is in the slot of the head.
    pub(crate) fn classify_head(&self) -> (snapshot: SlotSnapshot)
        requires
            self.wf(),
        ensures
            snapshot == if self@.claims.len() == 0 {
                SlotSnapshot::NotReady
            } else {
                match self@.claims[0] {
                    Claim::Pending(_) => SlotSnapshot::NotReady,
                    Claim::Ready(_) => SlotSnapshot::Ready,
                    Claim::Tombstoned => SlotSnapshot::Tombstoned,
                }
            },
    {
        let head: usize = self.cursors.head;
        proof {
            self.lemma_lap(head as int);
            if self@.claims.len() == 0 {
                assert(free_wf(self.buf@, self.capacity@, head as int));
            } else {
                assert(claim_wf(self.buf@, self.capacity@, head as int));
                assert(self@.claims[0] == claim_at(self.buf@, self.capacity@, head + 0));
            }
        }
        self.buf[self.capacity.index_of(head)].sequence.classify(head)
    }

    /// The value at the head.
    pub(crate) fn front(&self) -> (val: &T)
        requires
            self.wf(),
            self@.claims.len() > 0,
            self@.claims[0] is Ready,
        ensures
            *val == self@.claims[0]->Ready_0,
    {
        let head: usize = self.cursors.head;
        proof {
            self.lemma_lap(head as int);
            assert(claim_wf(self.buf@, self.capacity@, head as int));
            assert(self@.claims[0] == claim_at(self.buf@, self.capacity@, head + 0));
        }
        self.buf[self.capacity.index_of(head)].data.as_ref().unwrap()
    }

    /// Moves what is at the head out, hands the slot to the next lap, and
    /// moves the head past it. Nobody is woken yet.
    pub(crate) fn advance(&mut self) -> (val: Option<T>)
        requires
            old(self).wf(),
            old(self)@.claims.len() > 0,
            !(old(self)@.claims[0] is Pending),
        ensures
            final(self).wf(),
            val == (match old(self)@.claims[0] {
                Claim::Ready(val) => Some(val),
                _ => None,
            }),
            final(self)@ == (ClaimModel {
                head: (old(self)@.head + 1) as usize,
                claims: old(self)@.claims.skip(1),
                ..old(self)@
            }),
    {
        let ghost before = *self;
        let ghost cap: nat = self.capacity@;
        let head: usize = self.cursors.head;
        let s: usize = self.capacity.index_of(head);
        proof {
            self.lemma_lap(head as int);
            assert(claim_wf(self.buf@, self.capacity@, head as int));
            assert(self@.claims[0] == claim_at(self.buf@, self.capacity@, head + 0));
        }
        let val: Option<T> = self.buf[s].data.take();
        let next: usize = head + self.capacity.get();
        self.buf[s].sequence.release(next);
        self.cursors.head = head + 1;
        proof {
            lemma_next_lap(head as int, cap);
            assert forall|q: int| head + 1 <= q < self.cursors.tail implies #[trigger] claim_wf(self.buf@, self.capacity@, 
                q,
            ) by {
                assert(claim_wf(before.buf@, before.capacity@, q));
                assert(slot_of(q, cap) != slot_of(head as int, cap));
            }
            assert forall|q: int|
                self.cursors.tail <= q < head + 1 + cap implies #[trigger] free_wf(self.buf@, self.capacity@, q) by {
                if q < head + cap {
                    assert(free_wf(before.buf@, before.capacity@, q));
                    assert(slot_of(q, cap) != slot_of(head as int, cap));
                }
            }
            assert forall|i: int| 0 <= i < self@.claims.len() implies self@.claims[i]
                == before@.claims.skip(1)[i] by {
                assert(head + 1 + i == head + (i + 1));
                assert(slot_of(head + 1 + i, cap) != slot_of(head as int, cap));
            }
            assert(self@.claims =~= before@.claims.skip(1));
        }
        val
    }

    /// Wakes one sleeping producer and every waiting producer task.
    pub(crate) fn wake_producers(&mut self)
        requires
            old(self).wf(),
        ensures
            final(self).wf(),
            final(self)@ == (ClaimModel {
                producer_park: old(self)@.producer_park.woken(),
                producer_tasks: old(self)@.producer_tasks.flushed(),
                ..old(self)@
            }),
    {
        self.producer_park.wake_one();
        self.producer_waker.flush();
    }

    /// Wakes up to `n` sleeping producers and waiting producer tasks.
    pub(crate) fn wake_producers_n(&mut self, n: usize)
        requires
            old(self).wf(),
        ensures
            final(self).wf(),
            final(self)@ == (ClaimModel {
                producer_park: old(self)@.producer_park.woken_n(n as nat),
                producer_tasks: old(self)@.producer_tasks.woken_n(n as nat),
                ..old(self)@
            }),
    {
        self.producer_park.wake_n(n);
        self.producer_waker.wake_n(n);
    }

    /// Whether the consumer is to stop once the ring is empty.
    pub(crate) fn is_closed(&self) -> (closed: bool)
        ensures
            closed == self@.closed,
    {
        self.closed.is_closed()
    }

    /// Whether the consumer is gone.
    pub(crate) fn consumer_gone(&self) -> (gone: bool)
        ensures
            gone == self@.consumer_closed,
    {
        self.consumer_closed.is_closed()
    }

    /// Marks the consumer as gone and wakes every producer to see it.
    pub(crate) fn close_consumer(&mut self)
        requires
            old(self).wf(),
        ensures
            final(self).wf(),
            final(self)@ == old(self)@.consumer_leaving(),
    {
        self.consumer_closed.close();
        self.producer_park.flush();
        self.producer_waker.flush();
    }

    /// Registers one more producer and leases it a park slot.
    pub(crate) fn join_producer(&mut self) -> (slot: ParkSlot)
        requires
            old(self).wf(),
            old(self)@.producers < usize::MAX,
        ensures
            final(self).wf(),
            slot == old(self)@.producer_slots.next(),
            slot.wf(),
            final(self)@ == old(self)@.producer_joined(),
    {
        self.producer_count.register();
        self.producer_slots.lease()
    }

    /// Lets a producer go; the last one closes the ring.
    pub(crate) fn leave_producer(&mut self, slot: ParkSlot)
        requires
            old(self).wf(),
            old(self)@.producers > 0,
            slot.wf(),
        ensures
            final(self).wf(),
            final(self)@ == old(self)@.producer_left(slot),
    {
        self.producer_slots.release(slot);
        if self.producer_count.release() {
            self.close();
        }
    }

    /// Puts a producer on record as asleep, or takes it off.
    pub(crate) fn set_producer_parked(&mut self, slot: ParkSlot, parked: bool)
        requires
            old(self).wf(),
            slot.wf(),
        ensures
            final(self).wf(),
            final(self)@ == (ClaimModel {
                producer_park: if parked {
                    old(self)@.producer_park.armed(slot)
                } else {
                    old(self)@.producer_park.disarmed(slot)
                },
                ..old(self)@
            }),
    {
        if parked {
            self.producer_park.arm(slot);
        } else {
            self.producer_park.disarm(slot);
        }
    }

    /// Puts a producer's task on record as waiting, or takes it off.
    pub(crate) fn set_producer_task(&mut self, slot: ParkSlot, waiting: bool)
        requires
            old(self).wf(),
            slot.wf(),
        ensures
            final(self).wf(),
            final(self)@ == (ClaimModel {
                producer_tasks: if waiting {
                    old(self)@.producer_tasks.armed(slot)
                } else {
                    old(self)@.producer_tasks.disarmed(slot)
                },
                ..old(self)@
            }),
    {
        if waiting {
            self.producer_waker.arm(slot);
        } else {
            self.producer_waker.disarm(slot);
        }
    }

    /// Collects the unpark that is owed to the producer of park slot `i`.
    pub fn take_producer_unpark(&mut self, i: usize) -> (owed: bool)
        requires
            old(self).wf(),
            i < PARK_SLOTS,
        ensures
            final(self).wf(),
            owed == old(self)@.producer_park.owes(i as int),
            final(self)@ == (ClaimModel {
                producer_park: old(self)@.producer_park.paid(i as int),
                ..old(self)@
            }),
    {
        self.producer_park.take_unpark(i)
    }

    /// Collects the waker call that is owed to the producer task of park
    /// slot `i`.
    pub fn take_producer_waker(&mut self, i: usize) -> (owed: bool)
        requires
            old(self).wf(),
            i < PARK_SLOTS,
        ensures
            final(self).wf(),
            owed == old(self)@.producer_tasks.owes(i as int),
            final(self)@ == (ClaimModel {
                producer_tasks: old(self)@.producer_tasks.paid(i as int),
                ..old(self)@
            }),
    {
        self.producer_waker.take_unpark(i)
    }

    /// Collects the unparks that are owed to the producers without a park
    /// slot.
    pub fn take_producer_overflow_unparks(&mut self) -> (owed: bool)
        requires
            old(self).wf(),
        ensures
            final(self).wf(),
            owed == old(self)@.producer_park.overflow_owed,
            final(self)@ == (ClaimModel {
                producer_park: old(self)@.producer_park.overflow_paid(),
                ..old(self)@
            }),
    {
        self.producer_park.take_overflow()
    }

    /// Collects the waker calls that are owed to the producer tasks without a park
    /// slot.
    pub fn take_producer_overflow_wakers(&mut self) -> (owed: bool)
        requires
            old(self).wf(),
        ensures
            final(self).wf(),
            owed == old(self)@.producer_tasks.overflow_owed,
            final(self)@ == (ClaimModel {
                producer_tasks: old(self)@.producer_tasks.overflow_paid(),
                ..old(self)@
            }),
    {
        self.producer_waker.take_overflow()
    }

    /// How the consumer waits, for it to arm, register and withdraw, and
    /// for whoever drives the ring to collect what is owed.
    pub fn consumer_waiter(&mut self) -> (waiter: &mut SoleWaiter)
        requires
            old(self).wf(),
        ensures
            *waiter == old(self)@.consumer,
            final(self).wf(),
            final(self)@ == (ClaimModel { consumer: *final(waiter), ..old(self)@ }),
    {
        &mut self.consumer_park
    }
}

} // verus!
