//! The shared part of the ring, and its abstract state.

use std::mem::ManuallyDrop;

use vstd::prelude::*;

use crate::capacity::{lemma_first_lap, lemma_next_lap, lemma_slots_differ, slot_of, Capacity};
use crate::common::close_state::CloseState;
use crate::common::cursors::Cursors;
use crate::common::endpoint_count::EndpointCount;
use crate::common::park::WakeSet;
use crate::common::park_registry::{ParkRegistry, ParkSlot, PARK_SLOTS};
use crate::common::sole_waiter::SoleWaiter;
use crate::spmc::consumer::Consumer;
use crate::spmc::done_word::DoneWord;
use crate::spmc::producer::Producer;

verus! {

/// The most positions that a consumer claims at a time.
pub const BATCH_SIZE: usize = 4;

/// The private state of a consumer: a tail that was read earlier, the
/// positions `next..end` that it has claimed and not taken, and its park
/// slot.
pub struct Reading {
    pub cached_tail: usize,
    pub next: usize,
    pub end: usize,
    pub slot: ParkSlot,
}

/// The state of a ring.
#[verifier::ext_equal]
pub struct ShareModel<T> {
    /// The number of slots.
    pub cap: nat,
    /// The position to claim next and the position to fill next.
    pub head: usize,
    pub tail: usize,
    /// The values that were pushed and that no consumer has released, by
    /// position.
    pub live: Map<int, T>,
    /// What the producer has written at the tail and not committed.
    pub staged: Option<T>,
    /// Whether the producer is gone.
    pub closed: bool,
    /// Whether the last consumer is gone.
    pub consumer_closed: bool,
    /// The live consumers.
    pub consumers: usize,
    /// The leases of park slots.
    pub consumer_slots: ParkRegistry,
    /// How the producer waits, and what it is owed.
    pub producer: SoleWaiter,
    /// Which consumers sleep, and are owed an unpark.
    pub consumer_park: WakeSet,
    /// Which consumer tasks wait, and are owed a waker call.
    pub consumer_tasks: WakeSet,
}

/// The values of `live` at the `n` positions from `from` on.
pub open spec fn values_from<T>(live: Map<int, T>, from: int, n: nat) -> Seq<T> {
    Seq::new(n, |i: int| live[from + i])
}

impl<T> ShareModel<T> {
    /// A ring of `cap` slots that nothing has happened to.
    pub open spec fn fresh(cap: nat) -> Self {
        ShareModel {
            cap,
            head: 0,
            tail: 0,
            live: Map::empty(),
            staged: None,
            closed: false,
            consumer_closed: false,
            consumers: 1,
            consumer_slots: ParkRegistry { leased: 0 },
            producer: SoleWaiter::idle(),
            consumer_park: WakeSet::idle(),
            consumer_tasks: WakeSet::idle(),
        }
    }

    /// What every ring keeps: the live positions lie within one lap of the
    /// tail, all that nobody has claimed are live, and something is staged
    /// only where there is room for it.
    pub open spec fn consistent(self) -> bool {
        &&& 0 < self.cap <= usize::MAX
        &&& self.head <= self.tail
        &&& self.tail - self.head <= self.cap
        &&& forall|pos: int| #[trigger]
            self.live.dom().contains(pos) ==> 0 <= pos && self.tail - self.cap <= pos < self.tail
        &&& forall|pos: int|
            self.head <= pos < self.tail ==> #[trigger] self.live.dom().contains(pos)
        &&& self.staged is Some ==> !self.blocked()
        &&& self.consumer_park.wf()
        &&& self.consumer_tasks.wf()
    }

    /// Whether the slot at the tail still holds the value of the lap
    /// before, so that nothing can be pushed.
    pub open spec fn blocked(self) -> bool {
        self.live.dom().contains(self.tail - self.cap)
    }

    /// Whether the positions of the next two laps fit the machine word.
    pub open spec fn headroom(self) -> bool {
        self.tail + 2 * self.cap + 2 <= usize::MAX
    }

    /// This ring with `staged` in the slot at the tail.
    pub open spec fn with_staged(self, staged: Option<T>) -> Self {
        ShareModel { staged, ..self }
    }

    /// This ring once `val` is published at the tail: one sleeping
    /// consumer and every waiting consumer task are woken.
    pub open spec fn pushed(self, val: T) -> Self {
        ShareModel {
            tail: (self.tail + 1) as usize,
            live: self.live.insert(self.tail as int, val),
            staged: None,
            consumer_park: self.consumer_park.woken(),
            consumer_tasks: self.consumer_tasks.flushed(),
            ..self
        }
    }

    /// This ring once the value at `pos` is taken out and its slot handed
    /// to the next lap.
    pub open spec fn released(self, pos: int) -> Self {
        ShareModel { live: self.live.remove(pos), ..self }
    }

    /// This ring once the producer is woken.
    pub open spec fn producer_woken(self) -> Self {
        ShareModel { producer: self.producer.woken(), ..self }
    }

    /// Whether the ring backs what a consumer has claimed: its positions
    /// are live, and what it has read of the cursors is not ahead of them.
    pub open spec fn backs(self, reading: Reading) -> bool {
        &&& reading.cached_tail <= self.tail
        &&& reading.next <= reading.end <= self.head
        &&& forall|pos: int|
            reading.next <= pos < reading.end ==> #[trigger] self.live.dom().contains(pos)
    }

    /// The tail that a consumer goes by when it claims at `head`.
    pub open spec fn seen_tail(self, reading: Reading) -> usize {
        if self.head >= reading.cached_tail {
            self.tail
        } else {
            reading.cached_tail
        }
    }

    /// The position that a consumer takes next: the next of its batch, or
    /// the head if something is published there.
    pub open spec fn claimable(self, reading: Reading) -> Option<int> {
        if reading.next < reading.end {
            Some(reading.next as int)
        } else if self.head < self.tail {
            Some(self.head as int)
        } else {
            None
        }
    }

    /// The ring and the consumer once it has claimed that position. A new
    /// batch takes what is visible from the head on, up to the batch size.
    pub open spec fn claimed(self, reading: Reading) -> (Self, Reading) {
        if reading.next < reading.end {
            (self, Reading { next: (reading.next + 1) as usize, ..reading })
        } else if self.head < self.tail {
            let seen = self.seen_tail(reading);
            let take: int = if seen - self.head <= BATCH_SIZE {
                seen - self.head
            } else {
                BATCH_SIZE as int
            };
            (
                ShareModel { head: (self.head + take) as usize, ..self },
                Reading {
                    cached_tail: seen,
                    next: (self.head + 1) as usize,
                    end: (self.head + take) as usize,
                    ..reading
                },
            )
        } else {
            (self, Reading { cached_tail: self.seen_tail(reading), ..reading })
        }
    }

    /// The ring, the consumer and the values after claiming and releasing
    /// up to `limit` values.
    pub open spec fn emptied(self, reading: Reading, limit: nat) -> (Self, Reading, Seq<T>)
        decreases limit,
    {
        if limit == 0 {
            (self, reading, Seq::empty())
        } else {
            let (ring, after) = self.claimed(reading);
            match self.claimable(reading) {
                None => (ring, after, Seq::empty()),
                Some(pos) => {
                    let (last, end, rest) = ring.released(pos).emptied(after, (limit - 1) as nat);
                    (last, end, seq![self.live[pos]] + rest)
                },
            }
        }
    }

    /// This ring once the positions `next..end` are released.
    pub open spec fn batch_released(self, next: int, end: int) -> Self {
        ShareModel {
            live: Map::new(
                |pos: int| self.live.dom().contains(pos) && !(next <= pos < end),
                |pos: int| self.live[pos],
            ),
            ..self
        }
    }

    /// This ring once the producer is gone and every consumer is woken to
    /// see it.
    pub open spec fn producer_left(self) -> Self {
        ShareModel {
            closed: true,
            consumer_park: self.consumer_park.flushed(),
            consumer_tasks: self.consumer_tasks.flushed(),
            ..self
        }
    }

    /// This ring with one more consumer.
    pub open spec fn consumer_joined(self) -> Self {
        ShareModel {
            consumers: (self.consumers + 1) as usize,
            consumer_slots: self.consumer_slots.after_lease(),
            ..self
        }
    }

    /// This ring once the consumer of `slot` is retired; with the last one
    /// the producer is woken, and then fails.
    pub open spec fn consumer_left(self, slot: ParkSlot) -> Self {
        let left = ShareModel {
            consumers: (self.consumers - 1) as usize,
            consumer_slots: self.consumer_slots.after_release(slot),
            ..self
        };
        if left.consumers == 0 {
            ShareModel { consumer_closed: true, ..left.producer_woken() }
        } else {
            left
        }
    }

    /// This ring once the consumer of `reading` is gone: what is left of
    /// its batch is released, which wakes the producer if there was
    /// anything, and then the consumer is retired.
    pub open spec fn consumer_departed(self, reading: Reading) -> Self {
        let released = self.batch_released(reading.next as int, reading.end as int);
        if reading.next < reading.end {
            released.producer_woken().consumer_left(reading.slot)
        } else {
            released.consumer_left(reading.slot)
        }
    }
}

/// Whether slot `s` of the tables serves the position `pos`, which lies
/// within one lap past the tail: either it is free for `pos`, and empty
/// unless `pos` is the tail, or it still holds the value of the lap
/// before.
spec fn slot_wf<T>(
    data: Seq<Option<T>>,
    done: Seq<DoneWord>,
    cap: nat,
    tail: int,
    pos: int,
) -> bool {
    let s = slot_of(pos, cap);
    ||| done[s]@ == pos && (pos != tail ==> data[s] is None)
    ||| pos >= cap && done[s]@ == pos - cap && data[s] is Some
}

/// Whether the value pushed at `pos` has not been released.
spec fn is_live(done: Seq<DoneWord>, cap: nat, pos: int) -> bool {
    done[slot_of(pos, cap)]@ == pos
}

/// A single-producer, multi-consumer ring.
#[derive(Debug)]
pub struct RingBuffer<T> {
    data: Vec<Option<T>>,
    done: Vec<DoneWord>,
    capacity: Capacity,
    cursors: Cursors,
    closed: CloseState,
    consumer_closed: CloseState,
    consumer_count_live: EndpointCount,
    consumer_slots: ParkRegistry,
    producer_park: SoleWaiter,
    consumer_park: WakeSet,
    consumer_waker: WakeSet,
}

impl<T> View for RingBuffer<T> {
    type V = ShareModel<T>;

    closed spec fn view(&self) -> ShareModel<T> {
        let cap: nat = self.capacity@;
        let tail: int = self.cursors.tail as int;
        ShareModel {
            cap,
            head: self.cursors.head,
            tail: self.cursors.tail,
            live: Map::new(
                |pos: int| 0 <= pos && tail - cap <= pos < tail && is_live(self.done@, cap, pos),
                |pos: int| self.data@[slot_of(pos, cap)]->0,
            ),
            staged: if is_live(self.done@, cap, tail) {
                self.data@[slot_of(tail, cap)]
            } else {
                None
            },
            closed: self.closed.closed,
            consumer_closed: self.consumer_closed.closed,
            consumers: self.consumer_count_live.live,
            consumer_slots: self.consumer_slots,
            producer: self.producer_park,
            consumer_park: self.consumer_park,
            consumer_tasks: self.consumer_waker,
        }
    }
}

impl<T> RingBuffer<T> {
    /// The slots agree with the cursors.
    pub closed spec fn parts_wf(&self) -> bool {
        let cap: nat = self.capacity@;
        let tail: int = self.cursors.tail as int;
        &&& self.capacity.wf()
        &&& self.data@.len() == cap
        &&& self.done@.len() == cap
        &&& forall|pos: int|
            tail <= pos < tail + cap ==> #[trigger] slot_wf(self.data@, self.done@, cap, tail, pos)
    }

    pub open spec fn wf(&self) -> bool {
        &&& self.parts_wf()
        &&& self@.consistent()
    }

    /// The slots of the positions of one lap are all different.
    proof fn lemma_lap(&self, pos: int)
        requires
            self.capacity.wf(),
        ensures
            0 <= slot_of(pos, self.capacity@) < self.capacity@,
            slot_of(pos + self.capacity@, self.capacity@) == slot_of(pos, self.capacity@),
            slot_of(pos - self.capacity@, self.capacity@) == slot_of(pos, self.capacity@),
            forall|q: int|
                pos - self.capacity@ < q < pos + self.capacity@ && q != pos ==> #[trigger] slot_of(
                    q,
                    self.capacity@,
                ) != slot_of(pos, self.capacity@) && 0 <= slot_of(q, self.capacity@)
                    < self.capacity@,
    {
        let cap: nat = self.capacity@;
        self.capacity.lemma_bounds();
        lemma_next_lap(pos, cap);
        assert forall|q: int| pos - cap < q < pos + cap && q != pos implies #[trigger] slot_of(
            q,
            cap,
        ) != slot_of(pos, cap) && 0 <= slot_of(q, cap) < cap by {
            lemma_next_lap(q, cap);
            if q < pos {
                lemma_slots_differ(q, pos, cap);
            } else {
                lemma_slots_differ(pos, q, cap);
            }
        }
    }

    /// What the slot of a position within one lap before the tail holds.
    proof fn lemma_before_tail(&self, pos: int)
        requires
            self.parts_wf(),
            0 <= pos,
            self.cursors.tail - self.capacity@ <= pos < self.cursors.tail,
        ensures
            self@.live.dom().contains(pos) == is_live(self.done@, self.capacity@, pos),
            is_live(self.done@, self.capacity@, pos) ==> self.data@[slot_of(
                pos,
                self.capacity@,
            )] is Some && self@.live[pos] == self.data@[slot_of(pos, self.capacity@)]->0,
            !is_live(self.done@, self.capacity@, pos) ==> self.done@[slot_of(
                pos,
                self.capacity@,
            )]@ == pos + self.capacity@,
    {
        let cap: nat = self.capacity@;
        self.lemma_lap(pos);
        assert(slot_wf(self.data@, self.done@, cap, self.cursors.tail as int, pos + cap));
    }

    /// Creates a ring of the given capacity.
    #[must_use]
    pub fn new(capacity: Capacity) -> (ring: Self)
        requires
            capacity.wf(),
        ensures
            ring.wf(),
            ring@ == ShareModel::<T>::fresh(capacity@),
    {
        proof {
            capacity.lemma_bounds();
        }
        let cap: usize = capacity.get();
        let mut data: Vec<Option<T>> = Vec::new();
        let mut done: Vec<DoneWord> = Vec::new();
        let mut i: usize = 0;
        while i < cap
            invariant
                i <= cap,
                data@.len() == i,
                done@.len() == i,
                forall|j: int| 0 <= j < i ==> (#[trigger] data@[j]) is None,
                forall|j: int| 0 <= j < i ==> (#[trigger] done@[j])@ == j,
            decreases cap - i,
        {
            data.push(None);
            done.push(DoneWord::released_for(i));
            i = i + 1;
        }
        let ring = RingBuffer {
            data,
            done,
            capacity,
            cursors: Cursors::new(),
            closed: CloseState::new(),
            consumer_closed: CloseState::new(),
            consumer_count_live: EndpointCount::new(),
            consumer_slots: ParkRegistry::new(),
            producer_park: SoleWaiter::new(),
            consumer_park: WakeSet::new(),
            consumer_waker: WakeSet::new(),
        };
        proof {
            assert forall|pos: int| 0 <= pos < cap implies #[trigger] slot_wf(
                ring.data@,
                ring.done@,
                capacity@,
                0,
                pos,
            ) by {
                lemma_first_lap(pos, capacity@);
            }
            lemma_first_lap(0, capacity@);
            assert(ring@.live =~= Map::<int, T>::empty());
            assert(ring@ =~= ShareModel::<T>::fresh(capacity@));
        }
        ring
    }

    /// Whether the positions of the next two laps fit the machine word.
    #[must_use]
    pub fn has_headroom(&self) -> (fits: bool)
        requires
            self.wf(),
        ensures
            fits == self@.headroom(),
    {
        let cap: usize = self.capacity.get();
        cap <= (usize::MAX - 2) / 2 && self.cursors.tail <= usize::MAX - 2 - 2 * cap
    }

    /// The number of values that no consumer has claimed.
    #[must_use]
    pub fn len(&self) -> (n: usize)
        requires
            self.wf(),
        ensures
            n == self@.tail - self@.head,
    {
        self.cursors.len()
    }

    /// Whether every value has been claimed.
    #[must_use]
    pub fn is_empty(&self) -> (empty: bool)
        requires
            self.wf(),
        ensures
            empty == (self@.tail == self@.head),
    {
        self.cursors.is_empty()
    }

    /// Whether the ring is full of unclaimed values.
    #[must_use]
    pub fn is_full(&self) -> (full: bool)
        requires
            self.wf(),
        ensures
            full == (self@.tail - self@.head == self@.cap),
    {
        self.cursors.is_full(self.capacity.get())
    }

    /// Hands out the producer and the first consumer.
    pub fn split(&mut self) -> (handles: (Producer<T>, Consumer<T>))
        requires
            old(self).wf(),
            old(self)@ == ShareModel::<T>::fresh(old(self)@.cap),
        ensures
            final(self).wf(),
            final(self)@ == (ShareModel {
                consumer_slots: old(self)@.consumer_slots.after_lease(),
                ..old(self)@
            }),
            handles.0.attached(final(self)),
            handles.1@ == (Reading {
                cached_tail: 0,
                next: 0,
                end: 0,
                slot: old(self)@.consumer_slots.next(),
            }),
            handles.1.attached(final(self)),
    {
        let slot: ParkSlot = self.consumer_slots.lease();
        assert(self@.live =~= old(self)@.live);
        (Producer::new(), Consumer::new_with(slot))
    }

    /// Hands out the producer and the first consumer of a ring that stays
    /// with the caller; the same as [`split`](Self::split) here, where the
    /// handles never own the ring. The consumer is the one that the count
    /// starts with, so it is not counted again.
    pub fn split_borrowed(&mut self) -> (handles: (Producer<T>, Consumer<T>))
        requires
            old(self).wf(),
            old(self)@ == ShareModel::<T>::fresh(old(self)@.cap),
        ensures
            final(self).wf(),
            final(self)@ == (ShareModel {
                consumer_slots: old(self)@.consumer_slots.after_lease(),
                ..old(self)@
            }),
            handles.0.attached(final(self)),
            handles.1@ == (Reading {
                cached_tail: 0,
                next: 0,
                end: 0,
                slot: old(self)@.consumer_slots.next(),
            }),
            handles.1.attached(final(self)),
    {
        self.split()
    }

    /// Tears the ring down, handing back in order each value that no
    /// consumer has claimed. What a consumer has claimed is the
    /// consumer's to release.
    pub fn drop(self) -> (left: Vec<T>)
        requires
            self.wf(),
            self@.headroom(),
        ensures
            left@ == values_from(
                self@.live,
                self@.head as int,
                (self@.tail - self@.head) as nat,
            ),
    {
        let RingBuffer { mut data, mut done, capacity, cursors, .. } = self;
        let head: usize = cursors.head;
        let tail: usize = cursors.tail;
        let mut left: Vec<T> = Vec::new();
        let mut pos: usize = head;
        while pos < tail
            invariant
                self.wf(),
                self@.headroom(),
                capacity == self.capacity,
                head == self.cursors.head,
                tail == self.cursors.tail,
                head <= pos <= tail,
                data@.len() == self.data@.len(),
                done@.len() == self.done@.len(),
                forall|s: int| 0 <= s < done@.len() ==> (#[trigger] done@[s])@ == self.done@[s]@,
                forall|q: int|
                    pos <= q < tail ==> data@[#[trigger] slot_of(q, self.capacity@)]
                        == self.data@[slot_of(q, self.capacity@)],
                left@ == values_from(self@.live, head as int, (pos - head) as nat),
            decreases tail - pos,
        {
            let s: usize = capacity.index_of(pos);
            proof {
                self.lemma_lap(pos as int);
                assert(self@.live.dom().contains(pos as int));
                self.lemma_before_tail(pos as int);
                assert(data@[slot_of(pos as int, self.capacity@)] == self.data@[slot_of(
                    pos as int,
                    self.capacity@,
                )]);
            }
            if done[s].holds_unconsumed_value_at(pos, capacity) {
                let val: Option<T> = data[s].take();
                left.push(val.unwrap());
            }
            assert(values_from(self@.live, head as int, (pos + 1 - head) as nat) =~= values_from(
                self@.live,
                head as int,
                (pos - head) as nat,
            ).push(self@.live[pos as int]));
            pos = pos + 1;
        }
        left
    }

    /// The position to claim next.
    pub(crate) fn head(&self) -> (head: usize)
        ensures
            head == self@.head,
    {
        self.cursors.head
    }

    /// The position to fill next.
    pub(crate) fn tail(&self) -> (tail: usize)
        ensures
            tail == self@.tail,
    {
        self.cursors.tail
    }

    /// Whether the slot of `pos`, the tail, is free.
    pub(crate) fn is_free_for(&self, pos: usize) -> (free: bool)
        requires
            self.wf(),
            pos == self@.tail,
        ensures
            free == !self@.blocked(),
    {
        proof {
            self.lemma_lap(pos as int);
            assert(slot_wf(
                self.data@,
                self.done@,
                self.capacity@,
                self.cursors.tail as int,
                pos as int,
            ));
            if pos >= self.capacity@ {
                self.lemma_before_tail(pos - self.capacity@);
            }
        }
        self.done[self.capacity.index_of(pos)].is_free_for(pos)
    }

    /// The cell at the tail, for the producer to write.
    pub(crate) fn tail_cell(&mut self) -> (cell: &mut Option<T>)
        requires
            old(self).wf(),
            !old(self)@.blocked(),
        ensures
            *cell == old(self)@.staged,
            final(self).wf(),
            final(self)@ == old(self)@.with_staged(*final(cell)),
    {
        let s: usize = self.capacity.index_of(self.cursors.tail);
        proof {
            self.lemma_tail_writable();
        }
        &mut self.data[s]
    }

    /// Whatever is written into the cell at the tail changes what is
    /// staged, and nothing else.
    proof fn lemma_tail_writable(&self)
        requires
            self.wf(),
            !self@.blocked(),
        ensures
            is_live(self.done@, self.capacity@, self.cursors.tail as int),
            0 <= slot_of(self.cursors.tail as int, self.capacity@) < self.capacity@,
            forall|pos: int|
                self.cursors.tail - self.capacity@ <= pos < self.cursors.tail && 0 <= pos
                    && is_live(self.done@, self.capacity@, pos) ==> #[trigger] slot_of(
                    pos,
                    self.capacity@,
                ) != slot_of(self.cursors.tail as int, self.capacity@),
            forall|cell: Option<T>, pos: int|
                self.cursors.tail <= pos < self.cursors.tail + self.capacity@
                    ==> #[trigger] slot_wf(
                    self.data@.update(
                        slot_of(self.cursors.tail as int, self.capacity@),
                        cell,
                    ),
                    self.done@,
                    self.capacity@,
                    self.cursors.tail as int,
                    pos,
                ),
    {
        let cap: nat = self.capacity@;
        let tail: int = self.cursors.tail as int;
        self.lemma_lap(tail);
        assert(slot_wf(self.data@, self.done@, cap, tail, tail));
        if tail >= cap {
            self.lemma_before_tail(tail - cap);
        }
        assert forall|cell: Option<T>, pos: int| tail <= pos < tail + cap implies #[trigger] slot_wf(
            self.data@.update(slot_of(tail, cap), cell),
            self.done@,
            cap,
            tail,
            pos,
        ) by {
            assert(slot_wf(self.data@, self.done@, cap, tail, pos));
            if pos != tail {
                assert(slot_of(pos, cap) != slot_of(tail, cap));
            }
        }
    }

    /// Writes `val` at the tail. What was written there before and never
    /// committed is not dropped: its owner forgot it.
    pub(crate) fn stage(&mut self, val: T)
        requires
            old(self).wf(),
            !old(self)@.blocked(),
        ensures
            final(self).wf(),
            final(self)@ == old(self)@.with_staged(Some(val)),
    {
        let stale: Option<T> = self.tail_cell().take();
        let _forgotten: ManuallyDrop<Option<T>> = ManuallyDrop::new(stale);
        *self.tail_cell() = Some(val);
    }

    /// Publishes what was written at the tail, and wakes a consumer.
    pub(crate) fn publish(&mut self)
        requires
            old(self).wf(),
            old(self)@.headroom(),
            old(self)@.staged is Some,
        ensures
            final(self).wf(),
            final(self)@ == old(self)@.pushed(old(self)@.staged->0),
    {
        let ghost before = *self;
        let ghost cap: nat = self.capacity@;
        let ghost tail: int = self.cursors.tail as int;
        proof {
            self.lemma_lap(tail);
            assert(slot_wf(self.data@, self.done@, cap, tail, tail));
        }
        self.cursors.tail = self.cursors.tail + 1;
        self.consumer_park.wake_one();
        self.consumer_waker.flush();
        proof {
            assert forall|pos: int| tail + 1 <= pos < tail + 1 + cap implies #[trigger] slot_wf(
                self.data@,
                self.done@,
                cap,
                tail + 1,
                pos,
            ) by {
                if pos < tail + cap {
                    assert(slot_wf(before.data@, before.done@, cap, tail, pos));
                }
            }
            let expected = before@.pushed(before@.staged->0);
            assert forall|pos: int| #[trigger] self@.live.dom().contains(pos)
                == expected.live.dom().contains(pos) by {
                if pos == tail - cap && pos >= 0 {
                    before.lemma_before_tail(pos);
                }
            }
            assert(self@.live =~= expected.live);
            if cap > 1 {
                assert(slot_wf(before.data@, before.done@, cap, tail, tail + 1));
            }
            assert(self@.staged =~= None) by {
                assert(slot_wf(self.data@, self.done@, cap, tail + 1, tail + 1));
                self.lemma_lap(tail + 1);
                if is_live(self.done@, cap, tail + 1) {
                    assert(cap > 1);
                }
            }
        }
    }

    /// Claims up to [`BATCH_SIZE`] positions from `observed` on, going by
    /// a tail of `seen`, if the head is still there. Tells how many.
    pub(crate) fn claim_head(&mut self, observed: usize, seen: usize) -> (take: Option<usize>)
        requires
            old(self).wf(),
            observed < seen <= old(self)@.tail,
        ensures
            final(self).wf(),
            ({
                let n = if seen - observed <= BATCH_SIZE {
                    seen - observed
                } else {
                    BATCH_SIZE as int
                };
                if old(self)@.head == observed {
                    &&& take == Some(n as usize)
                    &&& final(self)@ == (ShareModel { head: (observed + n) as usize, ..old(self)@ })
                } else {
                    &&& take is None
                    &&& final(self)@ == old(self)@
                }
            }),
    {
        if self.cursors.head != observed {
            return None;
        }
        let avail: usize = seen - observed;
        let take: usize = if avail <= BATCH_SIZE {
            avail
        } else {
            BATCH_SIZE
        };
        self.cursors.head = observed + take;
        assert(self@.live =~= old(self)@.live);
        Some(take)
    }

    /// The live value at `pos`.
    pub(crate) fn peek(&self, pos: usize) -> (val: &T)
        requires
            self.wf(),
            self@.live.dom().contains(pos as int),
        ensures
            *val == self@.live[pos as int],
    {
        proof {
            self.lemma_lap(pos as int);
            self.lemma_before_tail(pos as int);
        }
        self.data[self.capacity.index_of(pos)].as_ref().unwrap()
    }

    /// Moves the value at `pos` out and hands its slot to the next lap.
    pub(crate) fn release(&mut self, pos: usize) -> (val: T)
        requires
            old(self).wf(),
            old(self)@.headroom(),
            old(self)@.live.dom().contains(pos as int),
            pos < old(self)@.head,
        ensures
            final(self).wf(),
            val == old(self)@.live[pos as int],
            final(self)@ == old(self)@.released(pos as int),
    {
        let ghost before = *self;
        let ghost cap: nat = self.capacity@;
        let ghost tail: int = self.cursors.tail as int;
        let s: usize = self.capacity.index_of(pos);
        proof {
            self.lemma_lap(pos as int);
            self.lemma_lap(pos + cap);
            self.lemma_before_tail(pos as int);
        }
        let val: Option<T> = self.data[s].take();
        self.done[s].release(pos, self.capacity);
        proof {
            let p: int = pos as int;
            assert forall|q: int| tail <= q < tail + cap implies #[trigger] slot_wf(
                self.data@,
                self.done@,
                cap,
                tail,
                q,
            ) by {
                assert(slot_wf(before.data@, before.done@, cap, tail, q));
                if q != p + cap {
                    assert(slot_of(q, cap) != slot_of(p + cap, cap));
                }
            }
            let expected = before@.released(p);
            assert forall|q: int| #[trigger] self@.live.dom().contains(q)
                == expected.live.dom().contains(q) by {
                if 0 <= q && tail - cap <= q < tail && q != p {
                    assert(slot_of(q, cap) != slot_of(p, cap));
                }
            }
            assert forall|q: int| #[trigger] self@.live.dom().contains(q) implies self@.live[q]
                == expected.live[q] by {
                assert(slot_of(q, cap) != slot_of(p, cap));
            }
            assert(self@.live =~= expected.live);
            assert(self@.staged =~= before@.staged) by {
                assert(slot_wf(before.data@, before.done@, cap, tail, tail));
                if p + cap != tail {
                    assert(slot_of(tail, cap) != slot_of(p + cap, cap));
                }
            }
            assert forall|q: int| self@.head <= q < self@.tail implies #[trigger] self@.live.dom().contains(
                q,
            ) by {
                assert(before@.live.dom().contains(q));
            }
            if self@.staged is Some {
                assert(!before@.blocked());
            }
        }
        val.unwrap()
    }

    /// Wakes the producer, if it waits.
    pub(crate) fn wake_producer(&mut self)
        requires
            old(self).wf(),
        ensures
            final(self).wf(),
            final(self)@ == old(self)@.producer_woken(),
    {
        self.producer_park.wake();
        assert(self@.live =~= old(self)@.live);
    }

    /// Closes the producing side and wakes every consumer.
    pub(crate) fn close_producer(&mut self)
        requires
            old(self).wf(),
        ensures
            final(self).wf(),
            final(self)@ == old(self)@.producer_left(),
    {
        self.closed.close();
        self.consumer_park.flush();
        self.consumer_waker.flush();
        assert(self@.live =~= old(self)@.live);
    }

    /// Whether the producer is gone.
    pub(crate) fn producer_gone(&self) -> (gone: bool)
        ensures
            gone == self@.closed,
    {
        self.closed.is_closed()
    }

    /// Whether the last consumer is gone.
    pub(crate) fn consumer_gone(&self) -> (gone: bool)
        ensures
            gone == self@.consumer_closed,
    {
        self.consumer_closed.is_closed()
    }

    /// Registers one more consumer and leases it a park slot.
    pub(crate) fn join_consumer(&mut self) -> (slot: ParkSlot)
        requires
            old(self).wf(),
            old(self)@.consumers < usize::MAX,
        ensures
            final(self).wf(),
            slot == old(self)@.consumer_slots.next(),
            slot.wf(),
            final(self)@ == old(self)@.consumer_joined(),
    {
        self.consumer_count_live.register();
        let slot: ParkSlot = self.consumer_slots.lease();
        assert(self@.live =~= old(self)@.live);
        slot
    }

    /// Retires a consumer; after the last one the producer is told.
    pub(crate) fn leave_consumer(&mut self, slot: ParkSlot)
        requires
            old(self).wf(),
            old(self)@.consumers > 0,
            slot.wf(),
        ensures
            final(self).wf(),
            final(self)@ == old(self)@.consumer_left(slot),
    {
        self.consumer_slots.release(slot);
        if self.consumer_count_live.release() {
            self.consumer_closed.close();
            self.producer_park.wake();
        }
        assert(self@.live =~= old(self)@.live);
    }

    /// Puts a consumer on record as asleep, or takes it off.
    pub(crate) fn set_consumer_parked(&mut self, slot: ParkSlot, parked: bool)
        requires
            old(self).wf(),
            slot.wf(),
        ensures
            final(self).wf(),
            final(self)@ == (ShareModel {
                consumer_park: if parked {
                    old(self)@.consumer_park.armed(slot)
                } else {
                    old(self)@.consumer_park.disarmed(slot)
                },
                ..old(self)@
            }),
    {
        if parked {
            self.consumer_park.arm(slot);
        } else {
            self.consumer_park.disarm(slot);
        }
        assert(self@.live =~= old(self)@.live);
    }

    /// Puts a consumer's task on record as waiting, or takes it off.
    pub(crate) fn set_consumer_task(&mut self, slot: ParkSlot, waiting: bool)
        requires
            old(self).wf(),
            slot.wf(),
        ensures
            final(self).wf(),
            final(self)@ == (ShareModel {
                consumer_tasks: if waiting {
                    old(self)@.consumer_tasks.armed(slot)
                } else {
                    old(self)@.consumer_tasks.disarmed(slot)
                },
                ..old(self)@
            }),
    {
        if waiting {
            self.consumer_waker.arm(slot);
        } else {
            self.consumer_waker.disarm(slot);
        }
        assert(self@.live =~= old(self)@.live);
    }

    /// Collects the unpark that is owed to the consumer of park slot `i`.
    pub fn take_consumer_unpark(&mut self, i: usize) -> (owed: bool)
        requires
            old(self).wf(),
            i < PARK_SLOTS,
        ensures
            final(self).wf(),
            owed == old(self)@.consumer_park.owes(i as int),
            final(self)@ == (ShareModel {
                consumer_park: old(self)@.consumer_park.paid(i as int),
                ..old(self)@
            }),
    {
        let owed: bool = self.consumer_park.take_unpark(i);
        assert(self@.live =~= old(self)@.live);
        owed
    }

    /// Collects the waker call that is owed to the consumer task of park
    /// slot `i`.
    pub fn take_consumer_waker(&mut self, i: usize) -> (owed: bool)
        requires
            old(self).wf(),
            i < PARK_SLOTS,
        ensures
            final(self).wf(),
            owed == old(self)@.consumer_tasks.owes(i as int),
            final(self)@ == (ShareModel {
                consumer_tasks: old(self)@.consumer_tasks.paid(i as int),
                ..old(self)@
            }),
    {
        let owed: bool = self.consumer_waker.take_unpark(i);
        assert(self@.live =~= old(self)@.live);
        owed
    }

    /// Collects the unparks that are owed to the consumers without a park
    /// slot.
    pub fn take_consumer_overflow_unparks(&mut self) -> (owed: bool)
        requires
            old(self).wf(),
        ensures
            final(self).wf(),
            owed == old(self)@.consumer_park.overflow_owed,
            final(self)@ == (ShareModel {
                consumer_park: old(self)@.consumer_park.overflow_paid(),
                ..old(self)@
            }),
    {
        let owed: bool = self.consumer_park.take_overflow();
        assert(self@.live =~= old(self)@.live);
        owed
    }

    /// Collects the waker calls that are owed to the consumer tasks without a park
    /// slot.
    pub fn take_consumer_overflow_wakers(&mut self) -> (owed: bool)
        requires
            old(self).wf(),
        ensures
            final(self).wf(),
            owed == old(self)@.consumer_tasks.overflow_owed,
            final(self)@ == (ShareModel {
                consumer_tasks: old(self)@.consumer_tasks.overflow_paid(),
                ..old(self)@
            }),
    {
        let owed: bool = self.consumer_waker.take_overflow();
        assert(self@.live =~= old(self)@.live);
        owed
    }

    /// How the producer waits, for it to arm, register and withdraw, and
    /// for whoever drives the ring to collect what is owed.
    pub fn producer_waiter(&mut self) -> (waiter: &mut SoleWaiter)
        requires
            old(self).wf(),
        ensures
            *waiter == old(self)@.producer,
            final(self).wf(),
            final(self)@ == (ShareModel { producer: *final(waiter), ..old(self)@ }),
    {
        &mut self.producer_park
    }
}

} // verus!
