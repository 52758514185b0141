//! The abstract ring that the operations of [`RingBuffer`], [`Producer`]
//! and [`Consumer`] are stated over.
//!
//! [`RingBuffer`]: crate::mpmc::RingBuffer
//! [`Producer`]: crate::mpmc::Producer
//! [`Consumer`]: crate::mpmc::Consumer

use vstd::prelude::*;
use vstd::wrapping::usize_specs;

use crate::capacity::{lemma_next_lap, lemma_same_slot_lap, slot_of};
use crate::common::bits::{bit32, bit64};
use crate::common::park::{lemma_one_step, lemma_served_sleeper_is_owed, WakeSet};
use crate::common::park_registry::{ParkRegistry, ParkSlot};
use crate::common::wake_interest::WakeInterest;
use crate::mpmc::awaited_batch::{announcement, interest_in};
use crate::mpmc::backstop_monitor::BackstopStats;
use crate::mpmc::consumed_watermark::free_positions;
use crate::mpmc::slot_table::{fresh_slots, shaped, Phase, Slot};

verus! {

/// The state of a ring.
#[verifier::ext_equal]
pub struct RingModel<T> {
    /// The number of slots.
    pub cap: nat,
    /// The slots, by index.
    pub slots: Seq<Slot<T>>,
    /// The first position that no producer has reserved.
    pub claim: usize,
    /// The published count of consumed positions; it lags and wraps.
    pub consumed: usize,
    /// The live producers and consumers.
    pub producers: usize,
    pub consumers: usize,
    /// Whether the last producer, or the last consumer, is gone.
    pub producers_gone: bool,
    pub consumers_gone: bool,
    /// How often a consumer was cloned; it wraps.
    pub clones: usize,
    /// Who sleeps on either side, and is owed an unpark.
    pub producer_park: WakeSet,
    pub consumer_park: WakeSet,
    /// Whose task waits on either side, and is owed a waker call.
    pub producer_tasks: WakeSet,
    pub consumer_tasks: WakeSet,
    /// What each parked producer has announced, by park slot.
    pub awaited: Seq<Option<(u64, u32)>>,
    /// The leases of park slots.
    pub producer_slots: ParkRegistry,
    pub consumer_slots: ParkRegistry,
    /// The backstop counters.
    pub backstop: BackstopStats,
}

/// The private state of a producer: the batch it has reserved and its
/// park slot. Bit `i` of `unused` stands for the position `start + i`.
pub struct Batch {
    pub start: usize,
    pub unused: u32,
    /// The positions that the batch was reserved with.
    pub size: u32,
    pub slot: ParkSlot,
}

/// The private state of a consumer: where its next scan starts, the pops
/// it has not published yet, and its park slot.
pub struct Scan {
    pub next: usize,
    pub pending: nat,
    pub slot: ParkSlot,
}

/// The bitmap of a full batch of `n` positions.
pub open spec fn full_batch(n: nat) -> u32 {
    if n >= 32 {
        u32::MAX
    } else {
        ((1u32 << (n as u32)) - 1) as u32
    }
}

/// A full batch of `n` positions holds the bits below `n`.
pub proof fn lemma_full_batch(n: nat)
    requires
        n <= 32,
    ensures
        forall|i: int| #[trigger] bit32(full_batch(n), i) == (0 <= i < n),
        n > 0 ==> full_batch(n) != 0,
{
    let all: u32 = full_batch(n);
    if n < 32 {
        let k: u32 = n as u32;
        let top: u32 = 1u32 << k;
        assert(top >= 1 && (k > 0 ==> top > 1)) by (bit_vector)
            requires
                top == 1u32 << k,
                k < 32,
        ;
        assert forall|i: int| #[trigger] bit32(all, i) == (0 <= i < n) by {
            if 0 <= i < 32 {
                let b: u32 = i as u32;
                assert(((all >> b) & 1 == 1) == (b < k)) by (bit_vector)
                    requires
                        top == 1u32 << k,
                        all + 1 == top,
                        k < 32,
                        b < 32,
                ;
            }
        }
    } else {
        assert forall|i: int| #[trigger] bit32(all, i) == (0 <= i < n) by {
            if 0 <= i < 32 {
                let b: u32 = i as u32;
                assert((0xffff_ffffu32 >> b) & 1 == 1) by (bit_vector)
                    requires
                        b < 32,
                ;
            }
        }
    }
}

impl Batch {
    /// Whether the batch holds `pos`, reserved and unused.
    pub open spec fn reserves(self, pos: int) -> bool {
        bit32(self.unused, pos - self.start)
    }

    /// This batch once `pos` has been taken out of it.
    pub open spec fn without(self, pos: int) -> Self {
        Batch { unused: self.unused & !(1u32 << ((pos - self.start) as u32)), ..self }
    }

    /// This batch once `pos` has been put back.
    pub open spec fn with(self, pos: int) -> Self {
        Batch { unused: self.unused | (1u32 << ((pos - self.start) as u32)), ..self }
    }

    /// Whether the two batches have no position in common.
    pub open spec fn disjoint(self, other: Self) -> bool {
        forall|pos: int| !(#[trigger] self.reserves(pos) && #[trigger] other.reserves(pos))
    }
}

/// The first parked slot of `wake`, going round from `from` through
/// `left` slots, whose announcement answers the release of `pos` with
/// `wanted`.
pub open spec fn first_interested(
    wake: u64,
    awaited: Seq<Option<(u64, u32)>>,
    pos: usize,
    wanted: WakeInterest,
    from: int,
    left: nat,
) -> Option<int>
    decreases left,
{
    if left == 0 {
        None
    } else if bit64(wake, from % 64) && interest_in(awaited[from % 64], pos) == wanted {
        Some(from % 64)
    } else {
        first_interested(wake, awaited, pos, wanted, from + 1, (left - 1) as nat)
    }
}

/// The parked producer that the release of `pos` is routed to: one that
/// reserved `pos`, else one that takes anything, else nobody.
pub open spec fn routed(
    park: WakeSet,
    awaited: Seq<Option<(u64, u32)>>,
    pos: usize,
) -> Option<int> {
    match first_interested(
        park.wake,
        awaited,
        pos,
        WakeInterest::Reserved,
        park.cursor as int,
        64,
    ) {
        Some(i) => Some(i),
        None => first_interested(
            park.wake,
            awaited,
            pos,
            WakeInterest::Any,
            park.cursor as int,
            64,
        ),
    }
}

impl<T> RingModel<T> {
    /// A ring of `cap` slots that nothing has happened to.
    pub open spec fn fresh(cap: nat) -> Self {
        RingModel {
            cap,
            slots: fresh_slots(cap),
            claim: 0,
            consumed: 0,
            producers: 1,
            consumers: 1,
            producers_gone: false,
            consumers_gone: false,
            clones: 0,
            producer_park: WakeSet::idle(),
            consumer_park: WakeSet::idle(),
            producer_tasks: WakeSet::idle(),
            consumer_tasks: WakeSet::idle(),
            awaited: Seq::new(64, |i: int| None),
            producer_slots: ParkRegistry { leased: 0 },
            consumer_slots: ParkRegistry { leased: 0 },
            backstop: BackstopStats::nothing(),
        }
    }

    /// What every ring keeps: each slot serves its own index, none is
    /// more than a lap ahead of the claim cursor, one that no producer has
    /// reserved yet is empty, and a side is gone exactly if it has no
    /// handle left.
    pub open spec fn consistent(self) -> bool {
        &&& 4 <= self.cap <= usize::MAX
        &&& shaped(self.slots, self.cap)
        &&& forall|s: int|
            0 <= s < self.cap ==> {
                &&& (#[trigger] self.slots[s]).pos < self.claim + self.cap
                &&& self.slots[s].pos >= self.claim ==> self.slots[s].phase == Phase::<T>::Open(
                    None,
                )
            }
        &&& self.producer_park.wf()
        &&& self.consumer_park.wf()
        &&& self.producer_tasks.wf()
        &&& self.consumer_tasks.wf()
        &&& self.awaited.len() == 64
        &&& self.producers_gone == (self.producers == 0)
        &&& self.consumers_gone == (self.consumers == 0)
    }

    /// Whether the positions of the next batch and of the three laps after
    /// it fit the machine word.
    pub open spec fn headroom(self) -> bool {
        self.claim + 3 * self.cap + 64 <= usize::MAX
    }

    /// The slot that serves `pos`.
    pub open spec fn at(self, pos: int) -> Slot<T> {
        self.slots[slot_of(pos, self.cap)]
    }

    /// This ring with another slot for `pos`.
    pub open spec fn with_slot(self, pos: int, slot: Slot<T>) -> Self {
        RingModel { slots: self.slots.update(slot_of(pos, self.cap), slot), ..self }
    }

    /// Whether the ring honours a reservation of `pos`: nobody can
    /// overtake it, and once the slot reaches `pos` it waits for its
    /// owner.
    pub open spec fn honours(self, pos: int) -> bool {
        &&& 0 <= pos < self.claim
        &&& self.at(pos).pos <= pos
        &&& self.at(pos).pos == pos ==> self.at(pos).phase is Open
    }

    /// Whether the ring honours every reservation of `batch`.
    pub open spec fn backs(self, batch: Batch) -> bool {
        forall|pos: int| #[trigger] batch.reserves(pos) ==> self.honours(pos)
    }

    /// Whether a consumer has claimed `pos` and not released it.
    pub open spec fn lent(self, pos: int) -> bool {
        &&& 0 <= pos < self.claim
        &&& self.at(pos).pos == pos
        &&& self.at(pos).phase is Taken
    }

    /// Whether `pos` can be written now: its owner may publish into it.
    pub open spec fn writable(self, pos: int) -> bool {
        self.at(pos).pos == pos
    }

    /// The lowest position of `batch`, at or above `start + from`, that
    /// can be written now.
    pub open spec fn first_writable(self, batch: Batch, from: int) -> Option<int>
        decreases 32 - from,
    {
        if from >= 32 {
            None
        } else if bit32(batch.unused, from) && self.writable(batch.start + from) {
            Some(batch.start + from)
        } else {
            self.first_writable(batch, from + 1)
        }
    }

    /// How many positions a producer that reserves up to `limit` at a
    /// time gets now. Where the watermark accounts for the whole ring,
    /// the next slot itself is asked before giving up.
    pub open spec fn refill_size(self, limit: nat) -> Option<nat> {
        match free_positions(self.consumed, self.claim, self.cap as usize) {
            Some(free) => Some(
                if free <= limit {
                    free as nat
                } else {
                    limit
                },
            ),
            None => if self.writable(self.claim as int) {
                Some(1)
            } else {
                None
            },
        }
    }

    /// This ring once `n` more positions are reserved.
    pub open spec fn claimed_up(self, n: nat) -> Self {
        RingModel { claim: (self.claim + n) as usize, ..self }
    }

    /// The ring and the batch that an attempt to write starts from: an
    /// exhausted batch is refilled first, if it can be.
    pub open spec fn refilled(self, batch: Batch, limit: nat) -> (Self, Batch) {
        if batch.unused != 0 {
            (self, batch)
        } else {
            match self.refill_size(limit) {
                Some(n) => (
                    self.claimed_up(n),
                    Batch { start: self.claim, unused: full_batch(n), size: n as u32, ..batch },
                ),
                None => (self, batch),
            }
        }
    }

    /// The position that an attempt to write gets.
    pub open spec fn acquirable(self, batch: Batch, limit: nat) -> Option<int> {
        let (ring, batch) = self.refilled(batch, limit);
        ring.first_writable(batch, 0)
    }

    /// The ring and the batch after an attempt to write: the position it
    /// got has left the batch.
    pub open spec fn acquired(self, batch: Batch, limit: nat) -> (Self, Batch) {
        let (ring, batch) = self.refilled(batch, limit);
        match ring.first_writable(batch, 0) {
            Some(pos) => (ring, batch.without(pos)),
            None => (ring, batch),
        }
    }

    /// This ring with `staged` in the cell of `pos`.
    pub open spec fn staged(self, pos: int, staged: Option<T>) -> Self {
        self.with_slot(pos, Slot { pos: pos as nat, phase: Phase::Open(staged) })
    }

    /// This ring once what is staged at `pos` is published: one sleeping
    /// consumer and every waiting consumer task are woken.
    pub open spec fn published(self, pos: int) -> Self {
        RingModel {
            consumer_park: self.consumer_park.woken(),
            consumer_tasks: self.consumer_tasks.flushed(),
            ..self.with_slot(
                pos,
                Slot { pos: pos as nat, phase: Phase::Published(self.at(pos).value()) },
            )
        }
    }

    /// The ring and the batch after an attempt to push `val`.
    pub open spec fn pushed(self, batch: Batch, limit: nat, val: T) -> (Self, Batch) {
        let (ring, after) = self.acquired(batch, limit);
        match self.acquirable(batch, limit) {
            Some(pos) => (ring.staged(pos, Some(val)).published(pos), after),
            None => (ring, after),
        }
    }

    /// This ring once a consumer is woken on account of a departing
    /// producer that waits for it.
    pub open spec fn consumers_nudged(self) -> Self {
        RingModel {
            consumer_park: self.consumer_park.woken(),
            consumer_tasks: self.consumer_tasks.flushed(),
            ..self
        }
    }

    /// The ring and the batch once a departing producer has given up the
    /// positions of `batch` from `start + from` on, in order, and whether
    /// it has to wait. A position whose slot still serves an earlier lap
    /// can be given up only once a consumer has released it; with the
    /// consumers gone it is let go as it is.
    pub open spec fn abandoned(self, batch: Batch, from: int) -> (Self, Batch, bool)
        decreases 32 - from,
    {
        if from >= 32 {
            (self, batch, false)
        } else if !bit32(batch.unused, from) {
            self.abandoned(batch, from + 1)
        } else {
            let pos: int = batch.start + from;
            if self.writable(pos) {
                self.freed(pos).producer_tasks_woken().abandoned(batch.without(pos), from + 1)
            } else if self.consumers_gone {
                self.abandoned(batch.without(pos), from + 1)
            } else {
                (self.consumers_nudged(), batch, true)
            }
        }
    }

    /// This ring once the value at `pos` is claimed.
    pub open spec fn taken(self, pos: int) -> Self {
        self.with_slot(pos, Slot { pos: pos as nat, phase: Phase::Taken(self.at(pos).value()) })
    }

    /// This ring once the slot of `pos` goes to the position one lap on,
    /// and a sleeping producer that can use it is woken.
    pub open spec fn freed(self, pos: int) -> Self {
        self.with_slot(pos, Slot::open_for((pos + self.cap) as nat)).producer_woken_for(
            (pos + self.cap) as usize,
        )
    }

    /// This ring once the release of `pos` has been routed. Producers
    /// without a park slot announce nothing, so they are woken as well.
    pub open spec fn producer_woken_for(self, pos: usize) -> Self {
        RingModel {
            producer_park: match routed(self.producer_park, self.awaited, pos) {
                Some(i) => self.producer_park.served(i).overflow_served(),
                None => self.producer_park.overflow_served(),
            },
            ..self
        }
    }

    /// This ring once up to `n` waiting producer tasks are woken.
    pub open spec fn producer_tasks_woken_n(self, n: nat) -> Self {
        RingModel { producer_tasks: self.producer_tasks.woken_n(n), ..self }
    }

    /// This ring once every waiting producer task is woken.
    pub open spec fn producer_tasks_woken(self) -> Self {
        RingModel { producer_tasks: self.producer_tasks.flushed(), ..self }
    }

    /// This ring once the producer of `batch` has announced it and armed
    /// its park slot.
    pub open spec fn producer_parked(self, batch: Batch) -> Self {
        RingModel {
            producer_park: self.producer_park.armed(batch.slot),
            awaited: match batch.slot {
                ParkSlot::Leased(i) => self.awaited.update(
                    i as int,
                    announcement(batch.start, batch.unused),
                ),
                ParkSlot::Slotless => self.awaited,
            },
            ..self
        }
    }

    /// This ring once the producer of `slot` sleeps no longer: its slot is
    /// disarmed and what it announced is withdrawn.
    pub open spec fn producer_unparked(self, slot: ParkSlot) -> Self {
        RingModel {
            producer_park: self.producer_park.disarmed(slot),
            awaited: match slot {
                ParkSlot::Leased(i) => self.awaited.update(i as int, None),
                ParkSlot::Slotless => self.awaited,
            },
            ..self
        }
    }

    /// This ring once the consumer of `slot` has armed its park slot.
    pub open spec fn consumer_parked(self, slot: ParkSlot) -> Self {
        RingModel { consumer_park: self.consumer_park.armed(slot), ..self }
    }

    /// This ring once the consumer of `slot` sleeps no longer.
    pub open spec fn consumer_unparked(self, slot: ParkSlot) -> Self {
        RingModel { consumer_park: self.consumer_park.disarmed(slot), ..self }
    }

    /// This ring once the task of the producer of `slot` waits, or does
    /// no longer.
    pub open spec fn producer_task_set(self, slot: ParkSlot, waiting: bool) -> Self {
        RingModel {
            producer_tasks: if waiting {
                self.producer_tasks.armed(slot)
            } else {
                self.producer_tasks.disarmed(slot)
            },
            ..self
        }
    }

    /// This ring once the task of the consumer of `slot` waits, or does
    /// no longer.
    pub open spec fn consumer_task_set(self, slot: ParkSlot, waiting: bool) -> Self {
        RingModel {
            consumer_tasks: if waiting {
                self.consumer_tasks.armed(slot)
            } else {
                self.consumer_tasks.disarmed(slot)
            },
            ..self
        }
    }

    /// This ring with one more producer.
    pub open spec fn producer_joined(self) -> Self {
        RingModel {
            producers: (self.producers + 1) as usize,
            producer_slots: self.producer_slots.after_lease(),
            ..self
        }
    }

    /// This ring with one more consumer.
    pub open spec fn consumer_joined(self) -> Self {
        RingModel {
            consumers: (self.consumers + 1) as usize,
            clones: usize_specs::wrapping_add(self.clones, 1),
            consumer_slots: self.consumer_slots.after_lease(),
            ..self
        }
    }

    /// This ring once the producer of `slot` is gone. With the last one
    /// the ring is closed and everybody who waits is woken.
    pub open spec fn producer_left(self, slot: ParkSlot) -> Self {
        let left = RingModel {
            producers: (self.producers - 1) as usize,
            producer_slots: self.producer_slots.after_release(slot),
            ..self
        };
        if left.producers == 0 {
            RingModel {
                producers_gone: true,
                producer_park: left.producer_park.flushed(),
                consumer_park: left.consumer_park.flushed(),
                consumer_tasks: left.consumer_tasks.flushed(),
                ..left
            }
        } else {
            left
        }
    }

    /// This ring once the consumer of `slot` is gone. With the last one
    /// every waiting producer is woken.
    pub open spec fn consumer_left(self, slot: ParkSlot) -> Self {
        let left = RingModel {
            consumers: (self.consumers - 1) as usize,
            consumer_slots: self.consumer_slots.after_release(slot),
            ..self
        };
        if left.consumers == 0 {
            RingModel {
                consumers_gone: true,
                producer_park: left.producer_park.flushed(),
                producer_tasks: left.producer_tasks.flushed(),
                ..left
            }
        } else {
            left
        }
    }

    /// This ring with other backstop counters.
    pub open spec fn with_backstop(self, backstop: BackstopStats) -> Self {
        RingModel { backstop, ..self }
    }

    /// The position that a scan of `left` positions from `from` first
    /// finds published.
    pub open spec fn first_published(self, from: int, left: nat) -> Option<int>
        decreases left,
    {
        if left == 0 {
            None
        } else if self.at(from).phase is Published {
            Some(self.at(from).pos as int)
        } else {
            self.first_published(from + 1, (left - 1) as nat)
        }
    }

    /// The position that a consumer whose scan starts at `next` claims.
    pub open spec fn claimable(self, next: usize) -> Option<int> {
        self.first_published(next as int, self.cap)
    }

    /// Whether nothing is published.
    pub open spec fn drained(self) -> bool {
        forall|s: int| 0 <= s < self.cap ==> !((#[trigger] self.slots[s]).phase is Published)
    }

    /// This ring, and a tally of `pending`, once one more pop is counted.
    pub open spec fn counted(self, pending: nat, flush_at: nat) -> (Self, nat) {
        if pending + 1 >= flush_at {
            (
                RingModel {
                    consumed: usize_specs::wrapping_add(self.consumed, (pending + 1) as usize),
                    ..self
                },
                0,
            )
        } else {
            (self, pending + 1)
        }
    }

    /// The ring and the scan after an attempt to claim. A claim moves the
    /// scan past the claimed position; a whole lap without one moves it
    /// by the lap.
    pub open spec fn claimed(self, scan: Scan, flush_at: nat) -> (Self, Scan) {
        match self.claimable(scan.next) {
            Some(pos) => {
                let (ring, pending) = self.taken(pos).counted(scan.pending, flush_at);
                let next: int = if pos >= scan.next {
                    pos + 1
                } else {
                    scan.next + 1
                };
                (ring, Scan { next: next as usize, pending, ..scan })
            },
            None => (self, Scan { next: (scan.next + self.cap) as usize, ..scan }),
        }
    }

    /// The ring, the scan and the values after claiming and releasing up
    /// to `limit` values.
    pub open spec fn emptied(self, scan: Scan, flush_at: nat, limit: nat) -> (Self, Scan, Seq<T>)
        decreases limit,
    {
        if limit == 0 {
            (self, scan, Seq::empty())
        } else {
            let (ring, after) = self.claimed(scan, flush_at);
            match self.claimable(scan.next) {
                None => (ring, after, Seq::empty()),
                Some(pos) => {
                    let (last, end, rest) = ring.freed(pos).emptied(
                        after,
                        flush_at,
                        (limit - 1) as nat,
                    );
                    (last, end, seq![self.at(pos).value()] + rest)
                },
            }
        }
    }
}

/// A slot can be replaced by one of its own index that is at most a lap
/// ahead of the claim cursor, and empty where nobody has reserved it.
pub proof fn lemma_with_slot<T>(ring: RingModel<T>, pos: int, slot: Slot<T>)
    requires
        ring.consistent(),
        slot_of(slot.pos as int, ring.cap) == slot_of(pos, ring.cap),
        slot.pos < ring.claim + ring.cap,
        slot.pos >= ring.claim ==> slot.phase == Phase::<T>::Open(None),
    ensures
        ring.with_slot(pos, slot).consistent(),
        ring.with_slot(pos, slot).at(pos) == slot,
        0 <= slot_of(pos, ring.cap) < ring.cap,
{
    lemma_next_lap(pos, ring.cap);
}

/// A position found by [`RingModel::first_writable`] is in the batch and
/// can be written, no lower one of the batch can, and none is found
/// exactly if no position of the batch can be written.
pub proof fn lemma_first_writable<T>(ring: RingModel<T>, batch: Batch, from: int)
    requires
        0 <= from <= 32,
    ensures
        match ring.first_writable(batch, from) {
            Some(pos) => {
                &&& batch.reserves(pos)
                &&& ring.writable(pos)
                &&& batch.start + from <= pos < batch.start + 32
                &&& forall|q: int|
                    batch.start + from <= q < pos ==> !(#[trigger] batch.reserves(q)
                        && ring.writable(q))
            },
            None => forall|q: int|
                batch.start + from <= q ==> !(#[trigger] batch.reserves(q) && ring.writable(q)),
        },
    decreases 32 - from,
{
    if from < 32 {
        lemma_first_writable(ring, batch, from + 1);
        assert(batch.reserves(batch.start + from) == bit32(batch.unused, from));
    }
}

/// A refill reserves positions that the ring honours: none of them is
/// overtaken, and a slot that has reached one is empty.
pub proof fn lemma_refill_is_backed<T>(ring: RingModel<T>, n: nat, batch: Batch)
    requires
        ring.consistent(),
        n <= ring.cap,
        n <= 32,
        ring.claim + n <= usize::MAX,
    ensures
        ring.claimed_up(n).consistent(),
        ring.claimed_up(n).backs(
            Batch { start: ring.claim, unused: full_batch(n), size: n as u32, ..batch },
        ),
{
    let after = ring.claimed_up(n);
    let refilled = Batch { start: ring.claim, unused: full_batch(n), size: n as u32, ..batch };
    lemma_full_batch(n);
    assert forall|pos: int| #[trigger] refilled.reserves(pos) implies after.honours(pos) by {
        assert(bit32(full_batch(n), pos - ring.claim));
        lemma_next_lap(pos, ring.cap);
        let s: int = slot_of(pos, ring.cap);
        let p: int = ring.slots[s].pos as int;
        if p > pos {
            lemma_same_slot_lap(pos, p, ring.cap);
        }
    }
}

/// Whatever is done at `pos` leaves the reservations and the claims of
/// other positions as they were, as long as the slot only moves forward
/// from `pos`, by nothing or by one lap, and is open after a lap.
pub proof fn lemma_others_undisturbed<T>(ring: RingModel<T>, pos: int, slot: Slot<T>, q: int)
    requires
        ring.consistent(),
        ring.at(pos).pos == pos,
        slot.pos == pos || (slot.pos == pos + ring.cap && slot.phase is Open),
        q != pos,
    ensures
        ring.honours(q) ==> ring.with_slot(pos, slot).honours(q),
        ring.writable(q) ==> ring.with_slot(pos, slot).writable(q),
        ring.lent(q) ==> ring.with_slot(pos, slot).lent(q) && ring.with_slot(pos, slot).at(q)
            == ring.at(q),
{
    lemma_next_lap(pos, ring.cap);
    lemma_next_lap(q, ring.cap);
    if slot_of(q, ring.cap) == slot_of(pos, ring.cap) && ring.honours(q) {
        lemma_same_slot_lap(pos, q, ring.cap);
    }
}

/// A producer that stages or publishes at a position it owns disturbs no
/// other reservation and no claim.
pub proof fn lemma_publishing_disturbs_nobody<T>(ring: RingModel<T>, pos: int, staged: Option<T>)
    requires
        ring.consistent(),
        ring.honours(pos),
        ring.writable(pos),
    ensures
        ring.staged(pos, staged).honours(pos),
        ring.staged(pos, staged).writable(pos),
        forall|q: int|
            q != pos && #[trigger] ring.honours(q) ==> ring.staged(pos, staged).honours(q)
                && ring.published(pos).honours(q),
        forall|q: int| #[trigger]
            ring.lent(q) ==> {
                &&& ring.staged(pos, staged).lent(q)
                &&& ring.staged(pos, staged).at(q) == ring.at(q)
                &&& ring.published(pos).lent(q)
                &&& ring.published(pos).at(q) == ring.at(q)
            },
{
    lemma_next_lap(pos, ring.cap);
    assert forall|q: int| q != pos && #[trigger] ring.honours(q) implies ring.staged(
        pos,
        staged,
    ).honours(q) && ring.published(pos).honours(q) by {
        lemma_others_undisturbed(
            ring,
            pos,
            Slot { pos: pos as nat, phase: Phase::Open(staged) },
            q,
        );
        lemma_others_undisturbed(
            ring,
            pos,
            Slot { pos: pos as nat, phase: Phase::Published(ring.at(pos).value()) },
            q,
        );
    }
    assert forall|q: int| #[trigger] ring.lent(q) implies {
        &&& ring.staged(pos, staged).lent(q)
        &&& ring.staged(pos, staged).at(q) == ring.at(q)
        &&& ring.published(pos).lent(q)
        &&& ring.published(pos).at(q) == ring.at(q)
    } by {
        lemma_others_undisturbed(
            ring,
            pos,
            Slot { pos: pos as nat, phase: Phase::Open(staged) },
            q,
        );
        lemma_others_undisturbed(
            ring,
            pos,
            Slot { pos: pos as nat, phase: Phase::Published(ring.at(pos).value()) },
            q,
        );
    }
}

/// A consumer that claims a published value disturbs no reservation and
/// no other claim; two consumers never hold one value.
pub proof fn lemma_claiming_disturbs_nobody<T>(ring: RingModel<T>, pos: int)
    requires
        ring.consistent(),
        ring.at(pos).pos == pos,
        ring.at(pos).phase is Published,
    ensures
        ring.taken(pos).consistent(),
        ring.taken(pos).lent(pos),
        ring.taken(pos).at(pos).value() == ring.at(pos).value(),
        !ring.lent(pos),
        forall|q: int| #[trigger] ring.honours(q) ==> ring.taken(pos).honours(q),
        forall|q: int| #[trigger]
            ring.lent(q) ==> ring.taken(pos).lent(q) && ring.taken(pos).at(q) == ring.at(q),
{
    lemma_next_lap(pos, ring.cap);
    let slot = Slot { pos: pos as nat, phase: Phase::Taken(ring.at(pos).value()) };
    lemma_with_slot(ring, pos, slot);
    assert forall|q: int| #[trigger] ring.honours(q) implies ring.taken(pos).honours(q) by {
        lemma_others_undisturbed(ring, pos, slot, q);
    }
    assert forall|q: int| #[trigger] ring.lent(q) implies ring.taken(pos).lent(q) && ring.taken(
        pos,
    ).at(q) == ring.at(q) by {
        lemma_others_undisturbed(ring, pos, slot, q);
    }
}

/// A release of `pos`, by the consumer that claimed it or the producer
/// that gave it up, disturbs no reservation and no claim of another
/// position.
pub proof fn lemma_releasing_disturbs_nobody<T>(ring: RingModel<T>, pos: int)
    requires
        ring.consistent(),
        0 <= pos < ring.claim,
        ring.at(pos).pos == pos,
        !(ring.at(pos).phase is Published),
    ensures
        ring.freed(pos).consistent(),
        ring.freed(pos).writable(pos + ring.cap),
        forall|q: int| q != pos && #[trigger] ring.honours(q) ==> ring.freed(pos).honours(q),
        forall|q: int|
            q != pos && #[trigger] ring.lent(q) ==> ring.freed(pos).lent(q) && ring.freed(pos).at(q)
                == ring.at(q),
{
    lemma_next_lap(pos, ring.cap);
    let slot = Slot::<T>::open_for((pos + ring.cap) as nat);
    lemma_with_slot(ring, pos, slot);
    lemma_routed(ring.producer_park, ring.awaited, (pos + ring.cap) as usize);
    match routed(ring.producer_park, ring.awaited, (pos + ring.cap) as usize) {
        Some(i) => {
            lemma_served_sleeper_is_owed(ring.producer_park, i);
        },
        None => {},
    }
    assert forall|q: int| q != pos && #[trigger] ring.honours(q) implies ring.freed(pos).honours(
        q,
    ) by {
        lemma_others_undisturbed(ring, pos, slot, q);
    }
    assert forall|q: int| q != pos && #[trigger] ring.lent(q) implies ring.freed(pos).lent(q)
        && ring.freed(pos).at(q) == ring.at(q) by {
        lemma_others_undisturbed(ring, pos, slot, q);
    }
}

/// A refill takes positions that nobody else has, and disturbs neither
/// the reservations nor the claims of others.
pub proof fn lemma_refilling_disturbs_nobody<T>(ring: RingModel<T>, n: nat)
    requires
        ring.consistent(),
        n <= 32,
        ring.claim + n <= usize::MAX,
    ensures
        forall|q: int| #[trigger]
            ring.honours(q) ==> ring.claimed_up(n).honours(q) && !bit32(
                full_batch(n),
                q - ring.claim,
            ),
        forall|q: int| #[trigger]
            ring.lent(q) ==> ring.claimed_up(n).lent(q) && ring.claimed_up(n).at(q) == ring.at(q),
{
}

/// Reservations rest on the slots and the claim cursor alone.
pub proof fn lemma_backs_by_slots<T>(before: RingModel<T>, after: RingModel<T>, batch: Batch)
    requires
        before.backs(batch),
        after.cap == before.cap,
        after.slots == before.slots,
        after.claim == before.claim,
    ensures
        after.backs(batch),
{
    assert forall|pos: int| #[trigger] batch.reserves(pos) implies after.honours(pos) by {
        assert(before.honours(pos));
    }
}

/// Giving up a batch changes neither the owner's park slot nor how many
/// producers the ring has.
pub proof fn lemma_abandoning_keeps_the_rest<T>(ring: RingModel<T>, batch: Batch, from: int)
    requires
        0 <= from,
    ensures
        ring.abandoned(batch, from).0.producers == ring.producers,
        ring.abandoned(batch, from).1.slot == batch.slot,
        ring.abandoned(batch, from).1.start == batch.start,
        ring.abandoned(batch, from).0.claim == ring.claim,
        ring.abandoned(batch, from).0.cap == ring.cap,
    decreases 32 - from,
{
    if from < 32 {
        let pos: int = batch.start + from;
        if !bit32(batch.unused, from) {
            lemma_abandoning_keeps_the_rest(ring, batch, from + 1);
        } else if ring.writable(pos) {
            lemma_abandoning_keeps_the_rest(
                ring.freed(pos).producer_tasks_woken(),
                batch.without(pos),
                from + 1,
            );
        } else if ring.consumers_gone {
            lemma_abandoning_keeps_the_rest(ring, batch.without(pos), from + 1);
        }
    }
}

/// How many of the slots below `upto` are published.
pub open spec fn published_count<T>(slots: Seq<Slot<T>>, upto: int) -> nat
    decreases upto,
{
    if upto <= 0 {
        0
    } else {
        published_count(slots, upto - 1) + if slots[upto - 1].phase is Published {
            1nat
        } else {
            0nat
        }
    }
}

/// No more slots are published than there are.
pub proof fn lemma_published_count_bound<T>(slots: Seq<Slot<T>>, upto: int)
    requires
        0 <= upto,
    ensures
        published_count(slots, upto) <= upto,
    decreases upto,
{
    if upto > 0 {
        lemma_published_count_bound(slots, upto - 1);
    }
}

/// Replacing a published slot by one that is not lowers the count by one.
pub proof fn lemma_published_count_falls<T>(slots: Seq<Slot<T>>, s: int, slot: Slot<T>, upto: int)
    requires
        0 <= s < slots.len(),
        0 <= upto <= slots.len(),
        slots[s].phase is Published,
        !(slot.phase is Published),
    ensures
        published_count(slots, upto) <= upto,
        published_count(slots.update(s, slot), upto) == published_count(slots, upto) - if s < upto {
            1int
        } else {
            0int
        },
    decreases upto,
{
    if upto > 0 {
        lemma_published_count_falls(slots, s, slot, upto - 1);
    }
}

/// Replacing a slot that is not published by another such keeps the
/// count.
pub proof fn lemma_published_count_stays<T>(slots: Seq<Slot<T>>, s: int, slot: Slot<T>, upto: int)
    requires
        0 <= s < slots.len(),
        0 <= upto <= slots.len(),
        !(slots[s].phase is Published),
        !(slot.phase is Published),
    ensures
        published_count(slots, upto) <= upto,
        published_count(slots.update(s, slot), upto) == published_count(slots, upto),
    decreases upto,
{
    if upto > 0 {
        lemma_published_count_stays(slots, s, slot, upto - 1);
    }
}

/// A scan finds a published position if there is one among the slots it
/// looks at, and what it finds is published.
pub proof fn lemma_first_published<T>(ring: RingModel<T>, from: int, left: nat)
    requires
        ring.consistent(),
    ensures
        match ring.first_published(from, left) {
            Some(pos) => {
                &&& 0 <= pos < ring.claim
                &&& ring.at(pos).pos == pos
                &&& ring.at(pos).phase is Published
            },
            None => forall|q: int| from <= q < from + left ==> !((#[trigger] ring.at(q)).phase
                is Published),
        },
    decreases left,
{
    if left > 0 {
        lemma_next_lap(from, ring.cap);
        let slot = ring.at(from);
        assert(slot_of(slot.pos as int, ring.cap) == slot_of(from, ring.cap));
        if !(slot.phase is Published) {
            lemma_first_published(ring, from + 1, (left - 1) as nat);
        }
    }
}

/// A consumer finds nothing exactly if nothing is published, wherever its
/// scan starts.
pub proof fn lemma_claimable_iff_published<T>(ring: RingModel<T>, next: usize)
    requires
        ring.consistent(),
    ensures
        ring.claimable(next) is None <==> ring.drained(),
        ring.claimable(next) matches Some(pos) ==> {
            &&& 0 <= pos < ring.claim
            &&& ring.at(pos).pos == pos
            &&& ring.at(pos).phase is Published
        },
{
    lemma_first_published(ring, next as int, ring.cap);
    match ring.claimable(next) {
        Some(pos) => {
            lemma_next_lap(pos, ring.cap);
            assert(ring.slots[slot_of(pos, ring.cap)].phase is Published);
        },
        None => {
            assert forall|s: int| 0 <= s < ring.cap implies !((#[trigger] ring.slots[s]).phase
                is Published) by {
                let q: int = lemma_lap_meets_slot(next as int, ring.cap, s);
                assert(ring.at(q) == ring.slots[s]);
            }
        },
    }
}

/// Every slot serves one of any `cap` positions in a row.
pub proof fn lemma_lap_meets_slot(from: int, cap: nat, s: int) -> (q: int)
    requires
        0 <= s < cap,
    ensures
        from <= q < from + cap,
        slot_of(q, cap) == s,
{
    let c: int = cap as int;
    let shift: int = (s - from) % c;
    let q: int = from + shift;
    vstd::arithmetic::div_mod::lemma_mod_bound(s - from, c);
    vstd::arithmetic::div_mod::lemma_add_mod_noop(from, s - from, c);
    vstd::arithmetic::div_mod::lemma_add_mod_noop_right(from, s - from, c);
    vstd::arithmetic::div_mod::lemma_small_mod(s as nat, cap);
    q
}

/// Draining changes neither who is gone nor the consumer's park slot.
pub proof fn lemma_emptying_keeps_the_rest<T>(
    ring: RingModel<T>,
    scan: Scan,
    flush_at: nat,
    limit: nat,
)
    ensures
        ({
            let (last, end, values) = ring.emptied(scan, flush_at, limit);
            &&& last.producers_gone == ring.producers_gone
            &&& last.consumers_gone == ring.consumers_gone
            &&& last.claim == ring.claim
            &&& last.cap == ring.cap
            &&& end.slot == scan.slot
            &&& values.len() <= limit
        }),
    decreases limit,
{
    if limit > 0 {
        match ring.claimable(scan.next) {
            None => {},
            Some(pos) => {
                let (taken, after) = ring.claimed(scan, flush_at);
                lemma_emptying_keeps_the_rest(
                    taken.freed(pos),
                    after,
                    flush_at,
                    (limit - 1) as nat,
                );
            },
        }
    }
}

/// What [`first_interested`] finds sleeps and gives the wanted answer;
/// a sleeper that gives it is passed over only for one nearer to where
/// the search starts.
proof fn lemma_first_interested(
    wake: u64,
    awaited: Seq<Option<(u64, u32)>>,
    pos: usize,
    wanted: WakeInterest,
    from: int,
    left: nat,
    j: int,
)
    requires
        left <= 64,
    ensures
        first_interested(wake, awaited, pos, wanted, from, left) matches Some(i) ==> bit64(wake, i)
            && interest_in(awaited[i], pos) == wanted,
        bit64(wake, j) && interest_in(awaited[j], pos) == wanted && (j - from) % 64 < left ==> (
        first_interested(wake, awaited, pos, wanted, from, left) matches Some(i) && (i - from) % 64
            <= (j - from) % 64),
    decreases left,
{
    let here: int = from % 64;
    if left > 0 && !(bit64(wake, here) && interest_in(awaited[here], pos) == wanted) {
        lemma_first_interested(wake, awaited, pos, wanted, from + 1, (left - 1) as nat, j);
        lemma_one_step(from, j);
        match first_interested(wake, awaited, pos, wanted, from + 1, (left - 1) as nat) {
            Some(i) => lemma_one_step(from, i),
            None => {},
        }
    }
}

/// A release goes to a sleeping producer that reserved the position, if
/// there is one; else to one that takes anything, if there is one; and
/// never to one that is pinned to other positions.
pub proof fn lemma_routed(park: WakeSet, awaited: Seq<Option<(u64, u32)>>, pos: usize)
    requires
        park.wf(),
    ensures
        match routed(park, awaited, pos) {
            Some(i) => {
                &&& bit64(park.wake, i)
                &&& interest_in(awaited[i], pos) != WakeInterest::Declines
                &&& (exists|j: int|
                    #[trigger] bit64(park.wake, j) && interest_in(awaited[j], pos)
                        == WakeInterest::Reserved) ==> interest_in(awaited[i], pos)
                    == WakeInterest::Reserved
            },
            None => forall|j: int| #[trigger]
                bit64(park.wake, j) ==> interest_in(awaited[j], pos) == WakeInterest::Declines,
        },
{
    let c: int = park.cursor as int;
    assert forall|j: int| #[trigger] bit64(park.wake, j) implies {
        &&& interest_in(awaited[j], pos) == WakeInterest::Reserved ==> first_interested(
            park.wake,
            awaited,
            pos,
            WakeInterest::Reserved,
            c,
            64,
        ) is Some
        &&& interest_in(awaited[j], pos) == WakeInterest::Any ==> first_interested(
            park.wake,
            awaited,
            pos,
            WakeInterest::Any,
            c,
            64,
        ) is Some
    } by {
        lemma_first_interested(park.wake, awaited, pos, WakeInterest::Reserved, c, 64, j);
        lemma_first_interested(park.wake, awaited, pos, WakeInterest::Any, c, 64, j);
    }
    lemma_first_interested(park.wake, awaited, pos, WakeInterest::Reserved, c, 64, 0);
    lemma_first_interested(park.wake, awaited, pos, WakeInterest::Any, c, 64, 0);
}

/// Of the sleepers that answer a release alike, the one that it is routed
/// to is the first from the cursor on, so that they take turns.
pub proof fn lemma_routing_takes_turns(
    park: WakeSet,
    awaited: Seq<Option<(u64, u32)>>,
    pos: usize,
    j: int,
)
    requires
        park.wf(),
    ensures
        routed(park, awaited, pos) matches Some(i) ==> {
            &&& bit64(park.wake, i)
            &&& bit64(park.wake, j) && interest_in(awaited[j], pos) == interest_in(awaited[i], pos)
                ==> (i - park.cursor) % 64 <= (j - park.cursor) % 64
        },
{
    let c: int = park.cursor as int;
    lemma_routed(park, awaited, pos);
    lemma_first_interested(park.wake, awaited, pos, WakeInterest::Reserved, c, 64, j);
    lemma_first_interested(park.wake, awaited, pos, WakeInterest::Any, c, 64, j);
}

} // verus!
