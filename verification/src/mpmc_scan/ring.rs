//! The shared part of the ring, and its abstract state.

use vstd::prelude::*;
use vstd::wrapping::usize_specs;

use crate::capacity::{lemma_next_lap, slot_of, Capacity};
use crate::common::bits::{bit32, bit64, lemma_zero_bits64};
use crate::common::close_state::CloseState;
use crate::common::endpoint_count::EndpointCount;
use crate::common::park_registry::ParkSlot;
use crate::mpmc::consumed_watermark::{ConsumedTally, ConsumedWatermark};
use crate::mpmc::ready_word::ReadyState;
use crate::mpmc::ring_model::{lemma_with_slot, Batch, RingModel, Scan};
use crate::mpmc::slot_table::{
    fresh_slots, live_values, ready_word_of, Phase, Slot, SlotTable,
};
use crate::mpmc_scan::consumer::Consumer;
use crate::mpmc_scan::producer::Producer;

verus! {

/// Positions reserved at a time from the claim cursor.
pub const PRODUCER_BATCH: usize = 32;

/// Pops between two publications of a consumer's private count.
pub const CONSUMED_FLUSH: usize = 64;

/// The state of a ring.
#[verifier::ext_equal]
pub struct ScanModel<T> {
    /// The number of slots.
    pub cap: nat,
    /// The slots, by index.
    pub slots: Seq<Slot<T>>,
    /// The first position that no producer has reserved.
    pub claim: usize,
    /// The published count of consumed positions; it lags and wraps.
    pub consumed: usize,
    /// The live producers.
    pub producers: usize,
    /// Whether the last producer is gone.
    pub closed: bool,
    /// How often a consumer was cloned; it wraps.
    pub clones: usize,
}

impl<T> ScanModel<T> {
    /// A ring of `cap` slots that nothing has happened to.
    pub open spec fn fresh(cap: nat) -> Self {
        ScanModel {
            cap,
            slots: fresh_slots(cap),
            claim: 0,
            consumed: 0,
            producers: 1,
            closed: false,
            clones: 0,
        }
    }

    /// The same slots and cursors as a ring on which nobody ever sleeps.
    pub open spec fn batched(self) -> RingModel<T> {
        RingModel {
            slots: self.slots,
            claim: self.claim,
            consumed: self.consumed,
            ..RingModel::fresh(self.cap)
        }
    }

    /// This ring with the slots and cursors of `ring`.
    pub open spec fn moved_to(self, ring: RingModel<T>) -> Self {
        ScanModel { slots: ring.slots, claim: ring.claim, consumed: ring.consumed, ..self }
    }

    /// The position that a push writes to: the lowest of the batch that
    /// can be written, after a refill if the batch is exhausted.
    pub open spec fn acquirable(self, batch: Batch) -> Option<int> {
        self.batched().acquirable(batch, PRODUCER_BATCH as nat)
    }

    /// The ring and the batch after that attempt.
    pub open spec fn acquired(self, batch: Batch) -> (Self, Batch) {
        let (ring, rest) = self.batched().acquired(batch, PRODUCER_BATCH as nat);
        (self.moved_to(ring), rest)
    }

    /// Whether a push has to be refused: the batch is exhausted and no
    /// position can be reserved.
    pub open spec fn full_for(self, batch: Batch) -> bool {
        batch.unused == 0 && self.batched().refill_size(PRODUCER_BATCH as nat) is None
    }

    /// This ring once `val` is published at `pos`.
    pub open spec fn published(self, pos: int, val: T) -> Self {
        ScanModel {
            slots: self.slots.update(
                slot_of(pos, self.cap),
                Slot { pos: pos as nat, phase: Phase::Published(val) },
            ),
            ..self
        }
    }

    /// This ring once the slot of `pos` goes to the position one lap on.
    pub open spec fn freed(self, pos: int) -> Self {
        ScanModel {
            slots: self.slots.update(
                slot_of(pos, self.cap),
                Slot::open_for((pos + self.cap) as nat),
            ),
            ..self
        }
    }

    /// The ring and the scan after a pop.
    pub open spec fn popped(self, scan: Scan) -> (Self, Scan) {
        let (ring, after) = self.batched().claimed(scan, CONSUMED_FLUSH as nat);
        match self.batched().claimable(scan.next) {
            Some(pos) => (self.moved_to(ring).freed(pos), after),
            None => (self, after),
        }
    }

    /// The ring and the batch once a departing producer has given up the
    /// positions of `batch` from `start + from` on, in order, and whether
    /// it has to wait: a position whose slot still serves an earlier lap
    /// can be given up only once a consumer has released it.
    pub open spec fn abandoned(self, batch: Batch, from: int) -> (Self, Batch, bool)
        decreases 32 - from,
    {
        if from >= 32 {
            (self, batch, false)
        } else if !bit32(batch.unused, from) {
            self.abandoned(batch, from + 1)
        } else {
            let pos: int = batch.start + from;
            if self.batched().writable(pos) {
                self.freed(pos).abandoned(batch.without(pos), from + 1)
            } else {
                (self, batch, true)
            }
        }
    }
}

/// A ring on which nobody sleeps has its waiters in order.
pub proof fn lemma_idle_waiters()
    ensures
        crate::common::park::WakeSet::idle().wf(),
{
    assert forall|i: int| !(#[trigger] bit64(0, i)) by {
        lemma_zero_bits64(i);
    }
}

/// A multi-producer, multi-consumer ring without parking.
#[derive(Debug)]
pub struct RingBuffer<T> {
    table: SlotTable<T>,
    claim: usize,
    consumed: ConsumedWatermark,
    producer_count: EndpointCount,
    clone_counter: usize,
    closed: CloseState,
}

impl<T> View for RingBuffer<T> {
    type V = ScanModel<T>;

    closed spec fn view(&self) -> ScanModel<T> {
        ScanModel {
            cap: self.table.cap(),
            slots: self.table@,
            claim: self.claim,
            consumed: self.consumed@,
            producers: self.producer_count.live,
            closed: self.closed.closed,
            clones: self.clone_counter,
        }
    }
}

impl<T> RingBuffer<T> {
    /// The words of the slots are in order.
    pub closed spec fn parts_wf(&self) -> bool {
        self.table.wf()
    }

    pub open spec fn wf(&self) -> bool {
        &&& self.parts_wf()
        &&& self@.batched().consistent()
        &&& self@.closed == (self@.producers == 0)
    }

    /// Creates a ring. Fewer than four slots cannot tell the states of a
    /// slot apart.
    #[must_use]
    pub fn new(capacity: Capacity) -> (ring: Self)
        requires
            capacity.wf(),
            capacity@ >= 4,
        ensures
            ring.wf(),
            ring@ == ScanModel::<T>::fresh(capacity@),
    {
        proof {
            capacity.lemma_bounds();
            capacity.lemma_half_the_word();
            lemma_idle_waiters();
        }
        let ring = RingBuffer {
            table: SlotTable::new(capacity),
            claim: 0,
            consumed: ConsumedWatermark::new(),
            producer_count: EndpointCount::new(),
            clone_counter: 0,
            closed: CloseState::new(),
        };
        proof {
            ring.table.lemma_shape();
        }
        ring
    }

    /// Whether the positions of the next batch and of the three laps after
    /// it fit the machine word.
    pub fn has_headroom(&self) -> (fits: bool)
        requires
            self.wf(),
        ensures
            fits == self@.batched().headroom(),
    {
        let cap: usize = self.capacity();
        cap <= (usize::MAX - 64) / 3 && self.claim <= usize::MAX - 64 - 3 * cap
    }

    /// The number of slots.
    pub fn capacity(&self) -> (cap: usize)
        requires
            self.wf(),
        ensures
            cap == self@.cap,
    {
        self.table.capacity().get()
    }

    /// The index of the slot that serves `pos`.
    pub(crate) fn index_of(&self, pos: usize) -> (index: usize)
        requires
            self.wf(),
        ensures
            index == slot_of(pos as int, self@.cap),
    {
        self.table.capacity().index_of(pos)
    }

    /// Hands out the first producer and the first consumer. Both can be
    /// cloned.
    pub fn split(&mut self) -> (handles: (Producer<T>, Consumer<T>))
        requires
            old(self).wf(),
            old(self)@ == ScanModel::<T>::fresh(old(self)@.cap),
        ensures
            final(self).wf(),
            final(self)@ == old(self)@,
            handles.0@ == (Batch { start: 0, unused: 0, size: 0, slot: ParkSlot::Slotless }),
            handles.0.attached(final(self)),
            handles.1@ == (Scan { next: 0, pending: 0, slot: ParkSlot::Slotless }),
            handles.1.wf(),
    {
        (Producer::new(), Consumer::new(0))
    }

    /// Diagnostic snapshot: the claim cursor and the `ready` and `done`
    /// words of every slot.
    pub fn debug_snapshot(&self) -> (snapshot: (usize, Vec<usize>, Vec<usize>))
        requires
            self.wf(),
        ensures
            snapshot.0 == self@.claim,
            snapshot.1@.len() == self@.cap,
            snapshot.2@.len() == self@.cap,
            forall|s: int|
                0 <= s < self@.cap ==> #[trigger] snapshot.1@[s] == ready_word_of(
                    self@.slots[s],
                    self@.cap,
                ),
            forall|s: int| 0 <= s < self@.cap ==> #[trigger] snapshot.2@[s] == self@.slots[s].pos,
    {
        let (ready, done) = self.table.words();
        assert forall|s: int| 0 <= s < self@.cap implies #[trigger] ready@[s] == ready_word_of(
            self@.slots[s],
            self@.cap,
        ) by {
            assert(done@[s] == self@.slots[s].pos);
        }
        (self.claim, ready, done)
    }

    /// Tears the ring down, handing back in slot order each value that
    /// was published and that no consumer has taken.
    pub fn drop(self) -> (left: Vec<T>)
        requires
            self.wf(),
            self@.batched().headroom(),
        ensures
            left@ == live_values(self@.slots, self@.cap as int),
    {
        proof {
            assert forall|i: int| 0 <= i < self.table.cap() implies (#[trigger] self.table@[i]).pos
                + self.table.cap() <= usize::MAX by {
                assert(self@.batched().slots[i].pos < self@.claim + self@.cap);
            }
        }
        self.table.into_live_values()
    }

    /// How many positions a producer gets now.
    pub(crate) fn refill_size(&self) -> (size: Option<usize>)
        requires
            self.wf(),
        ensures
            match size {
                Some(n) => self@.batched().refill_size(PRODUCER_BATCH as nat) == Some(n as nat),
                None => self@.batched().refill_size(PRODUCER_BATCH as nat) is None,
            },
    {
        match self.consumed.free(self.claim, self.capacity()) {
            Some(free) => Some(
                if free <= PRODUCER_BATCH {
                    free
                } else {
                    PRODUCER_BATCH
                },
            ),
            None => if self.table.is_free_for(self.claim) {
                Some(1)
            } else {
                None
            },
        }
    }

    /// The first position that no producer has reserved.
    pub(crate) fn claim_cursor(&self) -> (claim: usize)
        ensures
            claim == self@.claim,
    {
        self.claim
    }

    /// Reserves the next `n` positions.
    pub(crate) fn claim_up(&mut self, n: usize)
        requires
            old(self).wf(),
            old(self)@.claim + n <= usize::MAX,
        ensures
            final(self).wf(),
            final(self)@ == (ScanModel { claim: (old(self)@.claim + n) as usize, ..old(self)@ }),
    {
        self.claim = self.claim + n;
        assert forall|s: int| 0 <= s < self@.cap implies {
            &&& (#[trigger] self@.batched().slots[s]).pos < self@.claim + self@.cap
            &&& self@.slots[s].pos >= self@.claim ==> self@.slots[s].phase == Phase::<T>::Open(None)
        } by {
            assert(old(self)@.batched().slots[s].pos < old(self)@.claim + old(self)@.cap);
        }
    }

    /// Whether the owner of `pos` can write now.
    pub(crate) fn is_writable(&self, pos: usize) -> (writable: bool)
        requires
            self.wf(),
        ensures
            writable == self@.batched().writable(pos as int),
    {
        self.table.is_free_for(pos)
    }

    /// Writes `val` at `pos` and publishes it.
    pub(crate) fn publish(&mut self, pos: usize, val: T)
        requires
            old(self).wf(),
            old(self)@.batched().honours(pos as int),
            old(self)@.batched().writable(pos as int),
        ensures
            final(self).wf(),
            final(self)@ == old(self)@.published(pos as int, val),
    {
        proof {
            lemma_with_slot(
                self@.batched(),
                pos as int,
                Slot { pos: pos as nat, phase: Phase::Published(val) },
            );
        }
        self.table.stage(pos, val);
        self.table.publish(pos);
        proof {
            let s = slot_of(pos as int, old(self)@.cap);
            assert(self@ =~= old(self)@.published(pos as int, val));
            assert(self@.batched() =~= old(self)@.batched().with_slot(
                pos as int,
                Slot { pos: pos as nat, phase: Phase::Published(val) },
            ));
        }
    }

    /// The decoded state of the slot that serves `pos`.
    pub(crate) fn state(&self, pos: usize) -> (state: ReadyState)
        requires
            self.wf(),
        ensures
            match self@.batched().at(pos as int).phase {
                Phase::Published(_) => state == ReadyState::Published(
                    self@.batched().at(pos as int).pos as usize,
                ),
                Phase::Taken(_) => state == ReadyState::Claimed(
                    self@.batched().at(pos as int).pos as usize,
                ),
                Phase::Open(_) => !(state is Published),
            },
            self@.batched().at(pos as int).pos <= usize::MAX,
    {
        proof {
            self.table.lemma_shape();
            lemma_next_lap(pos as int, self@.cap);
        }
        self.table.state(pos)
    }

    /// Tries to take the value published at `round_pos`: claims it, moves
    /// it out, and hands the slot to the next lap.
    pub(crate) fn take(&mut self, round_pos: usize) -> (val: Option<T>)
        requires
            old(self).wf(),
            old(self)@.batched().headroom(),
            round_pos + 2 <= usize::MAX,
        ensures
            final(self).wf(),
            ({
                let slot = old(self)@.batched().at(round_pos as int);
                if slot.pos == round_pos && slot.phase is Published {
                    &&& val == Some(slot.value())
                    &&& final(self)@ == old(self)@.freed(round_pos as int)
                } else {
                    &&& val is None
                    &&& final(self)@ == old(self)@
                }
            }),
    {
        proof {
            lemma_next_lap(round_pos as int, self@.cap);
        }
        if !self.table.claim(round_pos) {
            return None;
        }
        proof {
            assert(old(self)@.batched().slots[slot_of(round_pos as int, old(self)@.cap)].pos
                == round_pos);
            lemma_with_slot(
                old(self)@.batched(),
                round_pos as int,
                Slot::open_for((round_pos + old(self)@.cap) as nat),
            );
        }
        let val: T = self.table.release(round_pos);
        proof {
            assert(self@ =~= old(self)@.freed(round_pos as int));
            assert(self@.batched() =~= old(self)@.batched().with_slot(
                round_pos as int,
                Slot::open_for((round_pos + old(self)@.cap) as nat),
            ));
        }
        Some(val)
    }

    /// Gives up the reservation of `pos`.
    pub(crate) fn abandon(&mut self, pos: usize)
        requires
            old(self).wf(),
            old(self)@.batched().headroom(),
            old(self)@.batched().honours(pos as int),
            old(self)@.batched().writable(pos as int),
        ensures
            final(self).wf(),
            final(self)@ == old(self)@.freed(pos as int),
    {
        proof {
            lemma_next_lap(pos as int, self@.cap);
            lemma_with_slot(
                self@.batched(),
                pos as int,
                Slot::open_for((pos + self@.cap) as nat),
            );
        }
        self.table.abandon(pos);
        assert(self@.batched() =~= old(self)@.batched().with_slot(
            pos as int,
            Slot::open_for((pos + old(self)@.cap) as nat),
        ));
    }

    /// Counts one pop of a consumer.
    pub(crate) fn count_pop(&mut self, tally: &mut ConsumedTally)
        requires
            old(self).wf(),
            old(tally)@ < CONSUMED_FLUSH,
        ensures
            final(self).wf(),
            ({
                let (counted, pending) = old(self)@.batched().counted(
                    old(tally)@,
                    CONSUMED_FLUSH as nat,
                );
                &&& final(self)@ == (ScanModel { consumed: counted.consumed, ..old(self)@ })
                &&& final(tally)@ == pending
            }),
            final(tally)@ < CONSUMED_FLUSH,
    {
        tally.record(&mut self.consumed, CONSUMED_FLUSH);
    }

    /// Publishes what is left of a consumer's tally.
    pub(crate) fn flush_tally(&mut self, tally: &mut ConsumedTally)
        requires
            old(self).wf(),
        ensures
            final(self).wf(),
            final(tally)@ == 0,
            final(self)@ == (ScanModel {
                consumed: usize_specs::wrapping_add(old(self)@.consumed, old(tally)@ as usize),
                ..old(self)@
            }),
    {
        tally.flush(&mut self.consumed);
    }

    /// Whether the last producer is gone.
    pub(crate) fn is_closed(&self) -> (closed: bool)
        ensures
            closed == self@.closed,
    {
        self.closed.is_closed()
    }

    /// Registers one more producer.
    pub(crate) fn join_producer(&mut self)
        requires
            old(self).wf(),
            0 < old(self)@.producers < usize::MAX,
        ensures
            final(self).wf(),
            final(self)@ == (ScanModel {
                producers: (old(self)@.producers + 1) as usize,
                ..old(self)@
            }),
    {
        self.producer_count.register();
    }

    /// Counts a clone of a consumer.
    pub(crate) fn count_clone(&mut self) -> (n: usize)
        requires
            old(self).wf(),
        ensures
            final(self).wf(),
            n == final(self)@.clones,
            final(self)@ == (ScanModel {
                clones: usize_specs::wrapping_add(old(self)@.clones, 1),
                ..old(self)@
            }),
    {
        self.clone_counter = self.clone_counter.wrapping_add(1);
        self.clone_counter
    }

    /// Lets a producer go; the last one closes the ring.
    pub(crate) fn leave_producer(&mut self)
        requires
            old(self).wf(),
            old(self)@.producers > 0,
        ensures
            final(self).wf(),
            final(self)@ == (ScanModel {
                producers: (old(self)@.producers - 1) as usize,
                closed: old(self)@.closed || old(self)@.producers == 1,
                ..old(self)@
            }),
    {
        if self.producer_count.release() {
            self.closed.close();
        }
    }
}

} // verus!
