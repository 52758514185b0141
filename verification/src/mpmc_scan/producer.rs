//! The producing end of the ring.

use core::marker::PhantomData;

use vstd::prelude::*;

use crate::common::bits::{bit32, has_bit32, lemma_zero_bits32, without_bit32};
use crate::common::park_registry::ParkSlot;
use crate::mpmc::producer::full_batch_of;
use crate::mpmc::ring_model::{
    lemma_backs_by_slots, lemma_first_writable, lemma_full_batch, lemma_publishing_disturbs_nobody,
    lemma_refill_is_backed, lemma_releasing_disturbs_nobody, lemma_with_slot, Batch,
};
use crate::mpmc::slot_table::{Phase, Slot};
use crate::mpmc_scan::ring::{RingBuffer, ScanModel, PRODUCER_BATCH};

verus! {

/// Why a push did not go in, with the value it was for.
#[derive(Debug)]
pub enum Refused<T> {
    /// The ring is full from this producer's point of view: its batch is
    /// exhausted and nothing can be reserved.
    Full(T),
    /// Every position of its batch is held up by a consumer. The producer
    /// waits for the lowest with [`Producer::push_primary`].
    Held(T),
}

/// A producer of the ring; it can be cloned.
///
/// Each producer reserves a batch of positions in one go and publishes
/// into them out of order, using the lowest whose slot has been released.
#[derive(Debug)]
pub struct Producer<T> {
    batch_start: usize,
    batch_unused: u32,
    batch_size: u32,
    _ring: PhantomData<T>,
}

impl<T> View for Producer<T> {
    type V = Batch;

    closed spec fn view(&self) -> Batch {
        Batch {
            start: self.batch_start,
            unused: self.batch_unused,
            size: self.batch_size,
            slot: ParkSlot::Slotless,
        }
    }
}

/// The lowest position of `batch` at or above `start + from`.
pub open spec fn primary_from(batch: Batch, from: int) -> Option<int>
    decreases 32 - from,
{
    if from >= 32 {
        None
    } else if bit32(batch.unused, from) {
        Some(batch.start + from)
    } else {
        primary_from(batch, from + 1)
    }
}

impl<T> Producer<T> {
    /// Whether this is a producer of `ring`: the ring honours what it has
    /// reserved.
    pub open spec fn attached(&self, ring: &RingBuffer<T>) -> bool {
        ring@.batched().backs(self@)
    }

    pub(crate) fn new() -> (producer: Self)
        ensures
            producer@ == (Batch { start: 0, unused: 0, size: 0, slot: ParkSlot::Slotless }),
            forall|pos: int| !(#[trigger] producer@.reserves(pos)),
    {
        proof {
            assert forall|i: int| !(#[trigger] bit32(0, i)) by {
                lemma_zero_bits32(i);
            }
        }
        Producer { batch_start: 0, batch_unused: 0, batch_size: 0, _ring: PhantomData }
    }

    /// Makes another producer of the ring, with a batch of its own.
    pub fn clone(&self, ring: &mut RingBuffer<T>) -> (producer: Self)
        requires
            old(ring).wf(),
            self.attached(old(ring)),
            0 < old(ring)@.producers < usize::MAX,
        ensures
            final(ring).wf(),
            final(ring)@ == (ScanModel {
                producers: (old(ring)@.producers + 1) as usize,
                ..old(ring)@
            }),
            producer@ == (Batch { start: 0, unused: 0, size: 0, slot: ParkSlot::Slotless }),
            producer.attached(final(ring)),
            self.attached(final(ring)),
            self@.disjoint(producer@),
    {
        ring.join_producer();
        proof {
            lemma_backs_by_slots(old(ring)@.batched(), ring@.batched(), self@);
        }
        Producer::new()
    }

    /// Refills an exhausted batch, and tells whether anything could be
    /// reserved.
    fn refill_batch(&mut self, ring: &mut RingBuffer<T>) -> (refilled: bool)
        requires
            old(ring).wf(),
            old(ring)@.batched().headroom(),
            old(self).attached(old(ring)),
            old(self)@.unused == 0,
        ensures
            final(ring).wf(),
            ({
                let (after, batch) = old(ring)@.batched().refilled(
                    old(self)@,
                    PRODUCER_BATCH as nat,
                );
                &&& final(ring)@ == old(ring)@.moved_to(after)
                &&& final(ring)@.batched() == after
                &&& final(self)@ == batch
            }),
            refilled == !old(ring)@.full_for(old(self)@),
            refilled ==> final(self)@.unused != 0,
            final(self).attached(final(ring)),
    {
        match ring.refill_size() {
            None => false,
            Some(n) => {
                proof {
                    lemma_refill_is_backed(ring@.batched(), n as nat, self@);
                    lemma_full_batch(n as nat);
                }
                let start: usize = ring.claim_cursor();
                ring.claim_up(n);
                self.batch_start = start;
                self.batch_unused = full_batch_of(n);
                self.batch_size = n as u32;
                assert(ring@.batched() =~= old(ring)@.batched().claimed_up(n as nat));
                true
            },
        }
    }

    /// Pushes a value. Refills an exhausted batch first, and writes to the
    /// lowest position of the batch whose slot has been released, even if
    /// one below it is still held up.
    pub fn push(&mut self, ring: &mut RingBuffer<T>, val: T) -> (result: Result<(), Refused<T>>)
        requires
            old(ring).wf(),
            old(ring)@.batched().headroom(),
            old(self).attached(old(ring)),
        ensures
            final(ring).wf(),
            final(self).attached(final(ring)),
            ({
                let (acquired, rest) = old(ring)@.acquired(old(self)@);
                &&& final(self)@ == rest
                &&& match old(ring)@.acquirable(old(self)@) {
                    Some(pos) => {
                        &&& result is Ok
                        &&& final(ring)@ == acquired.published(pos, val)
                    },
                    None => {
                        &&& result == Err::<(), Refused<T>>(
                            if old(ring)@.full_for(old(self)@) {
                                Refused::Full(val)
                            } else {
                                Refused::Held(val)
                            },
                        )
                        &&& final(ring)@ == acquired
                    },
                }
            }),
    {
        if self.batch_unused == 0 {
            if !self.refill_batch(ring) {
                proof {
                    assert forall|i: int| !(#[trigger] bit32(self@.unused, i)) by {
                        lemma_zero_bits32(i);
                    }
                    lemma_first_writable(ring@.batched(), self@, 0);
                }
                return Err(Refused::Full(val));
            }
        }
        let ghost full = self@;
        let ghost refilled = ring@;
        assert(refilled.batched() == old(ring)@.batched().refilled(
            old(self)@,
            PRODUCER_BATCH as nat,
        ).0);
        let mut bit: u32 = 0;
        while bit < 32
            invariant
                bit <= 32,
                self@ == full,
                ring@ == refilled,
                ring.wf(),
                self.attached(ring),
                refilled == old(ring)@.moved_to(refilled.batched()),
                (refilled.batched(), full) == old(ring)@.batched().refilled(
                    old(self)@,
                    PRODUCER_BATCH as nat,
                ),
                ring@.batched().first_writable(full, 0) == ring@.batched().first_writable(
                    full,
                    bit as int,
                ),
                !old(ring)@.full_for(old(self)@),
            decreases 32 - bit,
        {
            if has_bit32(self.batch_unused, bit) {
                assert(full.reserves(full.start + bit));
                let pos: usize = self.batch_start + bit as usize;
                if ring.is_writable(pos) {
                    self.write_at(ring, bit, pos, val);
                    return Ok(());
                }
            }
            bit = bit + 1;
        }
        Err(Refused::Held(val))
    }

    /// Publishes `val` at `pos`, taking its bit out of the batch.
    fn write_at(&mut self, ring: &mut RingBuffer<T>, bit: u32, pos: usize, val: T)
        requires
            old(ring).wf(),
            old(self).attached(old(ring)),
            bit < 32,
            bit32(old(self)@.unused, bit as int),
            pos == old(self)@.start + bit,
            old(ring)@.batched().writable(pos as int),
        ensures
            final(ring).wf(),
            final(self)@ == old(self)@.without(pos as int),
            final(self).attached(final(ring)),
            final(ring)@ == old(ring)@.published(pos as int, val),
    {
        let ghost before = ring@.batched();
        proof {
            assert(self@.reserves(pos as int));
            lemma_publishing_disturbs_nobody(before, pos as int, Some(val));
            lemma_with_slot(
                before,
                pos as int,
                Slot { pos: pos as nat, phase: Phase::Open(Some(val)) },
            );
            let staged = before.staged(pos as int, Some(val));
            lemma_publishing_disturbs_nobody(staged, pos as int, None);
        }
        self.batch_unused = without_bit32(self.batch_unused, bit);
        ring.publish(pos, val);
        proof {
            let staged = before.staged(pos as int, Some(val));
            let after = staged.published(pos as int);
            assert(after.slots =~= ring@.slots);
            assert forall|q: int| #[trigger] self@.reserves(q) implies ring@.batched().honours(
                q,
            ) by {
                assert(old(self)@.reserves(q) && q != pos);
                assert(before.honours(q));
                assert(after.honours(q));
            }
        }
    }

    /// Waits one step for the lowest position of the batch: publishes
    /// there if its slot has been released, else hands the value back to
    /// be tried again.
    pub fn push_primary(&mut self, ring: &mut RingBuffer<T>, val: T) -> (result: Result<(), T>)
        requires
            old(ring).wf(),
            old(self).attached(old(ring)),
            old(self)@.unused != 0,
        ensures
            final(ring).wf(),
            final(self).attached(final(ring)),
            match primary_from(old(self)@, 0) {
                Some(pos) => if old(ring)@.batched().writable(pos) {
                    &&& result is Ok
                    &&& final(self)@ == old(self)@.without(pos)
                    &&& final(ring)@ == old(ring)@.published(pos, val)
                } else {
                    &&& result == Err::<(), T>(val)
                    &&& final(self)@ == old(self)@
                    &&& final(ring)@ == old(ring)@
                },
                None => false,
            },
    {
        let mut bit: u32 = 0;
        while bit < 32 && !has_bit32(self.batch_unused, bit)
            invariant
                bit <= 32,
                self@.unused == old(self)@.unused,
                primary_from(self@, 0) == primary_from(self@, bit as int),
                forall|i: int| 0 <= i < bit ==> !(#[trigger] bit32(self@.unused, i)),
            decreases 32 - bit,
        {
            bit = bit + 1;
        }
        proof {
            if bit == 32 {
                assert forall|i: int| !(#[trigger] bit32(self@.unused, i)) by {}
                crate::common::bits::lemma_no_bits32(self@.unused);
            }
            assert(self@.reserves(self@.start + bit));
        }
        let pos: usize = self.batch_start + bit as usize;
        if ring.is_writable(pos) {
            self.write_at(ring, bit, pos, val);
            Ok(())
        } else {
            Err(val)
        }
    }

    /// Lets this producer go: gives up the positions that it reserved and
    /// never used, and closes the ring if it was the last.
    ///
    /// A position can be given up only once its slot has been released by
    /// the consumer of the lap before. Until then the producer comes back
    /// with what is left of its batch, and the call has to be made again.
    pub fn drop(self, ring: &mut RingBuffer<T>) -> (result: Result<(), Self>)
        requires
            old(ring).wf(),
            old(ring)@.batched().headroom(),
            old(ring)@.producers > 0,
            self.attached(old(ring)),
        ensures
            final(ring).wf(),
            ({
                let (abandoned, batch, blocked) = old(ring)@.abandoned(self@, 0);
                if blocked {
                    &&& result matches Err(left) && left@ == batch && left.attached(final(ring))
                    &&& final(ring)@ == abandoned
                } else {
                    &&& result is Ok
                    &&& final(ring)@ == (ScanModel {
                        producers: (abandoned.producers - 1) as usize,
                        closed: abandoned.closed || abandoned.producers == 1,
                        ..abandoned
                    })
                }
            }),
    {
        let mut this: Self = self;
        let mut bit: u32 = 0;
        while bit < 32
            invariant
                bit <= 32,
                ring.wf(),
                ring@.batched().headroom(),
                ring@.producers == old(ring)@.producers,
                this.attached(ring),
                old(ring)@.abandoned(self@, 0) == ring@.abandoned(this@, bit as int),
            decreases 32 - bit,
        {
            if has_bit32(this.batch_unused, bit) {
                assert(this@.reserves(this@.start + bit));
                let pos: usize = this.batch_start + bit as usize;
                if !ring.is_writable(pos) {
                    return Err(this);
                }
                let ghost before = ring@.batched();
                let ghost batch = this@;
                proof {
                    lemma_releasing_disturbs_nobody(before, pos as int);
                }
                ring.abandon(pos);
                this.batch_unused = without_bit32(this.batch_unused, bit);
                assert(ring@.slots == before.freed(pos as int).slots);
                assert forall|q: int| #[trigger] this@.reserves(q) implies ring@.batched().honours(
                    q,
                ) by {
                    assert(batch.reserves(q) && q != pos);
                    assert(before.honours(q));
                    assert(before.freed(pos as int).honours(q));
                }
            }
            bit = bit + 1;
        }
        ring.leave_producer();
        Ok(())
    }
}

} // verus!
