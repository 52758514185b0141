//! The consuming end of the ring.

use core::marker::PhantomData;

use vstd::prelude::*;
use vstd::wrapping::usize_specs;

use crate::capacity::lemma_next_lap;
use crate::common::park_registry::ParkSlot;
use crate::mpmc::consumed_watermark::ConsumedTally;
use crate::mpmc::consumer::stagger;
use crate::mpmc::ready_word::ReadyState;
use crate::mpmc::ring_model::{lemma_claimable_iff_published, lemma_first_published, Scan};
use crate::mpmc::slot_table::ready_word_of;
use crate::mpmc_scan::ring::{RingBuffer, ScanModel, CONSUMED_FLUSH};

verus! {

/// A consumer of the ring; it can be cloned.
///
/// Each consumer keeps a private scan cursor and walks the slots from
/// there, taking the first published value it finds.
#[derive(Debug)]
pub struct Consumer<T> {
    next_scan: usize,
    local_consumed: ConsumedTally,
    _ring: PhantomData<T>,
}

impl<T> View for Consumer<T> {
    type V = Scan;

    closed spec fn view(&self) -> Scan {
        Scan { next: self.next_scan, pending: self.local_consumed@, slot: ParkSlot::Slotless }
    }
}

impl<T> Consumer<T> {
    /// The tally is below the flush boundary.
    pub open spec fn wf(&self) -> bool {
        self@.pending < CONSUMED_FLUSH
    }

    pub(crate) fn new(next_scan: usize) -> (consumer: Self)
        ensures
            consumer@ == (Scan { next: next_scan, pending: 0, slot: ParkSlot::Slotless }),
    {
        Consumer { next_scan, local_consumed: ConsumedTally::new(), _ring: PhantomData }
    }

    /// Makes another consumer of the ring, with a scan that starts further
    /// on.
    pub fn clone(&self, ring: &mut RingBuffer<T>) -> (consumer: Self)
        requires
            old(ring).wf(),
        ensures
            final(ring).wf(),
            final(ring)@ == (ScanModel {
                clones: usize_specs::wrapping_add(old(ring)@.clones, 1),
                ..old(ring)@
            }),
            consumer@.next == stagger(final(ring)@.clones, final(ring)@.cap),
            consumer@.pending == 0,
            consumer.wf(),
    {
        let n: usize = ring.count_clone();
        let cap: usize = ring.capacity();
        let apart: usize = if cap / 8 >= 1 {
            cap / 8
        } else {
            1
        };
        Consumer::new(ring.index_of(n.wrapping_mul(apart)))
    }

    /// Pops the first published value that a scan of the whole ring meets,
    /// or tells that nothing is published. A pop moves the scan past the
    /// value's position; a lap without one moves it by the lap.
    pub fn pop(&mut self, ring: &mut RingBuffer<T>) -> (val: Option<T>)
        requires
            old(ring).wf(),
            old(ring)@.batched().headroom(),
            old(self).wf(),
            old(self)@.next + old(ring)@.cap <= usize::MAX,
        ensures
            final(ring).wf(),
            final(self).wf(),
            (final(ring)@, final(self)@) == old(ring)@.popped(old(self)@),
            val == (match old(ring)@.batched().claimable(old(self)@.next) {
                Some(pos) => Some(old(ring)@.batched().at(pos).value()),
                None => None,
            }),
            val is None <==> old(ring)@.batched().drained(),
    {
        let cap: usize = ring.capacity();
        let start: usize = self.next_scan;
        let mut iters: usize = 0;
        proof {
            lemma_claimable_iff_published(ring@.batched(), start);
        }
        while iters < cap
            invariant
                iters <= cap,
                cap == ring@.cap,
                start == self@.next,
                start + cap <= usize::MAX,
                ring.wf(),
                ring@.batched().headroom(),
                ring@ == old(ring)@,
                self@ == old(self)@,
                self.wf(),
                old(ring)@.batched().claimable(start) == ring@.batched().first_published(
                    start + iters,
                    (cap - iters) as nat,
                ),
                old(ring)@.batched().claimable(start) is None <==> old(ring)@.batched().drained(),
            decreases cap - iters,
        {
            let seen: ReadyState = ring.state(start + iters);
            proof {
                let batched = ring@.batched();
                lemma_next_lap(start + iters, ring@.cap);
                assert(batched.at(start + iters).pos < batched.claim + batched.cap);
                lemma_first_published(batched, start + iters, (cap - iters) as nat);
            }
            if seen.is_published() {
                let round_pos: usize = seen.round_pos();
                match ring.take(round_pos) {
                    Some(val) => {
                        self.next_scan = if round_pos >= start {
                            round_pos + 1
                        } else {
                            start + 1
                        };
                        ring.count_pop(&mut self.local_consumed);
                        assert(ring@ =~= old(ring)@.popped(old(self)@).0);
                        return Some(val);
                    },
                    None => {},
                }
            }
            iters = iters + 1;
        }
        self.next_scan = start + cap;
        None
    }

    /// A rough length: how far the claim cursor is ahead of this
    /// consumer's scan, at most the capacity. The distance wraps.
    pub fn approx_len(&self, ring: &RingBuffer<T>) -> (len: usize)
        requires
            ring.wf(),
        ensures
            ({
                let ahead = usize_specs::wrapping_sub(ring@.claim, self@.next);
                len == if ahead <= ring@.cap {
                    ahead as nat
                } else {
                    ring@.cap
                }
            }),
    {
        let ahead: usize = ring.claim_cursor().wrapping_sub(self.next_scan);
        let cap: usize = ring.capacity();
        if ahead <= cap {
            ahead
        } else {
            cap
        }
    }

    /// Whether the positions of the next lap of the scan fit the machine
    /// word.
    pub fn has_scan_room(&self, ring: &RingBuffer<T>) -> (fits: bool)
        requires
            ring.wf(),
        ensures
            fits == (self@.next + ring@.cap <= usize::MAX),
    {
        self.next_scan <= usize::MAX - ring.capacity()
    }

    /// Whether the last producer is gone.
    pub fn is_closed(&self, ring: &RingBuffer<T>) -> (closed: bool)
        ensures
            closed == ring@.closed,
    {
        ring.is_closed()
    }

    /// Diagnostic snapshot: where the scan starts, the claim cursor, and
    /// the `ready` and `done` words of every slot.
    pub fn debug_snapshot(&self, ring: &RingBuffer<T>) -> (snapshot: (
        usize,
        usize,
        Vec<usize>,
        Vec<usize>,
    ))
        requires
            ring.wf(),
        ensures
            snapshot.0 == self@.next,
            snapshot.1 == ring@.claim,
            snapshot.2@.len() == ring@.cap,
            snapshot.3@.len() == ring@.cap,
            forall|s: int|
                0 <= s < ring@.cap ==> #[trigger] snapshot.2@[s] == ready_word_of(
                    ring@.slots[s],
                    ring@.cap,
                ),
            forall|s: int| 0 <= s < ring@.cap ==> #[trigger] snapshot.3@[s] == ring@.slots[s].pos,
    {
        let (claim, ready, done) = ring.debug_snapshot();
        (self.next_scan, claim, ready, done)
    }

    /// Lets this consumer go: publishes the rest of its tally, so that the
    /// watermark does not stay too low for ever.
    pub fn drop(self, ring: &mut RingBuffer<T>)
        requires
            old(ring).wf(),
        ensures
            final(ring).wf(),
            final(ring)@ == (ScanModel {
                consumed: usize_specs::wrapping_add(
                    old(ring)@.consumed,
                    self@.pending as usize,
                ),
                ..old(ring)@
            }),
    {
        let mut tally: ConsumedTally = self.local_consumed;
        ring.flush_tally(&mut tally);
    }
}

} // verus!
