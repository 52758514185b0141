//! The shared "items consumed" watermark and its per-consumer tally.

use vstd::prelude::*;
use vstd::wrapping::usize_specs;

verus! {

/// A lower bound on the number of positions consumers have released.
///
/// Producers subtract it from the claim cursor to bound how many
/// positions they may reserve. The value lags real consumer progress,
/// because each consumer batches its pops privately before publishing
/// them (see [`ConsumedTally`]).
///
/// Lagging is safe in one direction only: an understated watermark
/// overstates how full the ring is, so a producer reserves less than it
/// could and falls back to a per-slot check.
#[derive(Debug)]
pub struct ConsumedWatermark {
    count: usize,
}

impl View for ConsumedWatermark {
    type V = usize;

    /// The published count; it wraps.
    closed spec fn view(&self) -> usize {
        self.count
    }
}

/// The positions that a watermark of `consumed` leaves to reserve when
/// the claim cursor stands at `claim`, or `None` when it accounts for
/// the whole ring. The subtraction wraps, so the answer stays right once
/// `claim` has run past the largest position.
pub open spec fn free_positions(consumed: usize, claim: usize, cap: usize) -> Option<usize> {
    let in_flight: usize = usize_specs::wrapping_sub(claim, consumed);
    if in_flight < cap {
        Some((cap - in_flight) as usize)
    } else {
        None
    }
}

impl ConsumedWatermark {
    pub fn new() -> (watermark: Self)
        ensures
            watermark@ == 0,
    {
        ConsumedWatermark { count: 0 }
    }

    pub fn get(&self) -> (count: usize)
        ensures
            count == self@,
    {
        self.count
    }

    pub fn add(&mut self, count: usize)
        ensures
            final(self)@ == usize_specs::wrapping_add(old(self)@, count),
    {
        self.count = self.count.wrapping_add(count);
    }

    /// Positions a producer may reserve, or `None` when the watermark
    /// accounts for the whole ring.
    ///
    /// `None` is an estimate, not an answer: the watermark is a lower
    /// bound, so consumers may have freed positions it does not yet
    /// reflect. The caller falls back to a per-slot check rather than
    /// treating it as full.
    pub fn free(&self, claim: usize, cap: usize) -> (free: Option<usize>)
        ensures
            free == free_positions(self@, claim, cap),
    {
        let in_flight: usize = claim.wrapping_sub(self.count);
        if in_flight < cap {
            Some(cap - in_flight)
        } else {
            None
        }
    }
}

/// One consumer's unpublished pops.
///
/// Counting privately and publishing once per `flush_at` pops trades a
/// staler watermark for less traffic on a word that every producer
/// reads.
#[derive(Debug)]
pub struct ConsumedTally {
    pending: usize,
}

impl View for ConsumedTally {
    type V = nat;

    /// The pops that are not published yet.
    closed spec fn view(&self) -> nat {
        self.pending as nat
    }
}

impl ConsumedTally {
    pub fn new() -> (tally: Self)
        ensures
            tally@ == 0,
    {
        ConsumedTally { pending: 0 }
    }

    /// Counts one pop, publishing the batch once it reaches `flush_at`.
    pub fn record(&mut self, watermark: &mut ConsumedWatermark, flush_at: usize)
        requires
            old(self)@ < usize::MAX,
        ensures
            old(self)@ + 1 >= flush_at ==> final(self)@ == 0 && final(watermark)@
                == usize_specs::wrapping_add(old(watermark)@, (old(self)@ + 1) as usize),
            old(self)@ + 1 < flush_at ==> final(self)@ == old(self)@ + 1 && final(watermark)@
                == old(watermark)@,
    {
        let pending: usize = self.pending + 1;
        if pending >= flush_at {
            watermark.add(pending);
            self.pending = 0;
        } else {
            self.pending = pending;
        }
    }

    /// Publishes whatever has not reached a flush boundary.
    ///
    /// A departing consumer owes this: its pending count would otherwise
    /// hold the watermark down for the lifetime of the ring.
    pub fn flush(&mut self, watermark: &mut ConsumedWatermark)
        ensures
            final(self)@ == 0,
            final(watermark)@ == usize_specs::wrapping_add(
                old(watermark)@,
                old(self)@ as usize,
            ),
    {
        if self.pending > 0 {
            watermark.add(self.pending);
            self.pending = 0;
        }
    }
}

/// A pop is counted exactly once, whether its batch is published with it
/// or later: the watermark and the tally together grow by one, in the
/// arithmetic of the machine word, and an unpublished tally stays below
/// the flush boundary.
pub proof fn lemma_record_counts_once(
    watermark: usize,
    pending: usize,
    watermark_after: usize,
    pending_after: usize,
    flush_at: usize,
)
    requires
        pending < usize::MAX,
        flush_at >= 1,
        pending + 1 >= flush_at ==> pending_after == 0 && watermark_after
            == usize_specs::wrapping_add(watermark, (pending + 1) as usize),
        pending + 1 < flush_at ==> pending_after == pending + 1 && watermark_after == watermark,
    ensures
        usize_specs::wrapping_add(watermark_after, pending_after) == usize_specs::wrapping_add(
            usize_specs::wrapping_add(watermark, pending),
            1,
        ),
        pending_after < flush_at,
{
}

/// The estimate never promises more than the ring has left: whatever
/// part of the claimed positions the watermark has not accounted for
/// counts as in flight.
pub proof fn lemma_lagging_watermark_is_safe(
    understated: usize,
    consumed: usize,
    claim: usize,
    cap: usize,
)
    requires
        understated <= consumed <= claim,
    ensures
        match free_positions(understated, claim, cap) {
            Some(n) => free_positions(consumed, claim, cap) matches Some(m) && n <= m <= cap,
            None => claim - understated >= cap,
        },
{
}

/// What is free is what the positions in flight leave of the ring: those
/// that were claimed and not consumed, however far the cursors have
/// rolled over. Nothing is said to be free once they fill it.
pub proof fn lemma_free_is_the_rest_of_the_ring(
    consumed: usize,
    claim: usize,
    in_flight: int,
    cap: usize,
)
    requires
        0 <= in_flight <= usize::MAX,
        claim == consumed + in_flight || claim == consumed + in_flight - usize::MAX - 1,
    ensures
        free_positions(consumed, claim, cap) is Some <==> in_flight < cap,
        free_positions(consumed, claim, cap) matches Some(n) ==> n + in_flight == cap,
{
}

} // verus!
