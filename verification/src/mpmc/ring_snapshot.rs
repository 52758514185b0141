//! A reading of all the words of a ring, for reporting a stalled one.

use vstd::prelude::*;

use crate::common::bits::{bit64, has_bit64};
use crate::common::park_registry::PARK_SLOTS;
use crate::mpmc::config::Config;
use crate::mpmc::ring::RingBuffer;
use crate::mpmc::slot_table::ready_word_of;

verus! {

/// Every word that a stalled ring can be diagnosed from.
#[derive(Debug)]
pub struct RingSnapshot {
    pub claim: usize,
    pub ready: Vec<usize>,
    pub done: Vec<usize>,
    /// The bitmaps of the sleeping producers and consumers.
    pub producer_park: u64,
    pub consumer_park: u64,
    /// The park slot of each sleeping producer and what it has announced.
    pub awaited: Vec<(usize, Option<(u64, u32)>)>,
}

/// The slots of `mask` below `upto`, lowest first, each with what was
/// announced there.
pub open spec fn announcements(
    mask: u64,
    awaited: Seq<Option<(u64, u32)>>,
    upto: int,
) -> Seq<(usize, Option<(u64, u32)>)>
    decreases upto,
{
    if upto <= 0 {
        Seq::empty()
    } else if bit64(mask, upto - 1) {
        announcements(mask, awaited, upto - 1).push(((upto - 1) as usize, awaited[upto - 1]))
    } else {
        announcements(mask, awaited, upto - 1)
    }
}

impl RingSnapshot {
    /// Reads the words of `ring`.
    pub fn take<T, C: Config>(ring: &RingBuffer<T, C>) -> (snapshot: Self)
        requires
            ring.wf(),
        ensures
            snapshot.claim == ring@.claim,
            snapshot.ready@ == Seq::new(
                ring@.cap,
                |s: int| ready_word_of(ring@.slots[s], ring@.cap) as usize,
            ),
            snapshot.done@ == Seq::new(ring@.cap, |s: int| ring@.slots[s].pos as usize),
            snapshot.producer_park == ring@.producer_park.wake,
            snapshot.consumer_park == ring@.consumer_park.wake,
            snapshot.awaited@ == announcements(ring@.producer_park.wake, ring@.awaited, 64),
    {
        let (claim, ready, done) = ring.debug_snapshot();
        let (producer_park, consumer_park) = ring.debug_park_snapshot();
        let mut awaited: Vec<(usize, Option<(u64, u32)>)> = Vec::new();
        let mut slot: usize = 0;
        while slot < PARK_SLOTS
            invariant
                slot <= PARK_SLOTS,
                ring.wf(),
                producer_park == ring@.producer_park.wake,
                awaited@ == announcements(producer_park, ring@.awaited, slot as int),
            decreases PARK_SLOTS - slot,
        {
            if has_bit64(producer_park, slot) {
                awaited.push((slot, ring.announced(slot)));
            }
            slot = slot + 1;
        }
        RingSnapshot { claim, ready, done, producer_park, consumer_park, awaited }
    }
}

/// The announcements are those of the sleeping producers, one for each,
/// from the lowest park slot up.
pub proof fn lemma_announcements_are_those_of_the_sleepers(
    mask: u64,
    awaited: Seq<Option<(u64, u32)>>,
    i: int,
    upto: int,
)
    requires
        0 <= i < upto <= 64,
    ensures
        announcements(mask, awaited, 0).len() == 0,
        announcements(mask, awaited, i + 1).len() - announcements(mask, awaited, i).len() == if bit64(
            mask,
            i,
        ) {
            1int
        } else {
            0int
        },
        bit64(mask, i) ==> {
            &&& announcements(mask, awaited, i).len() < announcements(mask, awaited, upto).len()
            &&& announcements(mask, awaited, upto)[announcements(
                mask,
                awaited,
                i,
            ).len() as int].0 == i
            &&& announcements(mask, awaited, upto)[announcements(
                mask,
                awaited,
                i,
            ).len() as int].1 == awaited[i]
        },
    decreases upto,
{
    if i + 1 < upto {
        lemma_announcements_are_those_of_the_sleepers(mask, awaited, i, upto - 1);
    }
}

} // verus!
