//! The encoding of a slot's `done` word.

use vstd::prelude::*;

use crate::capacity::Capacity;

verus! {

/// A slot's `done` word: the handshake that hands a slot from the
/// consumer of one round to the producer of the next.
///
/// The word holds the position the slot is *next free for*. A consumer
/// finishing at `pos` stores `pos + capacity`, one full lap ahead, and
/// the producer for that later position waits to read its own position
/// back. Both halves are the same fact stated from opposite ends, which
/// is why they belong together here.
///
/// The value is moved out first and the slot released after it: the
/// other order would let the next round's producer refill a slot whose
/// old value is still being read.
#[derive(Debug)]
pub struct DoneWord {
    word: usize,
}

impl View for DoneWord {
    type V = nat;

    /// The position that the slot is next free for.
    closed spec fn view(&self) -> nat {
        self.word as nat
    }
}

impl DoneWord {
    /// The initial word for `slot`: as if an earlier round had already
    /// released it, so the first producer's check passes immediately.
    pub fn released_for(slot: usize) -> (done: Self)
        ensures
            done@ == slot,
    {
        DoneWord { word: slot }
    }

    /// Whether the slot is free for a producer writing at `pos`.
    pub fn is_free_for(&self, pos: usize) -> (free: bool)
        ensures
            free == (self@ == pos),
    {
        self.word == pos
    }

    /// Hands the slot to the producer one lap ahead of `round_pos`.
    pub fn release(&mut self, round_pos: usize, capacity: Capacity)
        requires
            capacity.wf(),
            round_pos + capacity@ <= usize::MAX,
        ensures
            final(self)@ == round_pos + capacity@,
    {
        self.word = round_pos + capacity.get();
    }

    /// Whether the consumer that claimed `round_pos` released the slot.
    ///
    /// A slot whose `ready` word reads as claimed still holds a live
    /// value until this turns true: the claim and the release bracket
    /// the window in which the value is being read out.
    pub fn was_released_after(&self, round_pos: usize, capacity: Capacity) -> (released: bool)
        requires
            capacity.wf(),
            round_pos + capacity@ <= usize::MAX,
        ensures
            released == (self@ == round_pos + capacity@),
    {
        self.word == round_pos + capacity.get()
    }

    /// The raw word, for diagnostics.
    pub fn word(&self) -> (word: usize)
        ensures
            word == self@,
    {
        self.word
    }
}

} // verus!
