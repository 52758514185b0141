//! The encoding of a slot's `done` word.

use vstd::prelude::*;

use crate::capacity::Capacity;

verus! {

/// A slot's `done` word: the handshake that hands a slot from the
/// consumer that read it back to the producer.
///
/// The word holds the position the slot is *next free for*. A consumer
/// finishing at `pos` stores `pos + capacity`, one full lap ahead, and
/// the producer waits to read its own position back. The value is moved
/// out first: releasing the slot before that would let the producer
/// refill it while the old value is still being read.
#[derive(Debug)]
pub struct DoneWord {
    word: usize,
}

impl View for DoneWord {
    type V = usize;

    /// The position that the slot is next free for.
    closed spec fn view(&self) -> usize {
        self.word
    }
}

impl DoneWord {
    /// The initial word for `slot`: as if an earlier lap had already
    /// released it.
    pub fn released_for(slot: usize) -> (done: Self)
        ensures
            done@ == slot,
    {
        DoneWord { word: slot }
    }

    /// Whether the slot is free for the producer writing at `pos`.
    pub fn is_free_for(&self, pos: usize) -> (free: bool)
        ensures
            free == (self@ == pos),
    {
        self.word == pos
    }

    /// Hands the slot to the position one lap ahead of `pos`.
    pub fn release(&mut self, pos: usize, capacity: Capacity)
        requires
            capacity.wf(),
            pos + capacity@ <= usize::MAX,
        ensures
            final(self)@ == pos + capacity@,
    {
        self.word = pos + capacity.get();
    }

    /// Whether the slot still holds the value pushed at `pos`: its
    /// consumer has not released it.
    pub fn holds_unconsumed_value_at(&mut self, pos: usize, capacity: Capacity) -> (held: bool)
        requires
            capacity.wf(),
            pos + capacity@ <= usize::MAX,
        ensures
            held == (old(self)@ != pos + capacity@),
            final(self)@ == old(self)@,
    {
        self.word != pos + capacity.get()
    }
}

} // verus!
