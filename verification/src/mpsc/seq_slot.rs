//! A slot with the sequence number that says what is in it.

use vstd::prelude::*;

verus! {

/// What the consumer finds in the slot of its head.
#[derive(Clone, Copy, Debug, PartialEq, Eq, Structural)]
pub enum SlotSnapshot {
    /// Nothing has been published for this position.
    NotReady,
    /// A value has.
    Ready,
    /// The claim was given up.
    Tombstoned,
}

/// The sequence number of a slot. For the position `pos` it is `2 * pos`
/// while the slot is free or claimed, and `2 * pos + 1` once a value is
/// published. One number that no position reaches marks a claim that was
/// given up.
#[derive(Debug)]
pub struct SlotSequence {
    word: usize,
}

impl View for SlotSequence {
    type V = usize;

    closed spec fn view(&self) -> usize {
        self.word
    }
}

impl SlotSequence {
    pub const TOMBSTONE: usize = usize::MAX;

    /// The sequence of a slot that is free for `pos`.
    pub fn free_for(pos: usize) -> (sequence: Self)
        requires
            2 * pos <= usize::MAX,
        ensures
            sequence@ == 2 * pos,
    {
        SlotSequence { word: pos * 2 }
    }

    /// Marks the value at `pos` as published.
    pub fn publish(&mut self, pos: usize)
        requires
            2 * pos + 1 < Self::TOMBSTONE,
        ensures
            final(self)@ == 2 * pos + 1,
    {
        self.word = pos * 2 + 1;
    }

    /// Marks the claim as given up.
    pub fn tombstone(&mut self)
        ensures
            final(self)@ == Self::TOMBSTONE,
    {
        self.word = Self::TOMBSTONE;
    }

    /// Hands the slot to `pos`.
    pub fn release(&mut self, pos: usize)
        requires
            2 * pos <= usize::MAX,
        ensures
            final(self)@ == 2 * pos,
    {
        self.word = pos * 2;
    }

    /// What the slot holds for `pos`.
    pub fn classify(&self, pos: usize) -> (snapshot: SlotSnapshot)
        requires
            2 * pos + 1 < Self::TOMBSTONE,
        ensures
            snapshot == if self@ == 2 * pos + 1 {
                SlotSnapshot::Ready
            } else if self@ == Self::TOMBSTONE {
                SlotSnapshot::Tombstoned
            } else {
                SlotSnapshot::NotReady
            },
    {
        if self.word == pos * 2 + 1 {
            SlotSnapshot::Ready
        } else if self.word == Self::TOMBSTONE {
            SlotSnapshot::Tombstoned
        } else {
            SlotSnapshot::NotReady
        }
    }
}

/// A cell and its sequence number.
#[derive(Debug)]
pub struct SeqSlot<T> {
    pub data: Option<T>,
    pub sequence: SlotSequence,
}

/// The states of one position can be told apart, and each from those of
/// every other position.
pub proof fn lemma_sequences_differ(pos: usize, other: usize)
    requires
        2 * pos + 1 < SlotSequence::TOMBSTONE,
        2 * other + 1 < SlotSequence::TOMBSTONE,
    ensures
        2 * pos != 2 * other + 1,
        pos != other ==> 2 * pos != 2 * other && 2 * pos + 1 != 2 * other + 1,
        2 * pos != SlotSequence::TOMBSTONE,
        2 * pos + 1 != SlotSequence::TOMBSTONE,
{
}

} // verus!
