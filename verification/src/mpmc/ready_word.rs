//! The encoding of a slot's `ready` word.

use vstd::arithmetic::div_mod::{lemma_mod_multiples_vanish, lemma_small_mod};
use vstd::prelude::*;

use crate::capacity::Capacity;

verus! {

/// What a slot's `ready` word says about the slot.
///
/// The word is `slot + round * capacity + state`, so it carries both the
/// round it describes and the slot's state within that round. Each
/// variant names the *round position*: the logical position that the
/// slot currently stands for.
///
/// The state occupies the low end of the encoding, so it must stay below
/// the capacity: with fewer than three slots a claimed word is the same
/// as a free one of the next round. A ring therefore has at least four.
#[derive(Clone, Copy, PartialEq, Eq, Debug, Structural)]
pub enum ReadyState {
    /// No value: the producer for this round position may write here,
    /// once `done` confirms that the previous round is over.
    Free(usize),
    /// Holds the value published at this round position, unclaimed.
    Published(usize),
    /// A consumer won the claim and owns the slot, or a departing
    /// producer abandoned its reservation. The `done` word tells the two
    /// apart.
    Claimed(usize),
}

impl ReadyState {
    /// The logical position this state describes.
    pub open spec fn pos(self) -> usize {
        match self {
            ReadyState::Free(pos) => pos,
            ReadyState::Published(pos) => pos,
            ReadyState::Claimed(pos) => pos,
        }
    }

    /// The logical position this state describes.
    pub fn round_pos(self) -> (pos: usize)
        ensures
            pos == self.pos(),
    {
        match self {
            ReadyState::Free(pos) => pos,
            ReadyState::Published(pos) => pos,
            ReadyState::Claimed(pos) => pos,
        }
    }

    /// Whether a consumer may try to claim this slot.
    pub fn is_published(self) -> (published: bool)
        ensures
            published == self is Published,
    {
        match self {
            ReadyState::Published(_) => true,
            _ => false,
        }
    }
}

/// The state of the slot with index `slot` whose word is `word`: the
/// distance from the slot's index, less whole laps, is the state, and
/// what is left of the word is the round position.
pub open spec fn decoded(word: usize, slot: usize, cap: nat) -> ReadyState {
    let state: int = (word - slot) % (cap as int);
    let round_pos: usize = if word >= state {
        (word - state) as usize
    } else {
        (word - state + usize::MAX + 1) as usize
    };
    if state == 0 {
        ReadyState::Free(round_pos)
    } else if state == ReadyWord::PUBLISHED {
        ReadyState::Published(round_pos)
    } else {
        ReadyState::Claimed(round_pos)
    }
}

/// A slot's `ready` word: the round-tagged tri-state a producer
/// publishes and a consumer claims.
#[derive(Debug)]
pub struct ReadyWord {
    word: usize,
}

impl View for ReadyWord {
    type V = usize;

    /// The raw word.
    closed spec fn view(&self) -> usize {
        self.word
    }
}

impl ReadyWord {
    pub const PUBLISHED: usize = 1;

    pub const CLAIMED: usize = 2;

    /// The initial word for `slot`: free for round zero.
    pub fn free_at(slot: usize) -> (ready: Self)
        ensures
            ready@ == slot,
    {
        ReadyWord { word: slot }
    }

    /// Reads and decodes the word for the slot at index `slot`.
    pub fn state(&self, slot: usize, capacity: Capacity) -> (state: ReadyState)
        requires
            capacity.wf(),
        ensures
            state == decoded(self@, slot, capacity@),
    {
        Self::decode(self.word, slot, capacity)
    }

    /// Decodes the word through a unique borrow, for the teardown path.
    pub fn state_mut(&mut self, slot: usize, capacity: Capacity) -> (state: ReadyState)
        requires
            capacity.wf(),
        ensures
            state == decoded(old(self)@, slot, capacity@),
            final(self)@ == old(self)@,
    {
        Self::decode(self.word, slot, capacity)
    }

    /// Decodes a raw word.
    pub fn decode(word: usize, slot: usize, capacity: Capacity) -> (state: ReadyState)
        requires
            capacity.wf(),
        ensures
            state == decoded(word, slot, capacity@),
    {
        let distance: usize = word.wrapping_sub(slot);
        let state: usize = capacity.wrap(distance);
        proof {
            capacity.lemma_divides_the_word();
            let laps: int = (usize::MAX + 1) / (capacity@ as int);
            if word < slot {
                lemma_mod_multiples_vanish(laps, word - slot, capacity@ as int);
                assert(laps * capacity@ == capacity@ * laps) by (nonlinear_arith);
            }
        }
        let round_pos: usize = word.wrapping_sub(state);
        if state == 0 {
            ReadyState::Free(round_pos)
        } else if state == Self::PUBLISHED {
            ReadyState::Published(round_pos)
        } else {
            ReadyState::Claimed(round_pos)
        }
    }

    /// Publishes the value written at `pos`, making it claimable.
    pub fn publish(&mut self, pos: usize)
        requires
            pos < usize::MAX,
        ensures
            final(self)@ == pos + Self::PUBLISHED,
    {
        self.word = pos + Self::PUBLISHED;
    }

    /// Takes exclusive ownership of the value published at `round_pos`.
    ///
    /// Returns whether this caller won; a losing consumer must rescan,
    /// since the winner has already moved the word on.
    pub fn claim(&mut self, round_pos: usize) -> (won: bool)
        requires
            round_pos + Self::CLAIMED <= usize::MAX,
        ensures
            won == (old(self)@ == round_pos + Self::PUBLISHED),
            won ==> final(self)@ == round_pos + Self::CLAIMED,
            !won ==> final(self)@ == old(self)@,
    {
        if self.word == round_pos + Self::PUBLISHED {
            self.word = round_pos + Self::CLAIMED;
            true
        } else {
            false
        }
    }

    /// Gives up a reservation at `pos` that was never written.
    ///
    /// The word lands in the state that a consumer's claim would leave;
    /// paired with a `done` release it says "this round is finished and
    /// left no value".
    pub fn abandon(&mut self, pos: usize)
        requires
            pos + Self::CLAIMED <= usize::MAX,
        ensures
            final(self)@ == pos + Self::CLAIMED,
    {
        self.word = pos + Self::CLAIMED;
    }

    /// The raw word, for diagnostics.
    pub fn word(&self) -> (word: usize)
        ensures
            word == self@,
    {
        self.word
    }
}

/// Within a ring of at least three slots the three states of a round are
/// told apart, and each decodes to the position that it was written for:
/// the word of `pos` plus a state gives back both.
pub proof fn lemma_words_decode(pos: usize, slot: usize, cap: nat)
    requires
        3 <= cap <= usize::MAX,
        slot < cap,
        pos as int % cap as int == slot,
        pos + 2 <= usize::MAX,
    ensures
        decoded(pos, slot, cap) == ReadyState::Free(pos),
        decoded((pos + ReadyWord::PUBLISHED) as usize, slot, cap) == ReadyState::Published(pos),
        decoded((pos + ReadyWord::CLAIMED) as usize, slot, cap) == ReadyState::Claimed(pos),
{
    let c: int = cap as int;
    vstd::arithmetic::div_mod::lemma_fundamental_div_mod(pos as int, c);
    let laps: int = pos as int / c;
    assert(laps * c == c * laps) by (nonlinear_arith);
    assert(pos - slot == c * laps);
    lemma_mod_multiples_vanish(laps, 0, c);
    lemma_mod_multiples_vanish(laps, 1, c);
    lemma_mod_multiples_vanish(laps, 2, c);
    lemma_small_mod(0, cap);
    lemma_small_mod(1, cap);
    lemma_small_mod(2, cap);
    assert(pos as int - slot as int == c * laps + 0);
    assert((pos + 1) - slot == c * laps + 1);
    assert((pos + 2) - slot == c * laps + 2);
}

/// A published word is one past its position and a claimed one two, and
/// each state names the position that it was made for.
pub proof fn lemma_states_of_a_position(pos: usize)
    ensures
        ReadyWord::PUBLISHED == 1,
        ReadyWord::CLAIMED == 2,
        ReadyState::Free(pos).pos() == pos,
        ReadyState::Published(pos).pos() == pos,
        ReadyState::Claimed(pos).pos() == pos,
{
}

} // verus!
