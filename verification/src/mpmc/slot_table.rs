//! The slots of a ring whose positions are handed out in batches.
//!
//! A slot serves every position that falls on its index, one lap after
//! the other. Three things say where it stands: the cell with the value,
//! the `ready` word that a producer publishes and a consumer claims, and
//! the `done` word that hands the slot to the next lap. Together they
//! are one of the three phases of [`Phase`], at one position.

use vstd::prelude::*;

use crate::capacity::{lemma_next_lap, lemma_first_lap, slot_of, Capacity};
use crate::mpmc::done_word::DoneWord;
use crate::mpmc::ready_word::{decoded, lemma_words_decode, ReadyState, ReadyWord};

verus! {

/// Where a slot stands within the lap it serves.
pub enum Phase<T> {
    /// Free for its position. Holds what the owner of the position has
    /// written ahead of publishing it, if anything.
    Open(Option<T>),
    /// Holds a value that any consumer may claim.
    Published(T),
    /// Claimed by a consumer that has not released the slot yet; the
    /// value is still in it.
    Taken(T),
}

/// One slot: the position it serves now, and its phase.
pub struct Slot<T> {
    pub pos: nat,
    pub phase: Phase<T>,
}

impl<T> Slot<T> {
    /// Whether the slot holds a value that was published and that no
    /// consumer has finished with.
    pub open spec fn live(self) -> bool {
        !(self.phase is Open)
    }

    /// The value of a live slot.
    pub open spec fn value(self) -> T {
        match self.phase {
            Phase::Published(v) => v,
            Phase::Taken(v) => v,
            Phase::Open(v) => v->0,
        }
    }

    /// A slot free for `pos`, with nothing in it.
    pub open spec fn open_for(pos: nat) -> Self {
        Slot { pos, phase: Phase::Open(None) }
    }
}

/// Every slot serves a position of its own index.
pub open spec fn shaped<T>(slots: Seq<Slot<T>>, cap: nat) -> bool {
    &&& slots.len() == cap
    &&& forall|s: int| 0 <= s < cap ==> slot_of((#[trigger] slots[s]).pos as int, cap) == s
}

/// The slots of a fresh ring: each is free for its own index.
pub open spec fn fresh_slots<T>(cap: nat) -> Seq<Slot<T>> {
    Seq::new(cap, |s: int| Slot::open_for(s as nat))
}

/// The live values of the slots below `upto`, in slot order.
pub open spec fn live_values<T>(slots: Seq<Slot<T>>, upto: int) -> Seq<T>
    decreases upto,
{
    if upto <= 0 {
        Seq::empty()
    } else if slots[upto - 1].live() {
        live_values(slots, upto - 1).push(slots[upto - 1].value())
    } else {
        live_values(slots, upto - 1)
    }
}

/// The values, words and capacity of the slots of a ring.
#[derive(Debug)]
pub struct SlotTable<T> {
    data: Vec<Option<T>>,
    ready: Vec<ReadyWord>,
    done: Vec<DoneWord>,
    capacity: Capacity,
}

impl<T> View for SlotTable<T> {
    type V = Seq<Slot<T>>;

    closed spec fn view(&self) -> Seq<Slot<T>> {
        Seq::new(self.data@.len(), |s: int| self.slot(s))
    }
}

impl<T> SlotTable<T> {
    spec fn slot(&self, s: int) -> Slot<T> {
        let pos: nat = self.done@[s]@;
        let word: usize = self.ready@[s]@;
        Slot {
            pos,
            phase: if word == pos + ReadyWord::PUBLISHED {
                Phase::Published(self.data@[s]->0)
            } else if word == pos + ReadyWord::CLAIMED {
                Phase::Taken(self.data@[s]->0)
            } else {
                Phase::Open(self.data@[s])
            },
        }
    }

    /// The words of slot `s` describe one phase, and the cell agrees
    /// with it: an open slot carries the word of the lap before, unless
    /// it is on its first lap.
    spec fn slot_wf(&self, s: int) -> bool {
        let pos: nat = self.done@[s]@;
        let word: usize = self.ready@[s]@;
        let cap: nat = self.capacity@;
        &&& slot_of(pos as int, cap) == s
        &&& pos + 2 <= usize::MAX
        &&& if word == pos + ReadyWord::PUBLISHED || word == pos + ReadyWord::CLAIMED {
            self.data@[s] is Some
        } else if pos < cap {
            word == pos
        } else {
            word == pos - cap + ReadyWord::CLAIMED
        }
    }

    pub closed spec fn wf(&self) -> bool {
        &&& self.capacity.wf()
        &&& self.capacity@ >= 4
        &&& self.data@.len() == self.capacity@
        &&& self.ready@.len() == self.capacity@
        &&& self.done@.len() == self.capacity@
        &&& forall|s: int|
            #![trigger self.done@[s]]
            #![trigger self.slot_wf(s)]
            0 <= s < self.capacity@ ==> self.slot_wf(s)
    }

    /// The number of slots.
    pub closed spec fn cap(&self) -> nat {
        self.capacity@
    }

    /// What a well-formed table keeps, in terms of its view.
    pub proof fn lemma_shape(&self)
        requires
            self.wf(),
        ensures
            4 <= self.cap() <= usize::MAX,
            shaped(self@, self.cap()),
            forall|s: int| 0 <= s < self.cap() ==> (#[trigger] self@[s]).pos + 2 <= usize::MAX,
    {
        self.capacity.lemma_bounds();
        assert forall|s: int| 0 <= s < self.cap() implies slot_of(
            (#[trigger] self@[s]).pos as int,
            self.cap(),
        ) == s && self@[s].pos + 2 <= usize::MAX by {
            assert(self.slot_wf(s));
        }
    }

    /// A table of `capacity` slots, each free for its own index.
    pub fn new(capacity: Capacity) -> (table: Self)
        requires
            capacity.wf(),
            capacity@ >= 4,
            capacity@ + 2 <= usize::MAX,
        ensures
            table.wf(),
            table.cap() == capacity@,
            table@ == fresh_slots::<T>(capacity@),
    {
        let cap: usize = capacity.get();
        let mut data: Vec<Option<T>> = Vec::new();
        let mut ready: Vec<ReadyWord> = Vec::new();
        let mut done: Vec<DoneWord> = Vec::new();
        let mut s: usize = 0;
        while s < cap
            invariant
                s <= cap,
                data@.len() == s,
                ready@.len() == s,
                done@.len() == s,
                forall|i: int| 0 <= i < s ==> (#[trigger] data@[i]) is None,
                forall|i: int| 0 <= i < s ==> (#[trigger] ready@[i])@ == i,
                forall|i: int| 0 <= i < s ==> (#[trigger] done@[i])@ == i,
            decreases cap - s,
        {
            data.push(None);
            ready.push(ReadyWord::free_at(s));
            done.push(DoneWord::released_for(s));
            s = s + 1;
        }
        let table = SlotTable { data, ready, done, capacity };
        proof {
            assert forall|i: int| 0 <= i < cap implies #[trigger] table.slot_wf(i) by {
                lemma_first_lap(i, capacity@);
            }
            assert(table@ =~= fresh_slots::<T>(capacity@));
        }
        table
    }

    /// The capacity of the ring.
    pub fn capacity(&self) -> (capacity: Capacity)
        requires
            self.wf(),
        ensures
            capacity.wf(),
            capacity@ == self.cap(),
    {
        self.capacity
    }

    /// The decoded state of the slot that serves `pos`.
    pub fn state(&self, pos: usize) -> (state: ReadyState)
        requires
            self.wf(),
        ensures
            ({
                let slot = self@[slot_of(pos as int, self.cap())];
                match slot.phase {
                    Phase::Published(_) => state == ReadyState::Published(slot.pos as usize),
                    Phase::Taken(_) => state == ReadyState::Claimed(slot.pos as usize),
                    Phase::Open(_) => !(state is Published),
                }
            }),
    {
        let s: usize = self.capacity.index_of(pos);
        proof {
            assert(self.slot_wf(s as int));
            self.capacity.lemma_bounds();
            let p: nat = self.done@[s as int]@;
            lemma_words_decode(p as usize, s, self.capacity@);
            if p >= self.capacity@ {
                lemma_next_lap(p as int, self.capacity@);
                lemma_words_decode((p - self.capacity@) as usize, s, self.capacity@);
            }
        }
        self.ready[s].state(s, self.capacity)
    }

    /// Whether the slot that serves `pos` has been handed to it.
    pub fn is_free_for(&self, pos: usize) -> (free: bool)
        requires
            self.wf(),
        ensures
            free == (self@[slot_of(pos as int, self.cap())].pos == pos),
    {
        self.done[self.capacity.index_of(pos)].is_free_for(pos)
    }

    /// The cell of the slot that `pos` has been handed, for its owner to
    /// write.
    pub fn cell_mut(&mut self, pos: usize) -> (cell: &mut Option<T>)
        requires
            old(self).wf(),
            ({
                let slot = old(self)@[slot_of(pos as int, old(self).cap())];
                slot.pos == pos && slot.phase is Open
            }),
        ensures
            old(self)@[slot_of(pos as int, old(self).cap())].phase == Phase::Open(*cell),
            final(self).wf(),
            final(self).cap() == old(self).cap(),
            final(self)@ == old(self)@.update(
                slot_of(pos as int, old(self).cap()),
                Slot { pos: pos as nat, phase: Phase::Open(*final(cell)) },
            ),
    {
        let s: usize = self.capacity.index_of(pos);
        proof {
            assert(self.slot_wf(s as int));
        }
        &mut self.data[s]
    }

    /// Writes `val` ahead of its publication; what was written there
    /// before and never published is dropped.
    pub fn stage(&mut self, pos: usize, val: T)
        requires
            old(self).wf(),
            ({
                let slot = old(self)@[slot_of(pos as int, old(self).cap())];
                slot.pos == pos && slot.phase is Open
            }),
        ensures
            final(self).wf(),
            final(self).cap() == old(self).cap(),
            final(self)@ == old(self)@.update(
                slot_of(pos as int, old(self).cap()),
                Slot { pos: pos as nat, phase: Phase::Open(Some(val)) },
            ),
    {
        *self.cell_mut(pos) = Some(val);
    }

    /// Takes back what was written ahead of its publication.
    pub fn unstage(&mut self, pos: usize) -> (val: Option<T>)
        requires
            old(self).wf(),
            ({
                let slot = old(self)@[slot_of(pos as int, old(self).cap())];
                slot.pos == pos && slot.phase is Open
            }),
        ensures
            old(self)@[slot_of(pos as int, old(self).cap())].phase == Phase::Open(val),
            final(self).wf(),
            final(self).cap() == old(self).cap(),
            final(self)@ == old(self)@.update(
                slot_of(pos as int, old(self).cap()),
                Slot::open_for(pos as nat),
            ),
    {
        self.cell_mut(pos).take()
    }

    /// Publishes what was written at `pos`.
    pub fn publish(&mut self, pos: usize)
        requires
            old(self).wf(),
            ({
                let slot = old(self)@[slot_of(pos as int, old(self).cap())];
                slot.pos == pos && (slot.phase matches Phase::Open(staged) && staged is Some)
            }),
        ensures
            final(self).wf(),
            final(self).cap() == old(self).cap(),
            final(self)@ == old(self)@.update(
                slot_of(pos as int, old(self).cap()),
                Slot {
                    pos: pos as nat,
                    phase: Phase::Published(
                        old(self)@[slot_of(pos as int, old(self).cap())].value(),
                    ),
                },
            ),
    {
        let s: usize = self.capacity.index_of(pos);
        proof {
            assert(self.slot_wf(s as int));
        }
        self.ready[s].publish(pos);
        assert(self@ =~= old(self)@.update(s as int, self@[s as int]));
    }

    /// Tries to claim the value published at `round_pos`, and tells
    /// whether it was there.
    pub fn claim(&mut self, round_pos: usize) -> (won: bool)
        requires
            old(self).wf(),
            round_pos + 2 <= usize::MAX,
        ensures
            final(self).wf(),
            final(self).cap() == old(self).cap(),
            ({
                let s = slot_of(round_pos as int, old(self).cap());
                let slot = old(self)@[s];
                match slot.phase {
                    Phase::Published(v) if slot.pos == round_pos => won && final(self)@ == old(
                        self,
                    )@.update(s, Slot { pos: slot.pos, phase: Phase::Taken(v) }),
                    _ => !won && final(self)@ == old(self)@,
                }
            }),
    {
        let s: usize = self.capacity.index_of(round_pos);
        proof {
            assert(self.slot_wf(s as int));
            if self.ready@[s as int]@ == round_pos + 1 {
                lemma_claim_word(
                    self.ready@[s as int]@,
                    self.done@[s as int]@,
                    round_pos,
                    self.capacity@,
                );
            }
        }
        let won: bool = self.ready[s].claim(round_pos);
        assert(won ==> self@ =~= old(self)@.update(s as int, self@[s as int]));
        assert(!won ==> self@ =~= old(self)@);
        won
    }

    /// Moves the value that was claimed at `round_pos` out of its slot
    /// and then hands the slot to the position one lap on.
    pub fn release(&mut self, round_pos: usize) -> (val: T)
        requires
            old(self).wf(),
            round_pos + old(self).cap() + 2 <= usize::MAX,
            ({
                let slot = old(self)@[slot_of(round_pos as int, old(self).cap())];
                slot.pos == round_pos && slot.phase is Taken
            }),
        ensures
            val == old(self)@[slot_of(round_pos as int, old(self).cap())].value(),
            final(self).wf(),
            final(self).cap() == old(self).cap(),
            final(self)@ == old(self)@.update(
                slot_of(round_pos as int, old(self).cap()),
                Slot::open_for((round_pos + old(self).cap()) as nat),
            ),
    {
        let s: usize = self.capacity.index_of(round_pos);
        proof {
            assert(self.slot_wf(s as int));
            lemma_next_lap(round_pos as int, self.capacity@);
        }
        let val: Option<T> = self.data[s].take();
        self.done[s].release(round_pos, self.capacity);
        assert(self@ =~= old(self)@.update(s as int, self@[s as int]));
        val.unwrap()
    }

    /// The value that was claimed at `round_pos`.
    pub fn peek(&self, round_pos: usize) -> (val: &T)
        requires
            self.wf(),
            ({
                let slot = self@[slot_of(round_pos as int, self.cap())];
                slot.pos == round_pos && slot.phase is Taken
            }),
        ensures
            *val == self@[slot_of(round_pos as int, self.cap())].value(),
    {
        let s: usize = self.capacity.index_of(round_pos);
        proof {
            assert(self.slot_wf(s as int));
        }
        self.data[s].as_ref().unwrap()
    }

    /// Gives up `pos` without a value: the slot goes to the position one
    /// lap on. What was written ahead and never published is dropped.
    pub fn abandon(&mut self, pos: usize)
        requires
            old(self).wf(),
            pos + old(self).cap() + 2 <= usize::MAX,
            ({
                let slot = old(self)@[slot_of(pos as int, old(self).cap())];
                slot.pos == pos && slot.phase is Open
            }),
        ensures
            final(self).wf(),
            final(self).cap() == old(self).cap(),
            final(self)@ == old(self)@.update(
                slot_of(pos as int, old(self).cap()),
                Slot::open_for((pos + old(self).cap()) as nat),
            ),
    {
        let s: usize = self.capacity.index_of(pos);
        proof {
            assert(self.slot_wf(s as int));
            lemma_next_lap(pos as int, self.capacity@);
        }
        self.data[s] = None;
        self.ready[s].abandon(pos);
        self.done[s].release(pos, self.capacity);
        assert(self@ =~= old(self)@.update(s as int, self@[s as int]));
    }

    /// The raw `ready` and `done` words of every slot, for diagnostics.
    pub fn words(&self) -> (words: (Vec<usize>, Vec<usize>))
        requires
            self.wf(),
        ensures
            words.0@.len() == self.cap(),
            words.1@.len() == self.cap(),
            forall|s: int|
                0 <= s < self.cap() ==> #[trigger] words.1@[s] == self@[s].pos && words.0@[s]
                    == ready_word_of(self@[s], self.cap()),
    {
        let cap: usize = self.capacity.get();
        let mut ready: Vec<usize> = Vec::new();
        let mut done: Vec<usize> = Vec::new();
        let mut s: usize = 0;
        while s < cap
            invariant
                self.wf(),
                cap == self.cap(),
                s <= cap,
                ready@.len() == s,
                done@.len() == s,
                forall|i: int|
                    0 <= i < s ==> #[trigger] done@[i] == self@[i].pos && ready@[i]
                        == ready_word_of(self@[i], self.cap()),
            decreases cap - s,
        {
            proof {
                assert(self.slot_wf(s as int));
            }
            ready.push(self.ready[s].word());
            done.push(self.done[s].word());
            s = s + 1;
        }
        (ready, done)
    }

    /// Takes the table apart, handing back in slot order each value that
    /// was published and that no consumer has finished with.
    pub fn into_live_values(self) -> (left: Vec<T>)
        requires
            self.wf(),
            forall|i: int|
                0 <= i < self.cap() ==> (#[trigger] self@[i]).pos + self.cap() <= usize::MAX,
        ensures
            left@ == live_values(self@, self.cap() as int),
    {
        let SlotTable { mut data, ready, done, capacity } = self;
        let cap: usize = capacity.get();
        let mut left: Vec<T> = Vec::new();
        let mut s: usize = 0;
        while s < cap
            invariant
                s <= cap,
                cap == self.cap(),
                capacity == self.capacity,
                self.wf(),
                ready@ == self.ready@,
                done@ == self.done@,
                data@.len() == cap,
                forall|i: int| s <= i < cap ==> #[trigger] data@[i] == self.data@[i],
                forall|i: int|
                    0 <= i < cap ==> (#[trigger] self@[i]).pos + self.cap() <= usize::MAX,
                left@ == live_values(self@, s as int),
            decreases cap - s,
        {
            proof {
                assert(self.slot_wf(s as int));
                assert(self@[s as int].pos + self.cap() <= usize::MAX);
            }
            if holds_value(&ready[s], &done[s], s, capacity) {
                let val: Option<T> = data[s].take();
                left.push(val.unwrap());
            }
            s = s + 1;
        }
        left
    }
}

/// Whether the words of slot `s` say that it holds a value: published
/// and never claimed, or claimed and not yet released.
fn holds_value(ready: &ReadyWord, done: &DoneWord, s: usize, capacity: Capacity) -> (held: bool)
    requires
        capacity.wf(),
        capacity@ >= 4,
        slot_of(done@ as int, capacity@) == s,
        done@ + 2 <= usize::MAX,
        done@ + capacity@ <= usize::MAX,
        ready@ == done@ + 1 || ready@ == done@ + 2 || (done@ < capacity@ && ready@ == done@) || (
        done@ >= capacity@ && ready@ == done@ - capacity@ + 2),
    ensures
        held == (ready@ == done@ + 1 || ready@ == done@ + 2),
{
    proof {
        capacity.lemma_bounds();
        lemma_next_lap(done@ as int, capacity@);
        lemma_words_decode(done@ as usize, s, capacity@);
        if done@ >= capacity@ {
            lemma_words_decode((done@ - capacity@) as usize, s, capacity@);
        }
    }
    match ready.state(s, capacity) {
        ReadyState::Published(_) => true,
        ReadyState::Claimed(round_pos) => !done.was_released_after(round_pos, capacity),
        ReadyState::Free(_) => false,
    }
}

/// The raw `ready` word of a slot: that of the lap before while the slot
/// is open, and one or two past its position once it is published or
/// claimed.
pub open spec fn ready_word_of<T>(slot: Slot<T>, cap: nat) -> int {
    match slot.phase {
        Phase::Published(_) => slot.pos as int + 1,
        Phase::Taken(_) => slot.pos as int + 2,
        Phase::Open(_) => if slot.pos < cap {
            slot.pos as int
        } else {
            slot.pos - cap + 2
        },
    }
}

/// A `ready` word equals the published word of `round_pos` only if the
/// slot is published at that position.
proof fn lemma_claim_word(word: usize, pos: nat, round_pos: usize, cap: nat)
    requires
        4 <= cap,
        slot_of(pos as int, cap) == slot_of(round_pos as int, cap),
        word == pos + 1 || word == pos + 2 || (pos < cap && word == pos) || (pos >= cap && word
            == pos - cap + 2),
        word == round_pos + 1,
    ensures
        word == pos + 1,
        pos == round_pos,
{
    let p: int = pos as int;
    let r: int = round_pos as int;
    if p < r {
        crate::capacity::lemma_same_slot_lap(p, r, cap);
    } else if r < p {
        crate::capacity::lemma_same_slot_lap(r, p, cap);
    }
}

/// The word of a slot decodes to what the slot is: published or claimed at
/// its position, or else neither published nor, from the second lap on,
/// anything but the claim of the lap before.
pub proof fn lemma_words_tell_the_phase<T>(slots: Seq<Slot<T>>, s: int, cap: nat)
    requires
        4 <= cap <= usize::MAX,
        shaped(slots, cap),
        0 <= s < cap,
        slots[s].pos + 2 <= usize::MAX,
    ensures
        ({
            let slot = slots[s];
            let word: int = ready_word_of(slot, cap);
            let state = decoded(word as usize, s as usize, cap);
            &&& 0 <= word <= usize::MAX
            &&& slot.phase is Published ==> state == ReadyState::Published(slot.pos as usize)
            &&& slot.phase is Taken ==> state == ReadyState::Claimed(slot.pos as usize)
            &&& slot.phase is Open && slot.pos < cap ==> state == ReadyState::Free(
                slot.pos as usize,
            )
            &&& slot.phase is Open && slot.pos >= cap ==> state == ReadyState::Claimed(
                (slot.pos - cap) as usize,
            )
        }),
{
    let p: nat = slots[s].pos;
    assert(slot_of(p as int, cap) == s);
    lemma_words_decode(p as usize, s as usize, cap);
    if p >= cap {
        lemma_next_lap(p as int, cap);
        lemma_words_decode((p - cap) as usize, s as usize, cap);
    }
}

/// The live values are those of the slots that are published or claimed,
/// one for each, in slot order.
pub proof fn lemma_live_values_in_slot_order<T>(slots: Seq<Slot<T>>, s: int, upto: int)
    requires
        0 <= s < upto,
    ensures
        live_values(slots, 0).len() == 0,
        live_values(slots, s + 1).len() - live_values(slots, s).len() == if slots[s].phase is Open {
            0int
        } else {
            1int
        },
        !(slots[s].phase is Open) ==> live_values(slots, s).len() < live_values(slots, upto).len(),
        slots[s].phase matches Phase::Published(v) ==> live_values(slots, upto)[live_values(
            slots,
            s,
        ).len() as int] == v,
        slots[s].phase matches Phase::Taken(v) ==> live_values(slots, upto)[live_values(
            slots,
            s,
        ).len() as int] == v,
    decreases upto,
{
    if s + 1 < upto {
        lemma_live_values_in_slot_order(slots, s, upto - 1);
    }
}

} // verus!
