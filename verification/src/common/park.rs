//! The wait state of a side that has many endpoints.

use vstd::prelude::*;

use crate::common::bits::{
    bit64, has_bit64, lemma_clear_bit64, lemma_no_bits64, lemma_set_bit64, lemma_zero_bits64,
    with_bit64, without_bit64,
};
use crate::common::park_registry::{ParkSlot, PARK_SLOTS};

verus! {

/// Who sleeps on one side of a ring, by park slot, and who is owed an
/// unpark.
///
/// A waiter arms its slot before it sleeps: its bit in `wake` says that
/// it can be chosen, and its bit in `handles` that nobody has claimed
/// its handle yet. A wake clears the bit of the chosen slot, claims its
/// handle if that is still armed, and records in `unparks` that the
/// thread behind it is owed an unpark. The next choice starts one slot
/// further on, so that no waiter is passed over for ever.
///
/// Waiters that hold no slot cannot be told apart here, so they share the
/// `overflow`: it says that some of them may sleep. Every wake empties it
/// as well and records that all of them are owed an unpark.
#[derive(Clone, Copy, Debug, PartialEq, Eq, Structural)]
pub struct WakeSet {
    pub wake: u64,
    pub handles: u64,
    pub unparks: u64,
    pub cursor: usize,
    pub overflow: bool,
    pub overflow_owed: bool,
}

/// The first slot of `mask` that a search of `left` slots meets, going
/// round from `from`.
pub open spec fn first_from(mask: u64, from: int, left: nat) -> Option<int>
    decreases left,
{
    if left == 0 {
        None
    } else if bit64(mask, from % 64) {
        Some(from % 64)
    } else {
        first_from(mask, from + 1, (left - 1) as nat)
    }
}

/// How many of the bits of `mask` below `upto` are set.
pub open spec fn population(mask: u64, upto: int) -> nat
    decreases upto,
{
    if upto <= 0 {
        0
    } else {
        population(mask, upto - 1) + if bit64(mask, upto - 1) {
            1nat
        } else {
            0nat
        }
    }
}

/// The number of bits set in `mask`.
pub fn count_bits(mask: u64) -> (n: u32)
    ensures
        n == population(mask, 64),
{
    let mut n: u32 = 0;
    let mut i: usize = 0;
    while i < PARK_SLOTS
        invariant
            i <= PARK_SLOTS,
            n == population(mask, i as int),
            n <= i,
        decreases PARK_SLOTS - i,
    {
        if has_bit64(mask, i) {
            n = n + 1;
        }
        i = i + 1;
    }
    n
}

impl WakeSet {
    /// The cursor names a park slot, and every sleeper has its handle
    /// armed, so that a wake that chooses it can claim the handle.
    pub open spec fn wf(self) -> bool {
        &&& self.cursor < PARK_SLOTS
        &&& forall|i: int| #[trigger] bit64(self.wake, i) ==> bit64(self.handles, i)
    }

    /// Nobody sleeps and nothing is owed.
    pub open spec fn idle() -> Self {
        WakeSet {
            wake: 0,
            handles: 0,
            unparks: 0,
            cursor: 0,
            overflow: false,
            overflow_owed: false,
        }
    }

    /// The slot that a wake chooses.
    pub open spec fn chosen(self) -> Option<int> {
        first_from(self.wake, self.cursor as int, 64)
    }

    /// This set once `slot` has been armed.
    pub open spec fn armed(self, slot: ParkSlot) -> Self {
        match slot {
            ParkSlot::Leased(i) => WakeSet {
                wake: self.wake | (1u64 << (i as u64)),
                handles: self.handles | (1u64 << (i as u64)),
                ..self
            },
            ParkSlot::Slotless => WakeSet { overflow: true, ..self },
        }
    }

    /// This set once `slot` has been disarmed. The overflow stays as it
    /// is: others may sleep there.
    pub open spec fn disarmed(self, slot: ParkSlot) -> Self {
        match slot {
            ParkSlot::Leased(i) => WakeSet {
                wake: self.wake & !(1u64 << (i as u64)),
                handles: self.handles & !(1u64 << (i as u64)),
                ..self
            },
            ParkSlot::Slotless => self,
        }
    }

    /// How many waiters other than that of `slot` sleep.
    pub open spec fn others(self, slot: ParkSlot) -> nat {
        population(self.disarmed(slot).wake, 64)
    }

    /// This set once the waiter of slot `i` has been woken.
    pub open spec fn served(self, i: int) -> Self {
        WakeSet {
            wake: self.wake & !(1u64 << (i as u64)),
            handles: self.handles & !(1u64 << (i as u64)),
            unparks: if bit64(self.handles, i) {
                self.unparks | (1u64 << (i as u64))
            } else {
                self.unparks
            },
            cursor: ((i + 1) % 64) as usize,
            ..self
        }
    }

    /// This set once the waiters without a slot have been woken.
    pub open spec fn overflow_served(self) -> Self {
        WakeSet {
            overflow: false,
            overflow_owed: self.overflow_owed || self.overflow,
            ..self
        }
    }

    /// This set after one wake.
    pub open spec fn woken(self) -> Self {
        match self.chosen() {
            Some(i) => self.served(i).overflow_served(),
            None => self.overflow_served(),
        }
    }

    /// This set after `n` wakes.
    pub open spec fn woken_n(self, n: nat) -> Self
        decreases n,
    {
        if n == 0 {
            self
        } else if self.wake == 0 {
            self.overflow_served()
        } else {
            self.woken().woken_n((n - 1) as nat)
        }
    }

    /// This set after a wake of everybody.
    pub open spec fn flushed(self) -> Self {
        WakeSet {
            wake: 0,
            handles: self.handles & !self.wake,
            unparks: self.unparks | (self.handles & self.wake),
            ..self.overflow_served()
        }
    }

    /// Whether the thread behind slot `i` is owed an unpark.
    pub open spec fn owes(self, i: int) -> bool {
        bit64(self.unparks, i)
    }

    /// This set once the unpark of slot `i` is paid.
    pub open spec fn paid(self, i: int) -> Self {
        WakeSet { unparks: self.unparks & !(1u64 << (i as u64)), ..self }
    }

    /// This set once the unparks of the waiters without a slot are paid.
    pub open spec fn overflow_paid(self) -> Self {
        WakeSet { overflow_owed: false, ..self }
    }

    pub fn new() -> (set: Self)
        ensures
            set == Self::idle(),
            set.wf(),
    {
        proof {
            assert forall|i: int| !(#[trigger] bit64(0, i)) by {
                lemma_zero_bits64(i);
            }
        }
        WakeSet {
            wake: 0,
            handles: 0,
            unparks: 0,
            cursor: 0,
            overflow: false,
            overflow_owed: false,
        }
    }

    /// Announces that the waiter of `slot` is about to sleep.
    pub fn arm(&mut self, slot: ParkSlot)
        requires
            old(self).wf(),
            slot.wf(),
        ensures
            final(self).wf(),
            *final(self) == old(self).armed(slot),
            slot matches ParkSlot::Leased(i) ==> bit64(final(self).wake, i as int) && bit64(
                final(self).handles,
                i as int,
            ),
    {
        match slot {
            ParkSlot::Leased(i) => {
                self.wake = with_bit64(self.wake, i);
                self.handles = with_bit64(self.handles, i);
            },
            ParkSlot::Slotless => {
                self.overflow = true;
            },
        }
    }

    /// Withdraws the announcement of `slot`.
    pub fn disarm(&mut self, slot: ParkSlot)
        requires
            old(self).wf(),
            slot.wf(),
        ensures
            final(self).wf(),
            *final(self) == old(self).disarmed(slot),
            slot matches ParkSlot::Leased(i) ==> !bit64(final(self).wake, i as int) && !bit64(
                final(self).handles,
                i as int,
            ),
    {
        match slot {
            ParkSlot::Leased(i) => {
                self.wake = without_bit64(self.wake, i);
                self.handles = without_bit64(self.handles, i);
            },
            ParkSlot::Slotless => {},
        }
    }

    /// Whether the handle of `slot` is armed: nobody has woken its
    /// waiter since it announced its sleep.
    pub fn is_armed(&self, slot: ParkSlot) -> (armed: bool)
        requires
            slot.wf(),
        ensures
            armed == (slot matches ParkSlot::Leased(i) && bit64(self.handles, i as int)),
    {
        match slot {
            ParkSlot::Leased(i) => has_bit64(self.handles, i),
            ParkSlot::Slotless => false,
        }
    }

    /// How many waiters other than that of `slot` sleep.
    pub fn others_parked(&self, slot: ParkSlot) -> (n: u32)
        requires
            slot.wf(),
        ensures
            n == self.others(slot),
    {
        match slot {
            ParkSlot::Leased(i) => count_bits(without_bit64(self.wake, i)),
            ParkSlot::Slotless => count_bits(self.wake),
        }
    }

    /// Wakes the waiter of slot `i`.
    pub fn serve(&mut self, i: usize)
        requires
            old(self).wf(),
            i < PARK_SLOTS,
        ensures
            *final(self) == old(self).served(i as int),
            final(self).wf(),
    {
        if has_bit64(self.handles, i) {
            self.unparks = with_bit64(self.unparks, i);
        }
        self.wake = without_bit64(self.wake, i);
        self.handles = without_bit64(self.handles, i);
        self.cursor = if i + 1 == PARK_SLOTS {
            0
        } else {
            i + 1
        };
    }

    /// Wakes the waiters without a slot.
    pub fn serve_overflow(&mut self)
        ensures
            *final(self) == old(self).overflow_served(),
            old(self).wf() ==> final(self).wf(),
    {
        if self.overflow {
            self.overflow = false;
            self.overflow_owed = true;
        }
    }

    /// Finds the slot that a wake chooses.
    fn choose_slot(&self) -> (slot: Option<usize>)
        requires
            self.wf(),
        ensures
            match slot {
                Some(i) => self.chosen() == Some(i as int) && i < PARK_SLOTS && bit64(
                    self.wake,
                    i as int,
                ),
                None => self.chosen() is None,
            },
    {
        let mut steps: usize = 0;
        while steps < PARK_SLOTS
            invariant
                steps <= PARK_SLOTS,
                self.wf(),
                self.chosen() == first_from(
                    self.wake,
                    self.cursor + steps,
                    (PARK_SLOTS - steps) as nat,
                ),
            decreases PARK_SLOTS - steps,
        {
            let i: usize = (self.cursor + steps) % PARK_SLOTS;
            if has_bit64(self.wake, i) {
                return Some(i);
            }
            steps = steps + 1;
        }
        None
    }

    /// Wakes one waiter, the first that sleeps, going round from the
    /// cursor; and those without a slot.
    pub fn wake_one(&mut self)
        requires
            old(self).wf(),
        ensures
            *final(self) == old(self).woken(),
            final(self).wf(),
    {
        match self.choose_slot() {
            Some(i) => {
                self.serve(i);
            },
            None => {},
        }
        self.serve_overflow();
    }

    /// Wakes up to `n` waiters and, unless that is none, those without a
    /// slot.
    pub fn wake_n(&mut self, n: usize)
        requires
            old(self).wf(),
        ensures
            *final(self) == old(self).woken_n(n as nat),
            final(self).wf(),
    {
        let mut left: usize = n;
        while left > 0 && self.wake != 0
            invariant
                self.wf(),
                old(self).woken_n(n as nat) == self.woken_n(left as nat),
            decreases left,
        {
            self.wake_one();
            left = left - 1;
        }
        if left > 0 {
            self.serve_overflow();
        }
    }

    /// Wakes everybody.
    pub fn flush(&mut self)
        requires
            old(self).wf(),
        ensures
            final(self).wf(),
            *final(self) == old(self).flushed(),
    {
        proof {
            assert forall|i: int| !(#[trigger] bit64(0, i)) by {
                lemma_zero_bits64(i);
            }
        }
        self.unparks = self.unparks | (self.handles & self.wake);
        self.handles = self.handles & !self.wake;
        self.wake = 0;
        self.serve_overflow();
    }

    /// Collects the unpark that is owed to the thread behind slot `i`.
    pub fn take_unpark(&mut self, i: usize) -> (owed: bool)
        requires
            i < PARK_SLOTS,
        ensures
            old(self).wf() ==> final(self).wf(),
            owed == old(self).owes(i as int),
            *final(self) == old(self).paid(i as int),
            !final(self).owes(i as int),
    {
        let owed: bool = has_bit64(self.unparks, i);
        self.unparks = without_bit64(self.unparks, i);
        owed
    }

    /// Collects the unparks that are owed to the waiters without a slot.
    pub fn take_overflow(&mut self) -> (owed: bool)
        ensures
            old(self).wf() ==> final(self).wf(),
            owed == old(self).overflow_owed,
            *final(self) == old(self).overflow_paid(),
    {
        let owed: bool = self.overflow_owed;
        self.overflow_owed = false;
        owed
    }
}

/// How far slot `i` is from the cursor, going round.
pub open spec fn distance(cursor: usize, i: int) -> int {
    (i - cursor) % 64
}

/// What a search finds is set, and a set bit on the way of the search is
/// found, unless a nearer one is.
proof fn lemma_first_from(mask: u64, from: int, left: nat, j: int)
    requires
        left <= 64,
    ensures
        first_from(mask, from, left) matches Some(i) ==> bit64(mask, i) && 0 <= (i - from) % 64
            < left,
        bit64(mask, j) && (j - from) % 64 < left ==> (first_from(mask, from, left) matches Some(i)
            && (i - from) % 64 <= (j - from) % 64),
    decreases left,
{
    if left > 0 && !bit64(mask, from % 64) {
        lemma_first_from(mask, from + 1, (left - 1) as nat, j);
        lemma_one_step(from, j);
        match first_from(mask, from + 1, (left - 1) as nat) {
            Some(i) => {
                lemma_one_step(from, i);
            },
            None => {},
        }
    }
}

/// One step further on, every slot but the one just passed is one nearer.
pub proof fn lemma_one_step(from: int, j: int)
    ensures
        0 <= j < 64 && j != from % 64 ==> (j - from - 1) % 64 == (j - from) % 64 - 1,
        0 <= j < 64 && j == from % 64 ==> (j - from) % 64 == 0,
{
}

/// The slot that a wake chooses: one that sleeps, and of those the one
/// nearest to the cursor; nobody is chosen only if nobody sleeps.
pub proof fn lemma_wake_chooses_the_nearest_sleeper(set: WakeSet, j: int)
    requires
        set.wf(),
    ensures
        set.chosen() is None <==> set.wake == 0,
        set.chosen() matches Some(i) ==> bit64(set.wake, i),
        bit64(set.wake, j) ==> (set.chosen() matches Some(i) && distance(set.cursor, i)
            <= distance(set.cursor, j)),
{
    lemma_first_from(set.wake, set.cursor as int, 64, j);
    match set.chosen() {
        Some(i) => {
            if set.wake == 0 {
                lemma_zero_bits64(i);
            }
        },
        None => {
            assert forall|k: int| !(#[trigger] bit64(set.wake, k)) by {
                lemma_first_from(set.wake, set.cursor as int, 64, k);
            }
            lemma_no_bits64(set.wake);
        },
    }
}

/// Waking a sleeper takes it off the record and leaves its unpark owed;
/// nobody else's sleep or debt changes.
pub proof fn lemma_served_sleeper_is_owed(set: WakeSet, i: int)
    requires
        set.wf(),
        bit64(set.wake, i),
    ensures
        set.served(i).owes(i),
        !bit64(set.served(i).wake, i),
        set.served(i).wf(),
        forall|j: int|
            j != i ==> #[trigger] bit64(set.served(i).wake, j) == bit64(set.wake, j),
        forall|j: int| #[trigger] set.owes(j) ==> set.served(i).owes(j),
{
    lemma_clear_bit64(set.wake, i as u64);
    lemma_clear_bit64(set.handles, i as u64);
    lemma_set_bit64(set.unparks, i as u64);
}

/// No wake is lost: as long as anybody sleeps, a wake takes exactly one
/// sleeper off the record and leaves its unpark owed.
pub proof fn lemma_wake_is_not_lost(set: WakeSet)
    requires
        set.wf(),
        set.wake != 0,
    ensures
        exists|i: int|
            {
                &&& #[trigger] bit64(set.wake, i)
                &&& !bit64(set.woken().wake, i)
                &&& set.woken().owes(i)
            },
        set.woken().wf(),
        forall|j: int| #[trigger] set.owes(j) ==> set.woken().owes(j),
{
    lemma_wake_chooses_the_nearest_sleeper(set, 0);
    let i = set.chosen()->0;
    lemma_served_sleeper_is_owed(set, i);
    assert(bit64(set.wake, i));
}

/// A waiter without a slot is not forgotten: going to sleep puts it in
/// the overflow, nobody's waking up takes it out, and the next wake, of
/// whatever kind, leaves its unpark owed.
pub proof fn lemma_slotless_sleeper_is_owed(set: WakeSet, slot: ParkSlot, n: nat)
    ensures
        set.armed(ParkSlot::Slotless).overflow,
        set.overflow ==> set.armed(slot).overflow && set.disarmed(slot).overflow,
        set.overflow || set.overflow_owed ==> set.woken().overflow_owed
            && set.flushed().overflow_owed,
        (set.overflow || set.overflow_owed) && n > 0 ==> set.woken_n(n).overflow_owed,
    decreases n,
{
    if n > 0 && set.wake != 0 {
        lemma_slotless_sleeper_is_owed(set.woken(), slot, (n - 1) as nat);
        if n == 1 {
            assert(set.woken().woken_n(0) == set.woken());
        }
    }
}

/// A flush reaches everybody: each sleeper is owed its unpark and nobody
/// sleeps any longer.
pub proof fn lemma_flush_reaches_everybody(set: WakeSet, i: int)
    requires
        set.wf(),
    ensures
        bit64(set.wake, i) ==> set.flushed().owes(i),
        set.owes(i) ==> set.flushed().owes(i),
        !bit64(set.flushed().wake, i),
{
    lemma_zero_bits64(i);
    if 0 <= i < 64 {
        let b: u64 = i as u64;
        let w: u64 = set.wake;
        let h: u64 = set.handles;
        let u: u64 = set.unparks;
        let n: u64 = u | (h & w);
        assert(((n >> b) & 1 == 1) == (((u >> b) & 1 == 1) || (((h >> b) & 1 == 1) && ((w >> b) & 1
            == 1)))) by (bit_vector)
            requires
                n == u | (h & w),
                b < 64,
        ;
    }
}

/// Going on record, and off it, keeps every sleeper's handle armed, and
/// touches nobody else.
pub proof fn lemma_arming_is_private(set: WakeSet, slot: ParkSlot, j: int)
    requires
        slot.wf(),
        set.wf(),
    ensures
        set.armed(slot).wf(),
        set.disarmed(slot).wf(),
        slot matches ParkSlot::Leased(i) ==> {
            &&& bit64(set.armed(slot).wake, i as int)
            &&& !bit64(set.disarmed(slot).wake, i as int)
            &&& j != i ==> bit64(set.armed(slot).wake, j) == bit64(set.wake, j)
                && bit64(set.disarmed(slot).wake, j) == bit64(set.wake, j)
        },
        set.armed(slot).owes(j) == set.owes(j),
        set.disarmed(slot).owes(j) == set.owes(j),
{
    match slot {
        ParkSlot::Leased(i) => {
            lemma_set_bit64(set.wake, i as u64);
            lemma_set_bit64(set.handles, i as u64);
            lemma_clear_bit64(set.wake, i as u64);
            lemma_clear_bit64(set.handles, i as u64);
        },
        ParkSlot::Slotless => {},
    }
}

/// Nobody is passed over for ever: a sleeper at distance `d` from the
/// cursor is woken by one of the next `d + 1` wakes, so by one of any 64.
pub proof fn lemma_no_sleeper_starves(set: WakeSet, i: int, n: nat)
    requires
        set.wf(),
        bit64(set.wake, i),
        n > distance(set.cursor, i),
    ensures
        !bit64(set.woken_n(n).wake, i),
        set.woken_n(n).owes(i),
    decreases n,
{
    if set.wake == 0 {
        lemma_zero_bits64(i);
    }
    lemma_wake_chooses_the_nearest_sleeper(set, i);
    let c = set.chosen()->0;
    lemma_served_sleeper_is_owed(set, c);
    let next = set.woken();
    if c == i {
        lemma_wakes_only_add_debts(next, i, (n - 1) as nat);
    } else {
        lemma_next_cursor_is_nearer(set.cursor, c, i);
        lemma_no_sleeper_starves(next, i, (n - 1) as nat);
    }
}

/// A choice that passes over a slot brings the cursor nearer to it.
proof fn lemma_next_cursor_is_nearer(cursor: usize, c: int, i: int)
    requires
        cursor < 64,
        0 <= c < 64,
        0 <= i < 64,
        c != i,
        distance(cursor, c) <= distance(cursor, i),
    ensures
        distance(((c + 1) % 64) as usize, i) < distance(cursor, i),
{
}

/// Waking keeps a set of waiters in order.
pub proof fn lemma_waking_keeps_order(set: WakeSet)
    requires
        set.wf(),
    ensures
        set.woken().wf(),
        set.flushed().wf(),
{
    if set.wake != 0 {
        lemma_wake_is_not_lost(set);
    } else {
        lemma_wake_chooses_the_nearest_sleeper(set, 0);
    }
    assert forall|i: int| !(#[trigger] bit64(0, i)) by {
        lemma_zero_bits64(i);
    }
}

/// Further wakes neither put a slot back to sleep nor forget a debt.
proof fn lemma_wakes_only_add_debts(set: WakeSet, i: int, n: nat)
    requires
        set.wf(),
        !bit64(set.wake, i),
        set.owes(i),
    ensures
        !bit64(set.woken_n(n).wake, i),
        set.woken_n(n).owes(i),
    decreases n,
{
    if n > 0 && set.wake != 0 {
        lemma_wake_chooses_the_nearest_sleeper(set, i);
        let c = set.chosen()->0;
        lemma_served_sleeper_is_owed(set, c);
        lemma_wakes_only_add_debts(set.woken(), i, (n - 1) as nat);
    }
}

/// Taking a slot out of a mask leaves one fewer.
pub proof fn lemma_population_without(mask: u64, i: int, upto: int)
    requires
        0 <= i < 64,
        bit64(mask, i),
        0 <= upto <= 64,
    ensures
        population(mask, upto) == population(mask & !(1u64 << (i as u64)), upto) + if i < upto {
            1nat
        } else {
            0nat
        },
    decreases upto,
{
    lemma_clear_bit64(mask, i as u64);
    if upto > 0 {
        lemma_population_without(mask, i, upto - 1);
    }
}

/// A mask with a bit set has a population.
pub proof fn lemma_population_of_a_member(mask: u64, i: int, upto: int)
    requires
        0 <= i < upto <= 64,
        bit64(mask, i),
    ensures
        population(mask, upto) > 0,
    decreases upto,
{
    if upto - 1 > i {
        lemma_population_of_a_member(mask, i, upto - 1);
    }
}

/// As many wakes as there are sleepers reach every one of them.
pub proof fn lemma_enough_wakes_reach_everybody(set: WakeSet, n: nat, j: int)
    requires
        set.wf(),
        n >= population(set.wake, 64),
    ensures
        set.woken_n(n).wake == 0,
        bit64(set.wake, j) ==> set.woken_n(n).owes(j),
    decreases n,
{
    if set.wake == 0 {
        lemma_zero_bits64(j);
    } else {
        lemma_wake_chooses_the_nearest_sleeper(set, j);
        let c = set.chosen()->0;
        lemma_population_of_a_member(set.wake, c, 64);
        lemma_population_without(set.wake, c, 64);
        lemma_served_sleeper_is_owed(set, c);
        let next = set.woken();
        lemma_enough_wakes_reach_everybody(next, (n - 1) as nat, j);
        if j == c {
            lemma_wakes_only_add_debts(next, j, (n - 1) as nat);
        }
    }
}

/// A waiter that withdraws before anybody has woken it leaves no trace.
pub proof fn lemma_withdrawal_leaves_no_trace(set: WakeSet, i: usize)
    requires
        i < PARK_SLOTS,
        !bit64(set.wake, i as int),
        !bit64(set.handles, i as int),
    ensures
        set.armed(ParkSlot::Leased(i)).disarmed(ParkSlot::Leased(i)) == set,
{
    let b: u64 = i as u64;
    let w: u64 = set.wake;
    let h: u64 = set.handles;
    assert((w | (1u64 << b)) & !(1u64 << b) == w) by (bit_vector)
        requires
            (w >> b) & 1 != 1,
            b < 64,
    ;
    assert((h | (1u64 << b)) & !(1u64 << b) == h) by (bit_vector)
        requires
            (h >> b) & 1 != 1,
            b < 64,
    ;
}

} // verus!
