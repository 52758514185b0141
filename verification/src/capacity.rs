//! Ring capacities and the arithmetic of slot indices.

use vstd::arithmetic::div_mod::{lemma_fundamental_div_mod, lemma_mod_multiples_vanish};
use vstd::arithmetic::power2::{lemma_pow2_pos, lemma_pow2_strictly_increases, pow2};
use vstd::bits::{lemma_usize_low_bits_mask_is_mod, low_bits_mask};
use vstd::prelude::*;

verus! {

/// Whether `n` is a power of two.
pub open spec fn is_power_of_two(n: nat) -> bool {
    exists|k: nat| n == #[trigger] pow2(k)
}

/// The number of slots of a ring: a power of two, kept as the mask that
/// turns a logical position into a slot index.
#[derive(Clone, Copy, Debug, PartialEq, Eq, Structural)]
pub struct Capacity {
    mask: usize,
}

impl View for Capacity {
    type V = nat;

    /// The number of slots.
    closed spec fn view(&self) -> nat {
        (self.mask + 1) as nat
    }
}

impl Capacity {
    /// The mask is one less than a power of two that fits the machine.
    pub closed spec fn wf(self) -> bool {
        &&& self.mask < usize::MAX
        &&& is_power_of_two((self.mask + 1) as nat)
    }

    /// A capacity of exactly `n` slots; `n` is a power of two.
    pub fn exact(n: usize) -> (capacity: Self)
        requires
            is_power_of_two(n as nat),
        ensures
            capacity.wf(),
            capacity@ == n,
    {
        proof {
            let k = choose|k: nat| n == #[trigger] pow2(k);
            lemma_pow2_pos(k);
        }
        Capacity { mask: n - 1 }
    }

    /// The number of slots.
    pub fn get(&self) -> (n: usize)
        requires
            self.wf(),
        ensures
            n == self@,
            0 < n,
    {
        self.mask + 1
    }

    /// `value` modulo the capacity.
    pub fn wrap(&self, value: usize) -> (wrapped: usize)
        requires
            self.wf(),
        ensures
            wrapped == value as int % self@ as int,
            wrapped < self@,
    {
        proof {
            let k = choose|k: nat| self.mask + 1 == #[trigger] pow2(k);
            lemma_exponent_fits(k, self.mask);
            lemma_usize_low_bits_mask_is_mod(value, k);
        }
        value & self.mask
    }

    /// The index of the slot that serves the logical position `pos`.
    pub fn index_of(&self, pos: usize) -> (index: usize)
        requires
            self.wf(),
        ensures
            index == slot_of(pos as int, self@),
            index < self@,
    {
        self.wrap(pos)
    }

    /// The capacity divides the range of a machine word, so positions
    /// keep their slots when they roll over.
    pub proof fn lemma_divides_the_word(self)
        requires
            self.wf(),
        ensures
            self@ * ((usize::MAX + 1) / (self@ as int)) == usize::MAX + 1,
    {
        let k = choose|k: nat| self.mask + 1 == #[trigger] pow2(k);
        lemma_exponent_fits(k, self.mask);
        let bits: nat = usize::BITS as nat;
        vstd::arithmetic::power2::lemma_pow2_adds(k, (bits - k) as nat);
        vstd::arithmetic::power2::lemma2_to64();
        lemma_pow2_pos(k);
        let laps: int = pow2((bits - k) as nat) as int;
        lemma_fundamental_div_mod(usize::MAX + 1, self@ as int);
        lemma_mod_multiples_vanish(laps, 0, self@ as int);
        vstd::arithmetic::div_mod::lemma_small_mod(0, self@);
        assert(self@ * laps == laps * self@) by (nonlinear_arith);
    }

    /// No capacity is more than half the range of a machine word.
    pub proof fn lemma_half_the_word(self)
        requires
            self.wf(),
        ensures
            2 * self@ <= usize::MAX + 1,
    {
        self.lemma_divides_the_word();
        let laps: int = (usize::MAX + 1) / (self@ as int);
        assert(laps >= 2) by (nonlinear_arith)
            requires
                self@ * laps == usize::MAX + 1,
                0 < self@ <= usize::MAX,
        ;
        assert(self@ * laps >= self@ * 2) by (nonlinear_arith)
            requires
                laps >= 2,
                self@ > 0,
        ;
    }

    /// A capacity has at least one slot and fits the machine word.
    pub proof fn lemma_bounds(self)
        requires
            self.wf(),
        ensures
            0 < self@ <= usize::MAX,
    {
    }
}

/// The slot that serves the logical position `pos` of a ring of `cap`
/// slots.
pub open spec fn slot_of(pos: int, cap: nat) -> int {
    pos % cap as int
}

proof fn lemma_exponent_fits(k: nat, mask: usize)
    requires
        mask < usize::MAX,
        mask + 1 == pow2(k),
    ensures
        k < usize::BITS,
        low_bits_mask(k) as usize == mask,
        pow2(k) as usize == mask + 1,
{
    if k >= usize::BITS {
        assert(pow2(usize::BITS as nat) > usize::MAX) by {
            vstd::arithmetic::power2::lemma2_to64();
        }
        if k > usize::BITS {
            lemma_pow2_strictly_increases(usize::BITS as nat, k);
        }
    }
}

/// Positions less than one lap apart are served by different slots.
pub proof fn lemma_slots_differ(a: int, b: int, cap: nat)
    requires
        0 < cap,
        a < b < a + cap,
    ensures
        slot_of(a, cap) != slot_of(b, cap),
{
    let c: int = cap as int;
    lemma_fundamental_div_mod(a, c);
    lemma_fundamental_div_mod(b, c);
    if a % c == b % c {
        assert(c * (b / c) - c * (a / c) == c * (b / c - a / c)) by (nonlinear_arith);
        assert(0 < b / c - a / c < 1) by (nonlinear_arith)
            requires
                0 < c * (b / c - a / c) < c,
                0 < c,
        ;
    }
}

/// Two positions served by one slot are a whole number of laps apart:
/// the larger is at least one lap ahead.
pub proof fn lemma_same_slot_lap(a: int, b: int, cap: nat)
    requires
        0 < cap,
        a < b,
        slot_of(a, cap) == slot_of(b, cap),
    ensures
        a + cap <= b,
{
    if b < a + cap {
        lemma_slots_differ(a, b, cap);
    }
}

/// One lap on, a position is served by the same slot.
pub proof fn lemma_next_lap(pos: int, cap: nat)
    requires
        0 < cap,
    ensures
        slot_of(pos + cap, cap) == slot_of(pos, cap),
        slot_of(pos - cap, cap) == slot_of(pos, cap),
        0 <= slot_of(pos, cap) < cap,
{
    lemma_mod_multiples_vanish(1, pos, cap as int);
    lemma_mod_multiples_vanish(-1, pos, cap as int);
}

/// On the first lap a position is its own slot.
pub proof fn lemma_first_lap(pos: int, cap: nat)
    requires
        0 <= pos < cap,
    ensures
        slot_of(pos, cap) == pos,
{
    vstd::arithmetic::div_mod::lemma_small_mod(pos as nat, cap);
}

/// The powers of two: one is, two of one make one, and no other odd number
/// is.
pub proof fn lemma_powers_of_two(n: nat)
    ensures
        is_power_of_two(1),
        !is_power_of_two(0),
        is_power_of_two(2 * n) == is_power_of_two(n),
        n > 0 ==> !is_power_of_two(2 * n + 1),
{
    vstd::arithmetic::power2::lemma2_to64();
    assert(pow2(0) == 1);
    if is_power_of_two(0) {
        let k = choose|k: nat| 0 == #[trigger] pow2(k);
        lemma_pow2_pos(k);
    }
    if is_power_of_two(n) {
        let k = choose|k: nat| n == #[trigger] pow2(k);
        vstd::arithmetic::power2::lemma_pow2_unfold(k + 1);
        assert(2 * n == pow2(k + 1));
    }
    if is_power_of_two(2 * n) {
        let k = choose|k: nat| 2 * n == #[trigger] pow2(k);
        if k > 0 {
            vstd::arithmetic::power2::lemma_pow2_unfold(k);
            assert(n == pow2((k - 1) as nat));
        }
    }
    if is_power_of_two(2 * n + 1) {
        let k = choose|k: nat| 2 * n + 1 == #[trigger] pow2(k);
        if k > 0 {
            vstd::arithmetic::power2::lemma_pow2_unfold(k);
        }
    }
}

} // verus!
