//! What each change of the wait records does to every waiter, bit by bit.

use vstd::prelude::*;

use crate::common::bits::{
    bit64, lemma_clear_bit64, lemma_no_bits64, lemma_set_bit64, lemma_zero_bits64,
};
use crate::common::park::{
    lemma_population_of_a_member, lemma_population_without,
    lemma_wake_chooses_the_nearest_sleeper, population, WakeSet,
};
use crate::common::park_registry::{lowest_clear, ParkRegistry, ParkSlot, PARK_SLOTS};
use crate::common::sole_waiter::SoleWaiter;
use crate::common::wake_delivery::WakeDelivery;

verus! {

/// A side has 64 park slots, one for each bit of a machine word.
pub proof fn lemma_park_slots()
    ensures
        PARK_SLOTS == 64,
{
}

/// On an idle record nobody sleeps, nobody's handle is armed and nothing
/// is owed.
pub proof fn lemma_idle_record(i: int)
    ensures
        !bit64(WakeSet::idle().wake, i),
        !bit64(WakeSet::idle().handles, i),
        !bit64(WakeSet::idle().unparks, i),
        WakeSet::idle().cursor == 0,
        !WakeSet::idle().overflow,
        !WakeSet::idle().overflow_owed,
        !SoleWaiter::idle().parked,
        !SoleWaiter::idle().pending,
        !SoleWaiter::idle().unpark_owed,
        !SoleWaiter::idle().waker_owed,
{
    lemma_zero_bits64(i);
}

/// A wake takes one sleeper off the record, the first from the cursor on,
/// and leaves its unpark owed and its handle claimed; the next search
/// starts behind it. Every other sleeper sleeps on, nobody else's debt
/// changes, and those without a slot are all owed theirs.
pub proof fn lemma_wake_takes_one_sleeper(set: WakeSet) -> (i: int)
    requires
        set.wf(),
        set.wake != 0,
    ensures
        bit64(set.wake, i),
        forall|j: int| #[trigger]
            bit64(set.wake, j) ==> (i - set.cursor) % 64 <= (j - set.cursor) % 64,
        forall|j: int| #[trigger] bit64(set.woken().wake, j) == (bit64(set.wake, j) && j != i),
        forall|j: int| #[trigger]
            bit64(set.woken().handles, j) == (bit64(set.handles, j) && j != i),
        forall|j: int| #[trigger]
            bit64(set.woken().unparks, j) == (bit64(set.unparks, j) || j == i),
        set.woken().cursor == (i + 1) % 64,
        !set.woken().overflow,
        set.woken().overflow_owed == (set.overflow_owed || set.overflow),
{
    lemma_wake_chooses_the_nearest_sleeper(set, 0);
    let i = set.chosen()->0;
    assert forall|j: int| #[trigger] bit64(set.wake, j) implies (i - set.cursor) % 64 <= (j
        - set.cursor) % 64 by {
        lemma_wake_chooses_the_nearest_sleeper(set, j);
    }
    lemma_served_is_exact(set, i);
    i
}

/// A wake while nobody sleeps changes nothing but the overflow.
pub proof fn lemma_wake_of_nobody(set: WakeSet)
    requires
        set.wf(),
        set.wake == 0,
    ensures
        set.woken().wake == set.wake,
        set.woken().handles == set.handles,
        set.woken().unparks == set.unparks,
        set.woken().cursor == set.cursor,
        !set.woken().overflow,
        set.woken().overflow_owed == (set.overflow_owed || set.overflow),
{
    lemma_wake_chooses_the_nearest_sleeper(set, 0);
}

/// Waking the waiter of one slot changes the bits of that slot alone, and
/// the cursor; its unpark becomes owed if its handle was still armed.
pub proof fn lemma_served_is_exact(set: WakeSet, i: int)
    requires
        0 <= i < 64,
    ensures
        forall|j: int| #[trigger] bit64(set.served(i).wake, j) == (bit64(set.wake, j) && j != i),
        forall|j: int| #[trigger]
            bit64(set.served(i).handles, j) == (bit64(set.handles, j) && j != i),
        forall|j: int| #[trigger]
            bit64(set.served(i).unparks, j) == (bit64(set.unparks, j) || (j == i && bit64(
                set.handles,
                i,
            ))),
        set.served(i).cursor == (i + 1) % 64,
        set.served(i).overflow == set.overflow,
        set.served(i).overflow_owed == set.overflow_owed,
{
    lemma_clear_bit64(set.wake, i as u64);
    lemma_clear_bit64(set.handles, i as u64);
    lemma_set_bit64(set.unparks, i as u64);
}

/// Serving those without a slot touches nobody that has one.
pub proof fn lemma_overflow_served_is_exact(set: WakeSet)
    ensures
        set.overflow_served().wake == set.wake,
        set.overflow_served().handles == set.handles,
        set.overflow_served().unparks == set.unparks,
        set.overflow_served().cursor == set.cursor,
        !set.overflow_served().overflow,
        set.overflow_served().overflow_owed == (set.overflow_owed || set.overflow),
        set.overflow_paid().wake == set.wake,
        set.overflow_paid().handles == set.handles,
        set.overflow_paid().unparks == set.unparks,
        set.overflow_paid().cursor == set.cursor,
        set.overflow_paid().overflow == set.overflow,
        !set.overflow_paid().overflow_owed,
{
}

/// A flush wakes exactly those that sleep: nobody does any longer, each
/// of them is owed its unpark, and no other debt or handle changes.
pub proof fn lemma_flush_is_exact(set: WakeSet, j: int)
    requires
        set.wf(),
    ensures
        set.flushed().wake == 0,
        bit64(set.flushed().unparks, j) == (bit64(set.unparks, j) || bit64(set.wake, j)),
        bit64(set.flushed().handles, j) == (bit64(set.handles, j) && !bit64(set.wake, j)),
        set.flushed().cursor == set.cursor,
        !set.flushed().overflow,
        set.flushed().overflow_owed == (set.overflow_owed || set.overflow),
{
    if 0 <= j < 64 {
        let b: u64 = j as u64;
        let w: u64 = set.wake;
        let h: u64 = set.handles;
        let u: u64 = set.unparks;
        let owed: u64 = u | (h & w);
        let left: u64 = h & !w;
        assert(((owed >> b) & 1 == 1) == (((u >> b) & 1 == 1) || (((h >> b) & 1 == 1) && ((w >> b)
            & 1 == 1))) && ((left >> b) & 1 == 1) == (((h >> b) & 1 == 1) && ((w >> b) & 1 != 1)))
            by (bit_vector)
            requires
                owed == u | (h & w),
                left == h & !w,
                b < 64,
        ;
        assert(bit64(w, j) ==> bit64(h, j));
    }
}

/// `n` wakes take the smaller of `n` and the sleepers there are off the
/// record. Who is taken off is owed its unpark, who is not sleeps on, and
/// nobody else's debt changes; unless `n` is zero, those without a slot
/// are owed theirs.
pub proof fn lemma_wakes_take_as_many_sleepers(set: WakeSet, n: nat)
    requires
        set.wf(),
    ensures
        set.woken_n(n).wf(),
        population(set.woken_n(n).wake, 64) == if n <= population(set.wake, 64) {
            population(set.wake, 64) - n
        } else {
            0
        },
        forall|j: int| #[trigger] bit64(set.woken_n(n).wake, j) ==> bit64(set.wake, j),
        forall|j: int| #[trigger]
            bit64(set.woken_n(n).unparks, j) == (bit64(set.unparks, j) || (bit64(set.wake, j)
                && !bit64(set.woken_n(n).wake, j))),
        set.woken_n(n).overflow == (n == 0 && set.overflow),
        set.woken_n(n).overflow_owed == (set.overflow_owed || (n > 0 && set.overflow)),
    decreases n,
{
    if n == 0 {
    } else if set.wake == 0 {
        lemma_population_is_a_count(0, 0);
    } else {
        let i = lemma_wake_takes_one_sleeper(set);
        let next = set.woken();
        assert forall|j: int| #[trigger] bit64(next.wake, j) implies bit64(next.handles, j) by {
            assert(bit64(set.wake, j));
        }
        lemma_population_of_a_member(set.wake, i, 64);
        lemma_population_by_bits(set.wake, next.wake, i, 64);
        lemma_wakes_take_as_many_sleepers(next, (n - 1) as nat);
        assert forall|j: int| #[trigger] bit64(set.woken_n(n).unparks, j) == (bit64(
            set.unparks,
            j,
        ) || (bit64(set.wake, j) && !bit64(set.woken_n(n).wake, j))) by {
            assert(bit64(next.woken_n((n - 1) as nat).wake, i) ==> bit64(next.wake, i));
        }
    }
}

/// The population counts set bits: there are none exactly if the word is
/// zero, and one bit more is one more.
pub proof fn lemma_population_is_a_count(mask: u64, i: int)
    ensures
        population(mask, 64) == 0 <==> mask == 0,
        0 <= i < 64 && !bit64(mask, i) ==> population(mask | (1u64 << (i as u64)), 64)
            == population(mask, 64) + 1,
{
    if population(mask, 64) == 0 {
        assert forall|k: int| !(#[trigger] bit64(mask, k)) by {
            if bit64(mask, k) {
                lemma_population_of_a_member(mask, k, 64);
            }
        }
        lemma_no_bits64(mask);
    }
    if mask == 0 {
        lemma_population_of_none(64);
    }
    if 0 <= i < 64 && !bit64(mask, i) {
        lemma_set_bit64(mask, i as u64);
        lemma_population_by_bits(mask | (1u64 << (i as u64)), mask, i, 64);
    }
}

proof fn lemma_population_of_none(upto: int)
    ensures
        population(0, upto) == 0,
    decreases upto,
{
    if upto > 0 {
        lemma_zero_bits64(upto - 1);
        lemma_population_of_none(upto - 1);
    }
}

/// A word that lacks one bit of another and agrees elsewhere counts one
/// fewer.
proof fn lemma_population_by_bits(more: u64, fewer: u64, i: int, upto: int)
    requires
        0 <= i < 64,
        0 <= upto <= 64,
        bit64(more, i),
        forall|j: int| #[trigger] bit64(fewer, j) == (bit64(more, j) && j != i),
    ensures
        population(more, upto) == population(fewer, upto) + if i < upto {
            1nat
        } else {
            0nat
        },
    decreases upto,
{
    if upto > 0 {
        lemma_population_by_bits(more, fewer, i, upto - 1);
    }
}

/// The others that sleep are all that do, less the one that asks.
pub proof fn lemma_others_are_the_rest(set: WakeSet, i: usize)
    requires
        i < 64,
    ensures
        set.others(ParkSlot::Leased(i)) == population(set.wake, 64) - if bit64(
            set.wake,
            i as int,
        ) {
            1int
        } else {
            0int
        },
        set.others(ParkSlot::Slotless) == population(set.wake, 64),
{
    lemma_clear_bit64(set.wake, i as u64);
    if bit64(set.wake, i as int) {
        lemma_population_without(set.wake, i as int, 64);
    } else {
        lemma_population_same(set.wake, set.wake & !(1u64 << (i as u64)), 64);
    }
}

proof fn lemma_population_same(a: u64, b: u64, upto: int)
    requires
        forall|j: int| #[trigger] bit64(a, j) == bit64(b, j),
    ensures
        population(a, upto) == population(b, upto),
    decreases upto,
{
    if upto > 0 {
        assert(bit64(a, upto - 1) == bit64(b, upto - 1));
        lemma_population_same(a, b, upto - 1);
    }
}

/// A waiter that goes on record has its own bits set and no others; one
/// that goes off it has them cleared. Debts, the cursor and everybody
/// else stay as they were. One without a slot shares the overflow, which
/// its going off leaves alone.
pub proof fn lemma_arming_is_exact(set: WakeSet, i: usize, j: int)
    requires
        i < 64,
    ensures
        bit64(set.armed(ParkSlot::Leased(i)).wake, j) == (bit64(set.wake, j) || j == i),
        bit64(set.armed(ParkSlot::Leased(i)).handles, j) == (bit64(set.handles, j) || j == i),
        bit64(set.disarmed(ParkSlot::Leased(i)).wake, j) == (bit64(set.wake, j) && j != i),
        bit64(set.disarmed(ParkSlot::Leased(i)).handles, j) == (bit64(set.handles, j) && j != i),
        set.armed(ParkSlot::Leased(i)).unparks == set.unparks,
        set.armed(ParkSlot::Leased(i)).cursor == set.cursor,
        set.armed(ParkSlot::Leased(i)).overflow == set.overflow,
        set.armed(ParkSlot::Leased(i)).overflow_owed == set.overflow_owed,
        set.disarmed(ParkSlot::Leased(i)).unparks == set.unparks,
        set.disarmed(ParkSlot::Leased(i)).cursor == set.cursor,
        set.disarmed(ParkSlot::Leased(i)).overflow == set.overflow,
        set.disarmed(ParkSlot::Leased(i)).overflow_owed == set.overflow_owed,
        set.armed(ParkSlot::Slotless) == (WakeSet { overflow: true, ..set }),
        set.disarmed(ParkSlot::Slotless) == set,
{
    lemma_set_bit64(set.wake, i as u64);
    lemma_set_bit64(set.handles, i as u64);
    lemma_clear_bit64(set.wake, i as u64);
    lemma_clear_bit64(set.handles, i as u64);
}

/// A debt is paid once, and no other with it.
pub proof fn lemma_payment_is_exact(set: WakeSet, i: int, j: int)
    requires
        0 <= i < 64,
    ensures
        set.owes(j) == bit64(set.unparks, j),
        bit64(set.paid(i).unparks, j) == (bit64(set.unparks, j) && j != i),
        set.paid(i).wake == set.wake,
        set.paid(i).handles == set.handles,
        set.paid(i).cursor == set.cursor,
        set.paid(i).overflow == set.overflow,
        set.paid(i).overflow_owed == set.overflow_owed,
{
    lemma_clear_bit64(set.unparks, i as u64);
}

/// A wake of a lone endpoint makes its unpark owed exactly if it slept or
/// was owed it before, and its waker call exactly if its task waited or
/// was owed it before.
pub proof fn lemma_sole_wake_is_exact(waiter: SoleWaiter)
    ensures
        !waiter.woken().parked,
        !waiter.woken().pending,
        waiter.woken().unpark_owed <==> waiter.unpark_owed || waiter.parked,
        waiter.woken().waker_owed <==> waiter.waker_owed || waiter.pending,
{
}

/// What a sleeper finds: its record as it left it while nobody has come,
/// and its handle claimed once a wake has served it, or a flush, or once
/// it has gone off the record itself. One without a slot can tell nothing.
pub proof fn lemma_sleeper_finds_its_wake(set: WakeSet, i: usize)
    requires
        i < 64,
        set.wf(),
    ensures
        WakeDelivery::found(set.armed(ParkSlot::Leased(i)), ParkSlot::Leased(i))
            == WakeDelivery::Untouched,
        WakeDelivery::found(set.served(i as int), ParkSlot::Leased(i)) == WakeDelivery::Delivered,
        WakeDelivery::found(set.disarmed(ParkSlot::Leased(i)), ParkSlot::Leased(i))
            == WakeDelivery::Delivered,
        bit64(set.wake, i as int) ==> WakeDelivery::found(set.flushed(), ParkSlot::Leased(i))
            == WakeDelivery::Delivered,
        WakeDelivery::found(set, ParkSlot::Leased(i)) == WakeDelivery::InFlight <==> (bit64(
            set.handles,
            i as int,
        ) && !bit64(set.wake, i as int)),
        WakeDelivery::found(set, ParkSlot::Leased(i)) == WakeDelivery::Untouched <==> bit64(
            set.wake,
            i as int,
        ),
        WakeDelivery::found(set, ParkSlot::Leased(i)) == WakeDelivery::Delivered <==> !bit64(
            set.handles,
            i as int,
        ),
        WakeDelivery::found(set, ParkSlot::Slotless) == WakeDelivery::Slotless,
        !WakeDelivery::Delivered.unwoken(),
        WakeDelivery::InFlight.unwoken(),
        WakeDelivery::Untouched.unwoken(),
        WakeDelivery::Slotless.unwoken(),
{
    lemma_arming_is_exact(set, i, i as int);
    lemma_served_is_exact(set, i as int);
    lemma_flush_is_exact(set, i as int);
}

/// A lease hands out the lowest slot that nobody holds, and nobody gets
/// one only if all 64 are held. It marks that slot and no other.
pub proof fn lemma_lease_is_the_lowest_free(registry: ParkRegistry, j: int)
    ensures
        match registry.next() {
            ParkSlot::Leased(i) => {
                &&& i < 64
                &&& !bit64(registry.leased, i as int)
                &&& 0 <= j < i ==> bit64(registry.leased, j)
                &&& bit64(registry.after_lease().leased, j) == (bit64(registry.leased, j) || j == i)
            },
            ParkSlot::Slotless => {
                &&& 0 <= j < 64 ==> bit64(registry.leased, j)
                &&& registry.after_lease() == registry
            },
        },
{
    lemma_lowest_clear(registry.leased, 0, j);
    match lowest_clear(registry.leased, 0) {
        Some(i) => lemma_set_bit64(registry.leased, i as u64),
        None => {},
    }
}

proof fn lemma_lowest_clear(mask: u64, from: int, j: int)
    requires
        0 <= from <= 64,
    ensures
        match lowest_clear(mask, from) {
            Some(i) => from <= i < 64 && !bit64(mask, i) && (from <= j < i ==> bit64(mask, j)),
            None => from <= j < 64 ==> bit64(mask, j),
        },
    decreases 64 - from,
{
    if from < 64 && bit64(mask, from) {
        lemma_lowest_clear(mask, from + 1, j);
    }
}

/// A slot that is returned is free again, and no other is; two leases in
/// a row never hand out one slot.
pub proof fn lemma_returned_slot_is_free(registry: ParkRegistry, i: usize, j: int)
    requires
        i < 64,
    ensures
        bit64(registry.after_release(ParkSlot::Leased(i)).leased, j) == (bit64(registry.leased, j)
            && j != i),
        registry.after_release(ParkSlot::Slotless) == registry,
        registry.next() is Leased ==> registry.after_lease().next() != registry.next(),
{
    lemma_clear_bit64(registry.leased, i as u64);
    match registry.next() {
        ParkSlot::Leased(k) => {
            lemma_lease_is_the_lowest_free(registry, k as int);
            lemma_lease_is_the_lowest_free(registry.after_lease(), k as int);
        },
        ParkSlot::Slotless => {},
    }
}

/// Several wakes in one go are as many single ones, one after the other,
/// and none is nothing.
pub proof fn lemma_many_wakes_are_single_ones(set: WakeSet, n: nat)
    requires
        set.wf(),
    ensures
        set.woken_n(0) == set,
        set.woken_n(n + 1) == set.woken().woken_n(n),
{
    if set.wake == 0 {
        lemma_wake_chooses_the_nearest_sleeper(set, 0);
    }
}

} // verus!
