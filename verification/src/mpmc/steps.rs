//! What each step of the ring does, slot by slot and waiter by waiter, and
//! when it may be refused.

use vstd::prelude::*;

use crate::capacity::{lemma_next_lap, lemma_slots_differ, slot_of};
use crate::common::bits::{
    bit32, bit64, lemma_clear_bit32, lemma_set_bit32, lemma_zero_bits32, lemma_zero_bits64,
};
use crate::common::laws::{
    lemma_arming_is_exact, lemma_flush_is_exact, lemma_population_is_a_count,
    lemma_returned_slot_is_free, lemma_served_is_exact, lemma_wakes_take_as_many_sleepers,
};
use crate::common::park::{lemma_wake_chooses_the_nearest_sleeper, population, WakeSet};
use crate::common::park_registry::ParkSlot;
use crate::common::wake_interest::WakeInterest;
use crate::mpmc::awaited_batch::interest_in;
use crate::mpmc::backstop_monitor::BackstopStats;
use crate::mpmc::consumer::stagger;
use crate::mpmc::ring_model::{
    lemma_claimable_iff_published, lemma_claiming_disturbs_nobody, lemma_first_writable,
    lemma_full_batch, lemma_published_count_falls, lemma_published_count_stays,
    lemma_refill_is_backed, lemma_releasing_disturbs_nobody, lemma_routed,
    lemma_routing_takes_turns, published_count, routed,
    Batch, RingModel, Scan,
};
use crate::mpmc::slot_table::{Phase, Slot};

verus! {

/// A new ring has every slot empty and free for its own index, one handle
/// on each side, and nobody that waits.
pub proof fn lemma_new_ring_is_empty<T>(cap: nat, s: int)
    ensures
        RingModel::<T>::fresh(cap).cap == cap,
        RingModel::<T>::fresh(cap).slots.len() == cap,
        0 <= s < cap ==> RingModel::<T>::fresh(cap).slots[s].pos == s
            && RingModel::<T>::fresh(cap).slots[s].phase == Phase::<T>::Open(None),
        RingModel::<T>::fresh(cap).claim == 0,
        RingModel::<T>::fresh(cap).consumed == 0,
        RingModel::<T>::fresh(cap).producers == 1,
        RingModel::<T>::fresh(cap).consumers == 1,
        !RingModel::<T>::fresh(cap).producers_gone,
        !RingModel::<T>::fresh(cap).consumers_gone,
        RingModel::<T>::fresh(cap).clones == 0,
        !bit64(RingModel::<T>::fresh(cap).producer_park.wake, s),
        !bit64(RingModel::<T>::fresh(cap).consumer_park.wake, s),
        !bit64(RingModel::<T>::fresh(cap).producer_tasks.wake, s),
        !bit64(RingModel::<T>::fresh(cap).consumer_tasks.wake, s),
        !bit64(RingModel::<T>::fresh(cap).producer_slots.leased, s),
        !bit64(RingModel::<T>::fresh(cap).consumer_slots.leased, s),
        0 <= s < 64 ==> RingModel::<T>::fresh(cap).awaited[s] is None,
        RingModel::<T>::fresh(cap).producer_park == WakeSet::idle(),
        RingModel::<T>::fresh(cap).consumer_park == WakeSet::idle(),
        RingModel::<T>::fresh(cap).producer_tasks == WakeSet::idle(),
        RingModel::<T>::fresh(cap).consumer_tasks == WakeSet::idle(),
        RingModel::<T>::fresh(cap).backstop == BackstopStats::nothing(),
{
    lemma_zero_bits64(s);
}

/// Three more laps and a batch are within the machine limits exactly if
/// their positions are.
pub proof fn lemma_headroom_is_the_machine_limit<T>(ring: RingModel<T>)
    ensures
        ring.headroom() <==> ring.claim + 3 * ring.cap <= usize::MAX - 64,
{
}

/// A position is taken out of a batch, or put back, and no other with it.
pub proof fn lemma_batch_changes_one_position(batch: Batch, pos: int, q: int)
    requires
        batch.start <= pos < batch.start + 32,
    ensures
        batch.without(pos).reserves(q) <==> batch.reserves(q) && q != pos,
        batch.with(pos).reserves(q) <==> batch.reserves(q) || q == pos,
        batch.without(pos).start == batch.start,
        batch.without(pos).size == batch.size,
        batch.without(pos).slot == batch.slot,
        batch.with(pos).start == batch.start,
        batch.with(pos).size == batch.size,
        batch.with(pos).slot == batch.slot,
{
    lemma_clear_bit32(batch.unused, (pos - batch.start) as u32);
    lemma_set_bit32(batch.unused, (pos - batch.start) as u32);
}

/// A batch reserves the positions of its set bits, from its start on: none
/// if it is exhausted, and never one that is 32 or more away.
pub proof fn lemma_batch_reserves_its_bits(batch: Batch, pos: int)
    ensures
        batch.reserves(pos) <==> bit32(batch.unused, pos - batch.start),
        batch.unused == 0 ==> !batch.reserves(pos),
        batch.reserves(pos) ==> batch.start <= pos < batch.start + 32,
{
    lemma_zero_bits32(pos - batch.start);
}

/// How many positions a producer may reserve: the smaller of its limit
/// and what the watermark leaves; where the watermark leaves nothing, one
/// if the slot of the claim cursor is free, and none only if it is not.
pub proof fn lemma_refill_asks_the_slot_before_giving_up<T>(ring: RingModel<T>, limit: nat)
    requires
        ring.consistent(),
    ensures
        ({
            let in_flight: int = if ring.claim >= ring.consumed {
                ring.claim - ring.consumed
            } else {
                ring.claim - ring.consumed + usize::MAX + 1
            };
            &&& in_flight < ring.cap ==> {
                &&& ring.refill_size(limit) is Some
                &&& ring.refill_size(limit)->0 <= limit
                &&& ring.refill_size(limit)->0 <= ring.cap - in_flight
                &&& ring.refill_size(limit)->0 == limit || ring.refill_size(limit)->0 == ring.cap
                    - in_flight
            }
            &&& in_flight >= ring.cap && ring.at(ring.claim as int).pos == ring.claim
                ==> ring.refill_size(limit) == Some(1nat)
            &&& in_flight >= ring.cap && ring.at(ring.claim as int).pos != ring.claim
                ==> ring.refill_size(limit) is None
        }),
{
}

/// A push is refused only for want of a free slot: a producer with
/// positions in its batch is refused exactly if the slot of none of them
/// has come round to it, and one with an exhausted batch only if the slot
/// at the claim cursor has not. What a push gets is the lowest that it
/// can have, and its slot serves it.
pub proof fn lemma_push_is_refused_only_without_a_free_slot<T>(
    ring: RingModel<T>,
    batch: Batch,
    limit: nat,
    q: int,
)
    requires
        ring.consistent(),
        ring.headroom(),
        ring.backs(batch),
        1 <= limit <= 32,
    ensures
        batch.unused == 0 && ring.at(ring.claim as int).pos == ring.claim ==> ring.acquirable(
            batch,
            limit,
        ) is Some,
        batch.reserves(q) && ring.at(q).pos == q ==> ring.acquirable(batch, limit) is Some,
        ring.acquirable(batch, limit) matches Some(pos) ==> {
            &&& ring.at(pos).pos == pos
            &&& ring.at(pos).phase is Open
            &&& batch.unused != 0 ==> batch.reserves(pos)
            &&& batch.unused != 0 && batch.reserves(q) && ring.at(q).pos == q ==> pos <= q
            &&& batch.unused == 0 ==> ring.claim <= pos < ring.claim + limit
            &&& batch.unused == 0 && ring.at(ring.claim as int).pos == ring.claim ==> pos
                == ring.claim
        },
{
    let (refilled, full) = ring.refilled(batch, limit);
    if batch.unused == 0 {
        lemma_batch_reserves_its_bits(batch, q);
        match ring.refill_size(limit) {
            Some(n) => {
                lemma_refill_is_backed(ring, n, batch);
                lemma_full_batch(n);
                assert(full.reserves(ring.claim as int));
            },
            None => {},
        }
    }
    lemma_first_writable(refilled, full, 0);
    match refilled.first_writable(full, 0) {
        Some(pos) => {
            assert(full.reserves(pos));
            lemma_batch_reserves_its_bits(full, pos);
            assert(refilled.honours(pos));
            assert(refilled.at(pos) == ring.at(pos));
            lemma_batch_reserves_its_bits(full, q);
            lemma_batch_reserves_its_bits(full, ring.claim as int);
            if batch.unused == 0 {
                assert(bit32(full.unused, pos - full.start));
            }
        },
        None => {
            if batch.reserves(q) && ring.at(q).pos == q {
                lemma_batch_reserves_its_bits(batch, q);
                assert(full.reserves(q));
            }
            if batch.unused == 0 && ring.at(ring.claim as int).pos == ring.claim {
                lemma_refill_asks_the_slot_before_giving_up(ring, limit);
                lemma_batch_reserves_its_bits(full, ring.claim as int);
                assert(full.reserves(ring.claim as int));
            }
        },
    }
}

/// An attempt to write changes the ring by what it reserves and nothing
/// else: nothing while the batch has positions, and else a run of
/// positions from the claim cursor on, which the batch holds from then
/// on. The position it got leaves the batch, and no other does.
pub proof fn lemma_attempt_reserves_and_takes<T>(
    ring: RingModel<T>,
    batch: Batch,
    limit: nat,
    q: int,
)
    requires
        ring.consistent(),
        ring.headroom(),
        1 <= limit <= 32,
    ensures
        ({
            let (after, rest) = ring.acquired(batch, limit);
            let n: int = match ring.refill_size(limit) {
                Some(n) => n as int,
                None => 0,
            };
            &&& after == (RingModel { claim: after.claim, ..ring })
            &&& rest.slot == batch.slot
            &&& batch.unused != 0 ==> {
                &&& after.claim == ring.claim
                &&& rest.start == batch.start
                &&& rest.size == batch.size
                &&& rest.reserves(q) <==> batch.reserves(q) && ring.acquirable(batch, limit)
                    != Some(q)
            }
            &&& batch.unused == 0 ==> {
                &&& after.claim == ring.claim + n
                &&& n > 0 ==> rest.start == ring.claim && rest.size == n
                &&& n == 0 ==> rest == batch
                &&& rest.reserves(q) <==> ring.claim <= q < ring.claim + n && ring.acquirable(
                    batch,
                    limit,
                ) != Some(q)
            }
        }),
{
    let (refilled, full) = ring.refilled(batch, limit);
    lemma_refill_asks_the_slot_before_giving_up(ring, limit);
    if batch.unused == 0 {
        lemma_batch_reserves_its_bits(batch, q);
        match ring.refill_size(limit) {
            Some(n) => {
                lemma_full_batch(n);
                assert(full.reserves(q) == bit32(full_batch_bits(n), q - ring.claim));
            },
            None => {},
        }
    }
    lemma_first_writable(refilled, full, 0);
    match refilled.first_writable(full, 0) {
        Some(pos) => {
            lemma_batch_reserves_its_bits(full, pos);
            lemma_batch_changes_one_position(full, pos, q);
        },
        None => {},
    }
}

spec fn full_batch_bits(n: nat) -> u32 {
    crate::mpmc::ring_model::full_batch(n)
}

/// Whether the two rings agree in all but the slots and the waiting
/// consumers.
pub open spec fn same_but_consumers<T>(a: RingModel<T>, b: RingModel<T>) -> bool {
    b == (RingModel {
        slots: b.slots,
        consumer_park: b.consumer_park,
        consumer_tasks: b.consumer_tasks,
        ..a
    })
}

/// Writing ahead changes the cell of the position and nothing else.
/// Publishing makes what is there claimable, as it is, and wakes one
/// sleeping consumer, the first going round, and every waiting consumer
/// task. No other slot changes.
pub proof fn lemma_publishing_is_exact<T>(
    ring: RingModel<T>,
    pos: int,
    staged: Option<T>,
    s: int,
    j: int,
)
    requires
        ring.consistent(),
        pos >= 0,
    ensures
        ring.staged(pos, staged).at(pos) == (Slot { pos: pos as nat, phase: Phase::Open(staged) }),
        ring.staged(pos, staged) == (RingModel { slots: ring.staged(pos, staged).slots, ..ring }),
        ring.published(pos).at(pos).pos == pos,
        ring.published(pos).at(pos).phase is Published,
        ring.at(pos).phase == Phase::Open(staged) && staged is Some ==> ring.published(pos).at(
            pos,
        ).phase == Phase::Published(staged->0),
        same_but_consumers(ring, ring.published(pos)),
        0 <= s < ring.cap && s != slot_of(pos, ring.cap) ==> ring.staged(pos, staged).slots[s]
            == ring.slots[s] && ring.published(pos).slots[s] == ring.slots[s],
        population(ring.published(pos).consumer_park.wake, 64) == if ring.consumer_park.wake == 0 {
            0
        } else {
            population(ring.consumer_park.wake, 64) - 1
        },
        bit64(ring.published(pos).consumer_park.unparks, j) == (bit64(
            ring.consumer_park.unparks,
            j,
        ) || (bit64(ring.consumer_park.wake, j) && !bit64(
            ring.published(pos).consumer_park.wake,
            j,
        ))),
        bit64(ring.published(pos).consumer_park.wake, j) ==> bit64(ring.consumer_park.wake, j),
        ring.published(pos).consumer_tasks.wake == 0,
        bit64(ring.published(pos).consumer_tasks.unparks, j) == (bit64(
            ring.consumer_tasks.unparks,
            j,
        ) || bit64(ring.consumer_tasks.wake, j)),
        ring.consumers_nudged().consumer_park == ring.published(pos).consumer_park,
        ring.consumers_nudged().consumer_tasks == ring.published(pos).consumer_tasks,
        ring.consumers_nudged().slots == ring.slots,
        same_but_consumers(ring, ring.consumers_nudged()),
{
    lemma_next_lap(pos, ring.cap);
    lemma_flush_is_exact(ring.consumer_tasks, j);
    lemma_population_is_a_count(ring.consumer_park.wake, 0);
    lemma_wakes_take_as_many_sleepers(ring.consumer_park, 1);
    if ring.consumer_park.wake == 0 {
        lemma_wake_chooses_the_nearest_sleeper(ring.consumer_park, 0);
    } else {
        assert(ring.consumer_park.woken_n(1) == ring.consumer_park.woken().woken_n(0));
    }
}

/// A push that succeeds publishes its value, at the position it got, and
/// disturbs no other slot; one that is refused publishes nothing.
pub proof fn lemma_push_publishes_its_value<T>(
    ring: RingModel<T>,
    batch: Batch,
    limit: nat,
    val: T,
    s: int,
)
    requires
        ring.consistent(),
        ring.headroom(),
        ring.backs(batch),
        1 <= limit <= 32,
    ensures
        ({
            let (after, rest) = ring.pushed(batch, limit, val);
            let acquired = ring.acquired(batch, limit).0;
            &&& rest == ring.acquired(batch, limit).1
            &&& match ring.acquirable(batch, limit) {
                Some(pos) => {
                    &&& after.at(pos).pos == pos
                    &&& after.at(pos).phase == Phase::Published(val)
                    &&& 0 <= s < ring.cap && s != slot_of(pos, ring.cap) ==> after.slots[s]
                        == ring.slots[s]
                    &&& after.consumer_park == acquired.published(pos).consumer_park
                    &&& after.consumer_tasks == acquired.published(pos).consumer_tasks
                    &&& same_but_consumers(acquired, after)
                },
                None => after == acquired,
            }
        }),
{
    lemma_attempt_reserves_and_takes(ring, batch, limit, 0);
    lemma_push_is_refused_only_without_a_free_slot(ring, batch, limit, 0);
    match ring.acquirable(batch, limit) {
        Some(pos) => {
            lemma_next_lap(pos, ring.cap);
            let acquired = ring.acquired(batch, limit).0;
            let staged = acquired.staged(pos, Some(val));
            assert(staged.at(pos).value() == val);
            assert(pos >= 0) by {
                lemma_batch_reserves_its_bits(batch, pos);
            }
        },
        None => {},
    }
}

/// A claim marks the slot as taken, with the value still in it. A release
/// hands the slot to the position one lap on, empty. Neither touches
/// another slot, and a claim touches nothing else at all.
pub proof fn lemma_claim_and_release_are_exact<T>(ring: RingModel<T>, pos: int, s: int)
    requires
        ring.consistent(),
        pos >= 0,
    ensures
        ring.taken(pos).at(pos).pos == pos,
        ring.at(pos).phase matches Phase::Published(val) ==> ring.taken(pos).at(pos).phase
            == Phase::Taken(val),
        ring.taken(pos) == (RingModel { slots: ring.taken(pos).slots, ..ring }),
        ring.freed(pos).at(pos).pos == pos + ring.cap,
        ring.freed(pos).at(pos).phase == Phase::<T>::Open(None),
        ring.freed(pos) == (RingModel {
            slots: ring.freed(pos).slots,
            producer_park: ring.freed(pos).producer_park,
            ..ring
        }),
        0 <= s < ring.cap && s != slot_of(pos, ring.cap) ==> ring.taken(pos).slots[s]
            == ring.slots[s] && ring.freed(pos).slots[s] == ring.slots[s],
{
    lemma_next_lap(pos, ring.cap);
}

/// A release wakes one sleeping producer that can use it, and those
/// without a park slot: one that reserved the freed position if any did,
/// else one that takes anything if any does, else nobody. Everybody else
/// sleeps on, and nobody else becomes owed.
pub proof fn lemma_release_wakes_who_can_use_it<T>(ring: RingModel<T>, pos: int)
    requires
        ring.consistent(),
    ensures
        ({
            let freed = (pos + ring.cap) as usize;
            let before = ring.producer_park;
            let after = ring.freed(pos).producer_park;
            &&& !after.overflow
            &&& after.overflow_owed == (before.overflow_owed || before.overflow)
            &&& (exists|i: int|
                #[trigger] bit64(before.wake, i) && interest_in(ring.awaited[i], freed)
                    == WakeInterest::Reserved) ==> exists|i: int|
                {
                    &&& #[trigger] bit64(before.wake, i)
                    &&& interest_in(ring.awaited[i], freed) == WakeInterest::Reserved
                    &&& bit64(after.unparks, i)
                    &&& forall|j: int| #[trigger] bit64(after.wake, j) == (bit64(before.wake, j) && j
                        != i)
                    &&& forall|j: int| #[trigger] bit64(after.unparks, j) == (bit64(
                        before.unparks,
                        j,
                    ) || j == i)
                }
            &&& !(exists|i: int|
                #[trigger] bit64(before.wake, i) && interest_in(ring.awaited[i], freed)
                    == WakeInterest::Reserved) && (exists|i: int|
                #[trigger] bit64(before.wake, i) && interest_in(ring.awaited[i], freed)
                    == WakeInterest::Any) ==> exists|i: int|
                {
                    &&& #[trigger] bit64(before.wake, i)
                    &&& interest_in(ring.awaited[i], freed) == WakeInterest::Any
                    &&& bit64(after.unparks, i)
                    &&& forall|j: int| #[trigger] bit64(after.wake, j) == (bit64(before.wake, j) && j
                        != i)
                    &&& forall|j: int| #[trigger] bit64(after.unparks, j) == (bit64(
                        before.unparks,
                        j,
                    ) || j == i)
                }
            &&& (forall|i: int|
                bit64(before.wake, i) ==> #[trigger] interest_in(ring.awaited[i], freed)
                    == WakeInterest::Declines) ==> after.wake == before.wake && after.unparks
                == before.unparks && after.handles == before.handles
        }),
{
    let freed = (pos + ring.cap) as usize;
    let before = ring.producer_park;
    lemma_routed(before, ring.awaited, freed);
    match routed(before, ring.awaited, freed) {
        Some(i) => {
            lemma_served_is_exact(before, i);
            assert(bit64(before.wake, i));
            assert(bit64(before.handles, i));
            if forall|k: int|
                bit64(before.wake, k) ==> #[trigger] interest_in(ring.awaited[k], freed)
                    == WakeInterest::Declines {
                assert(interest_in(ring.awaited[i], freed) == WakeInterest::Declines);
            }
        },
        None => {
            assert(forall|k: int| #[trigger]
                bit64(before.wake, k) ==> interest_in(ring.awaited[k], freed)
                    == WakeInterest::Declines);
        },
    }
}

/// Waking the producer tasks moves no slot: all of them, or the smaller
/// of `n` and those there are.
pub proof fn lemma_task_wakes_are_exact<T>(ring: RingModel<T>, n: nat, j: int)
    requires
        ring.consistent(),
    ensures
        ring.producer_tasks_woken() == (RingModel {
            producer_tasks: ring.producer_tasks_woken().producer_tasks,
            ..ring
        }),
        ring.producer_tasks_woken().producer_tasks.wake == 0,
        bit64(ring.producer_tasks_woken().producer_tasks.unparks, j) == (bit64(
            ring.producer_tasks.unparks,
            j,
        ) || bit64(ring.producer_tasks.wake, j)),
        ring.producer_tasks_woken_n(n) == (RingModel {
            producer_tasks: ring.producer_tasks_woken_n(n).producer_tasks,
            ..ring
        }),
        population(ring.producer_tasks_woken_n(n).producer_tasks.wake, 64) == if n <= population(
            ring.producer_tasks.wake,
            64,
        ) {
            population(ring.producer_tasks.wake, 64) - n
        } else {
            0
        },
        bit64(ring.producer_tasks_woken_n(n).producer_tasks.unparks, j) == (bit64(
            ring.producer_tasks.unparks,
            j,
        ) || (bit64(ring.producer_tasks.wake, j) && !bit64(
            ring.producer_tasks_woken_n(n).producer_tasks.wake,
            j,
        ))),
        n > 0 && ring.producer_tasks.overflow ==> ring.producer_tasks_woken_n(
            n,
        ).producer_tasks.overflow_owed,
{
    lemma_flush_is_exact(ring.producer_tasks, j);
    lemma_wakes_take_as_many_sleepers(ring.producer_tasks, n);
}

/// A handle that goes on record as asleep or waiting, or off it, has its
/// own bit changed on its own record and nothing else; a producer's
/// announcement comes and goes with its sleep.
pub proof fn lemma_parking_is_private<T>(ring: RingModel<T>, batch: Batch, i: usize, j: int)
    requires
        i < 64,
        batch.slot == ParkSlot::Leased(i),
        ring.consistent(),
    ensures
        bit64(ring.producer_parked(batch).producer_park.wake, j) == (bit64(
            ring.producer_park.wake,
            j,
        ) || j == i),
        ring.producer_parked(batch).producer_park.unparks == ring.producer_park.unparks,
        ring.producer_parked(batch) == (RingModel {
            producer_park: ring.producer_parked(batch).producer_park,
            awaited: ring.producer_parked(batch).awaited,
            ..ring
        }),
        0 <= j < 64 && j != i ==> ring.producer_parked(batch).awaited[j] == ring.awaited[j]
            && ring.producer_unparked(batch.slot).awaited[j] == ring.awaited[j],
        ring.producer_parked(batch).awaited[i as int] is None <==> batch.unused == 0,
        ring.producer_parked(batch).awaited[i as int] matches Some((start, unused)) ==> start
            == batch.start as int % 0x1_0000_0000 && unused == batch.unused,
        bit64(ring.producer_unparked(batch.slot).producer_park.wake, j) == (bit64(
            ring.producer_park.wake,
            j,
        ) && j != i),
        ring.producer_unparked(batch.slot).producer_park.unparks == ring.producer_park.unparks,
        ring.producer_unparked(batch.slot).awaited[i as int] is None,
        ring.producer_unparked(batch.slot) == (RingModel {
            producer_park: ring.producer_unparked(batch.slot).producer_park,
            awaited: ring.producer_unparked(batch.slot).awaited,
            ..ring
        }),
        bit64(ring.consumer_parked(batch.slot).consumer_park.wake, j) == (bit64(
            ring.consumer_park.wake,
            j,
        ) || j == i),
        ring.consumer_parked(batch.slot).consumer_park.unparks == ring.consumer_park.unparks,
        ring.consumer_parked(batch.slot) == (RingModel {
            consumer_park: ring.consumer_parked(batch.slot).consumer_park,
            ..ring
        }),
        bit64(ring.consumer_unparked(batch.slot).consumer_park.wake, j) == (bit64(
            ring.consumer_park.wake,
            j,
        ) && j != i),
        ring.consumer_unparked(batch.slot).consumer_park.unparks == ring.consumer_park.unparks,
        ring.consumer_unparked(batch.slot) == (RingModel {
            consumer_park: ring.consumer_unparked(batch.slot).consumer_park,
            ..ring
        }),
{
    lemma_arming_is_exact(ring.producer_park, i, j);
    lemma_arming_is_exact(ring.consumer_park, i, j);
}

/// A task that goes on record as waiting, or off it, has its own bit
/// changed on its own record and nothing else. A handle without a park
/// slot shares the overflow, which its going off leaves alone.
pub proof fn lemma_task_records_are_private<T>(ring: RingModel<T>, i: usize, j: int)
    requires
        i < 64,
    ensures
        forall|waiting: bool| #[trigger]
            ring.producer_task_set(ParkSlot::Leased(i), waiting) == (RingModel {
                producer_tasks: ring.producer_task_set(ParkSlot::Leased(i), waiting).producer_tasks,
                ..ring
            }),
        forall|waiting: bool| #[trigger]
            ring.consumer_task_set(ParkSlot::Leased(i), waiting) == (RingModel {
                consumer_tasks: ring.consumer_task_set(ParkSlot::Leased(i), waiting).consumer_tasks,
                ..ring
            }),
        bit64(ring.producer_task_set(ParkSlot::Leased(i), true).producer_tasks.wake, j) == (bit64(
            ring.producer_tasks.wake,
            j,
        ) || j == i),
        bit64(ring.producer_task_set(ParkSlot::Leased(i), false).producer_tasks.wake, j) == (bit64(
            ring.producer_tasks.wake,
            j,
        ) && j != i),
        bit64(ring.consumer_task_set(ParkSlot::Leased(i), true).consumer_tasks.wake, j) == (bit64(
            ring.consumer_tasks.wake,
            j,
        ) || j == i),
        bit64(ring.consumer_task_set(ParkSlot::Leased(i), false).consumer_tasks.wake, j) == (bit64(
            ring.consumer_tasks.wake,
            j,
        ) && j != i),
        ring.producer_task_set(ParkSlot::Slotless, true).producer_tasks.overflow,
        ring.consumer_task_set(ParkSlot::Slotless, true).consumer_tasks.overflow,
        ring.producer_task_set(ParkSlot::Slotless, false) == ring,
        ring.consumer_task_set(ParkSlot::Slotless, false) == ring,
        ring.consumer_parked(ParkSlot::Slotless).consumer_park.overflow,
        ring.consumer_unparked(ParkSlot::Slotless) == ring,
        ring.producer_unparked(ParkSlot::Slotless) == ring,
{
    lemma_arming_is_exact(ring.producer_tasks, i, j);
    lemma_arming_is_exact(ring.consumer_tasks, i, j);
}

/// A handle that is made is counted in on its side, and gets a park slot;
/// nothing else changes, but the count of clones for a consumer.
pub proof fn lemma_joining_is_private<T>(ring: RingModel<T>)
    requires
        ring.producers < usize::MAX,
        ring.consumers < usize::MAX,
    ensures
        ring.producer_joined().producers == ring.producers + 1,
        ring.producer_joined().producer_slots == ring.producer_slots.after_lease(),
        ring.producer_joined() == (RingModel {
            producers: ring.producer_joined().producers,
            producer_slots: ring.producer_joined().producer_slots,
            ..ring
        }),
        ring.consumer_joined().consumers == ring.consumers + 1,
        ring.consumer_joined().consumer_slots == ring.consumer_slots.after_lease(),
        ring.clones < usize::MAX ==> ring.consumer_joined().clones == ring.clones + 1,
        ring.consumer_joined() == (RingModel {
            consumers: ring.consumer_joined().consumers,
            consumer_slots: ring.consumer_joined().consumer_slots,
            clones: ring.consumer_joined().clones,
            ..ring
        }),
{
}

/// A producer that leaves others behind closes nothing and wakes nobody;
/// the last one closes the ring and wakes everybody but the producer
/// tasks. Either way it is counted out, its park slot is free again, and
/// no slot is touched.
pub proof fn lemma_only_the_last_producer_closes<T>(ring: RingModel<T>, slot: ParkSlot, j: int)
    requires
        ring.consistent(),
        ring.producers > 0,
        slot.wf(),
    ensures
        ({
            let left = ring.producer_left(slot);
            &&& left.producers == ring.producers - 1
            &&& bit64(left.producer_slots.leased, j) == (bit64(ring.producer_slots.leased, j) && !(
            slot matches ParkSlot::Leased(i) && i == j))
            &&& ring.producers > 1 ==> {
                &&& !left.producers_gone
                &&& left.producer_park == ring.producer_park
                &&& left.consumer_park == ring.consumer_park
                &&& left.consumer_tasks == ring.consumer_tasks
            }
            &&& ring.producers == 1 ==> {
                &&& left.producers_gone
                &&& left.producer_park.wake == 0
                &&& left.consumer_park.wake == 0
                &&& left.consumer_tasks.wake == 0
                &&& bit64(left.producer_park.unparks, j) == (bit64(ring.producer_park.unparks, j)
                    || bit64(ring.producer_park.wake, j))
                &&& bit64(left.consumer_park.unparks, j) == (bit64(ring.consumer_park.unparks, j)
                    || bit64(ring.consumer_park.wake, j))
                &&& bit64(left.consumer_tasks.unparks, j) == (bit64(ring.consumer_tasks.unparks, j)
                    || bit64(ring.consumer_tasks.wake, j))
            }
            &&& left == (RingModel {
                producers: left.producers,
                producer_slots: left.producer_slots,
                producers_gone: left.producers_gone,
                producer_park: left.producer_park,
                consumer_park: left.consumer_park,
                consumer_tasks: left.consumer_tasks,
                ..ring
            })
        }),
{
    match slot {
        ParkSlot::Leased(i) => lemma_returned_slot_is_free(ring.producer_slots, i, j),
        ParkSlot::Slotless => {},
    }
    lemma_flush_is_exact(ring.producer_park, j);
    lemma_flush_is_exact(ring.consumer_park, j);
    lemma_flush_is_exact(ring.consumer_tasks, j);
}

/// A consumer that leaves others behind wakes nobody; the last one tells
/// every producer that waits. Either way it is counted out, its park slot
/// is free again, and no slot is touched.
pub proof fn lemma_only_the_last_consumer_closes<T>(ring: RingModel<T>, slot: ParkSlot, j: int)
    requires
        ring.consistent(),
        ring.consumers > 0,
        slot.wf(),
    ensures
        ({
            let left = ring.consumer_left(slot);
            &&& left.consumers == ring.consumers - 1
            &&& bit64(left.consumer_slots.leased, j) == (bit64(ring.consumer_slots.leased, j) && !(
            slot matches ParkSlot::Leased(i) && i == j))
            &&& ring.consumers > 1 ==> {
                &&& !left.consumers_gone
                &&& left.producer_park == ring.producer_park
                &&& left.producer_tasks == ring.producer_tasks
            }
            &&& ring.consumers == 1 ==> {
                &&& left.consumers_gone
                &&& left.producer_park.wake == 0
                &&& left.producer_tasks.wake == 0
                &&& bit64(left.producer_park.unparks, j) == (bit64(ring.producer_park.unparks, j)
                    || bit64(ring.producer_park.wake, j))
                &&& bit64(left.producer_tasks.unparks, j) == (bit64(ring.producer_tasks.unparks, j)
                    || bit64(ring.producer_tasks.wake, j))
            }
            &&& left == (RingModel {
                consumers: left.consumers,
                consumer_slots: left.consumer_slots,
                consumers_gone: left.consumers_gone,
                producer_park: left.producer_park,
                producer_tasks: left.producer_tasks,
                ..ring
            })
        }),
{
    match slot {
        ParkSlot::Leased(i) => lemma_returned_slot_is_free(ring.consumer_slots, i, j),
        ParkSlot::Slotless => {},
    }
    lemma_flush_is_exact(ring.producer_park, j);
    lemma_flush_is_exact(ring.producer_tasks, j);
}

/// A consumer claims the first published slot that its scan meets: no slot
/// between where it starts and there is published. The position is the
/// one that the slot serves.
pub proof fn lemma_scan_takes_the_first_published<T>(ring: RingModel<T>, from: int, left: nat) -> (d:
    int)
    requires
        ring.consistent(),
    ensures
        ring.first_published(from, left) matches Some(pos) ==> {
            &&& 0 <= d < left
            &&& ring.at(from + d).phase is Published
            &&& ring.at(from + d).pos == pos
            &&& forall|e: int| 0 <= e < d ==> !((#[trigger] ring.at(from + e)).phase is Published)
        },
        ring.first_published(from, left) is None ==> forall|e: int|
            0 <= e < left ==> !((#[trigger] ring.at(from + e)).phase is Published),
    decreases left,
{
    if left == 0 {
        0
    } else if ring.at(from).phase is Published {
        assert(ring.at(from + 0) == ring.at(from));
        0
    } else {
        let d = lemma_scan_takes_the_first_published(ring, from + 1, (left - 1) as nat);
        assert forall|e: int| 0 <= e < left implies (e == 0 || ring.at(from + 1 + (e - 1))
            == #[trigger] ring.at(from + e)) by {}
        d + 1
    }
}

/// A claim goes by the whole lap from where the scan starts, moves the
/// scan past what it claimed, and counts one pop: on the consumer's tally
/// until that reaches the flush boundary, then with it on the watermark.
/// A lap without a claim moves the scan by the lap and counts nothing.
pub proof fn lemma_claim_moves_scan_and_tally<T>(ring: RingModel<T>, scan: Scan, flush_at: nat)
    requires
        ring.consistent(),
        scan.next + ring.cap < usize::MAX,
        scan.pending < flush_at,
        scan.pending < usize::MAX,
    ensures
        ({
            let (after, next) = ring.claimed(scan, flush_at);
            &&& ring.claimable(scan.next) == ring.first_published(scan.next as int, ring.cap)
            &&& next.slot == scan.slot
            &&& match ring.claimable(scan.next) {
                Some(pos) => {
                    &&& next.next == if pos >= scan.next {
                        pos + 1
                    } else {
                        scan.next + 1
                    }
                    &&& after.slots == ring.taken(pos).slots
                    &&& after == (RingModel {
                        slots: after.slots,
                        consumed: after.consumed,
                        ..ring
                    })
                    &&& scan.pending + 1 < flush_at ==> next.pending == scan.pending + 1
                        && after.consumed == ring.consumed
                    &&& scan.pending + 1 >= flush_at ==> {
                        let total: int = ring.consumed + scan.pending + 1;
                        &&& next.pending == 0
                        &&& after.consumed == if total <= usize::MAX {
                            total
                        } else {
                            total - usize::MAX - 1
                        }
                    }
                },
                None => {
                    &&& after == ring
                    &&& next.next == scan.next + ring.cap
                    &&& next.pending == scan.pending
                },
            }
        }),
{
    lemma_claimable_iff_published(ring, scan.next);
}

/// A drain takes the smaller of its limit and what is published.
pub proof fn lemma_drain_takes_what_it_may<T>(
    ring: RingModel<T>,
    scan: Scan,
    flush_at: nat,
    limit: nat,
)
    requires
        ring.consistent(),
    ensures
        ({
            let n = ring.emptied(scan, flush_at, limit).2.len();
            let published = published_count(ring.slots, ring.cap as int);
            &&& n <= limit
            &&& n <= published
            &&& n == limit || n == published
        }),
    decreases limit,
{
    lemma_claimable_iff_published(ring, scan.next);
    if limit > 0 {
        match ring.claimable(scan.next) {
            None => {
                lemma_nothing_is_published(ring.slots, ring.cap as int);
            },
            Some(pos) => {
                let (claimed, after) = ring.claimed(scan, flush_at);
                let s: int = slot_of(pos, ring.cap);
                lemma_next_lap(pos, ring.cap);
                lemma_claiming_disturbs_nobody(ring, pos);
                lemma_releasing_disturbs_nobody(claimed, pos);
                lemma_published_count_falls(
                    ring.slots,
                    s,
                    Slot { pos: pos as nat, phase: Phase::Taken(ring.at(pos).value()) },
                    ring.cap as int,
                );
                lemma_published_count_stays(
                    claimed.slots,
                    s,
                    Slot::open_for((pos + ring.cap) as nat),
                    ring.cap as int,
                );
                lemma_drain_takes_what_it_may(
                    claimed.freed(pos),
                    after,
                    flush_at,
                    (limit - 1) as nat,
                );
            },
        }
    }
}

proof fn lemma_nothing_is_published<T>(slots: Seq<Slot<T>>, upto: int)
    requires
        0 <= upto <= slots.len(),
        forall|s: int| 0 <= s < upto ==> !((#[trigger] slots[s]).phase is Published),
    ensures
        published_count(slots, upto) == 0,
    decreases upto,
{
    if upto > 0 {
        lemma_nothing_is_published(slots, upto - 1);
    }
}

/// The count of published slots: one more for each that is.
pub proof fn lemma_published_count_is_a_count<T>(slots: Seq<Slot<T>>, upto: int)
    requires
        0 <= upto < slots.len(),
    ensures
        published_count(slots, 0) == 0,
        published_count(slots, upto + 1) == published_count(slots, upto) + if slots[upto].phase
            is Published {
            1int
        } else {
            0int
        },
{
}

/// A drain of one value is a claim and a release; a longer one is that
/// and then the rest of the drain.
pub proof fn lemma_drain_is_claims_and_releases<T>(
    ring: RingModel<T>,
    scan: Scan,
    flush_at: nat,
    limit: nat,
)
    requires
        limit > 0,
    ensures
        ({
            let (after, next) = ring.claimed(scan, flush_at);
            match ring.claimable(scan.next) {
                Some(pos) => {
                    let rest = after.freed(pos).emptied(next, flush_at, (limit - 1) as nat);
                    &&& ring.emptied(scan, flush_at, limit).0 == rest.0
                    &&& ring.emptied(scan, flush_at, limit).1 == rest.1
                    &&& ring.emptied(scan, flush_at, limit).2 == seq![ring.at(pos).value()] + rest.2
                },
                None => ring.emptied(scan, flush_at, limit) == (after, next, Seq::<T>::empty()),
            }
        }),
        ring.emptied(scan, flush_at, 0) == (ring, scan, Seq::<T>::empty()),
{
}

/// What a departing producer does to each position of its batch, which
/// lie within one lap: one
/// whose slot has come round to it is given up, and the slot goes to the
/// position one lap on, empty; the others are the reason that it has to
/// wait, unless the consumers are gone. No slot of another position is
/// touched, and nothing but slots and waiters is.
pub proof fn lemma_abandoning_hands_the_slots_on<T>(
    ring: RingModel<T>,
    batch: Batch,
    from: int,
    s: int,
)
    requires
        ring.consistent(),
        ring.backs(batch),
        forall|a: int, b: int|
            #[trigger] batch.reserves(a) && #[trigger] batch.reserves(b) ==> b < a + ring.cap,
        0 <= from <= 32,
        0 <= s < ring.cap,
    ensures
        ({
            let (after, rest, blocked) = ring.abandoned(batch, from);
            let pos: int = ring.slots[s].pos as int;
            &&& after.consistent()
            &&& after.backs(rest)
            &&& after == (RingModel {
                slots: after.slots,
                producer_park: after.producer_park,
                producer_tasks: after.producer_tasks,
                consumer_park: after.consumer_park,
                consumer_tasks: after.consumer_tasks,
                ..ring
            })
            &&& after.slots[s] == ring.slots[s] || (batch.reserves(pos) && batch.start + from <= pos
                && after.slots[s] == Slot::<T> {
                pos: (pos + ring.cap) as nat,
                phase: Phase::Open(None),
            })
            &&& !blocked && batch.reserves(pos) && batch.start + from <= pos ==> after.slots[s].pos
                == pos + ring.cap
            &&& blocked ==> !ring.consumers_gone && rest.unused != 0
            &&& rest.start == batch.start
            &&& rest.slot == batch.slot
        }),
    decreases 32 - from,
{
    if from < 32 {
        let pos: int = batch.start + from;
        if !bit32(batch.unused, from) {
            lemma_abandoning_hands_the_slots_on(ring, batch, from + 1, s);
            assert(!batch.reserves(pos));
        } else {
            assert(batch.reserves(pos));
            assert(ring.honours(pos));
            lemma_next_lap(pos, ring.cap);
            let rest = batch.without(pos);
            lemma_clear_bit32(batch.unused, from as u32);
            assert forall|q: int| #[trigger] rest.reserves(q) == (batch.reserves(q) && q
                != pos) by {
                lemma_batch_changes_one_position(batch, pos, q);
            }
            if ring.writable(pos) {
                let freed = ring.freed(pos);
                lemma_releasing_disturbs_nobody(ring, pos);
                lemma_claim_and_release_are_exact(ring, pos, s);
                let woken = freed.producer_tasks_woken();
                crate::common::park::lemma_waking_keeps_order(freed.producer_tasks);
                assert forall|q: int| #[trigger] rest.reserves(q) implies woken.honours(q) by {
                    assert(ring.honours(q));
                    assert(freed.honours(q));
                }
                assert(woken.consistent());
                lemma_abandoning_hands_the_slots_on(woken, rest, from + 1, s);
                if s == slot_of(pos, ring.cap) {
                    assert(ring.slots[s].pos == pos);
                    // The slot is a lap on now, and so past every position
                    // that is left.
                    assert(!rest.reserves(pos + ring.cap)) by {
                        if rest.reserves(pos + ring.cap) {
                            assert(batch.reserves(pos) && batch.reserves(pos + ring.cap));
                        }
                    }
                } else {
                    assert(woken.slots[s] == ring.slots[s]);
                    assert(slot_of(ring.slots[s].pos as int, ring.cap) == s);
                }
            } else if ring.consumers_gone {
                assert forall|q: int| #[trigger] rest.reserves(q) implies ring.honours(q) by {
                    assert(batch.reserves(q));
                }
                lemma_abandoning_hands_the_slots_on(ring, rest, from + 1, s);
                assert(slot_of(ring.slots[s].pos as int, ring.cap) == s);
            } else {
                crate::common::park::lemma_waking_keeps_order(ring.consumer_park);
                crate::common::park::lemma_waking_keeps_order(ring.consumer_tasks);
                assert forall|q: int| #[trigger] batch.reserves(q) implies ring.consumers_nudged().honours(
                    q,
                ) by {
                    assert(ring.honours(q));
                }
                if batch.unused == 0 {
                    lemma_zero_bits32(from);
                }
            }
        }
    } else {
        assert(!batch.reserves(ring.slots[s].pos as int) || ring.slots[s].pos < batch.start
            + from) by {
            lemma_batch_reserves_its_bits(batch, ring.slots[s].pos as int);
        }
    }
}

/// Each clone of a consumer starts its scan an eighth of the ring, or one
/// slot if that is more, further on than the one before.
pub proof fn lemma_clones_start_apart(n: usize, cap: nat)
    requires
        4 <= cap <= usize::MAX,
        n * cap <= usize::MAX,
    ensures
        cap < 16 ==> stagger(n, cap) == n as int % cap as int,
        cap >= 8 ==> stagger(n, cap) == (n * (cap / 8)) % cap as int,
        0 <= stagger(n, cap) < cap,
{
    let apart: nat = if cap / 8 >= 1 {
        cap / 8
    } else {
        1
    };
    assert(0 <= n * apart <= n * cap) by (nonlinear_arith)
        requires
            0 <= n,
            1 <= apart <= cap,
    ;
    assert(apart == 1 ==> n * apart == n);
    vstd::arithmetic::div_mod::lemma_small_mod((n * apart) as nat, (usize::MAX + 1) as nat);
    vstd::arithmetic::div_mod::lemma_mod_bound(n * apart, cap as int);
}

/// A release takes the sleepers that answer it alike in turn: the one it
/// wakes is the first from the cursor on, and the next search starts
/// behind it. A release that wakes nobody leaves the cursor.
pub proof fn lemma_releases_take_turns<T>(ring: RingModel<T>, pos: int, j: int)
    requires
        ring.consistent(),
    ensures
        ({
            let freed = (pos + ring.cap) as usize;
            let before = ring.producer_park;
            let after = ring.freed(pos).producer_park;
            if after.wake == before.wake {
                after.cursor == before.cursor
            } else {
                exists|i: int|
                    {
                        &&& #[trigger] bit64(before.wake, i)
                        &&& !bit64(after.wake, i)
                        &&& after.cursor == (i + 1) % 64
                        &&& bit64(before.wake, j) && interest_in(ring.awaited[j], freed)
                            == interest_in(ring.awaited[i], freed) ==> (i - before.cursor) % 64 <= (
                        j - before.cursor) % 64
                    }
            }
        }),
{
    let freed = (pos + ring.cap) as usize;
    let before = ring.producer_park;
    lemma_routed(before, ring.awaited, freed);
    lemma_routing_takes_turns(before, ring.awaited, freed, j);
    match routed(before, ring.awaited, freed) {
        Some(i) => {
            lemma_served_is_exact(before, i);
            assert(bit64(before.wake, i));
            assert(!bit64(ring.freed(pos).producer_park.wake, i));
        },
        None => {},
    }
}

/// Counting what a watched waiter went through changes the counters and
/// nothing else of the ring.
pub proof fn lemma_counting_is_private<T>(ring: RingModel<T>, counters: BackstopStats)
    ensures
        ring.with_backstop(counters).backstop == counters,
        ring.with_backstop(counters) == (RingModel {
            backstop: ring.with_backstop(counters).backstop,
            ..ring
        }),
{
}

/// A departing producer waits exactly if there are consumers and the slot
/// of a position of its batch has not come round to it, and such a
/// position stays in the batch; each wait wakes a consumer, the first
/// going round, and every consumer task. With the consumers gone it never
/// waits and keeps nothing.
pub proof fn lemma_departing_producer_waits_for_a_consumer<T>(
    ring: RingModel<T>,
    batch: Batch,
    from: int,
    q: int,
)
    requires
        ring.cap > 0,
        ring.slots.len() == ring.cap,
        forall|a: int, b: int|
            #[trigger] batch.reserves(a) && #[trigger] batch.reserves(b) ==> b < a + ring.cap,
        0 <= from <= 32,
    ensures
        ({
            let (after, rest, blocked) = ring.abandoned(batch, from);
            &&& rest.reserves(q) ==> batch.reserves(q)
            &&& batch.reserves(q) && batch.start + from <= q && ring.at(q).pos != q
                && !ring.consumers_gone ==> blocked && rest.reserves(q)
            &&& blocked ==> !ring.consumers_gone && exists|p: int|
                {
                    &&& #[trigger] rest.reserves(p)
                    &&& batch.start + from <= p
                    &&& ring.at(p).pos != p
                }
            &&& !blocked && batch.start + from <= q ==> !rest.reserves(q)
            &&& after.consumer_park == if blocked {
                ring.consumer_park.woken()
            } else {
                ring.consumer_park
            }
            &&& after.consumer_tasks == if blocked {
                ring.consumer_tasks.flushed()
            } else {
                ring.consumer_tasks
            }
        }),
    decreases 32 - from,
{
    let pos: int = batch.start + from;
    lemma_batch_reserves_its_bits(batch, q);
    lemma_batch_reserves_its_bits(batch, pos);
    if from < 32 {
        if !bit32(batch.unused, from) {
            lemma_departing_producer_waits_for_a_consumer(ring, batch, from + 1, q);
        } else if ring.writable(pos) || ring.consumers_gone {
            let rest = batch.without(pos);
            assert forall|p: int| #[trigger] rest.reserves(p) == (batch.reserves(p) && p
                != pos) by {
                lemma_batch_changes_one_position(batch, pos, p);
            }
            let next = if ring.writable(pos) {
                ring.freed(pos).producer_tasks_woken()
            } else {
                ring
            };
            assert forall|p: int| #[trigger] rest.reserves(p) implies next.at(p) == ring.at(p) by {
                assert(batch.reserves(p) && batch.reserves(pos));
                if p < pos {
                    lemma_slots_differ(p, pos, ring.cap);
                } else {
                    lemma_slots_differ(pos, p, ring.cap);
                }
                lemma_next_lap(pos, ring.cap);
                lemma_next_lap(p, ring.cap);
            }
            lemma_departing_producer_waits_for_a_consumer(next, rest, from + 1, q);
            let (after, left, blocked) = next.abandoned(rest, from + 1);
            if blocked {
                let p = choose|p: int|
                    {
                        &&& #[trigger] left.reserves(p)
                        &&& rest.start + (from + 1) <= p
                        &&& next.at(p).pos != p
                    };
                lemma_departing_producer_waits_for_a_consumer(next, rest, from + 1, p);
                assert(rest.reserves(p));
                assert(left.reserves(p) && batch.start + from <= p && ring.at(p).pos != p);
            }
            if q == pos {
                assert(!rest.reserves(q));
            }
        } else {
            assert(batch.reserves(pos));
            assert(ring.at(pos).pos != pos);
        }
    }
}

/// A departing producer gives up its lowest position as a consumer
/// releases one, and goes on with the rest.
pub proof fn lemma_departure_releases_the_lowest_first<T>(
    ring: RingModel<T>,
    batch: Batch,
    from: int,
    pos: int,
)
    requires
        0 <= from <= 32,
        batch.reserves(pos),
        batch.start + from <= pos,
        forall|p: int| #[trigger] batch.reserves(p) && batch.start + from <= p ==> pos <= p,
        ring.at(pos).pos == pos,
    ensures
        ring.abandoned(batch, from) == ring.freed(pos).producer_tasks_woken().abandoned(
            batch.without(pos),
            from,
        ),
    decreases 32 - from,
{
    let next = ring.freed(pos).producer_tasks_woken();
    let rest = batch.without(pos);
    lemma_batch_reserves_its_bits(batch, pos);
    lemma_batch_reserves_its_bits(batch, batch.start + from);
    lemma_batch_reserves_its_bits(rest, batch.start + from);
    lemma_batch_changes_one_position(batch, pos, batch.start + from);
    if batch.start + from == pos {
        assert(next.abandoned(rest, from) == next.abandoned(rest, from + 1));
    } else {
        assert(!bit32(batch.unused, from));
        assert(!bit32(rest.unused, from));
        lemma_departure_releases_the_lowest_first(ring, batch, from + 1, pos);
        assert(next.abandoned(rest, from) == next.abandoned(rest, from + 1));
    }
}

/// Which waiters a step wakes, whoever they are and whether they have a
/// park slot or not: a publication, and each wait of a departing producer,
/// one sleeping consumer and all consumer tasks; the last producer, and
/// the last consumer, everybody; and a pop all producer tasks.
pub proof fn lemma_whom_a_step_wakes<T>(ring: RingModel<T>, pos: int, slot: ParkSlot, n: nat)
    ensures
        ring.published(pos).consumer_park == ring.consumer_park.woken(),
        ring.published(pos).consumer_tasks == ring.consumer_tasks.flushed(),
        ring.consumers_nudged().consumer_park == ring.consumer_park.woken(),
        ring.consumers_nudged().consumer_tasks == ring.consumer_tasks.flushed(),
        ring.producer_tasks_woken().producer_tasks == ring.producer_tasks.flushed(),
        ring.producer_tasks_woken_n(n).producer_tasks == ring.producer_tasks.woken_n(n),
        ring.producers == 1 ==> {
            &&& ring.producer_left(slot).producer_park == ring.producer_park.flushed()
            &&& ring.producer_left(slot).consumer_park == ring.consumer_park.flushed()
            &&& ring.producer_left(slot).consumer_tasks == ring.consumer_tasks.flushed()
        },
        ring.consumers == 1 ==> {
            &&& ring.consumer_left(slot).producer_park == ring.producer_park.flushed()
            &&& ring.consumer_left(slot).producer_tasks == ring.producer_tasks.flushed()
        },
{
}

/// A handle, with a park slot or without one, goes on record as asleep or
/// waiting, and off it, on the record of its own side and kind.
pub proof fn lemma_who_goes_on_record<T>(ring: RingModel<T>, batch: Batch, slot: ParkSlot)
    ensures
        ring.producer_parked(batch).producer_park == ring.producer_park.armed(batch.slot),
        ring.producer_unparked(slot).producer_park == ring.producer_park.disarmed(slot),
        ring.consumer_parked(slot).consumer_park == ring.consumer_park.armed(slot),
        ring.consumer_unparked(slot).consumer_park == ring.consumer_park.disarmed(slot),
        ring.producer_task_set(slot, true).producer_tasks == ring.producer_tasks.armed(slot),
        ring.producer_task_set(slot, false).producer_tasks == ring.producer_tasks.disarmed(slot),
        ring.consumer_task_set(slot, true).consumer_tasks == ring.consumer_tasks.armed(slot),
        ring.consumer_task_set(slot, false).consumer_tasks == ring.consumer_tasks.disarmed(slot),
        batch.slot is Slotless ==> ring.producer_parked(batch) == (RingModel {
            producer_park: ring.producer_parked(batch).producer_park,
            ..ring
        }),
        slot is Slotless ==> ring.producer_unparked(slot) == ring,
        slot is Slotless ==> ring.consumer_unparked(slot) == ring,
        slot is Slotless ==> ring.producer_task_set(slot, false) == ring,
        slot is Slotless ==> ring.consumer_task_set(slot, false) == ring,
{
}

} // verus!
