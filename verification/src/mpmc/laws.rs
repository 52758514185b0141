//! What holds of the ring as a whole.

use vstd::multiset::Multiset;
use vstd::prelude::*;
use vstd::seq_lib::lemma_multiset_commutative;

use crate::capacity::{lemma_next_lap, slot_of};
use crate::common::bits::{bit32, bit64, lemma_clear_bit32, lemma_zero_bits32};
use crate::common::park::{
    lemma_arming_is_private, lemma_flush_reaches_everybody, lemma_served_sleeper_is_owed,
    lemma_wake_is_not_lost,
};
use crate::common::park_registry::ParkSlot;
use crate::common::wake_interest::WakeInterest;
use crate::mpmc::awaited_batch::{announcement, interest_in, lemma_batch_wants_its_own_positions};
use crate::mpmc::ring_model::{
    lemma_claimable_iff_published, lemma_claiming_disturbs_nobody, lemma_first_writable,
    lemma_published_count_falls, lemma_published_count_stays, lemma_publishing_disturbs_nobody,
    lemma_refill_is_backed, lemma_refilling_disturbs_nobody, lemma_releasing_disturbs_nobody,
    lemma_routed, lemma_with_slot, published_count, routed, Batch, RingModel, Scan,
};
use crate::mpmc::slot_table::{live_values, Phase, Slot};

verus! {

/// The live values of the slots below `upto`, without their order.
pub open spec fn live_bag<T>(slots: Seq<Slot<T>>, upto: int) -> Multiset<T>
    decreases upto,
{
    if upto <= 0 {
        Multiset::empty()
    } else {
        live_bag(slots, upto - 1).add(carried(slots[upto - 1]))
    }
}

/// The live value of a slot, if it has one.
pub open spec fn carried<T>(slot: Slot<T>) -> Multiset<T> {
    if slot.live() {
        Multiset::singleton(slot.value())
    } else {
        Multiset::empty()
    }
}

/// The values in a ring: published, and not finished with by a consumer.
pub open spec fn contents<T>(ring: RingModel<T>) -> Multiset<T> {
    live_bag(ring.slots, ring.cap as int)
}

proof fn lemma_bag_update<T>(slots: Seq<Slot<T>>, s: int, slot: Slot<T>, upto: int)
    requires
        0 <= s < slots.len(),
        0 <= upto <= slots.len(),
    ensures
        s < upto ==> live_bag(slots.update(s, slot), upto).add(carried(slots[s])) =~= live_bag(
            slots,
            upto,
        ).add(carried(slot)),
        s >= upto ==> live_bag(slots.update(s, slot), upto) == live_bag(slots, upto),
    decreases upto,
{
    if upto > 0 {
        lemma_bag_update(slots, s, slot, upto - 1);
        let old_part = carried(slots[s]);
        let new_part = carried(slot);
        let before = live_bag(slots, upto - 1);
        let after = live_bag(slots.update(s, slot), upto - 1);
        if s < upto - 1 {
            let same = carried(slots[upto - 1]);
            assert(after.add(same).add(old_part) =~= after.add(old_part).add(same));
            assert(before.add(same).add(new_part) =~= before.add(new_part).add(same));
        } else if s == upto - 1 {
            assert(after.add(new_part).add(old_part) =~= before.add(old_part).add(new_part));
        }
    }
}

/// What a teardown hands back is exactly what is in the ring.
pub proof fn lemma_teardown_hands_back_the_contents<T>(slots: Seq<Slot<T>>, upto: int)
    requires
        0 <= upto <= slots.len(),
    ensures
        live_values(slots, upto).to_multiset() == live_bag(slots, upto),
        live_values(slots, upto).len() <= upto,
    decreases upto,
{
    if upto > 0 {
        lemma_teardown_hands_back_the_contents(slots, upto - 1);
        let before = live_values(slots, upto - 1);
        before.to_multiset_ensures();
        if slots[upto - 1].live() {
            assert(before.push(slots[upto - 1].value()).to_multiset() =~= before.to_multiset().insert(
                slots[upto - 1].value(),
            ));
        }
        assert(live_values(slots, upto).to_multiset() =~= live_bag(slots, upto));
    } else {
        Seq::<T>::empty().to_multiset_ensures();
        assert(live_values(slots, upto).to_multiset() =~= live_bag(slots, upto));
    }
}

/// Whether a ring went from `before` to `after` while `entered` was put
/// in and `left` was taken out.
pub open spec fn exchanged<T>(
    before: RingModel<T>,
    after: RingModel<T>,
    entered: Multiset<T>,
    left: Multiset<T>,
) -> bool {
    contents(before).add(entered) == contents(after).add(left)
}

/// A slot change exchanges what the slot carried.
pub proof fn lemma_slot_change<T>(ring: RingModel<T>, pos: int, slot: Slot<T>)
    requires
        ring.consistent(),
    ensures
        contents(ring.with_slot(pos, slot)).add(carried(ring.at(pos))) =~= contents(ring).add(
            carried(slot),
        ),
{
    lemma_next_lap(pos, ring.cap);
    lemma_bag_update(ring.slots, slot_of(pos, ring.cap), slot, ring.cap as int);
}

/// A push puts its value in if it succeeds, and nothing if it is refused.
pub proof fn lemma_push_puts_one_value_in<T>(ring: RingModel<T>, batch: Batch, limit: nat, val: T)
    requires
        ring.consistent(),
        ring.headroom(),
        ring.backs(batch),
        1 <= limit <= 32,
    ensures
        exchanged(
            ring,
            ring.pushed(batch, limit, val).0,
            if ring.acquirable(batch, limit) is Some {
                Multiset::singleton(val)
            } else {
                Multiset::empty()
            },
            Multiset::empty(),
        ),
{
    lemma_acquired(ring, batch, limit);
    let (acquired, after) = ring.acquired(batch, limit);
    assert(contents(acquired) =~= contents(ring));
    match ring.acquirable(batch, limit) {
        Some(pos) => {
            let staged = acquired.staged(pos, Some(val));
            lemma_with_slot(
                acquired,
                pos,
                Slot { pos: pos as nat, phase: Phase::Open(Some(val)) },
            );
            lemma_slot_change(
                acquired,
                pos,
                Slot { pos: pos as nat, phase: Phase::Open(Some(val)) },
            );
            lemma_slot_change(
                staged,
                pos,
                Slot { pos: pos as nat, phase: Phase::Published(val) },
            );
            assert(carried(acquired.at(pos)) == Multiset::<T>::empty());
            assert(contents(staged).add(Multiset::empty()) =~= contents(staged));
            assert(contents(acquired).add(Multiset::empty()) =~= contents(acquired));
            assert(contents(staged) == contents(acquired));
            assert(contents(staged.published(pos)) =~= contents(
                staged.with_slot(pos, Slot { pos: pos as nat, phase: Phase::Published(val) }),
            ));
            assert(contents(ring).add(Multiset::singleton(val)) =~= contents(
                staged.published(pos),
            ).add(Multiset::empty()));
        },
        None => {
            assert(contents(ring).add(Multiset::empty()) =~= contents(acquired).add(
                Multiset::empty(),
            ));
        },
    }
}

/// What an attempt to write leaves: the ring stays consistent, what is
/// left of the batch is honoured, and the position it got is writable and
/// nobody's any more.
pub proof fn lemma_acquired<T>(ring: RingModel<T>, batch: Batch, limit: nat)
    requires
        ring.consistent(),
        ring.headroom(),
        ring.backs(batch),
        1 <= limit <= 32,
    ensures
        ({
            let (after, rest) = ring.acquired(batch, limit);
            &&& after.consistent()
            &&& after.slots == ring.slots
            &&& after.cap == ring.cap
            &&& after.backs(rest)
            &&& match ring.acquirable(batch, limit) {
                Some(pos) => {
                    &&& after.honours(pos)
                    &&& after.writable(pos)
                    &&& !rest.reserves(pos)
                    &&& forall|q: int| #[trigger] rest.reserves(q) ==> q != pos
                    &&& batch.unused != 0 ==> batch.reserves(pos) && forall|q: int|
                        #[trigger] rest.reserves(q) ==> batch.reserves(q)
                },
                None => forall|q: int| #[trigger] rest.reserves(q) ==> !after.writable(q),
            }
        }),
{
    let (refilled, full) = ring.refilled(batch, limit);
    if batch.unused == 0 {
        match ring.refill_size(limit) {
            Some(n) => {
                lemma_refill_is_backed(ring, n, batch);
            },
            None => {},
        }
    }
    lemma_first_writable(refilled, full, 0);
    match refilled.first_writable(full, 0) {
        Some(pos) => {
            let rest = full.without(pos);
            lemma_clear_bit32(full.unused, (pos - full.start) as u32);
            assert forall|q: int| #[trigger] rest.reserves(q) implies full.reserves(q) && q
                != pos by {
                assert(bit32(rest.unused, q - full.start));
            }
            assert(full.reserves(pos));
        },
        None => {
            assert forall|q: int| #[trigger] full.reserves(q) implies !refilled.writable(q) by {
                assert(bit32(full.unused, q - full.start));
            }
        },
    }
}

/// A push by one producer leaves every other producer of the ring what it
/// has reserved, and takes none of its positions.
pub proof fn lemma_push_leaves_other_producers_alone<T>(
    ring: RingModel<T>,
    mine: Batch,
    theirs: Batch,
    limit: nat,
    val: T,
)
    requires
        ring.consistent(),
        ring.headroom(),
        ring.backs(mine),
        ring.backs(theirs),
        mine.disjoint(theirs),
        1 <= limit <= 32,
    ensures
        ring.pushed(mine, limit, val).0.backs(theirs),
        ring.pushed(mine, limit, val).1.disjoint(theirs),
{
    lemma_acquired(ring, mine, limit);
    let (acquired, rest) = ring.acquired(mine, limit);
    let (refilled, full) = ring.refilled(mine, limit);
    assert(acquired == refilled);
    if mine.unused == 0 {
        match ring.refill_size(limit) {
            Some(n) => {
                lemma_refill_is_backed(ring, n, mine);
                lemma_refilling_disturbs_nobody(ring, n);
            },
            None => {
                assert forall|i: int| !(#[trigger] bit32(0, i)) by {
                    lemma_zero_bits32(i);
                }
            },
        }
    }
    assert forall|q: int| #[trigger] theirs.reserves(q) implies acquired.honours(q)
        && !full.reserves(q) by {
        assert(ring.honours(q));
        if mine.unused != 0 {
            assert(!(mine.reserves(q) && theirs.reserves(q)));
        }
    }
    lemma_first_writable(refilled, full, 0);
    match ring.acquirable(mine, limit) {
        Some(pos) => {
            let staged = acquired.staged(pos, Some(val));
            lemma_with_slot(
                acquired,
                pos,
                Slot { pos: pos as nat, phase: Phase::Open(Some(val)) },
            );
            lemma_publishing_disturbs_nobody(acquired, pos, Some(val));
            lemma_publishing_disturbs_nobody(staged, pos, None);
            lemma_clear_bit32(full.unused, (pos - full.start) as u32);
            assert forall|q: int| #[trigger] theirs.reserves(q) implies staged.published(
                pos,
            ).honours(q) by {
                assert(acquired.honours(q) && !full.reserves(q));
                assert(full.reserves(pos));
            }
        },
        None => {},
    }
    assert forall|q: int| !(#[trigger] rest.reserves(q) && #[trigger] theirs.reserves(q)) by {
        if rest.reserves(q) {
            assert(full.reserves(q)) by {
                match ring.acquirable(mine, limit) {
                    Some(pos) => {
                        lemma_clear_bit32(full.unused, (pos - full.start) as u32);
                        assert(bit32(rest.unused, q - full.start));
                    },
                    None => {},
                }
            }
        }
    }
}

/// A pop takes exactly the value out that it returns, and nothing if the
/// ring was empty.
pub proof fn lemma_pop_takes_one_value_out<T>(ring: RingModel<T>, scan: Scan, flush_at: nat)
    requires
        ring.consistent(),
    ensures
        match ring.claimable(scan.next) {
            Some(pos) => exchanged(
                ring,
                ring.claimed(scan, flush_at).0.freed(pos).producer_tasks_woken(),
                Multiset::empty(),
                Multiset::singleton(ring.at(pos).value()),
            ),
            None => ring.claimed(scan, flush_at).0 == ring && ring.drained(),
        },
{
    lemma_claimable_iff_published(ring, scan.next);
    match ring.claimable(scan.next) {
        Some(pos) => {
            let val = ring.at(pos).value();
            let taken = ring.taken(pos);
            let (claimed, _after) = ring.claimed(scan, flush_at);
            lemma_claiming_disturbs_nobody(ring, pos);
            lemma_slot_change(ring, pos, Slot { pos: pos as nat, phase: Phase::Taken(val) });
            assert(contents(taken) =~= contents(ring)) by {
                assert(contents(taken).add(Multiset::singleton(val)) =~= contents(ring).add(
                    Multiset::singleton(val),
                ));
                assert(contents(taken) =~= contents(taken).add(Multiset::singleton(val)).sub(
                    Multiset::singleton(val),
                ));
                assert(contents(ring) =~= contents(ring).add(Multiset::singleton(val)).sub(
                    Multiset::singleton(val),
                ));
            }
            assert(claimed.slots == taken.slots && claimed.cap == taken.cap);
            lemma_release_takes_the_value_out(claimed, pos);
        },
        None => {},
    }
}

/// A release takes exactly the claimed value out; a claim that is held
/// keeps its value in the ring until then.
pub proof fn lemma_release_takes_the_value_out<T>(ring: RingModel<T>, pos: int)
    requires
        ring.consistent(),
        ring.lent(pos),
    ensures
        exchanged(
            ring,
            ring.freed(pos).producer_tasks_woken(),
            Multiset::empty(),
            Multiset::singleton(ring.at(pos).value()),
        ),
{
    let slot = Slot::<T>::open_for((pos + ring.cap) as nat);
    lemma_slot_change(ring, pos, slot);
    assert(contents(ring.freed(pos).producer_tasks_woken()) =~= contents(
        ring.with_slot(pos, slot),
    ));
    assert(contents(ring).add(Multiset::empty()) =~= contents(
        ring.freed(pos).producer_tasks_woken(),
    ).add(Multiset::singleton(ring.at(pos).value())));
}

/// All that was put in over a run.
pub open spec fn total<T>(parts: Seq<Multiset<T>>) -> Multiset<T>
    decreases parts.len(),
{
    if parts.len() == 0 {
        Multiset::empty()
    } else {
        total(parts.drop_last()).add(parts.last())
    }
}

/// Nothing is lost and nothing is delivered twice: over any run of steps,
/// what was in the ring and what was put in is what was taken out and
/// what is still there.
pub proof fn lemma_run_conserves_values<T>(
    states: Seq<RingModel<T>>,
    entered: Seq<Multiset<T>>,
    left: Seq<Multiset<T>>,
)
    requires
        states.len() == entered.len() + 1,
        states.len() == left.len() + 1,
        forall|i: int|
            0 <= i < entered.len() ==> exchanged(
                #[trigger] states[i],
                states[i + 1],
                entered[i],
                left[i],
            ),
    ensures
        exchanged(states.first(), states.last(), total(entered), total(left)),
    decreases states.len(),
{
    if entered.len() > 0 {
        let n: int = entered.len() - 1;
        let shorter = states.drop_last();
        assert forall|i: int| 0 <= i < n implies exchanged(
            #[trigger] shorter[i],
            shorter[i + 1],
            entered.drop_last()[i],
            left.drop_last()[i],
        ) by {
            assert(exchanged(states[i], states[i + 1], entered[i], left[i]));
        }
        lemma_run_conserves_values(shorter, entered.drop_last(), left.drop_last());
        assert(exchanged(states[n], states[n + 1], entered[n], left[n]));
        let a = contents(states.first());
        let b = contents(states[n]);
        let c = contents(states[n + 1]);
        let e = total(entered.drop_last());
        let l = total(left.drop_last());
        assert(a.add(e.add(entered[n])) =~= a.add(e).add(entered[n]));
        assert(b.add(l).add(entered[n]) =~= b.add(entered[n]).add(l));
        assert(c.add(left[n]).add(l) =~= c.add(l.add(left[n])));
    } else {
        assert(states.first() == states.last());
    }
}

/// A full drain leaves nothing published, and delivers every value that
/// was.
pub proof fn lemma_drain_leaves_nothing_published<T>(
    ring: RingModel<T>,
    scan: Scan,
    flush_at: nat,
    limit: nat,
)
    requires
        ring.consistent(),
        limit > published_count(ring.slots, ring.cap as int),
    ensures
        ring.emptied(scan, flush_at, limit).0.drained(),
        ring.emptied(scan, flush_at, limit).2.len() == published_count(
            ring.slots,
            ring.cap as int,
        ),
    decreases limit,
{
    lemma_claimable_iff_published(ring, scan.next);
    let (claimed, after) = ring.claimed(scan, flush_at);
    match ring.claimable(scan.next) {
        None => {
            lemma_nothing_published(ring.slots, ring.cap as int);
        },
        Some(pos) => {
            let s: int = slot_of(pos, ring.cap);
            lemma_next_lap(pos, ring.cap);
            lemma_claiming_disturbs_nobody(ring, pos);
            lemma_releasing_disturbs_nobody(claimed, pos);
            lemma_published_count_falls(
                ring.slots,
                s,
                Slot { pos: pos as nat, phase: Phase::Taken(ring.at(pos).value()) },
                ring.cap as int,
            );
            lemma_published_count_stays(
                claimed.slots,
                s,
                Slot::open_for((pos + ring.cap) as nat),
                ring.cap as int,
            );
            lemma_drain_leaves_nothing_published(
                claimed.freed(pos),
                after,
                flush_at,
                (limit - 1) as nat,
            );
        },
    }
}

/// A drain takes exactly the values out that it delivers.
pub proof fn lemma_drain_takes_its_values_out<T>(
    ring: RingModel<T>,
    scan: Scan,
    flush_at: nat,
    limit: nat,
)
    requires
        ring.consistent(),
    ensures
        ring.emptied(scan, flush_at, limit).0.consistent(),
        exchanged(
            ring,
            ring.emptied(scan, flush_at, limit).0,
            Multiset::empty(),
            ring.emptied(scan, flush_at, limit).2.to_multiset(),
        ),
    decreases limit,
{
    let (last, end, values) = ring.emptied(scan, flush_at, limit);
    Seq::<T>::empty().to_multiset_ensures();
    lemma_claimable_iff_published(ring, scan.next);
    if limit == 0 || ring.claimable(scan.next) is None {
        assert(Seq::<T>::empty().to_multiset() =~= Multiset::empty());
    } else {
        let pos = ring.claimable(scan.next)->0;
        let val = ring.at(pos).value();
        let (claimed, after) = ring.claimed(scan, flush_at);
        let freed = claimed.freed(pos);
        lemma_claiming_disturbs_nobody(ring, pos);
        lemma_releasing_disturbs_nobody(claimed, pos);
        lemma_pop_takes_one_value_out(ring, scan, flush_at);
        assert(contents(freed) == contents(freed.producer_tasks_woken()));
        lemma_drain_takes_its_values_out(freed, after, flush_at, (limit - 1) as nat);
        let rest = freed.emptied(after, flush_at, (limit - 1) as nat).2;
        lemma_multiset_commutative(seq![val], rest);
        assert(seq![val].to_multiset() =~= Multiset::singleton(val)) by {
            assert(seq![val] =~= Seq::<T>::empty().push(val));
        }
        assert(contents(freed).add(Multiset::empty()) =~= contents(freed));
        assert(contents(ring).add(Multiset::empty()) =~= contents(last).add(rest.to_multiset()).add(
            Multiset::singleton(val),
        ));
        assert(contents(last).add(rest.to_multiset()).add(Multiset::singleton(val)) =~= contents(
            last,
        ).add(values.to_multiset()));
    }
}

/// A blocked pop ends without a value exactly if every producer has gone
/// and nothing is left to claim; while a producer lives it goes on, or
/// returns a value.
pub proof fn lemma_blocked_pop_ends_with_the_producers<T>(ring: RingModel<T>, next: usize)
    requires
        ring.consistent(),
    ensures
        ring.claimable(next) is None && ring.producers_gone <==> ring.drained() && ring.producers
            == 0,
{
    lemma_claimable_iff_published(ring, next);
}

proof fn lemma_nothing_published<T>(slots: Seq<Slot<T>>, upto: int)
    requires
        0 <= upto <= slots.len(),
        forall|s: int| 0 <= s < upto ==> !((#[trigger] slots[s]).phase is Published),
    ensures
        published_count(slots, upto) == 0,
    decreases upto,
{
    if upto > 0 {
        lemma_nothing_published(slots, upto - 1);
    }
}

/// A producer that leaves while there are consumers strands no position:
/// once it does not have to wait any more, it holds none.
pub proof fn lemma_departing_producer_strands_nothing<T>(
    ring: RingModel<T>,
    batch: Batch,
    from: int,
)
    requires
        !ring.consumers_gone,
        !ring.abandoned(batch, from).2,
        0 <= from <= 32,
        forall|i: int| 0 <= i < from ==> !(#[trigger] bit32(batch.unused, i)),
    ensures
        forall|pos: int| !(#[trigger] ring.abandoned(batch, from).1.reserves(pos)),
    decreases 32 - from,
{
    if from >= 32 {
        assert(ring.abandoned(batch, from).1 == batch);
        assert forall|pos: int| !(#[trigger] batch.reserves(pos)) by {
            let i: int = pos - batch.start;
            assert(!bit32(batch.unused, i));
        }
    } else if !bit32(batch.unused, from) {
        lemma_departing_producer_strands_nothing(ring, batch, from + 1);
        assert(ring.abandoned(batch, from) == ring.abandoned(batch, from + 1));
    } else {
        let pos: int = batch.start + from;
        lemma_clear_bit32(batch.unused, from as u32);
        let rest = batch.without(pos);
        assert(rest.unused == batch.unused & !(1u32 << (from as u32)));
        assert(ring.writable(pos));
        let freed = ring.freed(pos).producer_tasks_woken();
        assert(ring.abandoned(batch, from) == freed.abandoned(rest, from + 1));
        lemma_departing_producer_strands_nothing(freed, rest, from + 1);
        assert(forall|q: int| !(#[trigger] freed.abandoned(rest, from + 1).1.reserves(q)));
    }
}

/// A publication does not miss a sleeper: if any consumer sleeps, one of
/// them is taken off the record and owed its unpark.
pub proof fn lemma_publication_wakes_a_sleeping_consumer<T>(ring: RingModel<T>, pos: int)
    requires
        ring.consistent(),
        ring.consumer_park.wake != 0,
    ensures
        exists|i: int|
            {
                &&& #[trigger] bit64(ring.consumer_park.wake, i)
                &&& !bit64(ring.published(pos).consumer_park.wake, i)
                &&& ring.published(pos).consumer_park.owes(i)
            },
{
    lemma_wake_is_not_lost(ring.consumer_park);
}

/// A release does not miss the producer it frees: if a sleeping producer
/// has announced a batch that holds the freed position, a producer that
/// wants that position is taken off the record and owed its unpark.
pub proof fn lemma_release_wakes_the_producer_it_frees<T>(
    ring: RingModel<T>,
    pos: int,
    batch: Batch,
)
    requires
        ring.consistent(),
        ring.headroom(),
        0 <= pos < ring.claim,
        batch.slot is Leased,
        batch.slot.wf(),
        bit64(ring.producer_park.wake, batch.slot->0 as int),
        ring.awaited[batch.slot->0 as int] == announcement(batch.start, batch.unused),
        batch.reserves(pos + ring.cap),
    ensures
        exists|i: int|
            {
                &&& #[trigger] bit64(ring.producer_park.wake, i)
                &&& interest_in(ring.awaited[i], (pos + ring.cap) as usize)
                    == WakeInterest::Reserved
                &&& !bit64(ring.freed(pos).producer_park.wake, i)
                &&& ring.freed(pos).producer_park.owes(i)
            },
{
    let freed: usize = (pos + ring.cap) as usize;
    let k: int = batch.slot->0 as int;
    lemma_zero_bits32(freed - batch.start);
    lemma_batch_wants_its_own_positions(batch.start, batch.unused, freed);
    assert(interest_in(ring.awaited[k], freed) == WakeInterest::Reserved);
    lemma_routed(ring.producer_park, ring.awaited, freed);
    let i = routed(ring.producer_park, ring.awaited, freed)->0;
    lemma_served_sleeper_is_owed(ring.producer_park, i);
    assert(bit64(ring.producer_park.wake, i));
}

/// A release leaves a producer asleep that is pinned to other positions.
pub proof fn lemma_release_spares_a_pinned_producer<T>(ring: RingModel<T>, pos: int, i: int)
    requires
        ring.consistent(),
        bit64(ring.producer_park.wake, i),
        interest_in(ring.awaited[i], (pos + ring.cap) as usize) == WakeInterest::Declines,
    ensures
        bit64(ring.freed(pos).producer_park.wake, i),
        ring.freed(pos).producer_park.owes(i) == ring.producer_park.owes(i),
{
    let freed: usize = (pos + ring.cap) as usize;
    lemma_routed(ring.producer_park, ring.awaited, freed);
    match routed(ring.producer_park, ring.awaited, freed) {
        Some(j) => {
            lemma_served_sleeper_is_owed(ring.producer_park, j);
            crate::common::bits::lemma_set_bit64(ring.producer_park.unparks, j as u64);
        },
        None => {},
    }
}

/// A producer that found the ring full holds no reservation, so any
/// release may serve it: what it announces takes anything.
pub proof fn lemma_full_ring_pins_nobody<T>(ring: RingModel<T>, batch: Batch, limit: nat, pos: usize)
    requires
        batch.unused == 0,
        ring.refill_size(limit) is None,
    ensures
        ring.acquired(batch, limit) == (ring, batch),
        ring.acquirable(batch, limit) is None,
        interest_in(announcement(batch.start, batch.unused), pos) == WakeInterest::Any,
{
    lemma_first_writable(ring, batch, 0);
    assert forall|q: int| !(#[trigger] batch.reserves(q)) by {
        lemma_zero_bits32(q - batch.start);
    }
}

/// A producer that stops sleeping leaves no announcement behind for the
/// next holder of its park slot.
pub proof fn lemma_park_slot_is_returned_clean<T>(ring: RingModel<T>, slot: ParkSlot)
    requires
        ring.consistent(),
        slot.wf(),
    ensures
        slot matches ParkSlot::Leased(i) ==> {
            &&& ring.producer_unparked(slot).awaited[i as int] is None
            &&& !bit64(ring.producer_unparked(slot).producer_park.wake, i as int)
        },
{
    lemma_arming_is_private(ring.producer_park, slot, 0);
}

/// Closing reaches everybody who waits: when the last producer leaves,
/// each sleeper of either side is owed its unpark and each consumer task
/// its waker call.
pub proof fn lemma_closing_reaches_everybody<T>(ring: RingModel<T>, slot: ParkSlot, i: int)
    requires
        ring.consistent(),
        ring.producers == 1,
    ensures
        ring.producer_left(slot).producers_gone,
        bit64(ring.consumer_park.wake, i) ==> ring.producer_left(slot).consumer_park.owes(i),
        bit64(ring.producer_park.wake, i) ==> ring.producer_left(slot).producer_park.owes(i),
        bit64(ring.consumer_tasks.wake, i) ==> ring.producer_left(slot).consumer_tasks.owes(i),
{
    lemma_flush_reaches_everybody(ring.consumer_park, i);
    lemma_flush_reaches_everybody(ring.producer_park, i);
    lemma_flush_reaches_everybody(ring.consumer_tasks, i);
}

/// When the last consumer leaves, each sleeping producer is owed its
/// unpark and each producer task its waker call.
pub proof fn lemma_last_consumer_releases_producers<T>(ring: RingModel<T>, slot: ParkSlot, i: int)
    requires
        ring.consistent(),
        ring.consumers == 1,
    ensures
        ring.consumer_left(slot).consumers_gone,
        bit64(ring.producer_park.wake, i) ==> ring.consumer_left(slot).producer_park.owes(i),
        bit64(ring.producer_tasks.wake, i) ==> ring.consumer_left(slot).producer_tasks.owes(i),
{
    lemma_flush_reaches_everybody(ring.producer_park, i);
    lemma_flush_reaches_everybody(ring.producer_tasks, i);
}

/// Waiters without a park slot are not forgotten: a publication reaches
/// the consumers among them, a release the producers, and the end of a
/// side all that wait on it.
pub proof fn lemma_slotless_waiters_are_reached<T>(ring: RingModel<T>, slot: ParkSlot, pos: int)
    ensures
        ring.consumer_park.overflow ==> ring.published(pos).consumer_park.overflow_owed,
        ring.consumer_tasks.overflow ==> ring.published(pos).consumer_tasks.overflow_owed,
        ring.producer_park.overflow ==> ring.freed(pos).producer_park.overflow_owed,
        ring.producer_tasks.overflow ==> ring.producer_tasks_woken().producer_tasks.overflow_owed,
        ring.producers == 1 && ring.consumer_park.overflow ==> ring.producer_left(
            slot,
        ).consumer_park.overflow_owed,
        ring.consumers == 1 && ring.producer_park.overflow ==> ring.consumer_left(
            slot,
        ).producer_park.overflow_owed,
{
}

} // verus!
