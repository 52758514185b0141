//! What holds of the ring as a whole.

use vstd::multiset::Multiset;
use vstd::prelude::*;

use crate::capacity::{lemma_next_lap, lemma_slots_differ, slot_of};
use crate::common::bits::{bit32, lemma_clear_bit32, lemma_no_bits32, lemma_zero_bits32};
use crate::mpmc::laws::{
    contents, exchanged, lemma_acquired, lemma_pop_takes_one_value_out,
    lemma_push_leaves_other_producers_alone, lemma_push_puts_one_value_in,
};
use crate::mpmc::ring_model::{
    lemma_backs_by_slots, lemma_claimable_iff_published, lemma_claiming_disturbs_nobody,
    lemma_first_writable, lemma_full_batch, lemma_releasing_disturbs_nobody, Batch, RingModel, Scan,
};
use crate::mpmc::slot_table::{Phase, Slot};
use crate::mpmc::steps::{
    lemma_attempt_reserves_and_takes, lemma_batch_changes_one_position,
    lemma_batch_reserves_its_bits, lemma_claim_and_release_are_exact,
    lemma_claim_moves_scan_and_tally, lemma_push_is_refused_only_without_a_free_slot,
    lemma_refill_asks_the_slot_before_giving_up,
};
use crate::mpmc_scan::producer::primary_from;
use crate::mpmc_scan::ring::{lemma_idle_waiters, ScanModel, CONSUMED_FLUSH, PRODUCER_BATCH};

verus! {

/// The ring and the batch after an attempt to push `val`.
pub open spec fn pushed<T>(ring: ScanModel<T>, batch: Batch, val: T) -> (ScanModel<T>, Batch) {
    let (acquired, rest) = ring.acquired(batch);
    match ring.acquirable(batch) {
        Some(pos) => (acquired.published(pos, val), rest),
        None => (acquired, rest),
    }
}

/// A push has the slots and cursors come out as on a ring that parks.
pub proof fn lemma_push_moves_as_batched<T>(ring: ScanModel<T>, batch: Batch, val: T)
    requires
        ring.batched().consistent(),
        ring.batched().headroom(),
        ring.batched().backs(batch),
    ensures
        ({
            let (after, rest) = ring.batched().pushed(batch, PRODUCER_BATCH as nat, val);
            &&& pushed(ring, batch, val).0.slots =~= after.slots
            &&& pushed(ring, batch, val).0.claim == after.claim
            &&& pushed(ring, batch, val).0.cap == after.cap
            &&& pushed(ring, batch, val).1 == rest
        }),
{
    lemma_acquired(ring.batched(), batch, PRODUCER_BATCH as nat);
    match ring.acquirable(batch) {
        Some(pos) => {
            lemma_next_lap(pos, ring.cap);
            let acquired = ring.batched().acquired(batch, PRODUCER_BATCH as nat).0;
            assert(acquired.staged(pos, Some(val)).at(pos).value() == val);
        },
        None => {},
    }
}

/// A push puts its value in if it succeeds, and nothing if it is refused.
pub proof fn lemma_scan_push_puts_one_value_in<T>(ring: ScanModel<T>, batch: Batch, val: T)
    requires
        ring.batched().consistent(),
        ring.batched().headroom(),
        ring.batched().backs(batch),
    ensures
        exchanged(
            ring.batched(),
            pushed(ring, batch, val).0.batched(),
            if ring.acquirable(batch) is Some {
                Multiset::singleton(val)
            } else {
                Multiset::empty()
            },
            Multiset::empty(),
        ),
{
    lemma_push_moves_as_batched(ring, batch, val);
    lemma_push_puts_one_value_in(ring.batched(), batch, PRODUCER_BATCH as nat, val);
}

/// A push leaves every other producer of the ring what it has reserved,
/// and takes none of its positions.
pub proof fn lemma_scan_push_leaves_other_producers_alone<T>(
    ring: ScanModel<T>,
    mine: Batch,
    theirs: Batch,
    val: T,
)
    requires
        ring.batched().consistent(),
        ring.batched().headroom(),
        ring.batched().backs(mine),
        ring.batched().backs(theirs),
        mine.disjoint(theirs),
    ensures
        pushed(ring, mine, val).0.batched().backs(theirs),
        pushed(ring, mine, val).1.disjoint(theirs),
{
    lemma_push_moves_as_batched(ring, mine, val);
    lemma_push_leaves_other_producers_alone(
        ring.batched(),
        mine,
        theirs,
        PRODUCER_BATCH as nat,
        val,
    );
    lemma_backs_by_slots(
        ring.batched().pushed(mine, PRODUCER_BATCH as nat, val).0,
        pushed(ring, mine, val).0.batched(),
        theirs,
    );
}

/// A pop takes exactly the value out that it returns, and nothing if
/// nothing was published; the reservations of the producers stand.
pub proof fn lemma_scan_pop_takes_one_value_out<T>(ring: ScanModel<T>, scan: Scan, batch: Batch)
    requires
        ring.batched().consistent(),
        ring.batched().backs(batch),
    ensures
        match ring.batched().claimable(scan.next) {
            Some(pos) => exchanged(
                ring.batched(),
                ring.popped(scan).0.batched(),
                Multiset::empty(),
                Multiset::singleton(ring.batched().at(pos).value()),
            ),
            None => ring.popped(scan).0 == ring && ring.batched().drained(),
        },
        ring.popped(scan).0.batched().backs(batch),
{
    let batched = ring.batched();
    lemma_claimable_iff_published(batched, scan.next);
    lemma_pop_takes_one_value_out(batched, scan, CONSUMED_FLUSH as nat);
    match batched.claimable(scan.next) {
        Some(pos) => {
            let (claimed, _after) = batched.claimed(scan, CONSUMED_FLUSH as nat);
            let freed = claimed.freed(pos);
            lemma_claiming_disturbs_nobody(batched, pos);
            lemma_releasing_disturbs_nobody(claimed, pos);
            let popped = ring.popped(scan).0.batched();
            assert(popped.slots =~= freed.slots);
            assert(contents(popped) == contents(freed.producer_tasks_woken()));
            assert forall|q: int| #[trigger] batch.reserves(q) implies freed.honours(q) by {
                assert(batched.honours(q));
                assert(claimed.honours(q));
            }
            lemma_backs_by_slots(freed, popped, batch);
        },
        None => {},
    }
}

/// A producer that leaves strands no position: once it does not have to
/// wait any more, it holds none.
pub proof fn lemma_scan_departure_strands_nothing<T>(ring: ScanModel<T>, batch: Batch, from: int)
    requires
        !ring.abandoned(batch, from).2,
        0 <= from <= 32,
        forall|i: int| 0 <= i < from ==> !(#[trigger] bit32(batch.unused, i)),
    ensures
        forall|pos: int| !(#[trigger] ring.abandoned(batch, from).1.reserves(pos)),
    decreases 32 - from,
{
    if from >= 32 {
        assert(ring.abandoned(batch, from).1 == batch);
        assert forall|pos: int| !(#[trigger] batch.reserves(pos)) by {
            let i: int = pos - batch.start;
            assert(!bit32(batch.unused, i));
        }
    } else if !bit32(batch.unused, from) {
        lemma_scan_departure_strands_nothing(ring, batch, from + 1);
        assert(ring.abandoned(batch, from) == ring.abandoned(batch, from + 1));
    } else {
        let pos: int = batch.start + from;
        let rest = batch.without(pos);
        lemma_clear_bit32(batch.unused, from as u32);
        assert(rest.unused == batch.unused & !(1u32 << (from as u32)));
        assert(ring.batched().writable(pos));
        assert(ring.abandoned(batch, from) == ring.freed(pos).abandoned(rest, from + 1));
        lemma_scan_departure_strands_nothing(ring.freed(pos), rest, from + 1);
        assert(forall|q: int| !(#[trigger] ring.freed(pos).abandoned(rest, from + 1).1.reserves(q)));
    }
}

/// A producer reserves 32 positions at a time, and a consumer publishes
/// its count every 64 pops.
pub proof fn lemma_batching_of_the_ring()
    ensures
        PRODUCER_BATCH == 32,
        CONSUMED_FLUSH == 64,
{
}

/// A new ring has every slot empty and free for its own index, and one
/// producer.
pub proof fn lemma_new_ring_is_empty<T>(cap: nat, s: int)
    ensures
        ScanModel::<T>::fresh(cap).cap == cap,
        ScanModel::<T>::fresh(cap).slots.len() == cap,
        0 <= s < cap ==> ScanModel::<T>::fresh(cap).slots[s].pos == s
            && ScanModel::<T>::fresh(cap).slots[s].phase == Phase::<T>::Open(None),
        ScanModel::<T>::fresh(cap).claim == 0,
        ScanModel::<T>::fresh(cap).consumed == 0,
        ScanModel::<T>::fresh(cap).producers == 1,
        !ScanModel::<T>::fresh(cap).closed,
        ScanModel::<T>::fresh(cap).clones == 0,
{
}

/// A ring on which nobody sleeps has the slots and cursors of one on which
/// somebody may, and goes where that goes.
pub proof fn lemma_same_slots_and_cursors<T>(ring: ScanModel<T>, other: RingModel<T>)
    ensures
        ring.batched().cap == ring.cap,
        ring.batched().slots == ring.slots,
        ring.batched().claim == ring.claim,
        ring.batched().consumed == ring.consumed,
        !ring.batched().consumers_gone,
        ring.moved_to(other).slots == other.slots,
        ring.moved_to(other).claim == other.claim,
        ring.moved_to(other).consumed == other.consumed,
        ring.moved_to(other).cap == ring.cap,
        ring.moved_to(other).producers == ring.producers,
        ring.moved_to(other).closed == ring.closed,
        ring.moved_to(other).clones == ring.clones,
{
}

/// Publishing and releasing change the slot of the position and nothing
/// else.
pub proof fn lemma_scan_slots_change_alone<T>(ring: ScanModel<T>, pos: int, val: T, s: int)
    requires
        ring.batched().consistent(),
        pos >= 0,
    ensures
        ring.published(pos, val).slots[slot_of(pos, ring.cap)] == (Slot {
            pos: pos as nat,
            phase: Phase::Published(val),
        }),
        ring.freed(pos).slots[slot_of(pos, ring.cap)] == (Slot {
            pos: (pos + ring.cap) as nat,
            phase: Phase::<T>::Open(None),
        }),
        0 <= s < ring.cap && s != slot_of(pos, ring.cap) ==> ring.published(pos, val).slots[s]
            == ring.slots[s] && ring.freed(pos).slots[s] == ring.slots[s],
        ring.published(pos, val) == (ScanModel { slots: ring.published(pos, val).slots, ..ring }),
        ring.freed(pos) == (ScanModel { slots: ring.freed(pos).slots, ..ring }),
{
    lemma_next_lap(pos, ring.cap);
}

/// A push is told that the ring is full only if its batch is exhausted and
/// the slot at the claim cursor is not free, and is refused for no other
/// reason than that no slot it may write to is; what it gets is the lowest
/// that it can have.
pub proof fn lemma_scan_push_is_refused_only_without_a_free_slot<T>(
    ring: ScanModel<T>,
    batch: Batch,
    q: int,
)
    requires
        ring.batched().consistent(),
        ring.batched().headroom(),
        ring.batched().backs(batch),
    ensures
        ring.full_for(batch) ==> batch.unused == 0 && ring.slots[slot_of(
            ring.claim as int,
            ring.cap,
        )].pos != ring.claim,
        ring.full_for(batch) ==> ring.acquirable(batch) is None,
        ring.full_for(batch) ==> ring.acquired(batch) == (ring, batch),
        ring.acquirable(batch) is None ==> (ring.full_for(batch) <==> ring.acquired(batch).1.unused
            == 0),
        batch.unused == 0 && ring.slots[slot_of(ring.claim as int, ring.cap)].pos == ring.claim
            ==> ring.acquirable(batch) == Some(ring.claim as int),
        batch.reserves(q) && ring.slots[slot_of(q, ring.cap)].pos == q ==> ring.acquirable(
            batch,
        ) is Some,
        ring.acquirable(batch) matches Some(pos) ==> {
            &&& ring.slots[slot_of(pos, ring.cap)].pos == pos
            &&& batch.unused != 0 ==> batch.reserves(pos)
            &&& batch.unused != 0 && batch.reserves(q) && ring.slots[slot_of(q, ring.cap)].pos == q
                ==> pos <= q
        },
{
    let batched = ring.batched();
    lemma_push_is_refused_only_without_a_free_slot(batched, batch, PRODUCER_BATCH as nat, q);
    lemma_refill_asks_the_slot_before_giving_up(batched, PRODUCER_BATCH as nat);
    match batched.refill_size(PRODUCER_BATCH as nat) {
        Some(n) => lemma_full_batch(n),
        None => {},
    }
    if ring.full_for(batch) {
        lemma_first_writable(batched, batch, 0);
        match batched.first_writable(batch, 0) {
            Some(pos) => lemma_batch_reserves_its_bits(batch, pos),
            None => {},
        }
    }
}

/// An attempt to write changes the ring by what it reserves, and the batch
/// by that and by the position it got.
pub proof fn lemma_scan_attempt_reserves_and_takes<T>(ring: ScanModel<T>, batch: Batch, q: int)
    requires
        ring.batched().consistent(),
        ring.batched().headroom(),
    ensures
        ({
            let (after, rest) = ring.acquired(batch);
            let n: int = match ring.batched().refill_size(32) {
                Some(n) => n as int,
                None => 0,
            };
            &&& after == (ScanModel { claim: after.claim, ..ring })
            &&& batch.unused != 0 ==> {
                &&& after.claim == ring.claim
                &&& rest.reserves(q) <==> batch.reserves(q) && ring.acquirable(batch) != Some(q)
            }
            &&& batch.unused == 0 ==> {
                &&& after.claim == ring.claim + n
                &&& rest.reserves(q) <==> ring.claim <= q < ring.claim + n && ring.acquirable(batch)
                    != Some(q)
            }
        }),
{
    lemma_attempt_reserves_and_takes(ring.batched(), batch, 32, q);
}

/// A pop takes the first published slot that its scan meets, and hands it
/// to the position one lap on; the scan goes past it, and the pop is
/// counted on the tally or with it on the watermark. Nobody else's handle
/// and no other slot is touched.
pub proof fn lemma_scan_pop_is_exact<T>(ring: ScanModel<T>, scan: Scan, s: int)
    requires
        ring.batched().consistent(),
        scan.next + ring.cap < usize::MAX,
        scan.pending < 64,
    ensures
        ({
            let (after, next) = ring.popped(scan);
            &&& after == (ScanModel { slots: after.slots, consumed: after.consumed, ..ring })
            &&& match ring.batched().claimable(scan.next) {
                Some(pos) => {
                    &&& after.slots[slot_of(pos, ring.cap)] == (Slot {
                        pos: (pos + ring.cap) as nat,
                        phase: Phase::<T>::Open(None),
                    })
                    &&& 0 <= s < ring.cap && s != slot_of(pos, ring.cap) ==> after.slots[s]
                        == ring.slots[s]
                    &&& next.next == if pos >= scan.next {
                        pos + 1
                    } else {
                        scan.next + 1
                    }
                    &&& scan.pending + 1 < 64 ==> next.pending == scan.pending + 1
                        && after.consumed == ring.consumed
                    &&& scan.pending + 1 == 64 ==> next.pending == 0 && after.consumed == if
                        ring.consumed + 64 <= usize::MAX {
                        ring.consumed + 64
                    } else {
                        ring.consumed + 64 - usize::MAX - 1
                    }
                },
                None => {
                    &&& after == ring
                    &&& next.next == scan.next + ring.cap
                    &&& next.pending == scan.pending
                },
            }
        }),
{
    lemma_claim_moves_scan_and_tally(ring.batched(), scan, CONSUMED_FLUSH as nat);
    lemma_claimable_iff_published(ring.batched(), scan.next);
    match ring.batched().claimable(scan.next) {
        Some(pos) => {
            lemma_next_lap(pos, ring.cap);
            lemma_claim_and_release_are_exact(ring.batched(), pos, s);
        },
        None => {},
    }
}

/// The lowest position of a batch is in it, and none that is lies below;
/// there is none exactly if the batch is exhausted.
pub proof fn lemma_primary_is_the_lowest(batch: Batch, q: int)
    ensures
        primary_from(batch, 0) is None <==> batch.unused == 0,
        primary_from(batch, 0) matches Some(pos) ==> batch.reserves(pos) && (batch.reserves(q)
            ==> pos <= q),
{
    lemma_primary_from(batch, 0, q);
    if primary_from(batch, 0) is None {
        assert forall|i: int| !(#[trigger] bit32(batch.unused, i)) by {
            lemma_primary_from(batch, 0, batch.start + i);
            assert(batch.reserves(batch.start + i) == bit32(batch.unused, i));
        }
        lemma_no_bits32(batch.unused);
    } else {
        lemma_batch_reserves_its_bits(batch, primary_from(batch, 0)->0);
    }
}

proof fn lemma_primary_from(batch: Batch, from: int, q: int)
    requires
        0 <= from <= 32,
    ensures
        match primary_from(batch, from) {
            Some(pos) => batch.reserves(pos) && (batch.reserves(q) && batch.start + from <= q
                ==> pos <= q),
            None => !(batch.reserves(q) && batch.start + from <= q),
        },
    decreases 32 - from,
{
    if from < 32 && !bit32(batch.unused, from) {
        lemma_primary_from(batch, from + 1, q);
    }
}

/// What a departing producer does to each position of its batch, which
/// lie within one lap: one whose slot has come round to it is given up,
/// and the slot goes to the position one lap on, empty; the first that has
/// not is the reason that it has to wait. Nothing else is touched.
pub proof fn lemma_scan_abandoning_hands_the_slots_on<T>(
    ring: ScanModel<T>,
    batch: Batch,
    from: int,
    s: int,
)
    requires
        ring.batched().consistent(),
        ring.batched().backs(batch),
        forall|a: int, b: int|
            #[trigger] batch.reserves(a) && #[trigger] batch.reserves(b) ==> b < a + ring.cap,
        0 <= from <= 32,
        0 <= s < ring.cap,
    ensures
        ({
            let (after, rest, blocked) = ring.abandoned(batch, from);
            let pos: int = ring.slots[s].pos as int;
            &&& after == (ScanModel { slots: after.slots, ..ring })
            &&& after.slots[s] == ring.slots[s] || (batch.reserves(pos) && batch.start + from <= pos
                && after.slots[s] == Slot::<T> {
                pos: (pos + ring.cap) as nat,
                phase: Phase::Open(None),
            })
            &&& !blocked && batch.reserves(pos) && batch.start + from <= pos ==> after.slots[s].pos
                == pos + ring.cap
            &&& blocked ==> rest.unused != 0
            &&& rest.start == batch.start
        }),
    decreases 32 - from,
{
    if from < 32 {
        let pos: int = batch.start + from;
        let batched = ring.batched();
        if !bit32(batch.unused, from) {
            lemma_scan_abandoning_hands_the_slots_on(ring, batch, from + 1, s);
            assert(!batch.reserves(pos));
        } else {
            assert(batch.reserves(pos));
            assert(batched.honours(pos));
            lemma_next_lap(pos, ring.cap);
            let rest = batch.without(pos);
            assert forall|q: int| #[trigger] rest.reserves(q) == (batch.reserves(q) && q
                != pos) by {
                lemma_batch_changes_one_position(batch, pos, q);
            }
            if batched.writable(pos) {
                let freed = ring.freed(pos);
                lemma_releasing_disturbs_nobody(batched, pos);
                lemma_scan_slots_change_alone(ring, pos, arbitrary(), s);
                lemma_idle_waiters();
                assert(freed.batched().slots =~= batched.freed(pos).slots);
                assert(freed.batched().consistent());
                assert forall|q: int| #[trigger] rest.reserves(q) implies freed.batched().honours(
                    q,
                ) by {
                    assert(batched.honours(q));
                    assert(batched.freed(pos).honours(q));
                }
                lemma_scan_abandoning_hands_the_slots_on(freed, rest, from + 1, s);
                if s == slot_of(pos, ring.cap) {
                    assert(ring.slots[s].pos == pos);
                    assert(!rest.reserves(pos + ring.cap)) by {
                        if rest.reserves(pos + ring.cap) {
                            assert(batch.reserves(pos) && batch.reserves(pos + ring.cap));
                        }
                    }
                } else {
                    assert(freed.slots[s] == ring.slots[s]);
                    assert(slot_of(batched.slots[s].pos as int, ring.cap) == s);
                }
            } else {
                if batch.unused == 0 {
                    lemma_zero_bits32(from);
                }
            }
        }
    } else {
        assert(!batch.reserves(ring.slots[s].pos as int) || ring.slots[s].pos < batch.start
            + from) by {
            lemma_batch_reserves_its_bits(batch, ring.slots[s].pos as int);
        }
    }
}

/// A departing producer waits exactly if the slot of a position of its
/// batch has not come round to it, and such a position stays in the
/// batch.
pub proof fn lemma_scan_departure_waits_for_a_consumer<T>(
    ring: ScanModel<T>,
    batch: Batch,
    from: int,
    q: int,
)
    requires
        ring.cap > 0,
        ring.slots.len() == ring.cap,
        forall|a: int, b: int|
            #[trigger] batch.reserves(a) && #[trigger] batch.reserves(b) ==> b < a + ring.cap,
        0 <= from <= 32,
    ensures
        ({
            let (after, rest, blocked) = ring.abandoned(batch, from);
            &&& rest.reserves(q) ==> batch.reserves(q)
            &&& batch.reserves(q) && batch.start + from <= q && ring.slots[slot_of(q, ring.cap)].pos
                != q ==> blocked && rest.reserves(q)
            &&& blocked ==> exists|p: int|
                {
                    &&& #[trigger] rest.reserves(p)
                    &&& batch.start + from <= p
                    &&& ring.slots[slot_of(p, ring.cap)].pos != p
                }
            &&& !blocked && batch.start + from <= q ==> !rest.reserves(q)
        }),
    decreases 32 - from,
{
    let pos: int = batch.start + from;
    lemma_batch_reserves_its_bits(batch, q);
    lemma_batch_reserves_its_bits(batch, pos);
    if from < 32 {
        if !bit32(batch.unused, from) {
            lemma_scan_departure_waits_for_a_consumer(ring, batch, from + 1, q);
        } else if ring.batched().writable(pos) {
            let rest = batch.without(pos);
            assert forall|p: int| #[trigger] rest.reserves(p) == (batch.reserves(p) && p
                != pos) by {
                lemma_batch_changes_one_position(batch, pos, p);
            }
            let next = ring.freed(pos);
            assert forall|p: int| #[trigger] rest.reserves(p) implies next.slots[slot_of(
                p,
                ring.cap,
            )] == ring.slots[slot_of(p, ring.cap)] by {
                assert(batch.reserves(p) && batch.reserves(pos));
                if p < pos {
                    lemma_slots_differ(p, pos, ring.cap);
                } else {
                    lemma_slots_differ(pos, p, ring.cap);
                }
                lemma_next_lap(pos, ring.cap);
                lemma_next_lap(p, ring.cap);
            }
            lemma_scan_departure_waits_for_a_consumer(next, rest, from + 1, q);
            let (after, left, blocked) = next.abandoned(rest, from + 1);
            if blocked {
                let p = choose|p: int|
                    {
                        &&& #[trigger] left.reserves(p)
                        &&& rest.start + (from + 1) <= p
                        &&& next.slots[slot_of(p, ring.cap)].pos != p
                    };
                lemma_scan_departure_waits_for_a_consumer(next, rest, from + 1, p);
                assert(rest.reserves(p));
                assert(left.reserves(p) && batch.start + from <= p && ring.slots[slot_of(
                    p,
                    ring.cap,
                )].pos != p);
            }
            if q == pos {
                assert(!rest.reserves(q));
            }
        } else {
            assert(batch.reserves(pos));
        }
    }
}

} // verus!
