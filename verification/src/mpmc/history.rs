//! What the calls of one producer and one consumer return, whatever their
//! order: a queue.

use vstd::multiset::Multiset;
use vstd::prelude::*;

use crate::capacity::{lemma_first_lap, lemma_next_lap, lemma_slots_differ, slot_of};
use crate::common::bits::{bit32, lemma_no_bits32, lemma_zero_bits32};
use crate::mpmc::laws::contents;
use crate::mpmc::ring_model::{
    lemma_claimable_iff_published, lemma_lap_meets_slot, Batch, RingModel, Scan,
};
use crate::mpmc::session::{lemma_step_is_accounted_for, placed, stepped, Event, Session};
use crate::mpmc::slot_table::{Phase, Slot};
use crate::mpmc::steps::{
    lemma_attempt_reserves_and_takes, lemma_batch_reserves_its_bits,
    lemma_claim_and_release_are_exact, lemma_claim_moves_scan_and_tally,
    lemma_push_is_refused_only_without_a_free_slot, lemma_push_publishes_its_value,
    lemma_refill_asks_the_slot_before_giving_up,
};

verus! {

/// A call on a ring with one producer and one consumer.
pub enum Call<T> {
    Push(T),
    Pop,
}

/// A ring with its one producer and its one consumer, the values whose
/// push succeeded and the values that the pops returned, each in the order
/// of the calls.
pub struct History<T> {
    pub ring: RingModel<T>,
    pub batch: Batch,
    pub scan: Scan,
    pub pushed: Seq<T>,
    pub popped: Seq<T>,
}

/// The history after the call, of a producer that reserves up to `limit`
/// positions at a time and a consumer that publishes its tally after
/// `flush_at` pops.
pub open spec fn called<T>(h: History<T>, limit: nat, flush_at: nat, call: Call<T>) -> History<T> {
    match call {
        Call::Push(val) => {
            let (ring, batch) = h.ring.pushed(h.batch, limit, val);
            History {
                ring,
                batch,
                pushed: if h.ring.acquirable(h.batch, limit) is Some {
                    h.pushed.push(val)
                } else {
                    h.pushed
                },
                ..h
            }
        },
        Call::Pop => {
            let (claimed, scan) = h.ring.claimed(h.scan, flush_at);
            match h.ring.claimable(h.scan.next) {
                Some(pos) => History {
                    ring: claimed.freed(pos).producer_tasks_woken(),
                    scan,
                    popped: h.popped.push(h.ring.at(pos).value()),
                    ..h
                },
                None => History { ring: claimed, scan, ..h },
            }
        },
    }
}

/// The history after the calls, in order.
pub open spec fn history<T>(
    start: History<T>,
    limit: nat,
    flush_at: nat,
    calls: Seq<Call<T>>,
) -> History<T>
    decreases calls.len(),
{
    if calls.len() == 0 {
        start
    } else {
        called(history(start, limit, flush_at, calls.drop_last()), limit, flush_at, calls.last())
    }
}

/// The session of one producer that the ring is in.
spec fn alone<T>(ring: RingModel<T>, batch: Batch) -> Session<T> {
    Session {
        ring,
        batches: Map::empty().insert(0, batch),
        reserved: Set::empty(),
        held: Set::empty(),
        pushed: contents(ring),
        taken: Multiset::empty(),
    }
}

/// What is in the slot of the position `pos` when the first `popped` of
/// the values `pushed` have been popped.
pub open spec fn queued<T>(pushed: Seq<T>, pos: int) -> Slot<T> {
    Slot {
        pos: pos as nat,
        phase: if pos < pushed.len() {
            Phase::Published(pushed[pos])
        } else {
            Phase::Open(None)
        },
    }
}

/// The ring is a queue: the lap from the first value that was not popped
/// holds what was pushed and not popped, in order, and then free slots;
/// the producer has reserved from the first of these on; and the consumer
/// stands at the first value.
pub open spec fn is_queue<T>(
    ring: RingModel<T>,
    batch: Batch,
    scan: Scan,
    pushed: Seq<T>,
    popped: Seq<T>,
) -> bool {
    let h: int = popped.len() as int;
    let t: int = pushed.len() as int;
    &&& ring.consistent()
    &&& h <= t <= ring.claim <= h + ring.cap
    &&& popped == pushed.take(h)
    &&& ring.consumed + scan.pending == h
    &&& forall|pos: int| h <= pos < h + ring.cap ==> #[trigger] ring.at(pos) == queued(pushed, pos)
    &&& forall|pos: int| #[trigger] batch.reserves(pos) <==> t <= pos < ring.claim
    &&& scan.next >= h
    &&& slot_of(scan.next as int, ring.cap) == slot_of(h, ring.cap)
}

/// The producer's reservations are honoured, as all of them are free
/// slots of the lap.
proof fn lemma_queue_is_placed<T>(
    ring: RingModel<T>,
    batch: Batch,
    scan: Scan,
    pushed: Seq<T>,
    popped: Seq<T>,
)
    requires
        is_queue(ring, batch, scan, pushed, popped),
    ensures
        ring.backs(batch),
        placed(alone(ring, batch)),
{
    let h: int = popped.len() as int;
    assert forall|pos: int| #[trigger] batch.reserves(pos) implies ring.honours(pos) by {
        assert(ring.at(pos) == queued(pushed, pos));
    }
    let s = alone(ring, batch);
    assert forall|i: int|
        0 <= i < ring.cap && (#[trigger] ring.slots[i]).phase is Taken implies s.held.contains(
        ring.slots[i].pos as int,
    ) by {
        let q = lemma_lap_meets_slot(h, ring.cap, i);
        assert(ring.at(q) == queued(pushed, q));
    }
}

/// A push takes the next free slot, and is refused exactly if there is
/// none.
pub proof fn lemma_push_keeps_the_queue<T>(
    ring: RingModel<T>,
    batch: Batch,
    scan: Scan,
    pushed: Seq<T>,
    popped: Seq<T>,
    limit: nat,
    val: T,
)
    requires
        is_queue(ring, batch, scan, pushed, popped),
        ring.headroom(),
        1 <= limit <= 32,
    ensures
        ring.acquirable(batch, limit) is None <==> pushed.len() - popped.len() == ring.cap,
        ({
            let (after, rest) = ring.pushed(batch, limit, val);
            is_queue(
                after,
                rest,
                scan,
                if ring.acquirable(batch, limit) is Some {
                    pushed.push(val)
                } else {
                    pushed
                },
                popped,
            )
        }),
        ring.pushed(batch, limit, val).0.cap == ring.cap,
{
    let h: int = popped.len() as int;
    let t: int = pushed.len() as int;
    let (after, rest) = ring.pushed(batch, limit, val);
    lemma_queue_is_placed(ring, batch, scan, pushed, popped);
    let s = alone(ring, batch);
    assert(contents(ring).add(Multiset::empty()) =~= contents(ring));
    assert(s.batches.dom().contains(0));
    lemma_step_is_accounted_for(s, Event::Push(0, limit, val));
    assert(stepped(s, Event::Push(0, limit, val)).ring == after);
    assert(after.consistent());
    lemma_push_is_refused_only_without_a_free_slot(ring, batch, limit, t);
    lemma_refill_asks_the_slot_before_giving_up(ring, limit);
    lemma_push_publishes_its_value(ring, batch, limit, val, 0);
    assert forall|q: int| #[trigger] rest.reserves(q) <==> (if ring.acquirable(batch, limit) is Some {
        t + 1
    } else {
        t
    }) <= q < after.claim by {
        lemma_attempt_reserves_and_takes(ring, batch, limit, q);
        lemma_attempt_reserves_and_takes(ring, batch, limit, t);
        if batch.unused == 0 {
            lemma_batch_reserves_its_bits(batch, t);
        }
        assert(batch.reserves(t) == (t < ring.claim));
    }
    if batch.unused == 0 {
        lemma_batch_reserves_its_bits(batch, t);
        assert(batch.reserves(t) == (t < ring.claim));
        assert(ring.claim == t);
        if t < h + ring.cap {
            assert(ring.at(t) == queued(pushed, t));
        } else {
            lemma_next_lap(h, ring.cap);
            assert(ring.at(h) == queued(pushed, h));
            assert(ring.at(t) == ring.at(h));
            crate::mpmc::ring_model::lemma_first_writable(ring, batch, 0);
            match ring.first_writable(batch, 0) {
                Some(pos) => lemma_batch_reserves_its_bits(batch, pos),
                None => {},
            }
        }
    } else {
        if t == ring.claim {
            assert forall|i: int| !(#[trigger] bit32(batch.unused, i)) by {
                assert(batch.reserves(batch.start + i) == bit32(batch.unused, i));
            }
            lemma_no_bits32(batch.unused);
        }
        assert(batch.reserves(t));
        assert(ring.at(t) == queued(pushed, t));
    }
    lemma_attempt_reserves_and_takes(ring, batch, limit, t);
    match ring.acquirable(batch, limit) {
        Some(pos) => {
            assert(pos == t);
            let more = pushed.push(val);
            assert(popped =~= more.take(h));
            assert forall|q: int| h <= q < h + ring.cap implies #[trigger] after.at(q) == queued(
                more,
                q,
            ) by {
                lemma_next_lap(q, ring.cap);
                lemma_next_lap(t, ring.cap);
                if q != t {
                    if q < t {
                        lemma_slots_differ(q, t, ring.cap);
                    } else {
                        lemma_slots_differ(t, q, ring.cap);
                    }
                    lemma_push_publishes_its_value(
                        ring,
                        batch,
                        limit,
                        val,
                        slot_of(q, ring.cap),
                    );
                    assert(ring.at(q) == queued(pushed, q));
                }
            }
        },
        None => {
            assert forall|q: int| h <= q < h + ring.cap implies #[trigger] after.at(q) == queued(
                pushed,
                q,
            ) by {
                assert(ring.at(q) == queued(pushed, q));
            }
        },
    }
}

/// A pop takes the first value that was not popped, and nothing only if
/// there is none.
pub proof fn lemma_pop_keeps_the_queue<T>(
    ring: RingModel<T>,
    batch: Batch,
    scan: Scan,
    pushed: Seq<T>,
    popped: Seq<T>,
    flush_at: nat,
)
    requires
        is_queue(ring, batch, scan, pushed, popped),
        scan.next + ring.cap < usize::MAX,
        scan.pending < flush_at,
        popped.len() < usize::MAX,
    ensures
        ring.claimable(scan.next) is None <==> popped.len() == pushed.len(),
        ring.claimable(scan.next) matches Some(pos) ==> pos == popped.len() && ring.at(pos).value()
            == pushed[pos],
        ({
            let (claimed, next) = ring.claimed(scan, flush_at);
            &&& next.pending < flush_at
            &&& next.next <= scan.next + ring.cap
            &&& match ring.claimable(scan.next) {
                Some(pos) => is_queue(
                    claimed.freed(pos).producer_tasks_woken(),
                    batch,
                    next,
                    pushed,
                    popped.push(ring.at(pos).value()),
                ),
                None => is_queue(claimed, batch, next, pushed, popped),
            }
        }),
{
    let h: int = popped.len() as int;
    let t: int = pushed.len() as int;
    let (claimed, next) = ring.claimed(scan, flush_at);
    lemma_queue_is_placed(ring, batch, scan, pushed, popped);
    lemma_claim_moves_scan_and_tally(ring, scan, flush_at);
    lemma_claimable_iff_published(ring, scan.next);
    lemma_next_lap(scan.next as int, ring.cap);
    if h < t {
        assert(ring.at(h) == queued(pushed, h));
        assert(ring.at(scan.next as int) == ring.at(h));
        assert(ring.claimable(scan.next) == Some(h));
        let s = alone(ring, batch);
        assert(contents(ring).add(Multiset::empty()) =~= contents(ring));
        lemma_step_is_accounted_for(s, Event::Claim(scan, flush_at));
        let held = stepped(s, Event::<T>::Claim(scan, flush_at));
        assert(held.held.contains(h));
        lemma_step_is_accounted_for(held, Event::Release(h));
        let freed = claimed.freed(h);
        assert(freed.consistent());
        let after = freed.producer_tasks_woken();
        crate::common::park::lemma_waking_keeps_order(freed.producer_tasks);
        assert(after.consistent());
        let more = popped.push(pushed[h]);
        assert(more =~= pushed.take(h + 1));
        assert forall|q: int| h + 1 <= q < h + 1 + ring.cap implies #[trigger] after.at(q)
            == queued(pushed, q) by {
            lemma_next_lap(h, ring.cap);
            lemma_next_lap(q, ring.cap);
            lemma_claim_and_release_are_exact(ring, h, slot_of(q, ring.cap));
            lemma_claim_and_release_are_exact(claimed, h, slot_of(q, ring.cap));
            if q < h + ring.cap {
                lemma_slots_differ(h, q, ring.cap);
                assert(ring.at(q) == queued(pushed, q));
            }
        }
        let c: int = ring.cap as int;
        vstd::arithmetic::div_mod::lemma_add_mod_noop(scan.next as int, 1, c);
        vstd::arithmetic::div_mod::lemma_add_mod_noop(h, 1, c);
        assert(slot_of(next.next as int, ring.cap) == slot_of(h + 1, ring.cap));
    } else {
        assert forall|i: int| 0 <= i < ring.cap implies !((#[trigger] ring.slots[i]).phase
            is Published) by {
            let q = lemma_lap_meets_slot(h, ring.cap, i);
            assert(ring.at(q) == queued(pushed, q));
        }
        assert(ring.drained());
    }
}

/// A ring is a queue by its slots and cursors alone.
pub proof fn lemma_queue_by_slots<T>(
    ring: RingModel<T>,
    other: RingModel<T>,
    batch: Batch,
    scan: Scan,
    pushed: Seq<T>,
    popped: Seq<T>,
)
    requires
        is_queue(ring, batch, scan, pushed, popped),
        other.consistent(),
        other.cap == ring.cap,
        other.slots == ring.slots,
        other.claim == ring.claim,
        other.consumed == ring.consumed,
    ensures
        is_queue(other, batch, scan, pushed, popped),
{
    let h: int = popped.len() as int;
    assert forall|q: int| h <= q < h + other.cap implies #[trigger] other.at(q) == queued(
        pushed,
        q,
    ) by {
        assert(ring.at(q) == queued(pushed, q));
    }
}

/// A ring just split, with its ends, is an empty queue.
pub proof fn lemma_new_ring_is_a_queue<T>(ring: RingModel<T>, batch: Batch, scan: Scan)
    requires
        ring.consistent(),
        ring.claim == 0,
        ring.consumed == 0,
        forall|s: int|
            0 <= s < ring.cap ==> (#[trigger] ring.slots[s]).pos == s && ring.slots[s].phase
                == Phase::<T>::Open(None),
        batch.unused == 0,
        scan.next == 0,
        scan.pending == 0,
    ensures
        is_queue(ring, batch, scan, Seq::empty(), Seq::empty()),
{
    assert forall|q: int| 0 <= q < ring.cap implies #[trigger] ring.at(q) == queued(
        Seq::<T>::empty(),
        q,
    ) by {
        lemma_first_lap(q, ring.cap);
    }
    assert forall|pos: int| !(#[trigger] batch.reserves(pos)) by {
        lemma_zero_bits32(pos - batch.start);
    }
    assert(Seq::<T>::empty() =~= Seq::<T>::empty().take(0));
}

/// Pops give back what was pushed, in order, and nothing only if nothing
/// is left: over any calls of one producer and one consumer on a new ring,
/// what was popped is a prefix of what was pushed, a pop returns nothing
/// exactly if all of it has been popped, and a push is refused exactly if
/// the capacity of it has not.
pub proof fn lemma_pops_give_back_the_pushes<T>(
    start: History<T>,
    limit: nat,
    flush_at: nat,
    calls: Seq<Call<T>>,
)
    requires
        start.ring.consistent(),
        start.ring.claim == 0,
        start.ring.consumed == 0,
        forall|s: int|
            0 <= s < start.ring.cap ==> (#[trigger] start.ring.slots[s]).pos == s
                && start.ring.slots[s].phase == Phase::<T>::Open(None),
        start.batch.unused == 0,
        start.scan.next == 0,
        start.scan.pending == 0,
        start.pushed.len() == 0,
        start.popped.len() == 0,
        1 <= limit <= 32,
        1 <= flush_at,
        (calls.len() + 5) * start.ring.cap + 64 <= usize::MAX,
    ensures
        ({
            let h = history(start, limit, flush_at, calls);
            &&& h.popped.is_prefix_of(h.pushed)
            &&& h.ring.claimable(h.scan.next) is None <==> h.popped == h.pushed
            &&& h.ring.acquirable(h.batch, limit) is None <==> h.pushed.len() - h.popped.len()
                == start.ring.cap
        }),
{
    lemma_history(start, limit, flush_at, calls);
    let h = history(start, limit, flush_at, calls);
    let n: int = calls.len() as int;
    let cap: int = start.ring.cap as int;
    lemma_room(n, cap);
    if h.pushed.len() == h.popped.len() {
        assert(h.popped =~= h.pushed);
    }
    let val: T = arbitrary();
    lemma_push_keeps_the_queue(h.ring, h.batch, h.scan, h.pushed, h.popped, limit, val);
    lemma_pop_keeps_the_queue(h.ring, h.batch, h.scan, h.pushed, h.popped, flush_at);
}

proof fn lemma_room(n: int, cap: int)
    requires
        0 <= n,
        4 <= cap,
    ensures
        (n + 5) * cap == n * cap + 5 * cap,
        (n + 1) * cap == n * cap + cap,
        n <= n * cap,
{
    assert((n + 5) * cap == n * cap + 5 * cap) by (nonlinear_arith);
    assert((n + 1) * cap == n * cap + cap) by (nonlinear_arith);
    assert(n <= n * cap) by (nonlinear_arith)
        requires
            0 <= n,
            4 <= cap,
    ;
}

proof fn lemma_history<T>(start: History<T>, limit: nat, flush_at: nat, calls: Seq<Call<T>>)
    requires
        start.ring.consistent(),
        start.ring.claim == 0,
        start.ring.consumed == 0,
        forall|s: int|
            0 <= s < start.ring.cap ==> (#[trigger] start.ring.slots[s]).pos == s
                && start.ring.slots[s].phase == Phase::<T>::Open(None),
        start.batch.unused == 0,
        start.scan.next == 0,
        start.scan.pending == 0,
        start.pushed.len() == 0,
        start.popped.len() == 0,
        1 <= limit <= 32,
        1 <= flush_at,
        (calls.len() + 5) * start.ring.cap + 64 <= usize::MAX,
    ensures
        ({
            let h = history(start, limit, flush_at, calls);
            &&& is_queue(h.ring, h.batch, h.scan, h.pushed, h.popped)
            &&& h.ring.cap == start.ring.cap
            &&& h.popped.len() <= calls.len()
            &&& h.scan.next <= calls.len() * start.ring.cap
            &&& h.scan.pending < flush_at
        }),
    decreases calls.len(),
{
    let cap: int = start.ring.cap as int;
    if calls.len() == 0 {
        lemma_new_ring_is_a_queue(start.ring, start.batch, start.scan);
        assert(start.pushed =~= Seq::empty());
        assert(start.popped =~= Seq::empty());
        assert(0 * cap == 0);
    } else {
        let n: int = calls.len() - 1;
        lemma_room(n, cap);
        lemma_room(n + 1, cap);
        lemma_history(start, limit, flush_at, calls.drop_last());
        let h = history(start, limit, flush_at, calls.drop_last());
        match calls.last() {
            Call::Push(val) => {
                lemma_push_keeps_the_queue(h.ring, h.batch, h.scan, h.pushed, h.popped, limit, val);
            },
            Call::Pop => {
                lemma_pop_keeps_the_queue(h.ring, h.batch, h.scan, h.pushed, h.popped, flush_at);
            },
        }
    }
}

} // verus!
