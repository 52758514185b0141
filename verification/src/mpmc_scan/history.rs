//! What the calls of one producer and one consumer return, whatever their
//! order: a queue.

use vstd::prelude::*;

use crate::mpmc::history::{
    is_queue, lemma_new_ring_is_a_queue, lemma_pop_keeps_the_queue, lemma_push_keeps_the_queue,
    lemma_queue_by_slots, Call,
};
use crate::mpmc::laws::lemma_acquired;
use crate::mpmc::ring_model::{lemma_claimable_iff_published, Batch, Scan};
use crate::mpmc::slot_table::Phase;
use crate::mpmc_scan::laws::{lemma_push_moves_as_batched, pushed};
use crate::mpmc_scan::ring::{lemma_idle_waiters, ScanModel, CONSUMED_FLUSH, PRODUCER_BATCH};

verus! {

/// A ring with its one producer and its one consumer, the values whose
/// push succeeded and the values that the pops returned, each in the order
/// of the calls.
pub struct History<T> {
    pub ring: ScanModel<T>,
    pub batch: Batch,
    pub scan: Scan,
    pub pushed: Seq<T>,
    pub popped: Seq<T>,
}

/// The history after the call.
pub open spec fn called<T>(h: History<T>, call: Call<T>) -> History<T> {
    match call {
        Call::Push(val) => {
            let (ring, batch) = pushed(h.ring, h.batch, val);
            History {
                ring,
                batch,
                pushed: if h.ring.acquirable(h.batch) is Some {
                    h.pushed.push(val)
                } else {
                    h.pushed
                },
                ..h
            }
        },
        Call::Pop => {
            let (ring, scan) = h.ring.popped(h.scan);
            History {
                ring,
                scan,
                popped: match h.ring.batched().claimable(h.scan.next) {
                    Some(pos) => h.popped.push(h.ring.batched().at(pos).value()),
                    None => h.popped,
                },
                ..h
            }
        },
    }
}

/// The history after the calls, in order.
pub open spec fn history<T>(start: History<T>, calls: Seq<Call<T>>) -> History<T>
    decreases calls.len(),
{
    if calls.len() == 0 {
        start
    } else {
        called(history(start, calls.drop_last()), calls.last())
    }
}

/// Pops give back what was pushed, in order, and nothing only if nothing
/// is left: over any calls of one producer and one consumer on a new ring,
/// what was popped is a prefix of what was pushed, a pop returns nothing
/// exactly if all of it has been popped, and a push is refused exactly if
/// the capacity of it has not.
pub proof fn lemma_pops_give_back_the_pushes<T>(start: History<T>, calls: Seq<Call<T>>)
    requires
        start.ring.batched().consistent(),
        start.ring.claim == 0,
        start.ring.consumed == 0,
        forall|s: int|
            0 <= s < start.ring.cap ==> (#[trigger] start.ring.slots[s]).pos == s
                && start.ring.slots[s].phase == Phase::<T>::Open(None),
        start.batch.unused == 0,
        start.scan.next == 0,
        start.scan.pending == 0,
        start.pushed.len() == 0,
        start.popped.len() == 0,
        (calls.len() + 5) * start.ring.cap + 64 <= usize::MAX,
    ensures
        ({
            let h = history(start, calls);
            &&& h.popped.is_prefix_of(h.pushed)
            &&& h.ring.batched().claimable(h.scan.next) is None <==> h.popped == h.pushed
            &&& h.ring.acquirable(h.batch) is None <==> h.pushed.len() - h.popped.len()
                == start.ring.cap
        }),
{
    lemma_history(start, calls);
    let h = history(start, calls);
    lemma_room(calls.len() as int, start.ring.cap as int);
    if h.pushed.len() == h.popped.len() {
        assert(h.popped =~= h.pushed);
    }
    let val: T = arbitrary();
    lemma_push_keeps_the_queue(
        h.ring.batched(),
        h.batch,
        h.scan,
        h.pushed,
        h.popped,
        PRODUCER_BATCH as nat,
        val,
    );
    lemma_pop_keeps_the_queue(
        h.ring.batched(),
        h.batch,
        h.scan,
        h.pushed,
        h.popped,
        CONSUMED_FLUSH as nat,
    );
}

proof fn lemma_room(n: int, cap: int)
    requires
        0 <= n,
        4 <= cap,
    ensures
        (n + 5) * cap == n * cap + 5 * cap,
        (n + 1) * cap == n * cap + cap,
        n <= n * cap,
{
    assert((n + 5) * cap == n * cap + 5 * cap) by (nonlinear_arith);
    assert((n + 1) * cap == n * cap + cap) by (nonlinear_arith);
    assert(n <= n * cap) by (nonlinear_arith)
        requires
            0 <= n,
            4 <= cap,
    ;
}

proof fn lemma_history<T>(start: History<T>, calls: Seq<Call<T>>)
    requires
        start.ring.batched().consistent(),
        start.ring.claim == 0,
        start.ring.consumed == 0,
        forall|s: int|
            0 <= s < start.ring.cap ==> (#[trigger] start.ring.slots[s]).pos == s
                && start.ring.slots[s].phase == Phase::<T>::Open(None),
        start.batch.unused == 0,
        start.scan.next == 0,
        start.scan.pending == 0,
        start.pushed.len() == 0,
        start.popped.len() == 0,
        (calls.len() + 5) * start.ring.cap + 64 <= usize::MAX,
    ensures
        ({
            let h = history(start, calls);
            &&& is_queue(h.ring.batched(), h.batch, h.scan, h.pushed, h.popped)
            &&& h.ring.cap == start.ring.cap
            &&& h.popped.len() <= calls.len()
            &&& h.scan.next <= calls.len() * start.ring.cap
            &&& h.scan.pending < CONSUMED_FLUSH
        }),
    decreases calls.len(),
{
    let cap: int = start.ring.cap as int;
    lemma_idle_waiters();
    if calls.len() == 0 {
        assert forall|s: int| 0 <= s < start.ring.cap implies (
        #[trigger] start.ring.batched().slots[s]).pos == s && start.ring.batched().slots[s].phase
            == Phase::<T>::Open(None) by {
            assert(start.ring.slots[s].pos == s);
        }
        lemma_new_ring_is_a_queue(start.ring.batched(), start.batch, start.scan);
        assert(start.pushed =~= Seq::empty());
        assert(start.popped =~= Seq::empty());
        assert(0 * cap == 0);
    } else {
        let n: int = calls.len() - 1;
        lemma_room(n, cap);
        lemma_room(n + 1, cap);
        lemma_history(start, calls.drop_last());
        let h = history(start, calls.drop_last());
        let t = history(start, calls);
        let batched = h.ring.batched();
        match calls.last() {
            Call::Push(val) => {
                lemma_push_keeps_the_queue(
                    batched,
                    h.batch,
                    h.scan,
                    h.pushed,
                    h.popped,
                    PRODUCER_BATCH as nat,
                    val,
                );
                assert(batched.backs(h.batch)) by {
                    assert forall|q: int| #[trigger] h.batch.reserves(q) implies batched.honours(
                        q,
                    ) by {
                        assert(batched.at(q) == crate::mpmc::history::queued(h.pushed, q));
                    }
                }
                lemma_push_moves_as_batched(h.ring, h.batch, val);
                lemma_acquired(batched, h.batch, PRODUCER_BATCH as nat);
                let after = batched.pushed(h.batch, PRODUCER_BATCH as nat, val).0;
                assert(t.ring.batched().consistent());
                lemma_queue_by_slots(
                    after,
                    t.ring.batched(),
                    t.batch,
                    t.scan,
                    t.pushed,
                    t.popped,
                );
            },
            Call::Pop => {
                lemma_pop_keeps_the_queue(
                    batched,
                    h.batch,
                    h.scan,
                    h.pushed,
                    h.popped,
                    CONSUMED_FLUSH as nat,
                );
                lemma_claimable_iff_published(batched, h.scan.next);
                match batched.claimable(h.scan.next) {
                    Some(pos) => {
                        let claimed = batched.claimed(h.scan, CONSUMED_FLUSH as nat).0;
                        let after = claimed.freed(pos).producer_tasks_woken();
                        assert(t.ring.batched().slots =~= after.slots);
                        assert(t.ring.batched().consistent());
                        lemma_queue_by_slots(
                            after,
                            t.ring.batched(),
                            t.batch,
                            t.scan,
                            t.pushed,
                            t.popped,
                        );
                    },
                    None => {},
                }
            },
        }
    }
}

} // verus!
