//! What holds of the ring as a whole.

use vstd::prelude::*;

use crate::common::sole_waiter::SoleWaiter;
use crate::spsc::consumer::at_most;
use crate::spsc::ring::QueueModel;

verus! {

/// One step that moves values: a push at the tail, or the removal of some
/// number of the oldest values.
pub enum Move<T> {
    Push(T),
    Take(nat),
}

/// Whether the step can be taken: a push needs room, and no more can be
/// taken than there is.
pub open spec fn allowed<T>(ring: QueueModel<T>, step: Move<T>) -> bool {
    match step {
        Move::Push(_) => !ring.is_full() && ring.tail < usize::MAX,
        Move::Take(n) => n <= ring.queue.len(),
    }
}

/// The ring after the step.
pub open spec fn moved<T>(ring: QueueModel<T>, step: Move<T>) -> QueueModel<T> {
    match step {
        Move::Push(val) => ring.pushed(val),
        Move::Take(n) => ring.taken(n),
    }
}

/// What goes in with the step.
pub open spec fn entering<T>(step: Move<T>) -> Seq<T> {
    match step {
        Move::Push(val) => seq![val],
        Move::Take(_) => Seq::empty(),
    }
}

/// What comes out with the step.
pub open spec fn leaving<T>(ring: QueueModel<T>, step: Move<T>) -> Seq<T> {
    match step {
        Move::Push(_) => Seq::empty(),
        Move::Take(n) => ring.queue.take(n as int),
    }
}

/// The ring after a run of steps.
pub open spec fn after<T>(ring: QueueModel<T>, run: Seq<Move<T>>) -> QueueModel<T>
    decreases run.len(),
{
    if run.len() == 0 {
        ring
    } else {
        moved(after(ring, run.drop_last()), run.last())
    }
}

/// Whether every step of the run can be taken when its turn comes.
pub open spec fn runs<T>(ring: QueueModel<T>, run: Seq<Move<T>>) -> bool
    decreases run.len(),
{
    run.len() == 0 || (runs(ring, run.drop_last()) && allowed(
        after(ring, run.drop_last()),
        run.last(),
    ))
}

/// All that went in during the run, in order.
pub open spec fn entered<T>(run: Seq<Move<T>>) -> Seq<T>
    decreases run.len(),
{
    if run.len() == 0 {
        Seq::empty()
    } else {
        entered(run.drop_last()) + entering(run.last())
    }
}

/// All that came out during the run, in order.
pub open spec fn delivered<T>(ring: QueueModel<T>, run: Seq<Move<T>>) -> Seq<T>
    decreases run.len(),
{
    if run.len() == 0 {
        Seq::empty()
    } else {
        delivered(ring, run.drop_last()) + leaving(after(ring, run.drop_last()), run.last())
    }
}

/// First in, first out: over any run, what was in the ring followed by
/// what went in is what came out followed by what is still there. Nothing
/// is lost, repeated or reordered, and the ring never holds more than its
/// capacity.
pub proof fn lemma_first_in_first_out<T>(ring: QueueModel<T>, run: Seq<Move<T>>)
    requires
        ring.consistent(),
        runs(ring, run),
    ensures
        ring.queue + entered(run) == delivered(ring, run) + after(ring, run).queue,
        after(ring, run).queue.len() <= ring.cap,
        after(ring, run).consistent(),
        after(ring, run).cap == ring.cap,
    decreases run.len(),
{
    if run.len() == 0 {
        assert(ring.queue + Seq::<T>::empty() =~= Seq::<T>::empty() + ring.queue);
    } else {
        let prefix = run.drop_last();
        lemma_first_in_first_out(ring, prefix);
        let before = after(ring, prefix);
        let out = delivered(ring, prefix);
        match run.last() {
            Move::Push(val) => {
                assert(ring.queue + (entered(prefix) + seq![val]) =~= (ring.queue + entered(prefix))
                    + seq![val]);
                assert((out + before.queue) + seq![val] =~= (out + Seq::<T>::empty())
                    + before.queue.push(val));
            },
            Move::Take(n) => {
                assert(ring.queue + (entered(prefix) + Seq::<T>::empty()) =~= ring.queue + entered(
                    prefix,
                ));
                assert(out + before.queue =~= (out + before.queue.take(n as int))
                    + before.queue.skip(n as int));
            },
        }
    }
}

/// What was pushed comes back as it was: a push onto an empty ring is
/// undone by a pop, which returns the value and leaves the ring empty.
pub proof fn lemma_pop_undoes_push<T>(ring: QueueModel<T>, val: T)
    requires
        ring.consistent(),
        ring.queue.len() == 0,
        ring.tail < usize::MAX,
    ensures
        ring.pushed(val).queue == seq![val],
        ring.pushed(val).taken(1).queue == ring.queue,
{
    assert(ring.pushed(val).queue =~= seq![val]);
    assert(ring.pushed(val).taken(1).queue =~= ring.queue);
}

/// A push does not miss a consumer that waits, and a removal does not
/// miss a producer that does: each is owed its unpark or its waker call.
pub proof fn lemma_no_wake_is_lost<T>(ring: QueueModel<T>, val: T, n: nat)
    requires
        n > 0,
    ensures
        ring.consumer.parked ==> ring.pushed(val).consumer.unpark_owed,
        ring.consumer.pending ==> ring.pushed(val).consumer.waker_owed,
        ring.producer.parked ==> ring.taken(n).producer.unpark_owed,
        ring.producer.pending ==> ring.taken(n).producer.waker_owed,
{
}

/// A reservation that comes to nothing leaves no trace: whatever was
/// written at the tail and taken back, the ring is as it was.
pub proof fn lemma_rollback_leaves_no_trace<T>(ring: QueueModel<T>, val: T)
    requires
        ring.staged is None,
    ensures
        ring.with_staged(Some(val)).with_staged(None) == ring,
{
}

/// Committing what was written in place is the same as pushing it.
pub proof fn lemma_commit_is_push<T>(ring: QueueModel<T>, val: T)
    ensures
        ring.with_staged(Some(val)).pushed(val) == ring.pushed(val),
{
}

/// A call on a ring.
pub enum Call<T> {
    Push(T),
    Pop,
}

/// A ring, the values whose push succeeded and the values that the pops
/// returned, each in the order of the calls.
pub struct History<T> {
    pub ring: QueueModel<T>,
    pub pushed: Seq<T>,
    pub popped: Seq<T>,
}

/// The history after the call. A push is refused if the ring is full, and
/// a pop returns nothing if it is empty.
pub open spec fn called<T>(h: History<T>, call: Call<T>) -> History<T> {
    match call {
        Call::Push(val) => if h.ring.is_full() {
            h
        } else {
            History { ring: h.ring.pushed(val), pushed: h.pushed.push(val), ..h }
        },
        Call::Pop => if h.ring.queue.len() > 0 {
            History { ring: h.ring.taken(1), popped: h.popped.push(h.ring.queue[0]), ..h }
        } else {
            h
        },
    }
}

/// The history of a ring after the calls, in order.
pub open spec fn history<T>(ring: QueueModel<T>, calls: Seq<Call<T>>) -> History<T>
    decreases calls.len(),
{
    if calls.len() == 0 {
        History { ring, pushed: Seq::empty(), popped: Seq::empty() }
    } else {
        called(history(ring, calls.drop_last()), calls.last())
    }
}

/// Pops give back what was pushed, in order, and nothing only if nothing
/// is left: over any calls on a ring that was empty, what was popped is a
/// prefix of what was pushed, a pop returns nothing exactly if all of it
/// has been popped, and a push is refused exactly if the capacity of it
/// has not. What is still there when the ring goes is the rest, so every
/// value leaves exactly once.
pub proof fn lemma_pops_give_back_the_pushes<T>(ring: QueueModel<T>, calls: Seq<Call<T>>)
    requires
        ring.consistent(),
        ring.queue.len() == 0,
        ring.tail + calls.len() <= usize::MAX,
    ensures
        ({
            let h = history(ring, calls);
            &&& h.popped.is_prefix_of(h.pushed)
            &&& h.ring.queue.len() == 0 <==> h.popped == h.pushed
            &&& h.ring.is_full() <==> h.pushed.len() - h.popped.len() == ring.cap
            &&& h.popped + h.ring.queue == h.pushed
            &&& h.ring.consistent()
            &&& h.ring.cap == ring.cap
            &&& h.ring.tail <= ring.tail + calls.len()
        }),
    decreases calls.len(),
{
    if calls.len() > 0 {
        lemma_pops_give_back_the_pushes(ring, calls.drop_last());
        let before = history(ring, calls.drop_last());
        match calls.last() {
            Call::Push(val) => {
                assert(before.popped + before.ring.queue.push(val) =~= (before.popped
                    + before.ring.queue).push(val));
            },
            Call::Pop => {
                if before.ring.queue.len() > 0 {
                    assert(before.popped.push(before.ring.queue[0]) + before.ring.queue.skip(1)
                        =~= before.popped + before.ring.queue);
                }
            },
        }
    }
    let h = history(ring, calls);
    assert(h.popped + h.ring.queue =~= h.pushed);
    assert(h.popped =~= h.pushed.take(h.popped.len() as int));
    if h.ring.queue.len() == 0 {
        assert(h.popped =~= h.pushed);
    }
}

/// A new ring is empty and open, and nobody waits on it.
pub proof fn lemma_new_ring_is_empty<T>(cap: nat)
    ensures
        QueueModel::<T>::fresh(cap).cap == cap,
        QueueModel::<T>::fresh(cap).queue.len() == 0,
        QueueModel::<T>::fresh(cap).head == 0,
        QueueModel::<T>::fresh(cap).tail == 0,
        QueueModel::<T>::fresh(cap).staged is None,
        !QueueModel::<T>::fresh(cap).producer_closed,
        !QueueModel::<T>::fresh(cap).consumer_closed,
        !QueueModel::<T>::fresh(cap).producer.parked,
        !QueueModel::<T>::fresh(cap).producer.pending,
        !QueueModel::<T>::fresh(cap).consumer.parked,
        !QueueModel::<T>::fresh(cap).consumer.pending,
        QueueModel::<T>::fresh(cap).producer == SoleWaiter::idle(),
        QueueModel::<T>::fresh(cap).consumer == SoleWaiter::idle(),
{
}

/// A ring is full exactly if a whole lap lies between its cursors.
pub proof fn lemma_full_is_a_whole_lap<T>(ring: QueueModel<T>)
    requires
        ring.consistent(),
    ensures
        ring.is_full() <==> ring.tail - ring.head == ring.cap,
{
}

/// A push puts its value behind all others, which stay where they are,
/// and tells a waiting consumer; the producer and the flags stay as they
/// were.
pub proof fn lemma_push_appends<T>(ring: QueueModel<T>, val: T)
    requires
        ring.tail < usize::MAX,
    ensures
        ring.pushed(val).queue.len() == ring.queue.len() + 1,
        ring.pushed(val).queue[ring.queue.len() as int] == val,
        forall|i: int|
            0 <= i < ring.queue.len() ==> #[trigger] ring.pushed(val).queue[i] == ring.queue[i],
        ring.pushed(val).cap == ring.cap,
        ring.pushed(val).head == ring.head,
        ring.pushed(val).tail == ring.tail + 1,
        ring.pushed(val).staged is None,
        ring.pushed(val).producer_closed == ring.producer_closed,
        ring.pushed(val).consumer_closed == ring.consumer_closed,
        ring.pushed(val).producer == ring.producer,
        !ring.pushed(val).consumer.parked,
        !ring.pushed(val).consumer.pending,
        ring.pushed(val).consumer.unpark_owed <==> ring.consumer.unpark_owed
            || ring.consumer.parked,
        ring.pushed(val).consumer.waker_owed <==> ring.consumer.waker_owed
            || ring.consumer.pending,
{
}

/// Taking `n` values takes the oldest and leaves the rest in order, and
/// tells a waiting producer if it was any; the consumer, the flags and
/// what is staged stay as they were.
pub proof fn lemma_taking_takes_the_oldest<T>(ring: QueueModel<T>, n: nat)
    requires
        ring.consistent(),
        n <= ring.queue.len(),
    ensures
        ring.taken(n).queue.len() == ring.queue.len() - n,
        forall|i: int|
            0 <= i < ring.queue.len() - n ==> #[trigger] ring.taken(n).queue[i] == ring.queue[i
                + n],
        ring.taken(n).cap == ring.cap,
        ring.taken(n).head == ring.head + n,
        ring.taken(n).tail == ring.tail,
        ring.taken(n).staged == ring.staged,
        ring.taken(n).producer_closed == ring.producer_closed,
        ring.taken(n).consumer_closed == ring.consumer_closed,
        ring.taken(n).consumer == ring.consumer,
        n == 0 ==> ring.taken(n).producer == ring.producer,
        n > 0 ==> {
            &&& !ring.taken(n).producer.parked
            &&& !ring.taken(n).producer.pending
            &&& ring.taken(n).producer.unpark_owed == (ring.producer.unpark_owed
                || ring.producer.parked)
            &&& ring.taken(n).producer.waker_owed == (ring.producer.waker_owed
                || ring.producer.pending)
        },
{
}

/// A bounded drain takes the smaller of its limit and what there is: no
/// more than either, and all that one of the two allows.
pub proof fn lemma_drain_takes_what_it_may(limit: nat, len: nat)
    ensures
        at_most(limit, len) <= limit,
        at_most(limit, len) <= len,
        at_most(limit, len) == limit || at_most(limit, len) == len,
{
}

/// Two drains in a row take what one drain of both limits would.
pub proof fn lemma_drains_add_up<T>(ring: QueueModel<T>, first: nat, second: nat)
    requires
        ring.consistent(),
    ensures
        ({
            let n = at_most(first, ring.queue.len());
            let m = at_most(second, ring.taken(n).queue.len());
            &&& n + m == at_most(first + second, ring.queue.len())
            &&& ring.taken(n).taken(m).queue == ring.taken(n + m).queue
            &&& ring.queue.take(n as int) + ring.taken(n).queue.take(m as int)
                == ring.queue.take((n + m) as int)
        }),
{
    let n = at_most(first, ring.queue.len());
    let m = at_most(second, ring.taken(n).queue.len());
    assert(ring.taken(n).taken(m).queue =~= ring.taken(n + m).queue);
    assert(ring.queue.take(n as int) + ring.taken(n).queue.take(m as int) =~= ring.queue.take(
        (n + m) as int,
    ));
}

/// What is written ahead of its publication is seen by nobody: it changes
/// the cell at the tail and nothing else.
pub proof fn lemma_staging_is_invisible<T>(ring: QueueModel<T>, staged: Option<T>)
    ensures
        ring.with_staged(staged).staged == staged,
        ring.with_staged(staged).cap == ring.cap,
        ring.with_staged(staged).queue == ring.queue,
        ring.with_staged(staged).head == ring.head,
        ring.with_staged(staged).tail == ring.tail,
        ring.with_staged(staged).producer_closed == ring.producer_closed,
        ring.with_staged(staged).consumer_closed == ring.consumer_closed,
        ring.with_staged(staged).producer == ring.producer,
        ring.with_staged(staged).consumer == ring.consumer,
{
}

} // verus!
