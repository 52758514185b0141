//! What holds of the ring as a whole.

use vstd::multiset::Multiset;
use vstd::prelude::*;

use crate::common::bits::{bit64, lemma_zero_bits64};
use crate::common::laws::{
    lemma_flush_is_exact, lemma_many_wakes_are_single_ones, lemma_returned_slot_is_free,
    lemma_wake_takes_one_sleeper, lemma_wakes_take_as_many_sleepers,
};
use crate::common::park::{
    lemma_flush_reaches_everybody, lemma_wake_is_not_lost, lemma_waking_keeps_order, population,
    WakeSet,
};
use crate::common::park_registry::ParkSlot;
use crate::common::sole_waiter::SoleWaiter;
use crate::mpsc::ring::{drained, lemma_clearing_shortens, ready_values, Claim, ClaimModel};

verus! {

/// One step of the ring that concerns its positions.
pub enum Event<T> {
    /// A producer claims the next position.
    Reserve,
    /// The owner of a pending position writes into its cell.
    Write(int, Option<T>),
    /// The owner of a pending position publishes a value or gives up.
    Settle(int, Claim<T>),
    /// The consumer passes the oldest position.
    Release,
    /// Anything that leaves the positions alone, and the ring as given:
    /// handles come and go, waiters sleep and wake, the ring is closed.
    Otherwise(ClaimModel<T>),
}

/// Whether the step can happen: a claim needs room, only the owner of a
/// pending position touches it, and the consumer never passes one that is
/// pending.
pub open spec fn possible<T>(ring: ClaimModel<T>, event: Event<T>) -> bool {
    match event {
        Event::Reserve => !ring.is_full() && ring.headroom(),
        Event::Write(pos, _) => ring.pending(pos),
        Event::Settle(pos, claim) => ring.pending(pos) && !(claim is Pending),
        Event::Release => ring.claims.len() > 0 && !(ring.claims[0] is Pending),
        Event::Otherwise(next) => {
            &&& next.consistent()
            &&& next.cap == ring.cap
            &&& next.head == ring.head
            &&& next.tail == ring.tail
            &&& next.claims == ring.claims
        },
    }
}

/// The ring after the step.
pub open spec fn stepped<T>(ring: ClaimModel<T>, event: Event<T>) -> ClaimModel<T> {
    match event {
        Event::Reserve => ring.claimed(),
        Event::Write(pos, val) => ring.with_claim(pos, Claim::Pending(val)),
        Event::Settle(pos, claim) => ring.settled(pos, claim),
        Event::Release => ring.released(),
        Event::Otherwise(next) => next,
    }
}

/// The ring after a run of steps.
pub open spec fn after<T>(ring: ClaimModel<T>, run: Seq<Event<T>>) -> ClaimModel<T>
    decreases run.len(),
{
    if run.len() == 0 {
        ring
    } else {
        stepped(after(ring, run.drop_last()), run.last())
    }
}

/// Whether every step of the run can happen when its turn comes.
pub open spec fn runs<T>(ring: ClaimModel<T>, run: Seq<Event<T>>) -> bool
    decreases run.len(),
{
    run.len() == 0 || (runs(ring, run.drop_last()) && possible(
        after(ring, run.drop_last()),
        run.last(),
    ))
}

/// The positions that the consumer has passed during the run, in order,
/// each as it was when it was passed.
pub open spec fn passed<T>(ring: ClaimModel<T>, run: Seq<Event<T>>) -> Seq<Claim<T>>
    decreases run.len(),
{
    if run.len() == 0 {
        Seq::empty()
    } else {
        let before = passed(ring, run.drop_last());
        match run.last() {
            Event::Release => before.push(after(ring, run.drop_last()).claims[0]),
            _ => before,
        }
    }
}

/// The values that the consumer has taken during the run, in order.
pub open spec fn delivered<T>(ring: ClaimModel<T>, run: Seq<Event<T>>) -> Seq<T>
    decreases run.len(),
{
    if run.len() == 0 {
        Seq::empty()
    } else {
        let before = delivered(ring, run.drop_last());
        match run.last() {
            Event::Release => match after(ring, run.drop_last()).claims[0] {
                Claim::Ready(val) => before.push(val),
                _ => before,
            },
            _ => before,
        }
    }
}

/// What the producers did during the run to the positions from `head` on,
/// as if the consumer had passed none.
pub open spec fn told<T>(claims: Seq<Claim<T>>, head: int, run: Seq<Event<T>>) -> Seq<Claim<T>>
    decreases run.len(),
{
    if run.len() == 0 {
        claims
    } else {
        let before = told(claims, head, run.drop_last());
        match run.last() {
            Event::Reserve => before.push(Claim::Pending(None)),
            Event::Write(pos, val) => before.update(pos - head, Claim::Pending(val)),
            Event::Settle(pos, claim) => before.update(pos - head, claim),
            Event::Release => before,
            Event::Otherwise(_) => before,
        }
    }
}

/// Delivery follows the order of the claims: over any run, the positions
/// that the consumer has passed followed by those still in the ring are
/// exactly what the producers made of them, in the order of the claims.
/// Each is passed once and as it was settled, the values taken are those
/// of the passed positions that were published, and the ring never holds
/// more claims than its capacity.
pub proof fn lemma_delivery_follows_the_claims<T>(ring: ClaimModel<T>, run: Seq<Event<T>>)
    requires
        ring.consistent(),
        runs(ring, run),
    ensures
        passed(ring, run) + after(ring, run).claims == told(ring.claims, ring.head as int, run),
        delivered(ring, run) == ready_values(passed(ring, run)),
        after(ring, run).head == ring.head + passed(ring, run).len(),
        after(ring, run).consistent(),
        after(ring, run).claims.len() <= ring.cap,
        after(ring, run).cap == ring.cap,
    decreases run.len(),
{
    if run.len() == 0 {
        assert(Seq::<Claim<T>>::empty() + ring.claims =~= ring.claims);
    } else {
        let prefix = run.drop_last();
        lemma_delivery_follows_the_claims(ring, prefix);
        let before = after(ring, prefix);
        let past = passed(ring, prefix);
        let story = told(ring.claims, ring.head as int, prefix);
        match run.last() {
            Event::Reserve => {
                assert(past + before.claims.push(Claim::Pending(None)) =~= (past
                    + before.claims).push(Claim::Pending(None)));
            },
            Event::Write(pos, val) => {
                assert(past + before.claims.update(pos - before.head, Claim::Pending(val)) =~= (past
                    + before.claims).update(pos - ring.head, Claim::Pending(val)));
            },
            Event::Settle(pos, claim) => {
                assert(past + before.claims.update(pos - before.head, claim) =~= (past
                    + before.claims).update(pos - ring.head, claim));
            },
            Event::Release => {
                assert(past.push(before.claims[0]) + before.claims.skip(1) =~= past
                    + before.claims);
                assert(past.push(before.claims[0]).drop_last() =~= past);
                lemma_release_keeps_waiters_in_order(before);
            },
            Event::Otherwise(_) => {},
        }
    }
}

/// A release keeps the waiters of the ring in order.
proof fn lemma_release_keeps_waiters_in_order<T>(ring: ClaimModel<T>)
    requires
        ring.consistent(),
    ensures
        ring.released().producer_park.wf(),
        ring.released().producer_tasks.wf(),
{
    lemma_waking_keeps_order(ring.producer_park);
    lemma_waking_keeps_order(ring.producer_tasks);
}

/// A push that succeeds is a claim, a write and a publication in one.
pub proof fn lemma_push_is_reserve_write_publish<T>(ring: ClaimModel<T>, val: T)
    requires
        ring.consistent(),
        !ring.is_full(),
        ring.headroom(),
    ensures
        ring.pushed(val) == ring.claimed().with_claim(
            ring.tail as int,
            Claim::Pending(Some(val)),
        ).settled(ring.tail as int, Claim::Ready(val)),
{
    let reserved = ring.claimed().with_claim(ring.tail as int, Claim::Pending(Some(val))).settled(
        ring.tail as int,
        Claim::Ready(val),
    );
    assert(ring.pushed(val).claims =~= reserved.claims);
}

/// What a pop takes is the oldest position that was not given up, if it
/// is published: all before it were given up, and all of them are out of
/// the way.
pub proof fn lemma_pop_takes_the_oldest<T>(ring: ClaimModel<T>, k: int)
    requires
        0 <= k <= ring.claims.len(),
        forall|i: int| 0 <= i < k ==> (#[trigger] ring.claims[i]) is Tombstoned,
        k < ring.claims.len() ==> !(ring.claims[k] is Tombstoned),
        ring.head + ring.claims.len() == ring.tail,
    ensures
        ring.cleared().claims == ring.claims.skip(k),
        ring.cleared().head == ring.head + k,
        ring.front() == if k < ring.claims.len() && ring.claims[k] is Ready {
            Some(ring.claims[k]->Ready_0)
        } else {
            None
        },
        ring.popped().claims == if k < ring.claims.len() && ring.claims[k] is Ready {
            ring.claims.skip(k + 1)
        } else {
            ring.claims.skip(k)
        },
    decreases k,
{
    if k > 0 {
        assert(ring.claims[0] is Tombstoned);
        let next = ring.released();
        assert forall|i: int| 0 <= i < k - 1 implies (#[trigger] next.claims[i]) is Tombstoned by {
            assert(next.claims[i] == ring.claims[i + 1]);
        }
        lemma_pop_takes_the_oldest(next, k - 1);
        assert(next.claims.skip(k - 1) =~= ring.claims.skip(k));
        if k < ring.claims.len() {
            assert(next.claims.skip(k) =~= ring.claims.skip(k + 1));
        }
    } else {
        assert(ring.claims.skip(0) =~= ring.claims);
    }
}

/// A drain delivers what popping until nothing comes would, and leaves
/// the same positions in the ring.
pub proof fn lemma_drain_is_popping_dry<T>(ring: ClaimModel<T>, limit: nat)
    requires
        limit >= ring.claims.len(),
        ring.head + ring.claims.len() == ring.tail,
    ensures
        drained(ring.claims, limit).1 == ring.popped_dry().1,
        ring.claims.skip(drained(ring.claims, limit).0 as int) == ring.popped_dry().0.claims,
        drained(ring.claims, limit).0 <= ring.claims.len(),
    decreases ring.claims.len(),
{
    if ring.claims.len() == 0 {
        assert(ring.claims.skip(0) =~= ring.claims);
    } else {
        let next = ring.released();
        match ring.claims[0] {
            Claim::Pending(_) => {
                assert(ring.claims.skip(0) =~= ring.claims);
            },
            Claim::Tombstoned => {
                lemma_drain_is_popping_dry(next, limit);
                let n = drained(next.claims, limit).0;
                assert(next.claims.skip(n as int) =~= ring.claims.skip(n as int + 1));
                assert(ring.front() == next.front());
                assert(ring.popped() == next.popped());
            },
            Claim::Ready(val) => {
                lemma_drain_is_popping_dry(next, (limit - 1) as nat);
                let n = drained(next.claims, (limit - 1) as nat).0;
                assert(next.claims.skip(n as int) =~= ring.claims.skip(n as int + 1));
                assert(ring.cleared() == ring);
                assert(ring.popped() == next);
            },
        }
    }
}

/// The consumer never passes a pending position, so a reservation stays
/// its owner's until the owner settles it; and settling one position
/// leaves the others as they were.
pub proof fn lemma_reservations_stand<T>(ring: ClaimModel<T>, pos: int, other: int, claim: Claim<T>)
    requires
        ring.head + ring.claims.len() == ring.tail,
        ring.tail < usize::MAX,
        ring.pending(pos),
    ensures
        ring.cleared().pending(pos),
        ring.cleared().claim_of(pos) == ring.claim_of(pos),
        ring.popped().pending(pos),
        ring.popped().claim_of(pos) == ring.claim_of(pos),
        ring.claimed().pending(pos),
        ring.claimed().claim_of(pos) == ring.claim_of(pos),
        ring.pending(other) && other != pos ==> ring.settled(other, claim).pending(pos)
            && ring.settled(other, claim).claim_of(pos) == ring.claim_of(pos),
    decreases ring.claims.len(),
{
    lemma_clearing_shortens(ring);
    if ring.claims[0] is Tombstoned {
        let next = ring.released();
        assert(next.claim_of(pos) == ring.claim_of(pos));
        lemma_reservations_stand(next, pos, other, claim);
        assert(ring.front() == next.front());
        assert(ring.popped() == next.popped());
    } else {
        assert(ring.cleared() == ring);
    }
}

/// A settled position does not miss a consumer that waits, and a released
/// one does not miss a producer that sleeps: whoever it is is owed its
/// unpark.
pub proof fn lemma_no_wake_is_lost<T>(ring: ClaimModel<T>, pos: int, claim: Claim<T>)
    requires
        ring.consistent(),
    ensures
        ring.consumer.parked ==> ring.settled(pos, claim).consumer.unpark_owed,
        ring.consumer.pending ==> ring.settled(pos, claim).consumer.waker_owed,
        ring.producer_park.wake != 0 ==> exists|i: int|
            {
                &&& #[trigger] bit64(ring.producer_park.wake, i)
                &&& !bit64(ring.released().producer_park.wake, i)
                &&& ring.released().producer_park.owes(i)
            },
{
    if ring.producer_park.wake != 0 {
        lemma_wake_is_not_lost(ring.producer_park);
    }
}

/// Closing reaches everybody who waits: the consumer when the last
/// producer leaves or the ring is closed, and every producer when the
/// consumer leaves.
pub proof fn lemma_closing_reaches_everybody<T>(ring: ClaimModel<T>, slot: ParkSlot, i: int)
    requires
        ring.consistent(),
    ensures
        ring.producers == 1 ==> ring.producer_left(slot).closed,
        ring.producers == 1 && ring.consumer.parked ==> ring.producer_left(
            slot,
        ).consumer.unpark_owed,
        ring.consumer.parked ==> ring.closing().consumer.unpark_owed,
        ring.consumer.pending ==> ring.closing().consumer.waker_owed,
        bit64(ring.producer_park.wake, i) ==> ring.consumer_leaving().producer_park.owes(i),
        bit64(ring.producer_tasks.wake, i) ==> ring.consumer_leaving().producer_tasks.owes(i),
{
    lemma_flush_reaches_everybody(ring.producer_park, i);
    lemma_flush_reaches_everybody(ring.producer_tasks, i);
}

/// Producers without a park slot are not forgotten: every release and
/// the end of the consumer reach them.
pub proof fn lemma_slotless_producers_are_reached<T>(ring: ClaimModel<T>)
    ensures
        ring.producer_park.overflow ==> ring.released().producer_park.overflow_owed,
        ring.producer_tasks.overflow ==> ring.released().producer_tasks.overflow_owed,
        ring.producer_park.overflow ==> ring.consumer_leaving().producer_park.overflow_owed,
        ring.producer_tasks.overflow ==> ring.consumer_leaving().producer_tasks.overflow_owed,
{
}

/// A call on a ring.
pub enum Call<T> {
    /// A producer pushes a value.
    Push(T),
    Pop,
}

/// A ring, the values whose push succeeded and the values that the pops
/// returned, each in the order of the calls.
pub struct History<T> {
    pub ring: ClaimModel<T>,
    pub pushed: Seq<T>,
    pub popped: Seq<T>,
}

/// The history after the call. A push is refused if the ring is full.
pub open spec fn called<T>(h: History<T>, call: Call<T>) -> History<T> {
    match call {
        Call::Push(val) => if h.ring.is_full() {
            h
        } else {
            History { ring: h.ring.pushed(val), pushed: h.pushed.push(val), ..h }
        },
        Call::Pop => match h.ring.front() {
            Some(val) => History { ring: h.ring.popped(), popped: h.popped.push(val), ..h },
            None => History { ring: h.ring.popped(), ..h },
        },
    }
}

/// The history of a ring after the calls, in order.
pub open spec fn history<T>(ring: ClaimModel<T>, calls: Seq<Call<T>>) -> History<T>
    decreases calls.len(),
{
    if calls.len() == 0 {
        History { ring, pushed: Seq::empty(), popped: Seq::empty() }
    } else {
        called(history(ring, calls.drop_last()), calls.last())
    }
}

/// Pops give back what was pushed, in order, and nothing only if nothing
/// is left: over any calls on a ring without a claim, what was popped is
/// a prefix of what was pushed, a pop returns nothing exactly if all of
/// it has been popped, and a push is refused exactly if the capacity of
/// it has not.
pub proof fn lemma_pops_give_back_the_pushes<T>(ring: ClaimModel<T>, calls: Seq<Call<T>>)
    requires
        ring.consistent(),
        ring.claims.len() == 0,
        2 * (ring.tail + calls.len() + ring.cap) + 2 <= usize::MAX,
    ensures
        ({
            let h = history(ring, calls);
            &&& h.popped.is_prefix_of(h.pushed)
            &&& h.ring.front() is None <==> h.popped == h.pushed
            &&& h.ring.is_full() <==> h.pushed.len() - h.popped.len() == ring.cap
            &&& h.popped + ready_values(h.ring.claims) == h.pushed
            &&& h.ring.consistent()
            &&& h.ring.cap == ring.cap
        }),
{
    lemma_history(ring, calls);
    let h = history(ring, calls);
    let rest = h.pushed.skip(h.popped.len() as int);
    lemma_ready_values_of_ready(h.ring.claims, rest);
    assert(h.popped + rest =~= h.pushed);
    if h.ring.claims.len() > 0 {
        assert(h.ring.claims[0] is Ready);
        assert(h.ring.cleared() == h.ring);
    }
}

/// After the calls the ring holds, published, what was pushed and not
/// popped, and nothing else.
proof fn lemma_history<T>(ring: ClaimModel<T>, calls: Seq<Call<T>>)
    requires
        ring.consistent(),
        ring.claims.len() == 0,
        2 * (ring.tail + calls.len() + ring.cap) + 2 <= usize::MAX,
    ensures
        ({
            let h = history(ring, calls);
            &&& h.popped.is_prefix_of(h.pushed)
            &&& h.ring.claims.len() == h.pushed.len() - h.popped.len()
            &&& forall|i: int|
                0 <= i < h.ring.claims.len() ==> #[trigger] h.ring.claims[i] == Claim::Ready(
                    h.pushed[h.popped.len() + i],
                )
            &&& h.ring.consistent()
            &&& h.ring.cap == ring.cap
            &&& h.ring.tail <= ring.tail + calls.len()
        }),
    decreases calls.len(),
{
    if calls.len() > 0 {
        lemma_history(ring, calls.drop_last());
        let before = history(ring, calls.drop_last());
        match calls.last() {
            Call::Push(_) => {},
            Call::Pop => {
                if before.ring.claims.len() > 0 {
                    assert(before.ring.claims[0] == Claim::Ready(
                        before.pushed[before.popped.len() as int],
                    ));
                    assert(before.ring.cleared() == before.ring);
                    lemma_release_keeps_waiters_in_order(before.ring);
                }
            },
        }
    }
}

/// The published values of claims that are all published.
proof fn lemma_ready_values_of_ready<T>(claims: Seq<Claim<T>>, values: Seq<T>)
    requires
        claims.len() == values.len(),
        forall|i: int|
            0 <= i < claims.len() ==> #[trigger] claims[i] == Claim::Ready(values[i]),
    ensures
        ready_values(claims) == values,
    decreases claims.len(),
{
    if claims.len() > 0 {
        let values_before = values.drop_last();
        assert forall|i: int| 0 <= i < claims.len() - 1 implies #[trigger] claims.drop_last()[i]
            == Claim::Ready(values_before[i]) by {
            assert(claims[i] == Claim::Ready(values[i]));
        }
        lemma_ready_values_of_ready(claims.drop_last(), values_before);
        assert(claims[claims.len() - 1] == Claim::Ready(values.last()));
        assert(values_before.push(values.last()) =~= values);
    } else {
        assert(values =~= Seq::<T>::empty());
    }
}

/// The values that the producers published during the run, without their
/// order.
pub open spec fn published<T>(run: Seq<Event<T>>) -> Multiset<T>
    decreases run.len(),
{
    if run.len() == 0 {
        Multiset::empty()
    } else {
        let before = published(run.drop_last());
        match run.last() {
            Event::Settle(_, Claim::Ready(val)) => before.insert(val),
            _ => before,
        }
    }
}

/// Every value leaves exactly once: over any run, what the consumer took
/// followed by what a teardown hands back is all that was published, in
/// the order of the claims. Positions that were given up, or are not
/// published, yield nothing.
pub proof fn lemma_every_value_leaves_once<T>(ring: ClaimModel<T>, run: Seq<Event<T>>)
    requires
        ring.consistent(),
        runs(ring, run),
    ensures
        delivered(ring, run) + ready_values(after(ring, run).claims) == ready_values(
            told(ring.claims, ring.head as int, run),
        ),
        (delivered(ring, run) + ready_values(after(ring, run).claims)).to_multiset()
            == ready_values(ring.claims).to_multiset().add(published(run)),
{
    lemma_delivery_follows_the_claims(ring, run);
    lemma_ready_values_add(passed(ring, run), after(ring, run).claims);
    lemma_told_is_published(ring, run);
}

/// What the producers made of the positions carries what they published.
proof fn lemma_told_is_published<T>(ring: ClaimModel<T>, run: Seq<Event<T>>)
    requires
        ring.consistent(),
        runs(ring, run),
    ensures
        ready_values(told(ring.claims, ring.head as int, run)).to_multiset() == ready_values(
            ring.claims,
        ).to_multiset().add(published(run)),
    decreases run.len(),
{
    let was = ready_values(ring.claims).to_multiset();
    if run.len() == 0 {
        assert(was.add(Multiset::empty()) =~= was);
    } else {
        let prefix = run.drop_last();
        lemma_told_is_published(ring, prefix);
        lemma_delivery_follows_the_claims(ring, prefix);
        let before = after(ring, prefix);
        let story = told(ring.claims, ring.head as int, prefix);
        match run.last() {
            Event::Reserve => {
                assert(story.push(Claim::Pending(None)).drop_last() =~= story);
            },
            Event::Write(pos, val) => {
                assert(story[pos - ring.head] == before.claim_of(pos));
                lemma_ready_values_update(story, pos - ring.head, Claim::Pending(val));
            },
            Event::Settle(pos, claim) => {
                assert(story[pos - ring.head] == before.claim_of(pos));
                lemma_ready_values_update(story, pos - ring.head, claim);
                match claim {
                    Claim::Ready(val) => {
                        assert(was.add(published(prefix)).insert(val) =~= was.add(
                            published(prefix).insert(val),
                        ));
                    },
                    _ => {},
                }
            },
            Event::Release => {},
            Event::Otherwise(_) => {},
        }
    }
}

/// The published values of two stretches of claims are those of the first
/// followed by those of the second.
proof fn lemma_ready_values_add<T>(a: Seq<Claim<T>>, b: Seq<Claim<T>>)
    ensures
        ready_values(a + b) == ready_values(a) + ready_values(b),
    decreases b.len(),
{
    if b.len() == 0 {
        assert(a + b =~= a);
        assert(ready_values(a) + ready_values(b) =~= ready_values(a));
    } else {
        lemma_ready_values_add(a, b.drop_last());
        assert((a + b).drop_last() =~= a + b.drop_last());
        match b.last() {
            Claim::Ready(val) => {
                assert((ready_values(a) + ready_values(b.drop_last())).push(val) =~= ready_values(a)
                    + ready_values(b.drop_last()).push(val));
            },
            _ => {},
        }
    }
}

/// Replacing a claim that is not published adds the value of the new one,
/// if it is.
proof fn lemma_ready_values_update<T>(claims: Seq<Claim<T>>, i: int, claim: Claim<T>)
    requires
        0 <= i < claims.len(),
        !(claims[i] is Ready),
    ensures
        ready_values(claims.update(i, claim)).to_multiset() == match claim {
            Claim::Ready(val) => ready_values(claims).to_multiset().insert(val),
            _ => ready_values(claims).to_multiset(),
        },
    decreases claims.len(),
{
    let shorter = claims.drop_last();
    let changed = claims.update(i, claim);
    ready_values(shorter).to_multiset_ensures();
    if i == claims.len() - 1 {
        assert(changed.drop_last() =~= shorter);
    } else {
        lemma_ready_values_update(shorter, i, claim);
        assert(changed.drop_last() =~= shorter.update(i, claim));
        ready_values(shorter.update(i, claim)).to_multiset_ensures();
        match (claims.last(), claim) {
            (Claim::Ready(last), Claim::Ready(val)) => {
                assert(ready_values(shorter).to_multiset().insert(val).insert(last)
                    =~= ready_values(shorter).to_multiset().insert(last).insert(val));
            },
            _ => {},
        }
    }
}

/// A drain, and so the consumer's departure, hands each published value
/// out or leaves it in the ring for the teardown: what comes out followed
/// by what is published behind it is what was published, in order.
pub proof fn lemma_popping_dry_keeps_every_value<T>(ring: ClaimModel<T>)
    requires
        ring.head + ring.claims.len() == ring.tail,
    ensures
        ring.popped_dry().1 + ready_values(ring.popped_dry().0.claims) == ready_values(ring.claims),
{
    lemma_drain_is_popping_dry(ring, ring.claims.len());
    lemma_drain_keeps_every_value(ring.claims, ring.claims.len());
}

proof fn lemma_drain_keeps_every_value<T>(claims: Seq<Claim<T>>, limit: nat)
    ensures
        drained(claims, limit).0 <= claims.len(),
        drained(claims, limit).1 + ready_values(claims.skip(drained(claims, limit).0 as int))
            == ready_values(claims),
    decreases claims.len(),
{
    let (n, values) = drained(claims, limit);
    if n == 0 {
        assert(claims.skip(0) =~= claims);
        assert(values + ready_values(claims) =~= ready_values(claims));
    } else {
        let rest = claims.skip(1);
        let first = seq![claims[0]];
        assert(first + rest =~= claims);
        lemma_ready_values_add(first, rest);
        reveal_with_fuel(ready_values, 2);
        match claims[0] {
            Claim::Ready(val) => {
                lemma_drain_keeps_every_value(rest, (limit - 1) as nat);
                assert(rest.skip(n - 1) =~= claims.skip(n as int));
                let tail = drained(rest, (limit - 1) as nat).1;
                assert(ready_values(first) =~= seq![val]);
                assert((seq![val] + tail) + ready_values(rest.skip(n - 1)) =~= seq![val] + (tail
                    + ready_values(rest.skip(n - 1))));
            },
            _ => {
                lemma_drain_keeps_every_value(rest, limit);
                assert(rest.skip(n - 1) =~= claims.skip(n as int));
                assert(ready_values(first) + ready_values(rest) =~= ready_values(rest));
            },
        }
    }
}

/// A new ring has no claim, one producer, and nobody that waits.
pub proof fn lemma_new_ring_is_empty<T>(cap: nat, i: int)
    ensures
        ClaimModel::<T>::fresh(cap).cap == cap,
        ClaimModel::<T>::fresh(cap).claims.len() == 0,
        ClaimModel::<T>::fresh(cap).head == 0,
        ClaimModel::<T>::fresh(cap).tail == 0,
        ClaimModel::<T>::fresh(cap).producers == 1,
        !ClaimModel::<T>::fresh(cap).closed,
        !ClaimModel::<T>::fresh(cap).consumer_closed,
        !bit64(ClaimModel::<T>::fresh(cap).producer_park.wake, i),
        !bit64(ClaimModel::<T>::fresh(cap).producer_tasks.wake, i),
        !bit64(ClaimModel::<T>::fresh(cap).producer_slots.leased, i),
        !ClaimModel::<T>::fresh(cap).consumer.parked,
        !ClaimModel::<T>::fresh(cap).consumer.pending,
        ClaimModel::<T>::fresh(cap).producer_park == WakeSet::idle(),
        ClaimModel::<T>::fresh(cap).producer_tasks == WakeSet::idle(),
        ClaimModel::<T>::fresh(cap).consumer == SoleWaiter::idle(),
{
    lemma_zero_bits64(i);
}

/// A ring is full exactly if a whole lap lies between its cursors,
/// published or not.
pub proof fn lemma_full_is_a_whole_lap<T>(ring: ClaimModel<T>)
    requires
        ring.consistent(),
    ensures
        ring.is_full() <==> ring.tail - ring.head == ring.cap,
{
}

/// Nothing changes but the positions and the cursors.
pub open spec fn same_ends<T>(a: ClaimModel<T>, b: ClaimModel<T>) -> bool {
    &&& a.cap == b.cap
    &&& a.producers == b.producers
    &&& a.closed == b.closed
    &&& a.consumer_closed == b.consumer_closed
    &&& a.producer_slots == b.producer_slots
}

/// A claim takes the position behind all others, with nothing in it; a
/// push puts its value there, and tells a waiting consumer. Whatever was
/// claimed before stays as it is.
pub proof fn lemma_claims_are_taken_in_order<T>(ring: ClaimModel<T>, val: T)
    requires
        ring.tail < usize::MAX,
    ensures
        ring.claimed().claims.len() == ring.claims.len() + 1,
        ring.claimed().claims[ring.claims.len() as int] == Claim::<T>::Pending(None),
        ring.pushed(val).claims.len() == ring.claims.len() + 1,
        ring.pushed(val).claims[ring.claims.len() as int] == Claim::Ready(val),
        forall|i: int|
            0 <= i < ring.claims.len() ==> {
                &&& #[trigger] ring.claims[i] == ring.claimed().claims[i]
                &&& ring.claims[i] == ring.pushed(val).claims[i]
            },
        ring.claimed().head == ring.head,
        ring.claimed().tail == ring.tail + 1,
        ring.pushed(val).head == ring.head,
        ring.pushed(val).tail == ring.tail + 1,
        same_ends(ring, ring.claimed()),
        same_ends(ring, ring.pushed(val)),
        ring.claimed().producer_park == ring.producer_park,
        ring.claimed().producer_tasks == ring.producer_tasks,
        ring.claimed().consumer == ring.consumer,
        ring.pushed(val).producer_park == ring.producer_park,
        ring.pushed(val).producer_tasks == ring.producer_tasks,
        !ring.pushed(val).consumer.parked,
        !ring.pushed(val).consumer.pending,
        ring.pushed(val).consumer.unpark_owed <==> ring.consumer.unpark_owed
            || ring.consumer.parked,
        ring.pushed(val).consumer.waker_owed <==> ring.consumer.waker_owed
            || ring.consumer.pending,
{
}

/// What the owner of a position writes or settles changes that position
/// and no other; settling it tells a waiting consumer, writing does not.
pub proof fn lemma_settling_is_private<T>(ring: ClaimModel<T>, pos: int, claim: Claim<T>)
    requires
        ring.head + ring.claims.len() == ring.tail,
        ring.head <= pos < ring.tail,
    ensures
        ring.with_claim(pos, claim).claims[pos - ring.head] == claim,
        ring.settled(pos, claim).claims[pos - ring.head] == claim,
        ring.with_claim(pos, claim).claims.len() == ring.claims.len(),
        ring.settled(pos, claim).claims.len() == ring.claims.len(),
        forall|i: int|
            0 <= i < ring.claims.len() && i != pos - ring.head ==> {
                &&& #[trigger] ring.claims[i] == ring.with_claim(pos, claim).claims[i]
                &&& ring.claims[i] == ring.settled(pos, claim).claims[i]
            },
        ring.with_claim(pos, claim).head == ring.head,
        ring.with_claim(pos, claim).tail == ring.tail,
        ring.settled(pos, claim).head == ring.head,
        ring.settled(pos, claim).tail == ring.tail,
        same_ends(ring, ring.with_claim(pos, claim)),
        same_ends(ring, ring.settled(pos, claim)),
        ring.with_claim(pos, claim).producer_park == ring.producer_park,
        ring.with_claim(pos, claim).producer_tasks == ring.producer_tasks,
        ring.with_claim(pos, claim).consumer == ring.consumer,
        ring.settled(pos, claim).producer_park == ring.producer_park,
        ring.settled(pos, claim).producer_tasks == ring.producer_tasks,
        !ring.settled(pos, claim).consumer.parked,
        !ring.settled(pos, claim).consumer.pending,
        ring.settled(pos, claim).consumer.unpark_owed <==> ring.consumer.unpark_owed
            || ring.consumer.parked,
        ring.settled(pos, claim).consumer.waker_owed <==> ring.consumer.waker_owed
            || ring.consumer.pending,
        ring.claim_of(pos) == ring.claims[pos - ring.head],
        ring.pending(pos) <==> ring.claims[pos - ring.head] is Pending,
{
}

/// Releasing positions takes the oldest and leaves the rest in order; the
/// consumer and the flags stay as they were.
pub proof fn lemma_releasing_takes_the_oldest<T>(ring: ClaimModel<T>, n: nat)
    requires
        ring.consistent(),
        n <= ring.claims.len(),
    ensures
        ring.released_n(n).claims.len() == ring.claims.len() - n,
        forall|i: int|
            0 <= i < ring.claims.len() - n ==> #[trigger] ring.released_n(n).claims[i]
                == ring.claims[i + n],
        ring.released_n(n).head == ring.head + n,
        ring.released_n(n).tail == ring.tail,
        same_ends(ring, ring.released_n(n)),
        ring.released_n(n).consumer == ring.consumer,
        ring.claims.len() > 0 ==> {
            &&& ring.released().claims == ring.released_n(1).claims
            &&& ring.released().head == ring.head + 1
            &&& ring.released().tail == ring.tail
            &&& same_ends(ring, ring.released())
            &&& ring.released().consumer == ring.consumer
        },
{
    assert(ring.released().claims =~= ring.released_n(1).claims);
}

/// A drain that releases `n` positions wakes as many of the producers
/// that sleep and of the tasks that wait: of each, the smaller of `n` and
/// those there are go off the record and are owed their wake, so one at
/// least if there is one and all if `n` is enough; those without a slot
/// are owed theirs unless `n` is zero.
pub proof fn lemma_drain_wakes_a_producer_for_each_position<T>(ring: ClaimModel<T>, n: nat, j: int)
    requires
        ring.consistent(),
    ensures
        population(ring.released_n(n).producer_park.wake, 64) == if n <= population(
            ring.producer_park.wake,
            64,
        ) {
            population(ring.producer_park.wake, 64) - n
        } else {
            0
        },
        bit64(ring.producer_park.wake, j) ==> bit64(ring.released_n(n).producer_park.wake, j)
            || bit64(ring.released_n(n).producer_park.unparks, j),
        bit64(ring.released_n(n).producer_park.unparks, j) ==> bit64(
            ring.producer_park.unparks,
            j,
        ) || bit64(ring.producer_park.wake, j),
        bit64(ring.producer_park.unparks, j) ==> bit64(
            ring.released_n(n).producer_park.unparks,
            j,
        ),
        population(ring.released_n(n).producer_tasks.wake, 64) == if n <= population(
            ring.producer_tasks.wake,
            64,
        ) {
            population(ring.producer_tasks.wake, 64) - n
        } else {
            0
        },
        bit64(ring.producer_tasks.wake, j) ==> bit64(ring.released_n(n).producer_tasks.wake, j)
            || bit64(ring.released_n(n).producer_tasks.unparks, j),
        bit64(ring.released_n(n).producer_tasks.unparks, j) ==> bit64(
            ring.producer_tasks.unparks,
            j,
        ) || bit64(ring.producer_tasks.wake, j),
        n > 0 && ring.producer_park.overflow ==> ring.released_n(n).producer_park.overflow_owed,
        n > 0 && ring.producer_tasks.overflow ==> ring.released_n(n).producer_tasks.overflow_owed,
{
    lemma_wakes_take_as_many_sleepers(ring.producer_park, n);
    lemma_wakes_take_as_many_sleepers(ring.producer_tasks, n);
}

/// If any producer sleeps, a drain that releases anything takes one of
/// the sleepers off the record and leaves its unpark owed; and so for the
/// producer tasks that wait.
pub proof fn lemma_drain_misses_no_producer<T>(ring: ClaimModel<T>, n: nat)
    requires
        ring.consistent(),
        n > 0,
    ensures
        ring.producer_park.wake != 0 ==> exists|i: int|
            {
                &&& #[trigger] bit64(ring.producer_park.wake, i)
                &&& !bit64(ring.released_n(n).producer_park.wake, i)
                &&& bit64(ring.released_n(n).producer_park.unparks, i)
            },
        ring.producer_tasks.wake != 0 ==> exists|i: int|
            {
                &&& #[trigger] bit64(ring.producer_tasks.wake, i)
                &&& !bit64(ring.released_n(n).producer_tasks.wake, i)
                &&& bit64(ring.released_n(n).producer_tasks.unparks, i)
            },
{
    lemma_wakes_take_as_many_sleepers(ring.producer_park, n);
    lemma_wakes_take_as_many_sleepers(ring.producer_tasks, n);
    if ring.producer_park.wake != 0 {
        let i = lemma_first_of_many_is_woken(ring.producer_park, n);
        assert(bit64(ring.producer_park.wake, i));
    }
    if ring.producer_tasks.wake != 0 {
        let i = lemma_first_of_many_is_woken(ring.producer_tasks, n);
        assert(bit64(ring.producer_tasks.wake, i));
    }
}

proof fn lemma_first_of_many_is_woken(set: WakeSet, n: nat) -> (i: int)
    requires
        set.wf(),
        set.wake != 0,
        n > 0,
    ensures
        bit64(set.wake, i),
        !bit64(set.woken_n(n).wake, i),
        bit64(set.woken_n(n).unparks, i),
{
    let i = lemma_wake_takes_one_sleeper(set);
    lemma_waking_keeps_order(set);
    lemma_wakes_take_as_many_sleepers(set, n);
    lemma_wakes_take_as_many_sleepers(set.woken(), (n - 1) as nat);
    assert(!bit64(set.woken().wake, i));
    assert(bit64(set.woken_n(n).wake, i) ==> bit64(set.woken().wake, i));
    i
}

/// A release wakes the first producer that sleeps, going round, and every
/// producer task that waits.
pub proof fn lemma_release_wakes_the_first_producer<T>(ring: ClaimModel<T>, j: int)
    requires
        ring.consistent(),
    ensures
        ring.released().producer_park == ring.released_n(1).producer_park,
        ring.released().producer_tasks.wake == 0,
        bit64(ring.released().producer_tasks.unparks, j) == (bit64(ring.producer_tasks.unparks, j)
            || bit64(ring.producer_tasks.wake, j)),
        ring.producer_tasks.overflow ==> ring.released().producer_tasks.overflow_owed,
{
    lemma_many_wakes_are_single_ones(ring.producer_park, 0);
    lemma_flush_is_exact(ring.producer_tasks, j);
}

/// A pop wakes for every position that it passes, tombstones included:
/// as many of the sleeping producers as positions left the ring, and
/// every waiting task if any did. Nothing else changes but the front.
pub proof fn lemma_pop_wakes_for_each_position<T>(ring: ClaimModel<T>)
    requires
        ring.consistent(),
    ensures
        ({
            let n = (ring.claims.len() - ring.popped().claims.len()) as nat;
            &&& ring.popped().claims.len() <= ring.claims.len()
            &&& ring.popped().producer_park == ring.producer_park.woken_n(n)
            &&& ring.popped().producer_tasks == if n > 0 {
                ring.producer_tasks.flushed()
            } else {
                ring.producer_tasks
            }
            &&& ring.popped().head == ring.head + n
            &&& ring.popped().tail == ring.tail
            &&& same_ends(ring, ring.popped())
            &&& ring.popped().consumer == ring.consumer
        }),
        ({
            let n = (ring.claims.len() - ring.cleared().claims.len()) as nat;
            &&& ring.cleared().claims.len() <= ring.claims.len()
            &&& ring.cleared().producer_park == ring.producer_park.woken_n(n)
            &&& ring.cleared().producer_tasks == if n > 0 {
                ring.producer_tasks.flushed()
            } else {
                ring.producer_tasks
            }
            &&& ring.cleared().head == ring.head + n
            &&& ring.cleared().tail == ring.tail
            &&& same_ends(ring, ring.cleared())
            &&& ring.cleared().consumer == ring.consumer
        }),
    decreases ring.claims.len(),
{
    if ring.claims.len() > 0 && ring.claims[0] is Tombstoned {
        let next = ring.released();
        lemma_release_keeps_waiters_in_order(ring);
        lemma_pop_wakes_for_each_position(next);
        assert(ring.front() == next.front());
        assert(ring.popped() == next.popped());
        let n = (next.claims.len() - next.popped().claims.len()) as nat;
        let m = (next.claims.len() - next.cleared().claims.len()) as nat;
        lemma_many_wakes_are_single_ones(ring.producer_park, n);
        lemma_many_wakes_are_single_ones(ring.producer_park, m);
        assert(next.producer_tasks.flushed() == next.producer_tasks) by {
            lemma_second_flush_is_idle(ring.producer_tasks);
        }
    } else {
        assert(ring.cleared() == ring);
        lemma_many_wakes_are_single_ones(ring.producer_park, 0);
    }
}

proof fn lemma_second_flush_is_idle(set: WakeSet)
    ensures
        set.flushed().flushed() == set.flushed(),
{
    let h: u64 = set.handles & !set.wake;
    let u: u64 = set.unparks | (set.handles & set.wake);
    assert(h & !0u64 == h && u | (h & 0u64) == u) by (bit_vector);
}

/// What a drain takes: from the front, with none in its way that is
/// pending, the published values up to the limit. It stops only at a
/// position that is pending, at the end, or with the limit reached, and
/// then with a value as the last that it took.
pub proof fn lemma_drain_takes_what_it_may<T>(claims: Seq<Claim<T>>, limit: nat)
    ensures
        ({
            let (n, values) = drained(claims, limit);
            &&& n <= claims.len()
            &&& values.len() <= limit
            &&& forall|i: int| 0 <= i < n ==> !((#[trigger] claims[i]) is Pending)
            &&& values == ready_values(claims.take(n as int))
            &&& values.len() == limit || n == claims.len() || claims[n as int] is Pending
            &&& values.len() == limit && n > 0 ==> claims[n - 1] is Ready
        }),
    decreases claims.len(),
{
    let (n, values) = drained(claims, limit);
    reveal_with_fuel(ready_values, 2);
    if claims.len() == 0 || limit == 0 || claims[0] is Pending {
        assert(claims.take(0) =~= Seq::<Claim<T>>::empty());
    } else {
        let rest = claims.skip(1);
        let left: nat = if claims[0] is Ready {
            (limit - 1) as nat
        } else {
            limit
        };
        lemma_drain_takes_what_it_may(rest, left);
        let (m, tail) = drained(rest, left);
        let first = seq![claims[0]];
        assert(claims.take(n as int) =~= first + rest.take(m as int));
        lemma_ready_values_add(first, rest.take(m as int));
        assert forall|i: int| 0 <= i < n implies !((#[trigger] claims[i]) is Pending) by {
            if i > 0 {
                assert(rest[i - 1] == claims[i]);
            }
        }
        if n < claims.len() {
            assert(rest[m as int] == claims[n as int]);
        }
        if m > 0 {
            assert(rest[m - 1] == claims[n - 1]);
        }
        assert(first.drop_last() =~= Seq::<Claim<T>>::empty());
        match claims[0] {
            Claim::Ready(val) => {
                assert(ready_values(first) =~= seq![val]);
                assert(values =~= ready_values(first) + tail);
            },
            _ => {
                assert(ready_values(first) + tail =~= tail);
            },
        }
    }
}

/// The published values of a run of claims: one for each published claim,
/// in order, and nothing for any other.
pub proof fn lemma_ready_values_are_the_published<T>(claims: Seq<Claim<T>>, claim: Claim<T>)
    ensures
        ready_values(Seq::<Claim<T>>::empty()).len() == 0,
        ready_values(claims.push(claim)) == match claim {
            Claim::Ready(val) => ready_values(claims).push(val),
            _ => ready_values(claims),
        },
{
    assert(claims.push(claim).drop_last() =~= claims);
}

/// A producer that leaves others behind neither closes the ring nor wakes
/// the consumer; the last one does both. Either way it is counted out,
/// its park slot is free again, and no position and no other producer is
/// touched.
pub proof fn lemma_only_the_last_producer_closes<T>(ring: ClaimModel<T>, slot: ParkSlot, j: int)
    requires
        ring.producers > 0,
        slot.wf(),
    ensures
        ring.producers > 1 ==> ring.producer_left(slot).closed == ring.closed
            && ring.producer_left(slot).consumer == ring.consumer,
        ring.producers == 1 ==> {
            &&& ring.producer_left(slot).closed
            &&& !ring.producer_left(slot).consumer.parked
            &&& !ring.producer_left(slot).consumer.pending
            &&& ring.producer_left(slot).consumer.unpark_owed == (ring.consumer.unpark_owed
                || ring.consumer.parked)
            &&& ring.producer_left(slot).consumer.waker_owed == (ring.consumer.waker_owed
                || ring.consumer.pending)
        },
        ring.producer_left(slot).producers == ring.producers - 1,
        bit64(ring.producer_left(slot).producer_slots.leased, j) == (bit64(
            ring.producer_slots.leased,
            j,
        ) && !(slot matches ParkSlot::Leased(i) && i == j)),
        ring.producer_left(slot).claims == ring.claims,
        ring.producer_left(slot).head == ring.head,
        ring.producer_left(slot).tail == ring.tail,
        ring.producer_left(slot).cap == ring.cap,
        ring.producer_left(slot).consumer_closed == ring.consumer_closed,
        ring.producer_left(slot).producer_park == ring.producer_park,
        ring.producer_left(slot).producer_tasks == ring.producer_tasks,
{
    match slot {
        ParkSlot::Leased(i) => lemma_returned_slot_is_free(ring.producer_slots, i, j),
        ParkSlot::Slotless => {},
    }
}

/// A producer that is made is counted in and gets a park slot of its own;
/// nothing else changes.
pub proof fn lemma_joining_is_private<T>(ring: ClaimModel<T>)
    requires
        ring.producers < usize::MAX,
    ensures
        ring.producer_joined().producers == ring.producers + 1,
        ring.producer_joined().producer_slots == ring.producer_slots.after_lease(),
        ring.producer_joined().claims == ring.claims,
        ring.producer_joined().head == ring.head,
        ring.producer_joined().tail == ring.tail,
        ring.producer_joined().cap == ring.cap,
        ring.producer_joined().closed == ring.closed,
        ring.producer_joined().consumer_closed == ring.consumer_closed,
        ring.producer_joined().producer_park == ring.producer_park,
        ring.producer_joined().producer_tasks == ring.producer_tasks,
        ring.producer_joined().consumer == ring.consumer,
{
}

/// Closing the ring, and the consumer's departure, set one flag each and
/// wake those who wait for it; neither touches a position.
pub proof fn lemma_closing_touches_no_position<T>(ring: ClaimModel<T>, j: int)
    requires
        ring.consistent(),
    ensures
        ring.closing().closed,
        !ring.closing().consumer.parked,
        !ring.closing().consumer.pending,
        ring.closing().consumer.unpark_owed <==> ring.consumer.unpark_owed || ring.consumer.parked,
        ring.closing().consumer.waker_owed <==> ring.consumer.waker_owed || ring.consumer.pending,
        ring.closing().consumer_closed == ring.consumer_closed,
        ring.closing().producers == ring.producers,
        ring.closing().producer_slots == ring.producer_slots,
        ring.closing().producer_park == ring.producer_park,
        ring.closing().producer_tasks == ring.producer_tasks,
        ring.closing().claims == ring.claims,
        ring.closing().head == ring.head,
        ring.closing().tail == ring.tail,
        ring.closing().cap == ring.cap,
        ring.consumer_leaving().consumer_closed,
        ring.consumer_leaving().closed == ring.closed,
        ring.consumer_leaving().producers == ring.producers,
        ring.consumer_leaving().producer_slots == ring.producer_slots,
        ring.consumer_leaving().consumer == ring.consumer,
        ring.consumer_leaving().claims == ring.claims,
        ring.consumer_leaving().head == ring.head,
        ring.consumer_leaving().tail == ring.tail,
        ring.consumer_leaving().cap == ring.cap,
        ring.consumer_leaving().producer_park.wake == 0,
        ring.consumer_leaving().producer_tasks.wake == 0,
        bit64(ring.consumer_leaving().producer_park.unparks, j) == (bit64(
            ring.producer_park.unparks,
            j,
        ) || bit64(ring.producer_park.wake, j)),
        bit64(ring.consumer_leaving().producer_tasks.unparks, j) == (bit64(
            ring.producer_tasks.unparks,
            j,
        ) || bit64(ring.producer_tasks.wake, j)),
{
    lemma_flush_is_exact(ring.producer_park, j);
    lemma_flush_is_exact(ring.producer_tasks, j);
}

/// Popping until nothing comes leaves nothing to pop, and changes nothing
/// but the front and the waiting producers.
pub proof fn lemma_popping_dry_leaves_nothing<T>(ring: ClaimModel<T>)
    requires
        ring.consistent(),
    ensures
        ring.popped_dry().0.front() is None,
        ring.popped_dry().0.tail == ring.tail,
        same_ends(ring, ring.popped_dry().0),
        ring.popped_dry().0.consumer == ring.consumer,
    decreases ring.claims.len(),
{
    lemma_pop_wakes_for_each_position(ring);
    lemma_clearing_shortens(ring);
    match ring.front() {
        Some(_) => {
            lemma_wakes_take_as_many_sleepers(
                ring.producer_park,
                (ring.claims.len() - ring.popped().claims.len()) as nat,
            );
            lemma_waking_keeps_order(ring.producer_tasks);
            lemma_popping_dry_leaves_nothing(ring.popped());
        },
        None => {
            assert(ring.popped().cleared() == ring.popped());
        },
    }
}

/// One more claim is within the machine limits wherever twice the next
/// lap of positions is.
pub proof fn lemma_headroom_is_the_machine_limit<T>(ring: ClaimModel<T>)
    ensures
        ring.headroom() <==> ring.tail + ring.cap <= (usize::MAX - 4) / 2,
{
}

/// Which waiters a step wakes, whoever they are and whether they have a
/// park slot or not: a release one sleeping producer and all producer
/// tasks, a release of `n` up to as many of each, and the consumer's
/// departure everybody.
pub proof fn lemma_whom_a_step_wakes<T>(ring: ClaimModel<T>, n: nat)
    ensures
        ring.released().producer_park == ring.producer_park.woken(),
        ring.released().producer_tasks == ring.producer_tasks.flushed(),
        ring.released_n(n).producer_park == ring.producer_park.woken_n(n),
        ring.released_n(n).producer_tasks == ring.producer_tasks.woken_n(n),
        ring.consumer_leaving().producer_park == ring.producer_park.flushed(),
        ring.consumer_leaving().producer_tasks == ring.producer_tasks.flushed(),
{
}

} // verus!
