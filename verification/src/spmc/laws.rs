//! What holds of the ring as a whole.

use vstd::prelude::*;

use crate::common::bits::{bit64, lemma_zero_bits64};
use crate::common::laws::{
    lemma_flush_is_exact, lemma_population_is_a_count, lemma_returned_slot_is_free,
    lemma_wakes_take_as_many_sleepers,
};
use crate::common::park::{
    lemma_flush_reaches_everybody, lemma_wake_chooses_the_nearest_sleeper, lemma_wake_is_not_lost,
    lemma_waking_keeps_order, population, WakeSet,
};
use crate::common::park_registry::ParkSlot;
use crate::common::sole_waiter::SoleWaiter;
use crate::spmc::ring::{values_from, Reading, ShareModel, BATCH_SIZE};

verus! {

/// A value that a consumer has taken.
pub struct Taken<T> {
    pub who: int,
    pub pos: int,
    pub val: T,
}

/// A ring with its consumers, and what has happened to it: all that was
/// pushed, what the consumers took, in the order in which they did, and
/// the positions that went down with a consumer that left.
pub struct Session<T> {
    pub ring: ShareModel<T>,
    pub readers: Map<int, Reading>,
    pub held: Set<int>,
    pub pushed: Seq<T>,
    pub log: Seq<Taken<T>>,
    pub dropped: Set<int>,
}

/// One step of a session.
pub enum Event<T> {
    /// The producer pushes a value.
    Push(T),
    /// A consumer takes its next position.
    Claim(int),
    /// The consumer that took a position releases it.
    Release(int),
    /// A consumer is made.
    Join(int),
    /// A consumer leaves with what it has claimed.
    Leave(int),
    /// Anything that leaves the values and the cursors alone, and the ring
    /// as given: waiters sleep and wake, a reservation is written or let
    /// go, the producer leaves.
    Otherwise(ShareModel<T>),
}

/// Whether a consumer has claimed `pos` and not taken it.
pub open spec fn in_batch(reading: Reading, pos: int) -> bool {
    reading.next <= pos < reading.end
}

/// Whether some consumer has claimed `pos` and not taken it.
pub open spec fn batched(readers: Map<int, Reading>, pos: int) -> bool {
    exists|who: int| #[trigger] readers.dom().contains(who) && in_batch(readers[who], pos)
}

/// Whether some consumer has taken `pos`.
pub open spec fn logged<T>(log: Seq<Taken<T>>, pos: int) -> bool {
    exists|i: int| 0 <= i < log.len() && (#[trigger] log[i]).pos == pos
}

/// Whether the step can happen.
pub open spec fn possible<T>(s: Session<T>, event: Event<T>) -> bool {
    match event {
        Event::Push(_) => !s.ring.blocked() && s.ring.headroom(),
        Event::Claim(who) => s.readers.dom().contains(who) && s.ring.claimable(
            s.readers[who],
        ) is Some,
        Event::Release(pos) => s.held.contains(pos),
        Event::Join(who) => {
            &&& !s.readers.dom().contains(who)
            &&& forall|i: int| 0 <= i < s.log.len() ==> (#[trigger] s.log[i]).who != who
            &&& s.ring.consumers < usize::MAX
        },
        Event::Leave(who) => s.readers.dom().contains(who) && s.ring.consumers > 0,
        Event::Otherwise(ring) => {
            &&& ring.consistent()
            &&& ring.cap == s.ring.cap
            &&& ring.head == s.ring.head
            &&& ring.tail == s.ring.tail
            &&& ring.live == s.ring.live
        },
    }
}

/// The session after the step.
pub open spec fn stepped<T>(s: Session<T>, event: Event<T>) -> Session<T> {
    match event {
        Event::Push(val) => Session {
            ring: s.ring.pushed(val),
            pushed: s.pushed.push(val),
            ..s
        },
        Event::Claim(who) => {
            let (ring, reading) = s.ring.claimed(s.readers[who]);
            let pos = s.ring.claimable(s.readers[who])->0;
            Session {
                ring,
                readers: s.readers.insert(who, reading),
                held: s.held.insert(pos),
                log: s.log.push(Taken { who, pos, val: s.ring.live[pos] }),
                ..s
            }
        },
        Event::Release(pos) => Session {
            ring: s.ring.released(pos).producer_woken(),
            held: s.held.remove(pos),
            ..s
        },
        Event::Join(who) => Session {
            ring: s.ring.consumer_joined(),
            readers: s.readers.insert(
                who,
                Reading { cached_tail: 0, next: 0, end: 0, slot: s.ring.consumer_slots.next() },
            ),
            ..s
        },
        Event::Leave(who) => {
            let reading = s.readers[who];
            Session {
                ring: s.ring.consumer_departed(reading),
                readers: s.readers.remove(who),
                dropped: Set::new(|pos: int| s.dropped.contains(pos) || in_batch(reading, pos)),
                ..s
            }
        },
        Event::Otherwise(ring) => Session { ring, ..s },
    }
}

/// The session after a run of steps.
pub open spec fn after<T>(s: Session<T>, run: Seq<Event<T>>) -> Session<T>
    decreases run.len(),
{
    if run.len() == 0 {
        s
    } else {
        stepped(after(s, run.drop_last()), run.last())
    }
}

/// Whether every step of the run can happen when its turn comes.
pub open spec fn runs<T>(s: Session<T>, run: Seq<Event<T>>) -> bool
    decreases run.len(),
{
    run.len() == 0 || (runs(s, run.drop_last()) && possible(after(s, run.drop_last()), run.last()))
}

/// A ring just split, with its one consumer.
pub open spec fn opened<T>(cap: nat) -> Session<T> {
    Session {
        ring: ShareModel {
            consumer_slots: ShareModel::<T>::fresh(cap).consumer_slots.after_lease(),
            ..ShareModel::fresh(cap)
        },
        readers: Map::empty().insert(
            0,
            Reading {
                cached_tail: 0,
                next: 0,
                end: 0,
                slot: ShareModel::<T>::fresh(cap).consumer_slots.next(),
            },
        ),
        held: Set::empty(),
        pushed: Seq::empty(),
        log: Seq::empty(),
        dropped: Set::empty(),
    }
}

/// Every position is in exactly one place, every value is where it was
/// pushed, and every consumer moves forward.
pub open spec fn accounted<T>(s: Session<T>) -> bool {
    &&& s.ring.consistent()
    &&& s.pushed.len() == s.ring.tail
    &&& forall|pos: int| #[trigger] s.ring.live.dom().contains(pos) ==> s.ring.live[pos]
        == s.pushed[pos]
    &&& forall|who: int| #[trigger] s.readers.dom().contains(who) ==> s.ring.backs(s.readers[who])
    &&& forall|a: int, b: int, pos: int|
        a != b && s.readers.dom().contains(a) && s.readers.dom().contains(b) ==> !(
        #[trigger] in_batch(s.readers[a], pos) && #[trigger] in_batch(s.readers[b], pos))
    &&& forall|pos: int| #[trigger] s.held.contains(pos) ==> {
        &&& s.ring.live.dom().contains(pos)
        &&& 0 <= pos < s.ring.head
    }
    &&& forall|pos: int, who: int|
        s.held.contains(pos) && s.readers.dom().contains(who) ==> !#[trigger] in_batch(
            s.readers[who],
            pos,
        )
    &&& forall|i: int| 0 <= i < s.log.len() ==> {
        &&& 0 <= (#[trigger] s.log[i]).pos < s.ring.head
        &&& s.log[i].val == s.pushed[s.log[i].pos]
        &&& !s.dropped.contains(s.log[i].pos)
        &&& s.readers.dom().contains(s.log[i].who) ==> s.log[i].pos
            < s.readers[s.log[i].who].next
    }
    &&& forall|i: int, who: int|
        0 <= i < s.log.len() && s.readers.dom().contains(who) ==> !#[trigger] in_batch(
            s.readers[who],
            s.log[i].pos,
        )
    &&& forall|i: int, j: int|
        0 <= i < j < s.log.len() ==> (#[trigger] s.log[i]).pos != (#[trigger] s.log[j]).pos && (
        s.log[i].who == s.log[j].who ==> s.log[i].pos < s.log[j].pos)
    &&& forall|pos: int| #[trigger] s.dropped.contains(pos) ==> 0 <= pos < s.ring.head
    &&& forall|pos: int, who: int|
        s.dropped.contains(pos) && s.readers.dom().contains(who) ==> !#[trigger] in_batch(
            s.readers[who],
            pos,
        )
    &&& forall|pos: int|
        0 <= pos < s.ring.head ==> #[trigger] logged(s.log, pos) || batched(s.readers, pos)
            || s.dropped.contains(pos)
    &&& forall|pos: int| #[trigger]
        s.ring.live.dom().contains(pos) ==> pos >= s.ring.head || s.held.contains(pos) || batched(
            s.readers,
            pos,
        )
}

/// Nothing is lost, repeated or reordered: over any run, every value that
/// was pushed is still unclaimed, or in the batch of exactly one consumer,
/// or was taken by exactly one, or went down with a consumer that left;
/// what was taken is what was pushed at that position; and each consumer
/// takes positions in the order in which they were pushed.
pub proof fn lemma_every_value_is_accounted_for<T>(s: Session<T>, run: Seq<Event<T>>)
    requires
        accounted(s),
        runs(s, run),
    ensures
        accounted(after(s, run)),
    decreases run.len(),
{
    if run.len() > 0 {
        lemma_every_value_is_accounted_for(s, run.drop_last());
        let before = after(s, run.drop_last());
        match run.last() {
            Event::Push(val) => lemma_push_is_accounted_for(before, val),
            Event::Claim(who) => lemma_claim_is_accounted_for(before, who),
            Event::Release(pos) => lemma_release_is_accounted_for(before, pos),
            Event::Join(who) => lemma_join_is_accounted_for(before, who),
            Event::Leave(who) => lemma_leave_is_accounted_for(before, who),
            Event::Otherwise(ring) => lemma_otherwise_is_accounted_for(before, ring),
        }
    }
}

/// A ring just split is accounted for.
pub proof fn lemma_opened_is_accounted_for<T>(cap: nat)
    requires
        0 < cap <= usize::MAX,
    ensures
        accounted(opened::<T>(cap)),
{
    lemma_idle_is_in_order();
}

proof fn lemma_idle_is_in_order()
    ensures
        WakeSet::idle().wf(),
{
    assert forall|i: int| !(#[trigger] bit64(0, i)) by {
        lemma_zero_bits64(i);
    }
}

proof fn lemma_push_is_accounted_for<T>(s: Session<T>, val: T)
    requires
        accounted(s),
        possible(s, Event::Push(val)),
    ensures
        accounted(stepped(s, Event::Push(val))),
{
    let t = stepped(s, Event::Push(val));
    lemma_waking_keeps_order(s.ring.consumer_park);
    lemma_waking_keeps_order(s.ring.consumer_tasks);
    assert forall|pos: int| #[trigger] t.ring.live.dom().contains(pos) implies t.ring.live[pos]
        == t.pushed[pos] && 0 <= pos && t.ring.tail - t.ring.cap <= pos < t.ring.tail by {
        if pos != s.ring.tail {
            assert(s.ring.live.dom().contains(pos));
        }
    }
    assert(t.ring.consistent());
    assert forall|who: int| #[trigger] t.readers.dom().contains(who) implies t.ring.backs(
        t.readers[who],
    ) by {
        assert(s.ring.backs(s.readers[who]));
    }
    assert forall|pos: int| 0 <= pos < t.ring.head implies #[trigger] logged(t.log, pos) || batched(
        t.readers,
        pos,
    ) || t.dropped.contains(pos) by {
        assert(logged(s.log, pos) || batched(s.readers, pos) || s.dropped.contains(pos));
    }
}

proof fn lemma_otherwise_is_accounted_for<T>(s: Session<T>, ring: ShareModel<T>)
    requires
        accounted(s),
        possible(s, Event::Otherwise(ring)),
    ensures
        accounted(stepped(s, Event::Otherwise(ring))),
{
    assert forall|who: int| #[trigger] s.readers.dom().contains(who) implies ring.backs(
        s.readers[who],
    ) by {
        assert(s.ring.backs(s.readers[who]));
    }
}

proof fn lemma_claim_is_accounted_for<T>(s: Session<T>, who: int)
    requires
        accounted(s),
        possible(s, Event::Claim(who)),
    ensures
        accounted(stepped(s, Event::Claim(who))),
{
    let t = stepped(s, Event::<T>::Claim(who));
    let old_reading = s.readers[who];
    let reading = t.readers[who];
    let pos = s.ring.claimable(old_reading)->0;
    assert(s.ring.backs(old_reading));
    assert(s.ring.live.dom().contains(pos)) by {
        if old_reading.next < old_reading.end {
            assert(in_batch(old_reading, pos));
        }
    }
    assert(t.ring.consistent());
    assert(reading.next == pos + 1);
    // What was taken at `pos` was either in the consumer's own batch or
    // unclaimed, and the new batch lies behind it.
    assert(in_batch(old_reading, pos) || s.ring.head <= pos);
    assert forall|q: int| #[trigger] in_batch(reading, q) implies in_batch(old_reading, q)
        || s.ring.head <= q < t.ring.head by {}
    assert forall|a: int| #[trigger] t.readers.dom().contains(a) implies t.ring.backs(
        t.readers[a],
    ) by {
        if a != who {
            assert(s.ring.backs(s.readers[a]));
        }
    }
    assert forall|a: int, b: int, q: int|
        a != b && t.readers.dom().contains(a) && t.readers.dom().contains(b) implies !(
    #[trigger] in_batch(t.readers[a], q) && #[trigger] in_batch(t.readers[b], q)) by {
        if a != who {
            assert(s.ring.backs(s.readers[a]));
        }
        if b != who {
            assert(s.ring.backs(s.readers[b]));
        }
        assert(!(in_batch(s.readers[a], q) && in_batch(s.readers[b], q)));
    }
    assert forall|q: int, a: int|
        t.held.contains(q) && t.readers.dom().contains(a) implies !#[trigger] in_batch(
        t.readers[a],
        q,
    ) by {
        if a != who {
            assert(s.ring.backs(s.readers[a]));
            assert(!(in_batch(s.readers[a], q) && in_batch(s.readers[who], q)));
        }
        if q != pos {
            assert(s.held.contains(q));
            assert(!in_batch(s.readers[a], q));
        }
    }
    assert(!s.dropped.contains(pos)) by {
        if in_batch(old_reading, pos) && s.dropped.contains(pos) {
            assert(!in_batch(s.readers[who], pos));
        }
    }
    assert forall|i: int| 0 <= i < t.log.len() implies {
        &&& 0 <= (#[trigger] t.log[i]).pos < t.ring.head
        &&& t.log[i].val == t.pushed[t.log[i].pos]
        &&& !t.dropped.contains(t.log[i].pos)
        &&& t.readers.dom().contains(t.log[i].who) ==> t.log[i].pos
            < t.readers[t.log[i].who].next
    } by {
        if i < s.log.len() {
            assert(t.log[i] == s.log[i]);
        }
    }
    assert forall|i: int, a: int|
        0 <= i < t.log.len() && t.readers.dom().contains(a) implies !#[trigger] in_batch(
        t.readers[a],
        t.log[i].pos,
    ) by {
        if a != who {
            assert(s.ring.backs(s.readers[a]));
            assert(!(in_batch(s.readers[a], t.log[i].pos) && in_batch(
                s.readers[who],
                t.log[i].pos,
            )));
        }
        if i < s.log.len() {
            assert(t.log[i] == s.log[i]);
            assert(!in_batch(s.readers[a], s.log[i].pos));
        }
    }
    assert forall|i: int, j: int| 0 <= i < j < t.log.len() implies (#[trigger] t.log[i]).pos != (
    #[trigger] t.log[j]).pos && (t.log[i].who == t.log[j].who ==> t.log[i].pos < t.log[j].pos) by {
        assert(t.log[i] == s.log[i]);
        if j < s.log.len() {
            assert(t.log[j] == s.log[j]);
        } else {
            assert(!in_batch(s.readers[who], s.log[i].pos));
        }
    }
    assert forall|q: int, a: int|
        t.dropped.contains(q) && t.readers.dom().contains(a) implies !#[trigger] in_batch(
        t.readers[a],
        q,
    ) by {
        assert(s.dropped.contains(q));
        assert(!in_batch(s.readers[a], q));
    }
    assert forall|q: int| 0 <= q < t.ring.head implies #[trigger] logged(t.log, q) || batched(
        t.readers,
        q,
    ) || t.dropped.contains(q) by {
        if q == pos {
            assert(t.log[s.log.len() as int].pos == q);
        } else if q >= s.ring.head {
            assert(in_batch(t.readers[who], q));
            assert(t.readers.dom().contains(who));
        } else {
            assert(logged(s.log, q) || batched(s.readers, q) || s.dropped.contains(q));
            if logged(s.log, q) {
                let i = choose|i: int| 0 <= i < s.log.len() && (#[trigger] s.log[i]).pos == q;
                assert(t.log[i].pos == q);
            } else if batched(s.readers, q) {
                let a = choose|a: int| #[trigger]
                    s.readers.dom().contains(a) && in_batch(s.readers[a], q);
                assert(t.readers.dom().contains(a));
                assert(in_batch(t.readers[a], q));
            }
        }
    }
    assert forall|q: int| #[trigger] t.ring.live.dom().contains(q) implies q >= t.ring.head
        || t.held.contains(q) || batched(t.readers, q) by {
        assert(s.ring.live.dom().contains(q));
        if s.ring.head <= q < t.ring.head && q != pos {
            assert(t.readers.dom().contains(who) && in_batch(t.readers[who], q));
        } else if batched(s.readers, q) && q != pos {
            let a = choose|a: int| #[trigger]
                s.readers.dom().contains(a) && in_batch(s.readers[a], q);
            assert(t.readers.dom().contains(a) && in_batch(t.readers[a], q));
        }
    }
}

proof fn lemma_release_is_accounted_for<T>(s: Session<T>, pos: int)
    requires
        accounted(s),
        possible(s, Event::Release(pos)),
    ensures
        accounted(stepped(s, Event::Release(pos))),
{
    let t = stepped(s, Event::<T>::Release(pos));
    assert forall|q: int| t.ring.head <= q < t.ring.tail implies #[trigger] t.ring.live.dom().contains(
        q,
    ) by {
        assert(s.ring.live.dom().contains(q));
    }
    assert(t.ring.consistent());
    assert forall|who: int| #[trigger] t.readers.dom().contains(who) implies t.ring.backs(
        t.readers[who],
    ) by {
        assert(s.ring.backs(s.readers[who]));
        assert(!in_batch(s.readers[who], pos));
    }
    assert forall|q: int| 0 <= q < t.ring.head implies #[trigger] logged(t.log, q) || batched(
        t.readers,
        q,
    ) || t.dropped.contains(q) by {
        assert(logged(s.log, q) || batched(s.readers, q) || s.dropped.contains(q));
    }
}

proof fn lemma_join_is_accounted_for<T>(s: Session<T>, who: int)
    requires
        accounted(s),
        possible(s, Event::Join(who)),
    ensures
        accounted(stepped(s, Event::Join(who))),
{
    let t = stepped(s, Event::<T>::Join(who));
    assert(t.ring.consistent());
    assert forall|a: int| #[trigger] t.readers.dom().contains(a) implies t.ring.backs(
        t.readers[a],
    ) by {
        if a != who {
            assert(s.ring.backs(s.readers[a]));
        }
    }
    assert forall|q: int| 0 <= q < t.ring.head implies #[trigger] logged(t.log, q) || batched(
        t.readers,
        q,
    ) || t.dropped.contains(q) by {
        assert(logged(s.log, q) || batched(s.readers, q) || s.dropped.contains(q));
        if batched(s.readers, q) {
            let a = choose|a: int| #[trigger]
                s.readers.dom().contains(a) && in_batch(s.readers[a], q);
            assert(t.readers.dom().contains(a));
            assert(in_batch(t.readers[a], q));
        }
    }
    assert forall|q: int| #[trigger] t.ring.live.dom().contains(q) implies q >= t.ring.head
        || t.held.contains(q) || batched(t.readers, q) by {
        assert(s.ring.live.dom().contains(q));
        if batched(s.readers, q) {
            let a = choose|a: int| #[trigger]
                s.readers.dom().contains(a) && in_batch(s.readers[a], q);
            assert(t.readers.dom().contains(a) && in_batch(t.readers[a], q));
        }
    }
}

proof fn lemma_leave_is_accounted_for<T>(s: Session<T>, who: int)
    requires
        accounted(s),
        possible(s, Event::Leave(who)),
    ensures
        accounted(stepped(s, Event::Leave(who))),
{
    let t = stepped(s, Event::<T>::Leave(who));
    let gone = s.readers[who];
    assert(s.ring.backs(gone));
    assert forall|q: int| t.ring.head <= q < t.ring.tail implies #[trigger] t.ring.live.dom().contains(
        q,
    ) by {
        assert(s.ring.live.dom().contains(q));
    }
    assert(t.ring.consistent());
    assert forall|a: int| #[trigger] t.readers.dom().contains(a) implies t.ring.backs(
        t.readers[a],
    ) by {
        assert(s.ring.backs(s.readers[a]));
        assert forall|q: int| t.readers[a].next <= q < t.readers[a].end implies #[trigger] t.ring.live.dom().contains(
            q,
        ) by {
            assert(s.ring.live.dom().contains(q));
            assert(in_batch(s.readers[a], q));
            assert(!in_batch(s.readers[who], q));
        }
    }
    assert forall|q: int| #[trigger] t.held.contains(q) implies t.ring.live.dom().contains(q) by {
        assert(s.held.contains(q));
        assert(!in_batch(s.readers[who], q));
    }
    assert forall|i: int| 0 <= i < t.log.len() implies !t.dropped.contains(
        (#[trigger] t.log[i]).pos,
    ) by {
        assert(!in_batch(s.readers[who], s.log[i].pos));
    }
    assert forall|q: int, a: int|
        t.dropped.contains(q) && t.readers.dom().contains(a) implies !#[trigger] in_batch(
        t.readers[a],
        q,
    ) by {
        if in_batch(gone, q) {
            assert(!(in_batch(s.readers[a], q) && in_batch(s.readers[who], q)));
        }
    }
    assert forall|q: int| 0 <= q < t.ring.head implies #[trigger] logged(t.log, q) || batched(
        t.readers,
        q,
    ) || t.dropped.contains(q) by {
        assert(logged(s.log, q) || batched(s.readers, q) || s.dropped.contains(q));
        if batched(s.readers, q) {
            let a = choose|a: int| #[trigger]
                s.readers.dom().contains(a) && in_batch(s.readers[a], q);
            if a != who {
                assert(t.readers.dom().contains(a));
                assert(in_batch(t.readers[a], q));
            }
        }
    }
    assert forall|q: int| #[trigger] t.ring.live.dom().contains(q) implies q >= t.ring.head
        || t.held.contains(q) || batched(t.readers, q) by {
        assert(s.ring.live.dom().contains(q));
        if batched(s.readers, q) {
            let a = choose|a: int| #[trigger]
                s.readers.dom().contains(a) && in_batch(s.readers[a], q);
            assert(t.readers.dom().contains(a) && in_batch(t.readers[a], q));
        }
    }
}

/// A drain delivers, in order, what is left of the consumer's batch and
/// then all that nobody has claimed, up to the limit; with nothing in its
/// way it leaves nothing to take.
pub proof fn lemma_drain_delivers_in_order<T>(ring: ShareModel<T>, reading: Reading, limit: nat)
    requires
        ring.consistent(),
        ring.backs(reading),
    ensures
        ({
            let all = values_from(ring.live, reading.next as int, (reading.end - reading.next) as nat)
                + values_from(ring.live, ring.head as int, (ring.tail - ring.head) as nat);
            &&& ring.emptied(reading, limit).2 == if limit < all.len() {
                all.take(limit as int)
            } else {
                all
            }
            &&& limit > all.len() ==> ring.emptied(reading, limit).0.claimable(
                ring.emptied(reading, limit).1,
            ) is None
        }),
    decreases limit,
{
    let own = values_from(ring.live, reading.next as int, (reading.end - reading.next) as nat);
    let rest = values_from(ring.live, ring.head as int, (ring.tail - ring.head) as nat);
    let all = own + rest;
    if limit == 0 {
        if all.len() > 0 {
            assert(all.take(0) =~= Seq::<T>::empty());
        } else {
            assert(all =~= Seq::<T>::empty());
        }
    } else {
        let (claimed, next) = ring.claimed(reading);
        match ring.claimable(reading) {
            None => {
                assert(all =~= Seq::<T>::empty());
            },
            Some(pos) => {
                let released = claimed.released(pos);
                assert forall|q: int| released.head <= q < released.tail implies
                    #[trigger] released.live.dom().contains(q) by {
                    assert(ring.live.dom().contains(q));
                }
                assert forall|q: int| next.next <= q < next.end implies
                    #[trigger] released.live.dom().contains(q) by {
                    assert(ring.live.dom().contains(q));
                }
                lemma_drain_delivers_in_order(released, next, (limit - 1) as nat);
                let own2 = values_from(
                    released.live,
                    next.next as int,
                    (next.end - next.next) as nat,
                );
                let rest2 = values_from(
                    released.live,
                    released.head as int,
                    (released.tail - released.head) as nat,
                );
                assert(all =~= seq![ring.live[pos]] + (own2 + rest2));
                if limit < all.len() {
                    assert(all.take(limit as int) =~= seq![ring.live[pos]] + (own2 + rest2).take(
                        limit - 1,
                    ));
                }
            },
        }
    }
}

/// What was pushed comes back as it was: a push onto a ring with nothing
/// to take is undone by the next pop of any consumer.
pub proof fn lemma_pop_undoes_push<T>(ring: ShareModel<T>, reading: Reading, val: T)
    requires
        ring.consistent(),
        ring.backs(reading),
        ring.claimable(reading) is None,
        !ring.blocked(),
        ring.headroom(),
    ensures
        ring.pushed(val).claimable(reading) == Some(ring.tail as int),
        ring.pushed(val).live[ring.tail as int] == val,
        ring.pushed(val).claimed(reading).0.released(ring.tail as int).live == ring.live,
{
    assert(ring.pushed(val).claimed(reading).0.released(ring.tail as int).live =~= ring.live);
}

/// The producer is held up by the value of the lap before and by nothing
/// else: releasing it makes room, whatever else is still held, and no
/// release takes room away.
pub proof fn lemma_release_makes_room<T>(ring: ShareModel<T>, pos: int)
    requires
        ring.consistent(),
    ensures
        !ring.released(ring.tail - ring.cap).blocked(),
        !ring.blocked() ==> !ring.released(pos).blocked(),
        ring.blocked() && pos != ring.tail - ring.cap ==> ring.released(pos).blocked(),
{
}

/// A push does not miss a consumer that sleeps or a consumer task that
/// waits, and neither a pop nor a consumer that leaves with positions of
/// its batch misses the producer.
pub proof fn lemma_no_wake_is_lost<T>(
    ring: ShareModel<T>,
    reading: Reading,
    val: T,
    pos: int,
    i: int,
)
    requires
        ring.consistent(),
    ensures
        ring.consumer_park.wake != 0 ==> exists|j: int|
            {
                &&& #[trigger] bit64(ring.consumer_park.wake, j)
                &&& !bit64(ring.pushed(val).consumer_park.wake, j)
                &&& ring.pushed(val).consumer_park.owes(j)
            },
        bit64(ring.consumer_tasks.wake, i) ==> ring.pushed(val).consumer_tasks.owes(i),
        ring.producer.parked ==> ring.released(pos).producer_woken().producer.unpark_owed,
        ring.producer.pending ==> ring.released(pos).producer_woken().producer.waker_owed,
        reading.next < reading.end && ring.producer.parked ==> ring.consumer_departed(
            reading,
        ).producer.unpark_owed,
        reading.next < reading.end && ring.producer.pending ==> ring.consumer_departed(
            reading,
        ).producer.waker_owed,
{
    if ring.consumer_park.wake != 0 {
        lemma_wake_is_not_lost(ring.consumer_park);
    }
    lemma_flush_reaches_everybody(ring.consumer_tasks, i);
}

/// When the producer leaves, every consumer that sleeps is owed an unpark
/// and every consumer task that waits a waker call.
pub proof fn lemma_closing_reaches_everybody<T>(ring: ShareModel<T>, i: int)
    requires
        ring.consistent(),
    ensures
        ring.producer_left().closed,
        bit64(ring.consumer_park.wake, i) ==> ring.producer_left().consumer_park.owes(i),
        bit64(ring.consumer_tasks.wake, i) ==> ring.producer_left().consumer_tasks.owes(i),
{
    lemma_flush_reaches_everybody(ring.consumer_park, i);
    lemma_flush_reaches_everybody(ring.consumer_tasks, i);
}

/// The producer never sleeps on a ring with room: if it is on record as
/// asleep, or its task as waiting, only while it is held up, then so it is
/// after any push, claim, release or coming and going of a consumer.
pub proof fn lemma_producer_does_not_sleep_on_room<T>(s: Session<T>, event: Event<T>)
    requires
        possible(s, event),
        !(event is Otherwise),
        s.ring.producer.parked ==> s.ring.blocked(),
        s.ring.producer.pending ==> s.ring.blocked(),
    ensures
        stepped(s, event).ring.producer.parked ==> stepped(s, event).ring.blocked(),
        stepped(s, event).ring.producer.pending ==> stepped(s, event).ring.blocked(),
{
}

/// The last consumer that leaves closes the ring to the producer and
/// wakes it; retiring one that leaves others behind does neither.
pub proof fn lemma_last_consumer_releases_the_producer<T>(ring: ShareModel<T>, slot: ParkSlot)
    requires
        ring.consumers > 0,
    ensures
        ring.consumers == 1 ==> ring.consumer_left(slot).consumer_closed,
        ring.consumers == 1 && ring.producer.parked ==> ring.consumer_left(
            slot,
        ).producer.unpark_owed,
        ring.consumers == 1 && ring.producer.pending ==> ring.consumer_left(
            slot,
        ).producer.waker_owed,
        ring.consumers > 1 ==> ring.consumer_left(slot).consumer_closed == ring.consumer_closed
            && ring.consumer_left(slot).producer == ring.producer,
{
}

/// A reservation that comes to nothing leaves no trace: whatever was
/// written at the tail and taken back, the ring is as it was.
pub proof fn lemma_rollback_leaves_no_trace<T>(ring: ShareModel<T>, val: T)
    requires
        ring.staged is None,
    ensures
        ring.with_staged(Some(val)).with_staged(None) == ring,
{
}

/// Committing what was written in place is the same as pushing it.
pub proof fn lemma_commit_is_push<T>(ring: ShareModel<T>, val: T)
    ensures
        ring.with_staged(Some(val)).pushed(val) == ring.pushed(val),
{
}

/// Consumers without a park slot are not forgotten: every push and the
/// end of the producer reach them.
pub proof fn lemma_slotless_consumers_are_reached<T>(ring: ShareModel<T>, val: T)
    ensures
        ring.consumer_park.overflow ==> ring.pushed(val).consumer_park.overflow_owed,
        ring.consumer_tasks.overflow ==> ring.pushed(val).consumer_tasks.overflow_owed,
        ring.consumer_park.overflow ==> ring.producer_left().consumer_park.overflow_owed,
        ring.consumer_tasks.overflow ==> ring.producer_left().consumer_tasks.overflow_owed,
{
}

/// A claim moves the head by one batch at most, so the cursors understate
/// what is pending by less than a batch for each consumer.
pub proof fn lemma_claims_are_bounded<T>(ring: ShareModel<T>, reading: Reading)
    requires
        ring.consistent(),
        ring.backs(reading),
        reading.end - reading.next < BATCH_SIZE,
    ensures
        ring.head <= ring.claimed(reading).0.head <= ring.head + BATCH_SIZE,
        ring.claimed(reading).1.end - ring.claimed(reading).1.next < BATCH_SIZE,
{
}

/// Every value leaves exactly once: when the consumers are gone and their
/// guards with them, each position was taken by exactly one consumer, or
/// handed back by one that left, or is among what the teardown hands
/// back, which is the rest in the order in which it was pushed.
pub proof fn lemma_every_value_leaves_once<T>(s: Session<T>, pos: int)
    requires
        accounted(s),
        s.readers.dom() == Set::<int>::empty(),
        s.held == Set::<int>::empty(),
        0 <= pos < s.pushed.len(),
    ensures
        logged(s.log, pos) ==> !s.dropped.contains(pos) && pos < s.ring.head,
        s.dropped.contains(pos) ==> !logged(s.log, pos) && pos < s.ring.head,
        pos >= s.ring.head <==> !logged(s.log, pos) && !s.dropped.contains(pos),
        values_from(s.ring.live, s.ring.head as int, (s.ring.tail - s.ring.head) as nat)
            == s.pushed.skip(s.ring.head as int),
        s.ring.live.dom() == Set::new(|q: int| s.ring.head <= q < s.ring.tail),
{
    if pos < s.ring.head {
        assert(logged(s.log, pos) || batched(s.readers, pos) || s.dropped.contains(pos));
    }
    assert forall|q: int| s.ring.live.dom().contains(q) implies s.ring.head <= q
        < s.ring.tail by {
        assert(!batched(s.readers, q));
    }
    assert forall|q: int| s.ring.head <= q < s.ring.tail implies s.ring.live.dom().contains(q)
        && s.ring.live[q] == s.pushed[q] by {
        assert(s.ring.live.dom().contains(q));
    }
    assert(s.ring.live.dom() =~= Set::new(|q: int| s.ring.head <= q < s.ring.tail));
    assert(values_from(s.ring.live, s.ring.head as int, (s.ring.tail - s.ring.head) as nat)
        =~= s.pushed.skip(s.ring.head as int));
}

/// A call on a ring with one consumer.
pub enum Call<T> {
    Push(T),
    Pop,
}

/// A ring with its one consumer, the values whose push succeeded and the
/// values that the pops returned, each in the order of the calls.
pub struct History<T> {
    pub ring: ShareModel<T>,
    pub reading: Reading,
    pub pushed: Seq<T>,
    pub popped: Seq<T>,
}

/// The history after the call. A push is refused if the value of the lap
/// before is still there.
pub open spec fn called<T>(h: History<T>, call: Call<T>) -> History<T> {
    match call {
        Call::Push(val) => if h.ring.blocked() {
            h
        } else {
            History { ring: h.ring.pushed(val), pushed: h.pushed.push(val), ..h }
        },
        Call::Pop => {
            let (claimed, reading) = h.ring.claimed(h.reading);
            match h.ring.claimable(h.reading) {
                Some(pos) => History {
                    ring: claimed.released(pos).producer_woken(),
                    reading,
                    popped: h.popped.push(h.ring.live[pos]),
                    ..h
                },
                None => History { ring: claimed, reading, ..h },
            }
        },
    }
}

/// The history of a ring and its one consumer after the calls, in order.
pub open spec fn history<T>(
    ring: ShareModel<T>,
    reading: Reading,
    calls: Seq<Call<T>>,
) -> History<T>
    decreases calls.len(),
{
    if calls.len() == 0 {
        History { ring, reading, pushed: Seq::empty(), popped: Seq::empty() }
    } else {
        called(history(ring, reading, calls.drop_last()), calls.last())
    }
}

/// Pops give back what was pushed, in order, and nothing only if nothing
/// is left: over any calls on a ring that was empty and has one consumer,
/// what was popped is a prefix of what was pushed, a pop returns nothing
/// exactly if all of it has been popped, and a push is refused exactly if
/// the capacity of it has not.
pub proof fn lemma_pops_give_back_the_pushes<T>(
    ring: ShareModel<T>,
    reading: Reading,
    calls: Seq<Call<T>>,
)
    requires
        ring.consistent(),
        ring.backs(reading),
        ring.live.dom() == Set::<int>::empty(),
        ring.tail + calls.len() + 2 * ring.cap + 2 <= usize::MAX,
    ensures
        ({
            let h = history(ring, reading, calls);
            &&& h.popped.is_prefix_of(h.pushed)
            &&& h.ring.claimable(h.reading) is None <==> h.popped == h.pushed
            &&& h.ring.blocked() <==> h.pushed.len() - h.popped.len() == ring.cap
            &&& h.ring.consistent()
            &&& h.ring.backs(h.reading)
            &&& h.ring.cap == ring.cap
        }),
{
    lemma_history(ring, reading, calls);
    let h = history(ring, reading, calls);
    if h.pushed.len() == h.popped.len() {
        assert(h.popped =~= h.pushed);
    } else {
        assert(h.ring.live.dom().contains(ring.tail + h.popped.len()));
    }
}

/// After the calls the ring holds what was pushed and not popped, by
/// position, and the consumer stands at the oldest of it.
proof fn lemma_history<T>(ring: ShareModel<T>, reading: Reading, calls: Seq<Call<T>>)
    requires
        ring.consistent(),
        ring.backs(reading),
        ring.live.dom() == Set::<int>::empty(),
        ring.tail + calls.len() + 2 * ring.cap + 2 <= usize::MAX,
    ensures
        ({
            let h = history(ring, reading, calls);
            let first: int = ring.tail + h.popped.len();
            &&& h.popped.is_prefix_of(h.pushed)
            &&& h.ring.consistent()
            &&& h.ring.backs(h.reading)
            &&& h.ring.cap == ring.cap
            &&& h.ring.tail == ring.tail + h.pushed.len()
            &&& h.pushed.len() <= calls.len()
            &&& forall|pos: int| #[trigger]
                h.ring.live.dom().contains(pos) <==> first <= pos < h.ring.tail
            &&& forall|pos: int|
                first <= pos < h.ring.tail ==> #[trigger] h.ring.live[pos] == h.pushed[pos
                    - ring.tail]
            &&& if h.reading.next < h.reading.end {
                h.reading.next == first && h.reading.end == h.ring.head
            } else {
                h.ring.head == first
            }
        }),
    decreases calls.len(),
{
    if calls.len() == 0 {
        assert(ring.head == ring.tail) by {
            if ring.head < ring.tail {
                assert(ring.live.dom().contains(ring.head as int));
            }
        }
        if reading.next < reading.end {
            assert(ring.live.dom().contains(reading.next as int));
        }
    } else {
        lemma_history(ring, reading, calls.drop_last());
        let before = history(ring, reading, calls.drop_last());
        let h = history(ring, reading, calls);
        match calls.last() {
            Call::Push(val) => {
                lemma_waking_keeps_order(before.ring.consumer_park);
                lemma_waking_keeps_order(before.ring.consumer_tasks);
            },
            Call::Pop => {
                match before.ring.claimable(before.reading) {
                    Some(pos) => {
                        assert(before.ring.live[pos] == before.pushed[before.popped.len() as int]);
                    },
                    None => {},
                }
            },
        }
        assert(h.ring.consistent());
    }
}

/// A new ring is empty and open, with one consumer and nobody that waits.
pub proof fn lemma_new_ring_is_empty<T>(cap: nat, i: int)
    ensures
        ShareModel::<T>::fresh(cap).cap == cap,
        ShareModel::<T>::fresh(cap).head == 0,
        ShareModel::<T>::fresh(cap).tail == 0,
        !ShareModel::<T>::fresh(cap).live.dom().contains(i),
        ShareModel::<T>::fresh(cap).staged is None,
        !ShareModel::<T>::fresh(cap).closed,
        !ShareModel::<T>::fresh(cap).consumer_closed,
        ShareModel::<T>::fresh(cap).consumers == 1,
        !bit64(ShareModel::<T>::fresh(cap).consumer_slots.leased, i),
        !bit64(ShareModel::<T>::fresh(cap).consumer_park.wake, i),
        !bit64(ShareModel::<T>::fresh(cap).consumer_tasks.wake, i),
        !ShareModel::<T>::fresh(cap).producer.parked,
        !ShareModel::<T>::fresh(cap).producer.pending,
        ShareModel::<T>::fresh(cap).consumer_park == WakeSet::idle(),
        ShareModel::<T>::fresh(cap).consumer_tasks == WakeSet::idle(),
        ShareModel::<T>::fresh(cap).producer == SoleWaiter::idle(),
{
    lemma_zero_bits64(i);
}

/// Two more laps are within the machine limits exactly if their positions
/// are.
pub proof fn lemma_headroom_is_the_machine_limit<T>(ring: ShareModel<T>)
    ensures
        ring.headroom() <==> ring.tail + 2 * ring.cap <= usize::MAX - 2,
{
}

/// The producer is held up exactly while the value pushed one lap before
/// has not been released.
pub proof fn lemma_held_up_by_the_lap_before<T>(ring: ShareModel<T>)
    ensures
        ring.blocked() <==> ring.live.dom().contains(ring.tail - ring.cap),
{
}

/// A push adds its value at the tail and no other, and wakes one sleeping
/// consumer, the first going round, and every waiting consumer task; the
/// consumers' claims, the producer and the flags stay as they were.
pub proof fn lemma_push_appends<T>(ring: ShareModel<T>, val: T, pos: int)
    requires
        ring.consistent(),
        ring.tail < usize::MAX,
    ensures
        ring.pushed(val).live.dom().contains(pos) <==> ring.live.dom().contains(pos) || pos
            == ring.tail,
        ring.pushed(val).live[ring.tail as int] == val,
        ring.live.dom().contains(pos) && pos != ring.tail ==> ring.pushed(val).live[pos]
            == ring.live[pos],
        ring.pushed(val).cap == ring.cap,
        ring.pushed(val).head == ring.head,
        ring.pushed(val).tail == ring.tail + 1,
        ring.pushed(val).staged is None,
        ring.pushed(val).closed == ring.closed,
        ring.pushed(val).consumer_closed == ring.consumer_closed,
        ring.pushed(val).consumers == ring.consumers,
        ring.pushed(val).consumer_slots == ring.consumer_slots,
        ring.pushed(val).producer == ring.producer,
        population(ring.pushed(val).consumer_park.wake, 64) == if ring.consumer_park.wake == 0 {
            0
        } else {
            population(ring.consumer_park.wake, 64) - 1
        },
        bit64(ring.pushed(val).consumer_park.unparks, pos) == (bit64(
            ring.consumer_park.unparks,
            pos,
        ) || (bit64(ring.consumer_park.wake, pos) && !bit64(
            ring.pushed(val).consumer_park.wake,
            pos,
        ))),
        bit64(ring.pushed(val).consumer_park.wake, pos) ==> bit64(ring.consumer_park.wake, pos),
        ring.pushed(val).consumer_tasks.wake == 0,
        bit64(ring.pushed(val).consumer_tasks.unparks, pos) == (bit64(
            ring.consumer_tasks.unparks,
            pos,
        ) || bit64(ring.consumer_tasks.wake, pos)),
{
    lemma_flush_is_exact(ring.consumer_tasks, pos);
    lemma_population_is_a_count(ring.consumer_park.wake, 0);
    lemma_wakes_take_as_many_sleepers(ring.consumer_park, 1);
    if ring.consumer_park.wake == 0 {
        lemma_wake_chooses_the_nearest_sleeper(ring.consumer_park, 0);
    } else {
        assert(ring.consumer_park.woken_n(1) == ring.consumer_park.woken().woken_n(0));
    }
}

/// A release takes one value out, and no other; a wake of the producer
/// moves no value. Together they leave a producer that waits owed.
pub proof fn lemma_release_is_private<T>(ring: ShareModel<T>, pos: int, q: int)
    ensures
        ring.released(pos).live.dom().contains(q) <==> ring.live.dom().contains(q) && q != pos,
        ring.live.dom().contains(q) && q != pos ==> ring.released(pos).live[q] == ring.live[q],
        ring.released(pos) == (ShareModel { live: ring.released(pos).live, ..ring }),
        ring.producer_woken().live == ring.live,
        ring.producer_woken() == (ShareModel { producer: ring.producer_woken().producer, ..ring }),
        !ring.producer_woken().producer.parked,
        !ring.producer_woken().producer.pending,
        ring.producer_woken().producer.unpark_owed <==> ring.producer.unpark_owed
            || ring.producer.parked,
        ring.producer_woken().producer.waker_owed <==> ring.producer.waker_owed
            || ring.producer.pending,
{
}

/// What is written ahead of its publication is seen by nobody.
pub proof fn lemma_staging_is_invisible<T>(ring: ShareModel<T>, staged: Option<T>)
    ensures
        ring.with_staged(staged).staged == staged,
        ring.with_staged(staged) == (ShareModel { staged: ring.with_staged(staged).staged, ..ring }),
{
}

/// A consumer takes the next position of its batch, or else the first
/// that nobody has claimed, and nothing only if it has no batch and
/// everything is claimed.
pub proof fn lemma_consumer_takes_the_next_position<T>(ring: ShareModel<T>, reading: Reading)
    requires
        ring.consistent(),
        ring.backs(reading),
    ensures
        reading.next < reading.end ==> ring.claimable(reading) == Some(reading.next as int),
        reading.next == reading.end && ring.head < ring.tail ==> ring.claimable(reading) == Some(
            ring.head as int,
        ),
        reading.next == reading.end && ring.head == ring.tail ==> ring.claimable(reading) is None,
{
}

/// A claim out of a batch moves the consumer by one and the ring not at
/// all. A new batch takes the positions from the head on, four at most:
/// all up to the tail that the consumer knows, which it reads again only
/// if it knows of nothing there. No value and nobody who waits is touched.
pub proof fn lemma_claim_takes_a_batch_of_four<T>(ring: ShareModel<T>, reading: Reading)
    requires
        ring.consistent(),
        ring.backs(reading),
    ensures
        ({
            let (after, next) = ring.claimed(reading);
            let known: int = if reading.cached_tail > ring.head {
                reading.cached_tail as int
            } else {
                ring.tail as int
            };
            &&& after.live == ring.live
            &&& after == (ShareModel { head: after.head, ..ring })
            &&& next.slot == reading.slot
            &&& reading.next < reading.end ==> {
                &&& after.head == ring.head
                &&& next.next == reading.next + 1
                &&& next.end == reading.end
                &&& next.cached_tail == reading.cached_tail
            }
            &&& reading.next == reading.end && ring.head < ring.tail ==> {
                &&& ring.head < after.head <= known
                &&& after.head <= ring.head + 4
                &&& after.head == known || after.head == ring.head + 4
                &&& next.next == ring.head + 1
                &&& next.end == after.head
                &&& next.cached_tail == known
            }
            &&& reading.next == reading.end && ring.head == ring.tail ==> {
                &&& after.head == ring.head
                &&& next.next == reading.next
                &&& next.end == reading.end
                &&& next.cached_tail == known
            }
        }),
{
}

/// What a drain of `limit` leaves is what another consumer would find
/// after as many pops: the rest of the batch and of the unclaimed values,
/// in order. It moves no value that it does not deliver, and neither
/// wakes nor closes anything.
pub proof fn lemma_drain_leaves_the_rest<T>(ring: ShareModel<T>, reading: Reading, limit: nat)
    requires
        ring.consistent(),
        ring.backs(reading),
    ensures
        ({
            let (last, end, values) = ring.emptied(reading, limit);
            let all = values_from(ring.live, reading.next as int, (reading.end - reading.next) as nat)
                + values_from(ring.live, ring.head as int, (ring.tail - ring.head) as nat);
            let rest = values_from(last.live, end.next as int, (end.end - end.next) as nat)
                + values_from(last.live, last.head as int, (last.tail - last.head) as nat);
            &&& values.len() <= limit
            &&& values.len() <= all.len()
            &&& values.len() == limit || values.len() == all.len()
            &&& values + rest == all
            &&& last.consistent()
            &&& last.backs(end)
            &&& last == (ShareModel { head: last.head, live: last.live, ..ring })
            &&& end.slot == reading.slot
            &&& forall|q: int| #[trigger] last.live.dom().contains(q) ==> ring.live.dom().contains(q)
                && last.live[q] == ring.live[q]
            &&& forall|q: int| #[trigger]
                ring.live.dom().contains(q) && !in_batch(reading, q) && q < ring.head
                    ==> last.live.dom().contains(q)
        }),
    decreases limit,
{
    let own = values_from(ring.live, reading.next as int, (reading.end - reading.next) as nat);
    let unclaimed = values_from(ring.live, ring.head as int, (ring.tail - ring.head) as nat);
    let all = own + unclaimed;
    let (last, end, values) = ring.emptied(reading, limit);
    if limit == 0 {
        assert(values + all =~= all);
    } else {
        let (claimed, next) = ring.claimed(reading);
        match ring.claimable(reading) {
            None => {
                assert(all =~= Seq::<T>::empty());
                let rest = values_from(last.live, end.next as int, (end.end - end.next) as nat)
                    + values_from(last.live, last.head as int, (last.tail - last.head) as nat);
                assert(values + rest =~= all);
            },
            Some(pos) => {
                let released = claimed.released(pos);
                assert forall|q: int| released.head <= q < released.tail implies
                    #[trigger] released.live.dom().contains(q) by {
                    assert(ring.live.dom().contains(q));
                }
                assert forall|q: int| next.next <= q < next.end implies
                    #[trigger] released.live.dom().contains(q) by {
                    assert(ring.live.dom().contains(q));
                }
                lemma_drain_leaves_the_rest(released, next, (limit - 1) as nat);
                let own2 = values_from(
                    released.live,
                    next.next as int,
                    (next.end - next.next) as nat,
                );
                let unclaimed2 = values_from(
                    released.live,
                    released.head as int,
                    (released.tail - released.head) as nat,
                );
                assert(all =~= seq![ring.live[pos]] + (own2 + unclaimed2));
                let tail = released.emptied(next, (limit - 1) as nat).2;
                let rest = values_from(last.live, end.next as int, (end.end - end.next) as nat)
                    + values_from(last.live, last.head as int, (last.tail - last.head) as nat);
                assert((seq![ring.live[pos]] + tail) + rest =~= seq![ring.live[pos]] + (tail
                    + rest));
                assert forall|q: int| #[trigger]
                    ring.live.dom().contains(q) && !in_batch(reading, q) && q
                        < ring.head implies last.live.dom().contains(q) by {
                    assert(released.live.dom().contains(q));
                    assert(!in_batch(next, q));
                }
            },
        }
    }
}

/// A run of values is as long as was asked for, and each is the value at
/// its position.
pub proof fn lemma_values_from_are_the_values<T>(live: Map<int, T>, from: int, n: nat, i: int)
    ensures
        values_from(live, from, n).len() == n,
        0 <= i < n ==> values_from(live, from, n)[i] == live[from + i],
{
}

/// A consumer that leaves releases what is left of its batch and nothing
/// else, is counted out, and frees its park slot. It closes the ring to
/// the producer only if it was the last, and wakes the producer only if
/// it was the last or released something.
pub proof fn lemma_departure_is_exact<T>(ring: ShareModel<T>, reading: Reading, q: int)
    requires
        ring.consumers > 0,
        reading.slot.wf(),
        reading.next <= reading.end,
    ensures
        ({
            let gone = ring.consumer_departed(reading);
            &&& gone.live.dom().contains(q) <==> ring.live.dom().contains(q) && !(reading.next <= q
                < reading.end)
            &&& gone.live.dom().contains(q) ==> gone.live[q] == ring.live[q]
            &&& gone.consumers == ring.consumers - 1
            &&& ring.consumers > 1 ==> gone.consumer_closed == ring.consumer_closed
            &&& ring.consumers == 1 ==> gone.consumer_closed
            &&& ring.consumers == 1 || reading.next < reading.end ==> {
                &&& !gone.producer.parked
                &&& !gone.producer.pending
                &&& gone.producer.unpark_owed == (ring.producer.unpark_owed || ring.producer.parked)
                &&& gone.producer.waker_owed == (ring.producer.waker_owed || ring.producer.pending)
            }
            &&& ring.consumers > 1 && reading.next == reading.end ==> gone.producer
                == ring.producer
            &&& bit64(gone.consumer_slots.leased, q) == (bit64(ring.consumer_slots.leased, q) && !(
            reading.slot matches ParkSlot::Leased(i) && i == q))
            &&& gone.cap == ring.cap
            &&& gone.head == ring.head
            &&& gone.tail == ring.tail
            &&& gone.staged == ring.staged
            &&& gone.closed == ring.closed
            &&& gone.consumer_park == ring.consumer_park
            &&& gone.consumer_tasks == ring.consumer_tasks
        }),
        ({
            let left = ring.batch_released(reading.next as int, reading.end as int);
            left == (ShareModel { live: left.live, ..ring })
        }),
{
    match reading.slot {
        ParkSlot::Leased(i) => lemma_returned_slot_is_free(ring.consumer_slots, i, q),
        ParkSlot::Slotless => {},
    }
}

/// A consumer that is made is counted in and gets a park slot of its own;
/// nothing else changes.
pub proof fn lemma_joining_is_private<T>(ring: ShareModel<T>)
    requires
        ring.consumers < usize::MAX,
    ensures
        ring.consumer_joined().consumers == ring.consumers + 1,
        ring.consumer_joined().consumer_slots == ring.consumer_slots.after_lease(),
        ring.consumer_joined() == (ShareModel {
            consumers: ring.consumer_joined().consumers,
            consumer_slots: ring.consumer_joined().consumer_slots,
            ..ring
        }),
{
}

/// The producer's departure closes the ring and wakes every consumer that
/// waits; it moves no value.
pub proof fn lemma_closing_moves_no_value<T>(ring: ShareModel<T>, j: int)
    requires
        ring.consistent(),
    ensures
        ring.producer_left().closed,
        ring.producer_left().consumer_park.wake == 0,
        ring.producer_left().consumer_tasks.wake == 0,
        bit64(ring.producer_left().consumer_park.unparks, j) == (bit64(
            ring.consumer_park.unparks,
            j,
        ) || bit64(ring.consumer_park.wake, j)),
        bit64(ring.producer_left().consumer_tasks.unparks, j) == (bit64(
            ring.consumer_tasks.unparks,
            j,
        ) || bit64(ring.consumer_tasks.wake, j)),
        ring.producer_left() == (ShareModel {
            closed: ring.producer_left().closed,
            consumer_park: ring.producer_left().consumer_park,
            consumer_tasks: ring.producer_left().consumer_tasks,
            ..ring
        }),
{
    lemma_flush_is_exact(ring.consumer_park, j);
    lemma_flush_is_exact(ring.consumer_tasks, j);
}

/// What a drain delivers it releases: only what is still claimed, here or
/// by another consumer, or not claimed at all stays in the ring.
pub proof fn lemma_drain_releases_what_it_delivers<T>(
    ring: ShareModel<T>,
    reading: Reading,
    limit: nat,
    q: int,
)
    requires
        ring.consistent(),
        ring.backs(reading),
    ensures
        ({
            let (last, end, values) = ring.emptied(reading, limit);
            last.live.dom().contains(q) ==> q >= last.head || (end.next <= q < end.end) || (q
                < ring.head && !(reading.next <= q < reading.end))
        }),
    decreases limit,
{
    if limit > 0 {
        let (claimed, next) = ring.claimed(reading);
        match ring.claimable(reading) {
            None => {},
            Some(pos) => {
                let released = claimed.released(pos);
                assert forall|p: int| released.head <= p < released.tail implies
                    #[trigger] released.live.dom().contains(p) by {
                    assert(ring.live.dom().contains(p));
                }
                assert forall|p: int| next.next <= p < next.end implies
                    #[trigger] released.live.dom().contains(p) by {
                    assert(ring.live.dom().contains(p));
                }
                lemma_drain_releases_what_it_delivers(released, next, (limit - 1) as nat, q);
                lemma_drain_leaves_the_rest(released, next, (limit - 1) as nat);
            },
        }
    }
}

/// Which waiters a step wakes, whoever they are and whether they have a
/// park slot or not: a push one sleeping consumer and all consumer tasks,
/// and the producer's departure everybody.
pub proof fn lemma_whom_a_step_wakes<T>(ring: ShareModel<T>, val: T)
    ensures
        ring.pushed(val).consumer_park == ring.consumer_park.woken(),
        ring.pushed(val).consumer_tasks == ring.consumer_tasks.flushed(),
        ring.producer_left().consumer_park == ring.consumer_park.flushed(),
        ring.producer_left().consumer_tasks == ring.consumer_tasks.flushed(),
{
}

} // verus!
