//! What holds over the whole life of a ring: where every position is, and
//! where every value goes.

use vstd::multiset::Multiset;
use vstd::prelude::*;

use crate::capacity::{lemma_next_lap, slot_of};
use crate::common::bits::{bit32, lemma_clear_bit32, lemma_set_bit32, lemma_zero_bits32};
use crate::common::park::lemma_waking_keeps_order;
use crate::common::park_registry::ParkSlot;
use crate::mpmc::laws::{
    contents, lemma_departing_producer_strands_nothing, lemma_slot_change,
    lemma_teardown_hands_back_the_contents, live_bag,
};
use crate::mpmc::ring_model::{
    lemma_backs_by_slots, lemma_claimable_iff_published, lemma_first_writable, lemma_full_batch,
    lemma_others_undisturbed, lemma_refill_is_backed, lemma_refilling_disturbs_nobody,
    lemma_releasing_disturbs_nobody, lemma_with_slot, Batch, RingModel, Scan,
};
use crate::mpmc::slot_table::{live_values, Phase, Slot};

verus! {

/// A ring with its producers and guards, and what has happened to it: all
/// that was published, and all that consumers have finished with.
#[verifier::ext_equal]
pub struct Session<T> {
    pub ring: RingModel<T>,
    /// The batches of the live producers.
    pub batches: Map<int, Batch>,
    /// The positions that are reserved to be written in place.
    pub reserved: Set<int>,
    /// The positions whose values are read in place.
    pub held: Set<int>,
    pub pushed: Multiset<T>,
    pub taken: Multiset<T>,
}

/// Every position is in one place: what a producer has reserved, or a
/// guard writes or reads, is nobody else's.
pub open spec fn placed<T>(s: Session<T>) -> bool {
    &&& s.ring.consistent()
    &&& forall|who: int| #[trigger]
        s.batches.dom().contains(who) ==> s.ring.backs(s.batches[who])
    &&& forall|a: int, b: int|
        a != b && #[trigger] s.batches.dom().contains(a) && #[trigger] s.batches.dom().contains(b)
            ==> s.batches[a].disjoint(s.batches[b])
    &&& forall|pos: int| #[trigger]
        s.reserved.contains(pos) ==> s.ring.honours(pos) && s.ring.writable(pos)
    &&& forall|pos: int, who: int|
        #[trigger] s.reserved.contains(pos) && #[trigger] s.batches.dom().contains(who)
            ==> !s.batches[who].reserves(pos)
    &&& forall|pos: int| #[trigger] s.held.contains(pos) ==> s.ring.lent(pos)
    &&& forall|i: int|
        0 <= i < s.ring.cap && (#[trigger] s.ring.slots[i]).phase is Taken ==> s.held.contains(
            s.ring.slots[i].pos as int,
        )
}

/// Every position is in one place, and all that was published is in the
/// ring or was finished with by a consumer, and not both.
pub open spec fn accounted<T>(s: Session<T>) -> bool {
    &&& placed(s)
    &&& contents(s.ring).add(s.taken) == s.pushed
}

/// The batch of a producer that has reserved nothing.
pub open spec fn no_batch(slot: ParkSlot) -> Batch {
    Batch { start: 0, unused: 0, size: 0, slot }
}

/// One step of a session.
pub enum Event<T> {
    /// A producer that reserves up to `limit` positions at a time tries to
    /// push a value.
    Push(int, nat, T),
    /// A producer tries to reserve a position to write in place.
    Reserve(int, nat),
    /// The owner of a reserved position writes there, or takes it back.
    Stage(int, Option<T>),
    /// The owner of a reserved position publishes what is there.
    Commit(int),
    /// A reserved position goes back to the batch of its producer.
    Return(int, int),
    /// A consumer tries to claim a value, at most so many pops before its
    /// tally is published.
    Claim(Scan, nat),
    /// A claimed value is finished with, and its slot released.
    Release(int),
    /// A producer is made.
    Join(int, ParkSlot),
    /// A producer gives up its batch, and is gone once it does not have to
    /// wait.
    Depart(int),
    /// Anything that leaves the slots and the claim cursor alone, and the
    /// ring as given: handles come and go, waiters sleep and wake, a tally
    /// is published.
    Otherwise(RingModel<T>),
}

/// Whether the step can happen.
pub open spec fn possible<T>(s: Session<T>, event: Event<T>) -> bool {
    match event {
        Event::Push(who, limit, _) | Event::Reserve(who, limit) => {
            &&& s.batches.dom().contains(who)
            &&& s.ring.headroom()
            &&& 1 <= limit <= 32
        },
        Event::Stage(pos, _) => s.reserved.contains(pos),
        Event::Commit(pos) => {
            &&& s.reserved.contains(pos)
            &&& s.ring.at(pos).phase matches Phase::Open(staged) && staged is Some
        },
        Event::Return(who, pos) => {
            &&& s.batches.dom().contains(who)
            &&& s.reserved.contains(pos)
            &&& s.batches[who].start <= pos < s.batches[who].start + 32
        },
        Event::Claim(_, _) => true,
        Event::Release(pos) => s.held.contains(pos),
        Event::Join(who, _) => !s.batches.dom().contains(who),
        Event::Depart(who) => s.batches.dom().contains(who),
        Event::Otherwise(ring) => {
            &&& ring.consistent()
            &&& ring.cap == s.ring.cap
            &&& ring.slots == s.ring.slots
            &&& ring.claim == s.ring.claim
        },
    }
}

/// The session after the step.
pub open spec fn stepped<T>(s: Session<T>, event: Event<T>) -> Session<T> {
    match event {
        Event::Push(who, limit, val) => {
            let (ring, batch) = s.ring.pushed(s.batches[who], limit, val);
            Session {
                ring,
                batches: s.batches.insert(who, batch),
                pushed: if s.ring.acquirable(s.batches[who], limit) is Some {
                    s.pushed.insert(val)
                } else {
                    s.pushed
                },
                ..s
            }
        },
        Event::Reserve(who, limit) => {
            let (ring, batch) = s.ring.acquired(s.batches[who], limit);
            Session {
                ring,
                batches: s.batches.insert(who, batch),
                reserved: match s.ring.acquirable(s.batches[who], limit) {
                    Some(pos) => s.reserved.insert(pos),
                    None => s.reserved,
                },
                ..s
            }
        },
        Event::Stage(pos, staged) => Session { ring: s.ring.staged(pos, staged), ..s },
        Event::Commit(pos) => Session {
            ring: s.ring.published(pos),
            reserved: s.reserved.remove(pos),
            pushed: s.pushed.insert(s.ring.at(pos).value()),
            ..s
        },
        Event::Return(who, pos) => Session {
            batches: s.batches.insert(who, s.batches[who].with(pos)),
            reserved: s.reserved.remove(pos),
            ..s
        },
        Event::Claim(scan, flush_at) => Session {
            ring: s.ring.claimed(scan, flush_at).0,
            held: match s.ring.claimable(scan.next) {
                Some(pos) => s.held.insert(pos),
                None => s.held,
            },
            ..s
        },
        Event::Release(pos) => Session {
            ring: s.ring.freed(pos),
            held: s.held.remove(pos),
            taken: s.taken.insert(s.ring.at(pos).value()),
            ..s
        },
        Event::Join(who, slot) => Session { batches: s.batches.insert(who, no_batch(slot)), ..s },
        Event::Depart(who) => {
            let (ring, batch, blocked) = s.ring.abandoned(s.batches[who], 0);
            Session {
                ring,
                batches: if blocked {
                    s.batches.insert(who, batch)
                } else {
                    s.batches.remove(who)
                },
                ..s
            }
        },
        Event::Otherwise(ring) => Session { ring, ..s },
    }
}

/// The session after a run of steps.
pub open spec fn after<T>(s: Session<T>, run: Seq<Event<T>>) -> Session<T>
    decreases run.len(),
{
    if run.len() == 0 {
        s
    } else {
        stepped(after(s, run.drop_last()), run.last())
    }
}

/// Whether every step of the run can happen when its turn comes.
pub open spec fn runs<T>(s: Session<T>, run: Seq<Event<T>>) -> bool
    decreases run.len(),
{
    run.len() == 0 || (runs(s, run.drop_last()) && possible(after(s, run.drop_last()), run.last()))
}

/// A ring without a value, a reservation or a guard, with one producer.
pub open spec fn opened<T>(ring: RingModel<T>, slot: ParkSlot) -> Session<T> {
    Session {
        ring,
        batches: Map::empty().insert(0, no_batch(slot)),
        reserved: Set::empty(),
        held: Set::empty(),
        pushed: Multiset::empty(),
        taken: Multiset::empty(),
    }
}

/// What changes at one slot moves nothing that belongs to another
/// position: the slot stays at `pos` or goes one lap on, empty; whoever
/// had `pos` has it no more, but for a guard that writes or reads there
/// now.
proof fn lemma_slot_step<T>(s: Session<T>, t: Session<T>, pos: int, slot: Slot<T>)
    requires
        placed(s),
        0 <= pos < s.ring.claim,
        s.ring.at(pos).pos == pos,
        slot.pos == pos || (slot.pos == pos + s.ring.cap && slot.phase is Open),
        t.ring.consistent(),
        t.ring.cap == s.ring.cap,
        t.ring.claim == s.ring.claim,
        t.ring.slots == s.ring.with_slot(pos, slot).slots,
        t.batches.dom() == s.batches.dom(),
        forall|who: int, q: int|
            s.batches.dom().contains(who) && #[trigger] t.batches[who].reserves(q)
                ==> s.batches[who].reserves(q) && q != pos,
        forall|q: int| #[trigger]
            t.reserved.contains(q) ==> if q == pos {
                slot.pos == pos && slot.phase is Open
            } else {
                s.reserved.contains(q)
            },
        forall|q: int| #[trigger]
            t.held.contains(q) <==> if q == pos {
                slot.phase is Taken
            } else {
                s.held.contains(q)
            },
    ensures
        placed(t),
{
    let moved = s.ring.with_slot(pos, slot);
    lemma_next_lap(pos, s.ring.cap);
    assert forall|q: int| q != pos implies {
        &&& #[trigger] s.ring.honours(q) ==> t.ring.honours(q)
        &&& s.ring.writable(q) ==> t.ring.writable(q)
        &&& s.ring.lent(q) ==> t.ring.lent(q)
    } by {
        lemma_others_undisturbed(s.ring, pos, slot, q);
        assert(t.ring.at(q) == moved.at(q));
    }
    assert(t.ring.at(pos) == slot);
    assert forall|who: int| #[trigger] t.batches.dom().contains(who) implies t.ring.backs(
        t.batches[who],
    ) by {
        assert(s.batches.dom().contains(who));
        assert forall|q: int| #[trigger] t.batches[who].reserves(q) implies t.ring.honours(q) by {
            assert(s.batches[who].reserves(q));
            assert(s.ring.honours(q));
        }
    }
    assert forall|a: int, b: int|
        a != b && #[trigger] t.batches.dom().contains(a) && #[trigger] t.batches.dom().contains(
            b,
        ) implies t.batches[a].disjoint(t.batches[b]) by {
        assert(s.batches[a].disjoint(s.batches[b]));
        assert forall|q: int|
            !(#[trigger] t.batches[a].reserves(q) && #[trigger] t.batches[b].reserves(q)) by {
            assert(!(s.batches[a].reserves(q) && s.batches[b].reserves(q)));
        }
    }
    assert forall|q: int| #[trigger] t.reserved.contains(q) implies t.ring.honours(q)
        && t.ring.writable(q) by {
        if q != pos {
            assert(s.reserved.contains(q));
            assert(s.ring.honours(q));
        }
    }
    assert forall|q: int| #[trigger] t.held.contains(q) implies t.ring.lent(q) by {
        if q != pos {
            assert(s.held.contains(q));
            assert(s.ring.lent(q));
            lemma_others_undisturbed(s.ring, pos, slot, q);
            assert(t.ring.at(q) == moved.at(q));
        }
    }
    assert forall|i: int|
        0 <= i < t.ring.cap && (#[trigger] t.ring.slots[i]).phase is Taken implies t.held.contains(
        t.ring.slots[i].pos as int,
    ) by {
        if i != slot_of(pos, s.ring.cap) {
            assert(t.ring.slots[i] == s.ring.slots[i]);
            assert(slot_of(s.ring.slots[i].pos as int, s.ring.cap) == i);
        } else {
            assert(t.ring.slots[i] == slot);
        }
    }
}

/// What is where rests on the slots and the claim cursor alone, so nothing
/// else moves it.
proof fn lemma_otherwise_placed<T>(s: Session<T>, ring: RingModel<T>)
    requires
        placed(s),
        possible(s, Event::Otherwise(ring)),
    ensures
        placed(stepped(s, Event::Otherwise(ring))),
        contents(ring) == contents(s.ring),
{
    assert forall|who: int| #[trigger] s.batches.dom().contains(who) implies ring.backs(
        s.batches[who],
    ) by {
        lemma_backs_by_slots(s.ring, ring, s.batches[who]);
    }
    assert forall|pos: int| #[trigger] s.reserved.contains(pos) implies ring.honours(pos)
        && ring.writable(pos) by {
        assert(s.ring.honours(pos));
    }
    assert forall|pos: int| #[trigger] s.held.contains(pos) implies ring.lent(pos) by {
        assert(s.ring.lent(pos));
    }
}

/// A position of a batch that can be written becomes a reservation.
pub proof fn lemma_taking_is_accounted_for<T>(s: Session<T>, who: int, pos: int)
    requires
        accounted(s),
        s.batches.dom().contains(who),
        s.batches[who].reserves(pos),
        s.ring.writable(pos),
    ensures
        accounted(
            Session {
                batches: s.batches.insert(who, s.batches[who].without(pos)),
                reserved: s.reserved.insert(pos),
                ..s
            },
        ),
{
    let batch = s.batches[who];
    let t = Session {
        batches: s.batches.insert(who, batch.without(pos)),
        reserved: s.reserved.insert(pos),
        ..s
    };
    assert(s.ring.backs(batch));
    assert(s.ring.honours(pos));
    lemma_next_lap(pos, s.ring.cap);
    assert(s.ring.with_slot(pos, s.ring.at(pos)).slots =~= s.ring.slots);
    lemma_clear_bit32(batch.unused, (pos - batch.start) as u32);
    assert forall|a: int, q: int|
        s.batches.dom().contains(a) && #[trigger] t.batches[a].reserves(
            q,
        ) implies s.batches[a].reserves(q) && q != pos by {
        if a == who {
            assert(bit32(t.batches[a].unused, q - batch.start));
        } else {
            assert(s.batches[a].disjoint(batch));
            assert(!(s.batches[a].reserves(q) && batch.reserves(q)));
        }
    }
    assert(t.batches.dom() =~= s.batches.dom());
    assert(!s.held.contains(pos)) by {
        if s.held.contains(pos) {
            assert(s.ring.lent(pos));
        }
    }
    lemma_slot_step(s, t, pos, s.ring.at(pos));
}

/// What the owner of a reservation writes there is not published.
proof fn lemma_staging_is_accounted_for<T>(s: Session<T>, pos: int, staged: Option<T>)
    requires
        accounted(s),
        s.reserved.contains(pos),
    ensures
        accounted(stepped(s, Event::Stage(pos, staged))),
        stepped(s, Event::Stage(pos, staged)).ring.at(pos).phase == Phase::Open(staged),
{
    let t = stepped(s, Event::Stage(pos, staged));
    let slot = Slot { pos: pos as nat, phase: Phase::Open(staged) };
    assert(s.ring.honours(pos) && s.ring.writable(pos));
    lemma_next_lap(pos, s.ring.cap);
    lemma_with_slot(s.ring, pos, slot);
    lemma_slot_change(s.ring, pos, slot);
    assert(contents(t.ring) =~= contents(s.ring)) by {
        assert(contents(t.ring).add(Multiset::empty()) =~= contents(t.ring));
        assert(contents(s.ring).add(Multiset::empty()) =~= contents(s.ring));
    }
    assert forall|a: int, q: int|
        s.batches.dom().contains(a) && #[trigger] t.batches[a].reserves(q) implies q != pos by {
        assert(!s.batches[a].reserves(pos));
    }
    assert(!s.held.contains(pos)) by {
        if s.held.contains(pos) {
            assert(s.ring.lent(pos));
        }
    }
    lemma_slot_step(s, t, pos, slot);
}

/// What is written at a reservation is published as it is.
proof fn lemma_commit_is_accounted_for<T>(s: Session<T>, pos: int)
    requires
        accounted(s),
        possible(s, Event::Commit(pos)),
    ensures
        accounted(stepped(s, Event::Commit(pos))),
{
    let t = stepped(s, Event::<T>::Commit(pos));
    let val = s.ring.at(pos).value();
    let slot = Slot { pos: pos as nat, phase: Phase::Published(val) };
    assert(s.ring.honours(pos) && s.ring.writable(pos));
    lemma_next_lap(pos, s.ring.cap);
    lemma_with_slot(s.ring, pos, slot);
    lemma_slot_change(s.ring, pos, slot);
    lemma_waking_keeps_order(s.ring.consumer_park);
    lemma_waking_keeps_order(s.ring.consumer_tasks);
    let placed_ring = s.ring.with_slot(pos, slot);
    assert(contents(t.ring) == contents(placed_ring));
    assert(contents(placed_ring) =~= contents(s.ring).insert(val)) by {
        assert(contents(placed_ring).add(Multiset::empty()) =~= contents(placed_ring));
        assert(contents(s.ring).add(Multiset::singleton(val)) =~= contents(s.ring).insert(val));
    }
    assert(contents(t.ring).add(t.taken) =~= t.pushed) by {
        assert(contents(s.ring).insert(val).add(s.taken) =~= contents(s.ring).add(s.taken).insert(
            val,
        ));
    }
    assert forall|a: int, q: int|
        s.batches.dom().contains(a) && #[trigger] t.batches[a].reserves(q) implies q != pos by {
        assert(!s.batches[a].reserves(pos));
    }
    assert(!s.held.contains(pos)) by {
        if s.held.contains(pos) {
            assert(s.ring.lent(pos));
        }
    }
    lemma_slot_step(s, t, pos, slot);
}

/// A position of a batch is written and published in one go.
pub proof fn lemma_writing_is_accounted_for<T>(s: Session<T>, who: int, pos: int, val: T)
    requires
        accounted(s),
        s.batches.dom().contains(who),
        s.batches[who].reserves(pos),
        s.ring.writable(pos),
    ensures
        accounted(
            Session {
                ring: s.ring.staged(pos, Some(val)).published(pos),
                batches: s.batches.insert(who, s.batches[who].without(pos)),
                pushed: s.pushed.insert(val),
                ..s
            },
        ),
{
    let reserved = Session {
        batches: s.batches.insert(who, s.batches[who].without(pos)),
        reserved: s.reserved.insert(pos),
        ..s
    };
    lemma_taking_is_accounted_for(s, who, pos);
    lemma_staging_is_accounted_for(reserved, pos, Some(val));
    let staged = stepped(reserved, Event::Stage(pos, Some(val)));
    lemma_commit_is_accounted_for(staged, pos);
    assert(!s.reserved.contains(pos));
    assert(s.reserved.insert(pos).remove(pos) =~= s.reserved);
    assert(stepped(staged, Event::<T>::Commit(pos)) == Session {
        ring: s.ring.staged(pos, Some(val)).published(pos),
        batches: s.batches.insert(who, s.batches[who].without(pos)),
        pushed: s.pushed.insert(val),
        ..s
    });
}

/// A refill reserves positions that nobody has.
proof fn lemma_refill_is_accounted_for<T>(s: Session<T>, who: int, limit: nat)
    requires
        accounted(s),
        s.batches.dom().contains(who),
        s.ring.headroom(),
        1 <= limit <= 32,
    ensures
        ({
            let (ring, batch) = s.ring.refilled(s.batches[who], limit);
            accounted(Session { ring, batches: s.batches.insert(who, batch), ..s })
        }),
{
    let old_batch = s.batches[who];
    let (ring, batch) = s.ring.refilled(old_batch, limit);
    let t = Session { ring, batches: s.batches.insert(who, batch), ..s };
    if old_batch.unused == 0 && s.ring.refill_size(limit) is Some {
        let n = s.ring.refill_size(limit)->0;
        lemma_refill_is_backed(s.ring, n, old_batch);
        lemma_refilling_disturbs_nobody(s.ring, n);
        assert forall|q: int| #[trigger] s.ring.honours(q) implies !batch.reserves(q) by {}
        assert forall|a: int| #[trigger] t.batches.dom().contains(a) implies t.ring.backs(
            t.batches[a],
        ) by {
            if a != who {
                assert(s.ring.backs(s.batches[a]));
            }
        }
        assert forall|a: int, b: int|
            a != b && #[trigger] t.batches.dom().contains(a) && #[trigger] t.batches.dom().contains(
                b,
            ) implies t.batches[a].disjoint(t.batches[b]) by {
            assert(s.batches[a].disjoint(s.batches[b]));
            assert(s.ring.backs(s.batches[a]) && s.ring.backs(s.batches[b]));
            assert forall|q: int|
                !(#[trigger] t.batches[a].reserves(q) && #[trigger] t.batches[b].reserves(q)) by {
                if a == who && s.batches[b].reserves(q) {
                    assert(s.ring.honours(q));
                } else if b == who && s.batches[a].reserves(q) {
                    assert(s.ring.honours(q));
                }
            }
        }
        assert forall|pos: int| #[trigger] t.reserved.contains(pos) implies t.ring.honours(pos)
            && t.ring.writable(pos) && !batch.reserves(pos) by {
            assert(s.reserved.contains(pos));
            assert(s.ring.honours(pos));
        }
        assert forall|pos: int| #[trigger] t.held.contains(pos) implies t.ring.lent(pos) by {
            assert(s.ring.lent(pos));
        }
        assert(contents(t.ring) == contents(s.ring));
    } else {
        assert(t.batches =~= s.batches);
        assert(t == s);
    }
}

proof fn lemma_push_is_accounted_for<T>(s: Session<T>, who: int, limit: nat, val: T)
    requires
        accounted(s),
        possible(s, Event::Push(who, limit, val)),
    ensures
        accounted(stepped(s, Event::Push(who, limit, val))),
{
    lemma_refill_is_accounted_for(s, who, limit);
    let (ring, batch) = s.ring.refilled(s.batches[who], limit);
    let refilled = Session { ring, batches: s.batches.insert(who, batch), ..s };
    let t = stepped(s, Event::Push(who, limit, val));
    lemma_first_writable(ring, batch, 0);
    match ring.first_writable(batch, 0) {
        Some(pos) => {
            lemma_writing_is_accounted_for(refilled, who, pos, val);
            assert(refilled.batches.insert(who, batch.without(pos)) =~= t.batches);
        },
        None => {
            assert(t == refilled);
        },
    }
}

proof fn lemma_reserve_is_accounted_for<T>(s: Session<T>, who: int, limit: nat)
    requires
        accounted(s),
        possible(s, Event::Reserve(who, limit)),
    ensures
        accounted(stepped(s, Event::Reserve(who, limit))),
{
    lemma_refill_is_accounted_for(s, who, limit);
    let (ring, batch) = s.ring.refilled(s.batches[who], limit);
    let refilled = Session { ring, batches: s.batches.insert(who, batch), ..s };
    let t = stepped(s, Event::<T>::Reserve(who, limit));
    lemma_first_writable(ring, batch, 0);
    match ring.first_writable(batch, 0) {
        Some(pos) => {
            lemma_taking_is_accounted_for(refilled, who, pos);
            assert(refilled.batches.insert(who, batch.without(pos)) =~= t.batches);
        },
        None => {
            assert(t == refilled);
        },
    }
}

proof fn lemma_return_is_accounted_for<T>(s: Session<T>, who: int, pos: int)
    requires
        accounted(s),
        possible(s, Event::Return(who, pos)),
    ensures
        accounted(stepped(s, Event::Return(who, pos))),
{
    let t = stepped(s, Event::<T>::Return(who, pos));
    let batch = s.batches[who];
    lemma_set_bit32(batch.unused, (pos - batch.start) as u32);
    assert forall|q: int| #[trigger] batch.with(pos).reserves(q) implies batch.reserves(q) || q
        == pos by {
        assert(bit32(batch.with(pos).unused, q - batch.start));
    }
    assert(s.ring.honours(pos));
    assert forall|a: int| #[trigger] t.batches.dom().contains(a) implies t.ring.backs(
        t.batches[a],
    ) by {
        assert(s.ring.backs(s.batches[a]));
    }
    assert forall|a: int, b: int|
        a != b && #[trigger] t.batches.dom().contains(a) && #[trigger] t.batches.dom().contains(
            b,
        ) implies t.batches[a].disjoint(t.batches[b]) by {
        assert(s.batches[a].disjoint(s.batches[b]));
        assert(!s.batches[a].reserves(pos) && !s.batches[b].reserves(pos));
        assert forall|q: int|
            !(#[trigger] t.batches[a].reserves(q) && #[trigger] t.batches[b].reserves(q)) by {
            assert(!(s.batches[a].reserves(q) && s.batches[b].reserves(q)));
        }
    }
    assert forall|q: int, a: int|
        #[trigger] t.reserved.contains(q) && #[trigger] t.batches.dom().contains(
            a,
        ) implies !t.batches[a].reserves(q) by {
        assert(s.reserved.contains(q));
        assert(!s.batches[a].reserves(q));
    }
}

proof fn lemma_claim_is_accounted_for<T>(s: Session<T>, scan: Scan, flush_at: nat)
    requires
        accounted(s),
    ensures
        accounted(stepped(s, Event::Claim(scan, flush_at))),
{
    let t = stepped(s, Event::<T>::Claim(scan, flush_at));
    lemma_claimable_iff_published(s.ring, scan.next);
    match s.ring.claimable(scan.next) {
        Some(pos) => {
            let val = s.ring.at(pos).value();
            let slot = Slot { pos: pos as nat, phase: Phase::Taken(val) };
            lemma_next_lap(pos, s.ring.cap);
            lemma_with_slot(s.ring, pos, slot);
            lemma_slot_change(s.ring, pos, slot);
            assert(t.ring.slots == s.ring.taken(pos).slots);
            assert(contents(t.ring) =~= contents(s.ring)) by {
                let one = Multiset::singleton(val);
                assert(contents(t.ring).add(one) =~= contents(s.ring).add(one));
                assert(contents(t.ring) =~= contents(t.ring).add(one).sub(one));
                assert(contents(s.ring) =~= contents(s.ring).add(one).sub(one));
            }
            assert forall|a: int, q: int|
                s.batches.dom().contains(a) && #[trigger] t.batches[a].reserves(q) implies q
                != pos by {
                assert(s.ring.backs(s.batches[a]));
                assert(s.ring.honours(q));
            }
            assert(!s.reserved.contains(pos)) by {
                if s.reserved.contains(pos) {
                    assert(s.ring.honours(pos));
                }
            }
            lemma_slot_step(s, t, pos, slot);
        },
        None => {
            assert(t == s);
        },
    }
}

proof fn lemma_release_is_accounted_for<T>(s: Session<T>, pos: int)
    requires
        accounted(s),
        possible(s, Event::Release(pos)),
    ensures
        accounted(stepped(s, Event::Release(pos))),
{
    let t = stepped(s, Event::<T>::Release(pos));
    let val = s.ring.at(pos).value();
    let slot = Slot::<T>::open_for((pos + s.ring.cap) as nat);
    assert(s.ring.lent(pos));
    lemma_next_lap(pos, s.ring.cap);
    lemma_releasing_disturbs_nobody(s.ring, pos);
    lemma_slot_change(s.ring, pos, slot);
    let moved = s.ring.with_slot(pos, slot);
    assert(contents(t.ring) == contents(moved));
    assert(contents(t.ring).add(t.taken) =~= t.pushed) by {
        assert(contents(moved).add(Multiset::singleton(val)) =~= contents(s.ring).add(
            Multiset::empty(),
        ));
        assert(contents(moved).add(s.taken.insert(val)) =~= contents(moved).add(
            Multiset::singleton(val),
        ).add(s.taken));
        assert(contents(s.ring).add(Multiset::empty()) =~= contents(s.ring));
    }
    assert forall|a: int, q: int|
        s.batches.dom().contains(a) && #[trigger] t.batches[a].reserves(q) implies q != pos by {
        assert(s.ring.backs(s.batches[a]));
        assert(s.ring.honours(q));
    }
    assert(!s.reserved.contains(pos)) by {
        if s.reserved.contains(pos) {
            assert(s.ring.honours(pos));
        }
    }
    lemma_slot_step(s, t, pos, slot);
}

/// A position that is given up takes no value with it.
pub proof fn lemma_giving_up_is_accounted_for<T>(s: Session<T>, who: int, pos: int)
    requires
        accounted(s),
        s.batches.dom().contains(who),
        s.batches[who].reserves(pos),
        s.ring.writable(pos),
    ensures
        accounted(
            Session {
                ring: s.ring.freed(pos),
                batches: s.batches.insert(who, s.batches[who].without(pos)),
                ..s
            },
        ),
        contents(s.ring.freed(pos)) == contents(s.ring),
{
    let batch = s.batches[who];
    let t = Session {
        ring: s.ring.freed(pos),
        batches: s.batches.insert(who, batch.without(pos)),
        ..s
    };
    let slot = Slot::<T>::open_for((pos + s.ring.cap) as nat);
    assert(s.ring.backs(batch));
    assert(s.ring.honours(pos));
    lemma_next_lap(pos, s.ring.cap);
    lemma_releasing_disturbs_nobody(s.ring, pos);
    lemma_slot_change(s.ring, pos, slot);
    assert(contents(t.ring) =~= contents(s.ring)) by {
        let moved = s.ring.with_slot(pos, slot);
        assert(contents(t.ring) == contents(moved));
        assert(contents(moved).add(Multiset::empty()) =~= contents(moved));
        assert(contents(s.ring).add(Multiset::empty()) =~= contents(s.ring));
    }
    lemma_clear_bit32(batch.unused, (pos - batch.start) as u32);
    assert forall|a: int, q: int|
        s.batches.dom().contains(a) && #[trigger] t.batches[a].reserves(
            q,
        ) implies s.batches[a].reserves(q) && q != pos by {
        if a == who {
            assert(bit32(t.batches[a].unused, q - batch.start));
        } else {
            assert(s.batches[a].disjoint(batch));
            assert(!(s.batches[a].reserves(q) && batch.reserves(q)));
        }
    }
    assert(t.batches.dom() =~= s.batches.dom());
    assert(!s.reserved.contains(pos));
    assert(!s.held.contains(pos)) by {
        if s.held.contains(pos) {
            assert(s.ring.lent(pos));
        }
    }
    lemma_slot_step(s, t, pos, slot);
}

/// A batch that loses a position, and changes nothing else, leaves
/// everything else in its place.
proof fn lemma_letting_go_is_accounted_for<T>(s: Session<T>, who: int, pos: int)
    requires
        accounted(s),
        s.batches.dom().contains(who),
        s.batches[who].reserves(pos),
    ensures
        accounted(
            Session { batches: s.batches.insert(who, s.batches[who].without(pos)), ..s },
        ),
{
    let batch = s.batches[who];
    let t = Session { batches: s.batches.insert(who, batch.without(pos)), ..s };
    lemma_clear_bit32(batch.unused, (pos - batch.start) as u32);
    assert forall|a: int, q: int|
        s.batches.dom().contains(a) && #[trigger] t.batches[a].reserves(
            q,
        ) implies s.batches[a].reserves(q) by {
        if a == who {
            assert(bit32(t.batches[a].unused, q - batch.start));
        }
    }
    assert(t.batches.dom() =~= s.batches.dom());
    assert forall|a: int| #[trigger] t.batches.dom().contains(a) implies t.ring.backs(
        t.batches[a],
    ) by {
        assert(s.ring.backs(s.batches[a]));
    }
    assert forall|a: int, b: int|
        a != b && #[trigger] t.batches.dom().contains(a) && #[trigger] t.batches.dom().contains(
            b,
        ) implies t.batches[a].disjoint(t.batches[b]) by {
        assert(s.batches[a].disjoint(s.batches[b]));
        assert forall|q: int|
            !(#[trigger] t.batches[a].reserves(q) && #[trigger] t.batches[b].reserves(q)) by {
            assert(!(s.batches[a].reserves(q) && s.batches[b].reserves(q)));
        }
    }
}

/// A producer that gives up its batch, as far as it can, leaves all
/// others what they have, and the ring its contents.
proof fn lemma_abandoning_is_accounted_for<T>(s: Session<T>, who: int, from: int)
    requires
        accounted(s),
        s.batches.dom().contains(who),
        0 <= from <= 32,
    ensures
        ({
            let (ring, batch, blocked) = s.ring.abandoned(s.batches[who], from);
            &&& accounted(Session { ring, batches: s.batches.insert(who, batch), ..s })
            &&& contents(ring) == contents(s.ring)
        }),
    decreases 32 - from,
{
    let batch = s.batches[who];
    let pos: int = batch.start + from;
    if from >= 32 {
        assert(s.batches.insert(who, batch) =~= s.batches);
    } else if !bit32(batch.unused, from) {
        lemma_abandoning_is_accounted_for(s, who, from + 1);
    } else if s.ring.writable(pos) {
        assert(batch.reserves(pos));
        lemma_giving_up_is_accounted_for(s, who, pos);
        let freed = Session {
            ring: s.ring.freed(pos),
            batches: s.batches.insert(who, batch.without(pos)),
            ..s
        };
        let woken = freed.ring.producer_tasks_woken();
        lemma_waking_keeps_order(freed.ring.producer_tasks);
        lemma_otherwise_placed(freed, woken);
        let next = stepped(freed, Event::Otherwise(woken));
        lemma_abandoning_is_accounted_for(next, who, from + 1);
        let end = woken.abandoned(batch.without(pos), from + 1).1;
        assert(next.batches.insert(who, end) =~= s.batches.insert(who, end));
    } else if s.ring.consumers_gone {
        assert(batch.reserves(pos));
        lemma_letting_go_is_accounted_for(s, who, pos);
        let next = Session { batches: s.batches.insert(who, batch.without(pos)), ..s };
        lemma_abandoning_is_accounted_for(next, who, from + 1);
        let end = s.ring.abandoned(batch.without(pos), from + 1).1;
        assert(next.batches.insert(who, end) =~= s.batches.insert(who, end));
    } else {
        lemma_waking_keeps_order(s.ring.consumer_park);
        lemma_waking_keeps_order(s.ring.consumer_tasks);
        lemma_otherwise_placed(s, s.ring.consumers_nudged());
        assert(s.batches.insert(who, batch) =~= s.batches);
    }
}

/// A producer that goes or comes leaves everything else in its place.
pub proof fn lemma_coming_and_going_is_accounted_for<T>(s: Session<T>, who: int, slot: ParkSlot)
    requires
        accounted(s),
    ensures
        accounted(Session { batches: s.batches.remove(who), ..s }),
        !s.batches.dom().contains(who) ==> accounted(stepped(s, Event::Join(who, slot))),
{
    assert forall|pos: int| !(#[trigger] no_batch(slot).reserves(pos)) by {
        lemma_zero_bits32(pos - 0);
    }
    let t = Session { batches: s.batches.remove(who), ..s };
    assert forall|a: int| #[trigger] t.batches.dom().contains(a) implies t.ring.backs(
        t.batches[a],
    ) by {
        assert(s.batches.dom().contains(a));
    }
    assert forall|a: int, b: int|
        a != b && #[trigger] t.batches.dom().contains(a) && #[trigger] t.batches.dom().contains(
            b,
        ) implies t.batches[a].disjoint(t.batches[b]) by {
        assert(s.batches.dom().contains(a) && s.batches.dom().contains(b));
    }
    if !s.batches.dom().contains(who) {
        let j = stepped(s, Event::<T>::Join(who, slot));
        assert forall|a: int, b: int|
            a != b && #[trigger] j.batches.dom().contains(a) && #[trigger] j.batches.dom().contains(
                b,
            ) implies j.batches[a].disjoint(j.batches[b]) by {
            if a != who && b != who {
                assert(s.batches[a].disjoint(s.batches[b]));
            }
        }
    }
}

/// Nothing is lost and nothing comes out twice: over any run, all that
/// was published is in the ring or was finished with by one consumer, and
/// each position is one producer's, or one guard's, or nobody's.
pub proof fn lemma_every_value_is_accounted_for<T>(s: Session<T>, run: Seq<Event<T>>)
    requires
        accounted(s),
        runs(s, run),
    ensures
        accounted(after(s, run)),
    decreases run.len(),
{
    if run.len() > 0 {
        lemma_every_value_is_accounted_for(s, run.drop_last());
        lemma_step_is_accounted_for(after(s, run.drop_last()), run.last());
    }
}

/// Every step keeps the session accounted for.
pub proof fn lemma_step_is_accounted_for<T>(s: Session<T>, event: Event<T>)
    requires
        accounted(s),
        possible(s, event),
    ensures
        accounted(stepped(s, event)),
{
    match event {
        Event::Push(who, limit, val) => lemma_push_is_accounted_for(s, who, limit, val),
        Event::Reserve(who, limit) => lemma_reserve_is_accounted_for(s, who, limit),
        Event::Stage(pos, staged) => lemma_staging_is_accounted_for(s, pos, staged),
        Event::Commit(pos) => lemma_commit_is_accounted_for(s, pos),
        Event::Return(who, pos) => lemma_return_is_accounted_for(s, who, pos),
        Event::Claim(scan, flush_at) => lemma_claim_is_accounted_for(s, scan, flush_at),
        Event::Release(pos) => lemma_release_is_accounted_for(s, pos),
        Event::Join(who, slot) => lemma_coming_and_going_is_accounted_for(s, who, slot),
        Event::Depart(who) => {
            lemma_abandoning_is_accounted_for(s, who, 0);
            let (ring, batch, blocked) = s.ring.abandoned(s.batches[who], 0);
            let gone = Session { ring, batches: s.batches.insert(who, batch), ..s };
            lemma_coming_and_going_is_accounted_for(gone, who, ParkSlot::Slotless);
            assert(gone.batches.remove(who) =~= s.batches.remove(who));
        },
        Event::Otherwise(ring) => lemma_otherwise_placed(s, ring),
    }
}

/// A ring just split is accounted for.
pub proof fn lemma_opened_is_accounted_for<T>(ring: RingModel<T>, slot: ParkSlot)
    requires
        ring.consistent(),
        forall|i: int| 0 <= i < ring.cap ==> (#[trigger] ring.slots[i]).phase is Open,
    ensures
        accounted(opened(ring, slot)),
{
    assert forall|pos: int| !(#[trigger] no_batch(slot).reserves(pos)) by {
        lemma_zero_bits32(pos - 0);
    }
    lemma_nothing_live(ring.slots, ring.cap as int);
    assert(contents(ring).add(Multiset::empty()) =~= Multiset::empty());
}

proof fn lemma_nothing_live<T>(slots: Seq<Slot<T>>, upto: int)
    requires
        0 <= upto <= slots.len(),
        forall|i: int| 0 <= i < upto ==> (#[trigger] slots[i]).phase is Open,
    ensures
        live_bag(slots, upto) == Multiset::<T>::empty(),
    decreases upto,
{
    if upto > 0 {
        lemma_nothing_live(slots, upto - 1);
        assert(live_bag(slots, upto) =~= Multiset::<T>::empty());
    }
}

proof fn lemma_something_live<T>(slots: Seq<Slot<T>>, upto: int, i: int)
    requires
        0 <= i < upto <= slots.len(),
        slots[i].live(),
    ensures
        live_bag(slots, upto).count(slots[i].value()) > 0,
    decreases upto,
{
    if i < upto - 1 {
        lemma_something_live(slots, upto - 1, i);
    }
}

/// Every value leaves exactly once: what the consumers have finished with
/// and what a teardown hands back are together all that was published.
pub proof fn lemma_every_value_leaves_once<T>(s: Session<T>)
    requires
        accounted(s),
    ensures
        live_values(s.ring.slots, s.ring.cap as int).to_multiset().add(s.taken) == s.pushed,
{
    lemma_teardown_hands_back_the_contents(s.ring.slots, s.ring.cap as int);
}

/// While nobody reads in place, a pop returns nothing exactly if all that
/// was published has been taken, wherever its scan starts.
pub proof fn lemma_pop_is_empty_exactly_when_all_is_taken<T>(s: Session<T>, next: usize)
    requires
        accounted(s),
        s.held == Set::<int>::empty(),
    ensures
        s.ring.claimable(next) is None <==> s.taken == s.pushed,
{
    lemma_claimable_iff_published(s.ring, next);
    if s.ring.claimable(next) is None {
        assert forall|i: int| 0 <= i < s.ring.cap implies (#[trigger] s.ring.slots[i]).phase
            is Open by {
            if s.ring.slots[i].phase is Taken {
                assert(s.held.contains(s.ring.slots[i].pos as int));
            }
        }
        lemma_nothing_live(s.ring.slots, s.ring.cap as int);
        assert(Multiset::empty().add(s.taken) =~= s.taken);
    } else {
        let pos = s.ring.claimable(next)->0;
        let i: int = slot_of(pos, s.ring.cap);
        lemma_next_lap(pos, s.ring.cap);
        lemma_something_live(s.ring.slots, s.ring.cap as int, i);
        let val = s.ring.slots[i].value();
        assert(s.pushed.count(val) == contents(s.ring).count(val) + s.taken.count(val));
    }
}

/// Giving up a batch changes neither what is in the ring nor what anybody
/// else has.
pub proof fn lemma_abandoning_keeps_the_contents<T>(s: Session<T>, who: int)
    requires
        accounted(s),
        s.batches.dom().contains(who),
    ensures
        contents(s.ring.abandoned(s.batches[who], 0).0) == contents(s.ring),
        accounted(stepped(s, Event::Depart(who))),
{
    lemma_abandoning_is_accounted_for(s, who, 0);
    lemma_step_is_accounted_for(s, Event::Depart(who));
}

/// Whether somebody has `pos`: a producer in its batch, a guard that
/// writes or reads there, or any consumer that comes, as it is published.
pub open spec fn somewhere<T>(s: Session<T>, pos: int) -> bool {
    ||| exists|who: int| #[trigger] s.batches.dom().contains(who) && s.batches[who].reserves(pos)
    ||| s.reserved.contains(pos)
    ||| s.ring.at(pos).pos == pos && s.ring.at(pos).phase is Published
    ||| s.held.contains(pos)
}

/// Every position that was reserved, and that its slot has not passed, is
/// somewhere: none is lost to the ring.
pub open spec fn nothing_stranded<T>(s: Session<T>) -> bool {
    forall|pos: int|
        0 <= pos < s.ring.claim && #[trigger] s.ring.at(pos).pos <= pos ==> somewhere(s, pos)
}

/// A change at one slot strands nothing, if it leaves everybody else what
/// they have and the position is somewhere after it, or passed.
proof fn lemma_slot_step_strands_nothing<T>(s: Session<T>, t: Session<T>, pos: int, slot: Slot<T>)
    requires
        placed(s),
        nothing_stranded(s),
        0 <= pos < s.ring.claim,
        s.ring.at(pos).pos == pos,
        slot.pos == pos || slot.pos == pos + s.ring.cap,
        t.ring.cap == s.ring.cap,
        t.ring.claim == s.ring.claim,
        t.ring.slots == s.ring.with_slot(pos, slot).slots,
        t.batches.dom() == s.batches.dom(),
        forall|who: int, q: int|
            s.batches.dom().contains(who) && #[trigger] s.batches[who].reserves(q) && q != pos
                ==> t.batches[who].reserves(q),
        forall|q: int| #[trigger] s.reserved.contains(q) && q != pos ==> t.reserved.contains(q),
        forall|q: int| #[trigger] s.held.contains(q) && q != pos ==> t.held.contains(q),
        slot.pos == pos ==> somewhere(t, pos),
    ensures
        nothing_stranded(t),
{
    lemma_next_lap(pos, s.ring.cap);
    assert forall|q: int|
        0 <= q < t.ring.claim && #[trigger] t.ring.at(q).pos <= q implies somewhere(t, q) by {
        lemma_next_lap(q, s.ring.cap);
        if q != pos {
            assert(s.ring.at(q).pos <= q);
            assert(somewhere(s, q));
            if exists|who: int| #[trigger]
                s.batches.dom().contains(who) && s.batches[who].reserves(q) {
                let who = choose|who: int| #[trigger]
                    s.batches.dom().contains(who) && s.batches[who].reserves(q);
                assert(t.batches.dom().contains(who) && t.batches[who].reserves(q));
            } else if s.reserved.contains(q) {
                assert(t.reserved.contains(q));
            } else if s.held.contains(q) {
                assert(t.held.contains(q));
            } else {
                assert(t.ring.at(q) == s.ring.at(q));
            }
        }
    }
}

/// Taking a position out of a batch to write it strands nothing.
proof fn lemma_taking_strands_nothing<T>(s: Session<T>, who: int, pos: int)
    requires
        accounted(s),
        nothing_stranded(s),
        s.batches.dom().contains(who),
        s.batches[who].reserves(pos),
        s.ring.writable(pos),
    ensures
        nothing_stranded(
            Session {
                batches: s.batches.insert(who, s.batches[who].without(pos)),
                reserved: s.reserved.insert(pos),
                ..s
            },
        ),
{
    let batch = s.batches[who];
    let t = Session {
        batches: s.batches.insert(who, batch.without(pos)),
        reserved: s.reserved.insert(pos),
        ..s
    };
    assert(s.ring.backs(batch));
    assert(s.ring.honours(pos));
    lemma_next_lap(pos, s.ring.cap);
    assert(s.ring.with_slot(pos, s.ring.at(pos)).slots =~= s.ring.slots);
    assert forall|a: int, q: int|
        s.batches.dom().contains(a) && #[trigger] s.batches[a].reserves(q) && q
            != pos implies t.batches[a].reserves(q) by {
        if a == who {
            lemma_clear_bit32(batch.unused, (pos - batch.start) as u32);
            assert(bit32(batch.without(pos).unused, q - batch.start));
        }
    }
    assert(t.batches.dom() =~= s.batches.dom());
    lemma_slot_step_strands_nothing(s, t, pos, s.ring.at(pos));
}

/// Writing and publishing a position of a batch in one go strands
/// nothing.
pub proof fn lemma_writing_strands_nothing<T>(s: Session<T>, who: int, pos: int, val: T)
    requires
        accounted(s),
        nothing_stranded(s),
        s.batches.dom().contains(who),
        s.batches[who].reserves(pos),
        s.ring.writable(pos),
    ensures
        nothing_stranded(
            Session {
                ring: s.ring.staged(pos, Some(val)).published(pos),
                batches: s.batches.insert(who, s.batches[who].without(pos)),
                pushed: s.pushed.insert(val),
                ..s
            },
        ),
{
    let batch = s.batches[who];
    let t = Session {
        ring: s.ring.staged(pos, Some(val)).published(pos),
        batches: s.batches.insert(who, batch.without(pos)),
        pushed: s.pushed.insert(val),
        ..s
    };
    let slot = Slot { pos: pos as nat, phase: Phase::Published(val) };
    assert(s.ring.backs(batch));
    assert(s.ring.honours(pos));
    lemma_next_lap(pos, s.ring.cap);
    assert(t.ring.slots =~= s.ring.with_slot(pos, slot).slots);
    assert(t.ring.at(pos) == slot);
    assert forall|a: int, q: int|
        s.batches.dom().contains(a) && #[trigger] s.batches[a].reserves(q) && q
            != pos implies t.batches[a].reserves(q) by {
        if a == who {
            lemma_clear_bit32(batch.unused, (pos - batch.start) as u32);
            assert(bit32(batch.without(pos).unused, q - batch.start));
        }
    }
    assert(t.batches.dom() =~= s.batches.dom());
    lemma_slot_step_strands_nothing(s, t, pos, slot);
}

/// A refill takes the positions that it moves the claim cursor past.
proof fn lemma_refill_strands_nothing<T>(s: Session<T>, who: int, limit: nat)
    requires
        accounted(s),
        nothing_stranded(s),
        s.batches.dom().contains(who),
        s.ring.headroom(),
        1 <= limit <= 32,
    ensures
        ({
            let (ring, batch) = s.ring.refilled(s.batches[who], limit);
            nothing_stranded(Session { ring, batches: s.batches.insert(who, batch), ..s })
        }),
{
    let old_batch = s.batches[who];
    let (ring, batch) = s.ring.refilled(old_batch, limit);
    let t = Session { ring, batches: s.batches.insert(who, batch), ..s };
    if old_batch.unused == 0 && s.ring.refill_size(limit) is Some {
        let n = s.ring.refill_size(limit)->0;
        lemma_full_batch(n);
        assert forall|q: int|
            0 <= q < t.ring.claim && #[trigger] t.ring.at(q).pos <= q implies somewhere(t, q) by {
            assert(t.ring.at(q) == s.ring.at(q));
            if q >= s.ring.claim {
                assert(bit32(batch.unused, q - batch.start));
                assert(t.batches.dom().contains(who) && t.batches[who].reserves(q));
            } else {
                assert(somewhere(s, q));
                if exists|a: int| #[trigger]
                    s.batches.dom().contains(a) && s.batches[a].reserves(q) {
                    let a = choose|a: int| #[trigger]
                        s.batches.dom().contains(a) && s.batches[a].reserves(q);
                    if a == who {
                        lemma_zero_bits32(q - old_batch.start);
                    }
                    assert(t.batches.dom().contains(a) && t.batches[a].reserves(q));
                }
            }
        }
    } else {
        assert(t.batches =~= s.batches);
        assert(t == s);
    }
}

/// A producer that gives up its batch strands nothing while there are
/// consumers.
proof fn lemma_abandoning_strands_nothing<T>(s: Session<T>, who: int, from: int)
    requires
        accounted(s),
        nothing_stranded(s),
        !s.ring.consumers_gone,
        s.batches.dom().contains(who),
        0 <= from <= 32,
    ensures
        ({
            let (ring, batch, blocked) = s.ring.abandoned(s.batches[who], from);
            nothing_stranded(Session { ring, batches: s.batches.insert(who, batch), ..s })
        }),
    decreases 32 - from,
{
    let batch = s.batches[who];
    let pos: int = batch.start + from;
    if from >= 32 {
        assert(s.batches.insert(who, batch) =~= s.batches);
    } else if !bit32(batch.unused, from) {
        lemma_abandoning_strands_nothing(s, who, from + 1);
    } else if s.ring.writable(pos) {
        assert(batch.reserves(pos));
        lemma_giving_up_is_accounted_for(s, who, pos);
        lemma_giving_up_strands_nothing(s, who, pos);
        let freed = Session {
            ring: s.ring.freed(pos),
            batches: s.batches.insert(who, batch.without(pos)),
            ..s
        };
        let woken = freed.ring.producer_tasks_woken();
        lemma_waking_keeps_order(freed.ring.producer_tasks);
        lemma_otherwise_placed(freed, woken);
        let next = stepped(freed, Event::Otherwise(woken));
        lemma_otherwise_strands_nothing(freed, woken);
        lemma_abandoning_strands_nothing(next, who, from + 1);
        let end = woken.abandoned(batch.without(pos), from + 1).1;
        assert(next.batches.insert(who, end) =~= s.batches.insert(who, end));
    } else {
        let nudged = s.ring.consumers_nudged();
        lemma_waking_keeps_order(s.ring.consumer_park);
        lemma_waking_keeps_order(s.ring.consumer_tasks);
        lemma_otherwise_strands_nothing(s, nudged);
        assert(s.batches.insert(who, batch) =~= s.batches);
    }
}

/// A position that is given up is passed by its slot.
pub proof fn lemma_giving_up_strands_nothing<T>(s: Session<T>, who: int, pos: int)
    requires
        accounted(s),
        nothing_stranded(s),
        s.batches.dom().contains(who),
        s.batches[who].reserves(pos),
        s.ring.writable(pos),
    ensures
        nothing_stranded(
            Session {
                ring: s.ring.freed(pos),
                batches: s.batches.insert(who, s.batches[who].without(pos)),
                ..s
            },
        ),
{
    let batch = s.batches[who];
    let t = Session {
        ring: s.ring.freed(pos),
        batches: s.batches.insert(who, batch.without(pos)),
        ..s
    };
    assert(s.ring.backs(batch));
    assert(s.ring.honours(pos));
    lemma_next_lap(pos, s.ring.cap);
    assert forall|a: int, q: int|
        s.batches.dom().contains(a) && #[trigger] s.batches[a].reserves(q) && q
            != pos implies t.batches[a].reserves(q) by {
        if a == who {
            lemma_clear_bit32(batch.unused, (pos - batch.start) as u32);
            assert(bit32(batch.without(pos).unused, q - batch.start));
        }
    }
    assert(t.batches.dom() =~= s.batches.dom());
    lemma_slot_step_strands_nothing(s, t, pos, Slot::open_for((pos + s.ring.cap) as nat));
}

pub proof fn lemma_otherwise_strands_nothing<T>(s: Session<T>, ring: RingModel<T>)
    requires
        nothing_stranded(s),
        ring.cap == s.ring.cap,
        ring.slots == s.ring.slots,
        ring.claim == s.ring.claim,
    ensures
        nothing_stranded(stepped(s, Event::Otherwise(ring))),
{
    let t = stepped(s, Event::Otherwise(ring));
    assert forall|q: int|
        0 <= q < t.ring.claim && #[trigger] t.ring.at(q).pos <= q implies somewhere(t, q) by {
        assert(t.ring.at(q) == s.ring.at(q));
        assert(somewhere(s, q));
        if exists|a: int| #[trigger] s.batches.dom().contains(a) && s.batches[a].reserves(q) {
            let a = choose|a: int| #[trigger]
                s.batches.dom().contains(a) && s.batches[a].reserves(q);
            assert(t.batches.dom().contains(a) && t.batches[a].reserves(q));
        }
    }
}

/// A producer without a position can come and go, and strands nothing.
pub proof fn lemma_coming_and_going_strands_nothing<T>(s: Session<T>, who: int, batch: Batch)
    requires
        nothing_stranded(s),
        s.batches.dom().contains(who) ==> forall|q: int| !(#[trigger] s.batches[who].reserves(q)),
    ensures
        nothing_stranded(Session { batches: s.batches.remove(who), ..s }),
        nothing_stranded(Session { batches: s.batches.insert(who, batch), ..s }),
{
    let gone = Session { batches: s.batches.remove(who), ..s };
    let come = Session { batches: s.batches.insert(who, batch), ..s };
    assert forall|q: int|
        0 <= q < s.ring.claim && #[trigger] s.ring.at(q).pos <= q implies somewhere(gone, q)
        && somewhere(come, q) by {
        assert(somewhere(s, q));
        if exists|a: int| #[trigger] s.batches.dom().contains(a) && s.batches[a].reserves(q) {
            let a = choose|a: int| #[trigger]
                s.batches.dom().contains(a) && s.batches[a].reserves(q);
            assert(gone.batches.dom().contains(a) && gone.batches[a].reserves(q));
            assert(come.batches.dom().contains(a) && come.batches[a].reserves(q));
        }
    }
    assert forall|q: int|
        0 <= q < gone.ring.claim && #[trigger] gone.ring.at(q).pos <= q implies somewhere(
        gone,
        q,
    ) by {
        assert(s.ring.at(q).pos <= q);
    }
    assert forall|q: int|
        0 <= q < come.ring.claim && #[trigger] come.ring.at(q).pos <= q implies somewhere(
        come,
        q,
    ) by {
        assert(s.ring.at(q).pos <= q);
    }
}

/// No step loses a position while there are consumers: whatever was
/// reserved and is not passed by its slot stays in a batch, under a
/// guard, or published. In particular a reservation that is dropped goes
/// back to its producer, and a producer that leaves hands its slots on.
pub proof fn lemma_step_strands_nothing<T>(s: Session<T>, event: Event<T>)
    requires
        accounted(s),
        nothing_stranded(s),
        possible(s, event),
        !s.ring.consumers_gone,
    ensures
        nothing_stranded(stepped(s, event)),
{
    let t = stepped(s, event);
    match event {
        Event::Push(who, limit, val) => {
            lemma_refill_is_accounted_for(s, who, limit);
            lemma_refill_strands_nothing(s, who, limit);
            let (ring, batch) = s.ring.refilled(s.batches[who], limit);
            let refilled = Session { ring, batches: s.batches.insert(who, batch), ..s };
            lemma_first_writable(ring, batch, 0);
            match ring.first_writable(batch, 0) {
                Some(pos) => {
                    lemma_writing_strands_nothing(refilled, who, pos, val);
                    assert(refilled.batches.insert(who, batch.without(pos)) =~= t.batches);
                },
                None => {
                    assert(t == refilled);
                },
            }
        },
        Event::Reserve(who, limit) => {
            lemma_refill_is_accounted_for(s, who, limit);
            lemma_refill_strands_nothing(s, who, limit);
            let (ring, batch) = s.ring.refilled(s.batches[who], limit);
            let refilled = Session { ring, batches: s.batches.insert(who, batch), ..s };
            lemma_first_writable(ring, batch, 0);
            match ring.first_writable(batch, 0) {
                Some(pos) => {
                    lemma_taking_strands_nothing(refilled, who, pos);
                    assert(refilled.batches.insert(who, batch.without(pos)) =~= t.batches);
                },
                None => {
                    assert(t == refilled);
                },
            }
        },
        Event::Stage(pos, staged) => {
            assert(s.ring.honours(pos) && s.ring.writable(pos));
            let slot = Slot { pos: pos as nat, phase: Phase::Open(staged) };
            assert(t.reserved.contains(pos));
            lemma_slot_step_strands_nothing(s, t, pos, slot);
        },
        Event::Commit(pos) => {
            assert(s.ring.honours(pos) && s.ring.writable(pos));
            lemma_next_lap(pos, s.ring.cap);
            let slot = Slot { pos: pos as nat, phase: Phase::Published(s.ring.at(pos).value()) };
            assert(t.ring.at(pos) == slot);
            lemma_slot_step_strands_nothing(s, t, pos, slot);
        },
        Event::Return(who, pos) => {
            let batch = s.batches[who];
            lemma_set_bit32(batch.unused, (pos - batch.start) as u32);
            assert forall|q: int|
                0 <= q < t.ring.claim && #[trigger] t.ring.at(q).pos <= q implies somewhere(
                t,
                q,
            ) by {
                assert(s.ring.at(q).pos <= q);
                assert(somewhere(s, q));
                if q == pos {
                    assert(bit32(batch.with(pos).unused, q - batch.start));
                    assert(t.batches.dom().contains(who) && t.batches[who].reserves(q));
                } else if exists|a: int| #[trigger]
                    s.batches.dom().contains(a) && s.batches[a].reserves(q) {
                    let a = choose|a: int| #[trigger]
                        s.batches.dom().contains(a) && s.batches[a].reserves(q);
                    if a == who {
                        assert(bit32(batch.with(pos).unused, q - batch.start));
                    }
                    assert(t.batches.dom().contains(a) && t.batches[a].reserves(q));
                }
            }
        },
        Event::Claim(scan, flush_at) => {
            lemma_claimable_iff_published(s.ring, scan.next);
            match s.ring.claimable(scan.next) {
                Some(pos) => {
                    lemma_next_lap(pos, s.ring.cap);
                    let slot = Slot {
                        pos: pos as nat,
                        phase: Phase::Taken(s.ring.at(pos).value()),
                    };
                    assert(t.held.contains(pos));
                    lemma_slot_step_strands_nothing(s, t, pos, slot);
                },
                None => {
                    assert(t == s);
                },
            }
        },
        Event::Release(pos) => {
            assert(s.ring.lent(pos));
            lemma_slot_step_strands_nothing(
                s,
                t,
                pos,
                Slot::open_for((pos + s.ring.cap) as nat),
            );
        },
        Event::Join(who, slot) => {
            lemma_coming_and_going_strands_nothing(s, who, no_batch(slot));
        },
        Event::Depart(who) => {
            lemma_abandoning_strands_nothing(s, who, 0);
            let (ring, batch, blocked) = s.ring.abandoned(s.batches[who], 0);
            let gone = Session { ring, batches: s.batches.insert(who, batch), ..s };
            if !blocked {
                lemma_departing_producer_strands_nothing(s.ring, s.batches[who], 0);
                lemma_coming_and_going_strands_nothing(gone, who, batch);
                assert(gone.batches.remove(who) =~= s.batches.remove(who));
            }
        },
        Event::Otherwise(ring) => lemma_otherwise_strands_nothing(s, ring),
    }
}

/// Over any run with consumers no position is lost to the ring.
pub proof fn lemma_run_strands_nothing<T>(s: Session<T>, run: Seq<Event<T>>)
    requires
        accounted(s),
        nothing_stranded(s),
        runs(s, run),
        forall|n: int|
            0 <= n < run.len() ==> !(#[trigger] after(s, run.take(n))).ring.consumers_gone,
    ensures
        nothing_stranded(after(s, run)),
    decreases run.len(),
{
    if run.len() > 0 {
        let prefix = run.drop_last();
        assert forall|n: int| 0 <= n < prefix.len() implies !(#[trigger] after(
            s,
            prefix.take(n),
        )).ring.consumers_gone by {
            assert(prefix.take(n) =~= run.take(n));
        }
        assert(run.take(run.len() - 1) =~= prefix);
        lemma_run_strands_nothing(s, prefix);
        lemma_every_value_is_accounted_for(s, prefix);
        assert(!after(s, run.take(run.len() - 1)).ring.consumers_gone);
        lemma_step_strands_nothing(after(s, prefix), run.last());
    }
}

/// In a ring just split nothing is stranded.
pub proof fn lemma_opened_strands_nothing<T>(ring: RingModel<T>, slot: ParkSlot)
    requires
        ring.claim == 0,
    ensures
        nothing_stranded(opened(ring, slot)),
{
}

} // verus!
