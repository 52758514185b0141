//! What holds over the whole life of a ring: where every position is, and
//! where every value goes.

use vstd::multiset::Multiset;
use vstd::prelude::*;

use crate::capacity::{lemma_first_lap, lemma_next_lap, slot_of};
use crate::common::bits::bit32;
use crate::common::park_registry::ParkSlot;
use crate::mpmc::laws::contents;
use crate::mpmc::ring_model::{lemma_claimable_iff_published, Batch, Scan};
use crate::mpmc::session as shared;
use crate::mpmc::slot_table::live_values;
use crate::mpmc_scan::laws::{
    lemma_push_moves_as_batched, lemma_scan_departure_strands_nothing, pushed,
};
use crate::mpmc_scan::producer::primary_from;
use crate::mpmc_scan::ring::{lemma_idle_waiters, ScanModel, CONSUMED_FLUSH, PRODUCER_BATCH};

verus! {

/// A ring with its producers, and what has happened to it: all that was
/// pushed, and all that was popped.
#[verifier::ext_equal]
pub struct Session<T> {
    pub ring: ScanModel<T>,
    /// The batches of the live producers.
    pub batches: Map<int, Batch>,
    pub pushed: Multiset<T>,
    pub popped: Multiset<T>,
}

impl<T> Session<T> {
    /// The same session on a ring that parks, where nobody does and nobody
    /// writes or reads in place.
    pub open spec fn shared(self) -> shared::Session<T> {
        shared::Session {
            ring: self.ring.batched(),
            batches: self.batches,
            reserved: Set::empty(),
            held: Set::empty(),
            pushed: self.pushed,
            taken: self.popped,
        }
    }
}

/// Every position is one producer's or nobody's, and all that was pushed
/// is in the ring or was popped, and not both.
pub open spec fn accounted<T>(s: Session<T>) -> bool {
    shared::accounted(s.shared())
}

/// One step of a session.
pub enum Event<T> {
    /// A producer tries to push a value.
    Push(int, T),
    /// A producer tries to push a value at the lowest position of its
    /// batch.
    PushPrimary(int, T),
    /// A consumer pops.
    Pop(Scan),
    /// A producer is made.
    Join(int),
    /// A producer gives up its batch, and is gone once it does not have to
    /// wait.
    Depart(int),
    /// Anything that leaves the slots and the claim cursor alone, and the
    /// ring as given: handles come and go, a tally is published.
    Otherwise(ScanModel<T>),
}

/// Whether the step can happen.
pub open spec fn possible<T>(s: Session<T>, event: Event<T>) -> bool {
    match event {
        Event::Push(who, _) => s.batches.dom().contains(who) && s.ring.batched().headroom(),
        Event::PushPrimary(who, _) => s.batches.dom().contains(who),
        Event::Pop(_) => true,
        Event::Join(who) => !s.batches.dom().contains(who),
        Event::Depart(who) => s.batches.dom().contains(who),
        Event::Otherwise(ring) => {
            &&& ring.cap == s.ring.cap
            &&& ring.slots == s.ring.slots
            &&& ring.claim == s.ring.claim
        },
    }
}

/// The session after the step.
pub open spec fn stepped<T>(s: Session<T>, event: Event<T>) -> Session<T> {
    match event {
        Event::Push(who, val) => {
            let (ring, batch) = pushed(s.ring, s.batches[who], val);
            Session {
                ring,
                batches: s.batches.insert(who, batch),
                pushed: if s.ring.acquirable(s.batches[who]) is Some {
                    s.pushed.insert(val)
                } else {
                    s.pushed
                },
                ..s
            }
        },
        Event::PushPrimary(who, val) => match primary_from(s.batches[who], 0) {
            Some(pos) => if s.ring.batched().writable(pos) {
                Session {
                    ring: s.ring.published(pos, val),
                    batches: s.batches.insert(who, s.batches[who].without(pos)),
                    pushed: s.pushed.insert(val),
                    ..s
                }
            } else {
                s
            },
            None => s,
        },
        Event::Pop(scan) => Session {
            ring: s.ring.popped(scan).0,
            popped: match s.ring.batched().claimable(scan.next) {
                Some(pos) => s.popped.insert(s.ring.batched().at(pos).value()),
                None => s.popped,
            },
            ..s
        },
        Event::Join(who) => Session {
            batches: s.batches.insert(who, shared::no_batch(ParkSlot::Slotless)),
            ..s
        },
        Event::Depart(who) => {
            let (ring, batch, blocked) = s.ring.abandoned(s.batches[who], 0);
            Session {
                ring,
                batches: if blocked {
                    s.batches.insert(who, batch)
                } else {
                    s.batches.remove(who)
                },
                ..s
            }
        },
        Event::Otherwise(ring) => Session { ring, ..s },
    }
}

/// The session after a run of steps.
pub open spec fn after<T>(s: Session<T>, run: Seq<Event<T>>) -> Session<T>
    decreases run.len(),
{
    if run.len() == 0 {
        s
    } else {
        stepped(after(s, run.drop_last()), run.last())
    }
}

/// Whether every step of the run can happen when its turn comes.
pub open spec fn runs<T>(s: Session<T>, run: Seq<Event<T>>) -> bool
    decreases run.len(),
{
    run.len() == 0 || (runs(s, run.drop_last()) && possible(after(s, run.drop_last()), run.last()))
}

/// A ring just split, with its one producer.
pub open spec fn opened<T>(cap: nat) -> Session<T> {
    Session {
        ring: ScanModel::fresh(cap),
        batches: Map::empty().insert(0, shared::no_batch(ParkSlot::Slotless)),
        pushed: Multiset::empty(),
        popped: Multiset::empty(),
    }
}

/// A session is accounted for if one with the same slots and cursors is
/// whose ring parks.
proof fn lemma_settles<T>(parking: shared::Session<T>, s: Session<T>)
    requires
        shared::accounted(parking),
        s.ring.cap == parking.ring.cap,
        s.ring.slots == parking.ring.slots,
        s.ring.claim == parking.ring.claim,
        s.batches == parking.batches,
        parking.reserved == Set::<int>::empty(),
        parking.held == Set::<int>::empty(),
        s.pushed == parking.pushed,
        s.popped == parking.taken,
    ensures
        accounted(s),
{
    lemma_idle_waiters();
    let quiet = s.ring.batched();
    assert(quiet.consistent());
    shared::lemma_step_is_accounted_for(parking, shared::Event::Otherwise(quiet));
    assert(shared::stepped(parking, shared::Event::Otherwise(quiet)) == s.shared());
}

proof fn lemma_push_is_accounted_for<T>(s: Session<T>, who: int, val: T)
    requires
        accounted(s),
        possible(s, Event::Push(who, val)),
    ensures
        accounted(stepped(s, Event::Push(who, val))),
{
    let event = shared::Event::Push(who, PRODUCER_BATCH as nat, val);
    let batch = s.batches[who];
    assert(s.shared().batches.dom().contains(who));
    lemma_push_moves_as_batched(s.ring, batch, val);
    shared::lemma_step_is_accounted_for(s.shared(), event);
    let parking = shared::stepped(s.shared(), event);
    let t = stepped(s, Event::Push(who, val));
    assert(t.batches =~= parking.batches);
    lemma_settles(parking, t);
}

proof fn lemma_primary_is_accounted_for<T>(s: Session<T>, who: int, val: T)
    requires
        accounted(s),
        possible(s, Event::PushPrimary(who, val)),
    ensures
        accounted(stepped(s, Event::PushPrimary(who, val))),
{
    let batch = s.batches[who];
    let t = stepped(s, Event::PushPrimary(who, val));
    match primary_from(batch, 0) {
        Some(pos) => if s.ring.batched().writable(pos) {
            lemma_primary_is_reserved(batch, 0);
            shared::lemma_writing_is_accounted_for(s.shared(), who, pos, val);
            let ring = s.ring.batched().staged(pos, Some(val)).published(pos);
            let parking = shared::Session {
                ring,
                batches: s.batches.insert(who, batch.without(pos)),
                pushed: s.pushed.insert(val),
                ..s.shared()
            };
            lemma_next_lap(pos, s.ring.cap);
            assert(ring.slots =~= t.ring.slots);
            lemma_settles(parking, t);
        },
        None => {},
    }
}

/// The lowest position of a batch is in it.
proof fn lemma_primary_is_reserved(batch: Batch, from: int)
    requires
        0 <= from,
    ensures
        primary_from(batch, from) matches Some(pos) ==> batch.reserves(pos),
    decreases 32 - from,
{
    if from < 32 && !bit32(batch.unused, from) {
        lemma_primary_is_reserved(batch, from + 1);
    }
}

proof fn lemma_pop_is_accounted_for<T>(s: Session<T>, scan: Scan)
    requires
        accounted(s),
    ensures
        accounted(stepped(s, Event::Pop(scan))),
{
    let t = stepped(s, Event::<T>::Pop(scan));
    let batched = s.ring.batched();
    lemma_claimable_iff_published(batched, scan.next);
    match batched.claimable(scan.next) {
        Some(pos) => {
            let claim = shared::Event::<T>::Claim(scan, CONSUMED_FLUSH as nat);
            shared::lemma_step_is_accounted_for(s.shared(), claim);
            let claimed = shared::stepped(s.shared(), claim);
            assert(claimed.held.contains(pos));
            let release = shared::Event::<T>::Release(pos);
            shared::lemma_step_is_accounted_for(claimed, release);
            let parking = shared::stepped(claimed, release);
            lemma_next_lap(pos, s.ring.cap);
            assert(claimed.ring.at(pos).value() == batched.at(pos).value());
            assert(parking.ring.slots =~= t.ring.slots);
            assert(parking.held =~= Set::<int>::empty());
            lemma_settles(parking, t);
        },
        None => {
            assert(t == s);
        },
    }
}

/// A producer that gives up its batch, as far as it can, leaves all
/// others what they have, and the ring its contents.
proof fn lemma_abandoning_is_accounted_for<T>(s: Session<T>, who: int, from: int)
    requires
        accounted(s),
        s.batches.dom().contains(who),
        0 <= from <= 32,
    ensures
        ({
            let (ring, batch, blocked) = s.ring.abandoned(s.batches[who], from);
            &&& accounted(Session { ring, batches: s.batches.insert(who, batch), ..s })
            &&& contents(ring.batched()) == contents(s.ring.batched())
        }),
    decreases 32 - from,
{
    let batch = s.batches[who];
    let pos: int = batch.start + from;
    if from >= 32 {
        assert(s.batches.insert(who, batch) =~= s.batches);
    } else if !bit32(batch.unused, from) {
        lemma_abandoning_is_accounted_for(s, who, from + 1);
    } else if s.ring.batched().writable(pos) {
        assert(batch.reserves(pos));
        shared::lemma_giving_up_is_accounted_for(s.shared(), who, pos);
        let parking = shared::Session {
            ring: s.ring.batched().freed(pos),
            batches: s.batches.insert(who, batch.without(pos)),
            ..s.shared()
        };
        let next = Session {
            ring: s.ring.freed(pos),
            batches: s.batches.insert(who, batch.without(pos)),
            ..s
        };
        assert(parking.ring.slots =~= next.ring.slots);
        lemma_settles(parking, next);
        lemma_abandoning_is_accounted_for(next, who, from + 1);
        let end = next.ring.abandoned(batch.without(pos), from + 1).1;
        assert(next.batches.insert(who, end) =~= s.batches.insert(who, end));
    } else {
        assert(s.batches.insert(who, batch) =~= s.batches);
    }
}

/// Every step keeps the session accounted for.
pub proof fn lemma_step_is_accounted_for<T>(s: Session<T>, event: Event<T>)
    requires
        accounted(s),
        possible(s, event),
    ensures
        accounted(stepped(s, event)),
{
    match event {
        Event::Push(who, val) => lemma_push_is_accounted_for(s, who, val),
        Event::PushPrimary(who, val) => lemma_primary_is_accounted_for(s, who, val),
        Event::Pop(scan) => lemma_pop_is_accounted_for(s, scan),
        Event::Join(who) => {
            let join = shared::Event::<T>::Join(who, ParkSlot::Slotless);
            shared::lemma_step_is_accounted_for(s.shared(), join);
            assert(shared::stepped(s.shared(), join) == stepped(s, event).shared());
        },
        Event::Depart(who) => {
            lemma_abandoning_is_accounted_for(s, who, 0);
            let (ring, batch, blocked) = s.ring.abandoned(s.batches[who], 0);
            let gone = Session { ring, batches: s.batches.insert(who, batch), ..s };
            shared::lemma_coming_and_going_is_accounted_for(
                gone.shared(),
                who,
                ParkSlot::Slotless,
            );
            assert(gone.batches.remove(who) =~= s.batches.remove(who));
        },
        Event::Otherwise(ring) => lemma_settles(s.shared(), stepped(s, event)),
    }
}

/// Nothing is lost and nothing comes out twice: over any run, all that
/// was pushed is in the ring or was popped by one consumer, and each
/// position is one producer's or nobody's.
pub proof fn lemma_every_value_is_accounted_for<T>(s: Session<T>, run: Seq<Event<T>>)
    requires
        accounted(s),
        runs(s, run),
    ensures
        accounted(after(s, run)),
    decreases run.len(),
{
    if run.len() > 0 {
        lemma_every_value_is_accounted_for(s, run.drop_last());
        lemma_step_is_accounted_for(after(s, run.drop_last()), run.last());
    }
}

/// A ring just split is accounted for.
pub proof fn lemma_opened_is_accounted_for<T>(cap: nat)
    requires
        4 <= cap <= usize::MAX,
    ensures
        accounted(opened::<T>(cap)),
{
    let ring = ScanModel::<T>::fresh(cap).batched();
    lemma_idle_waiters();
    assert forall|i: int| 0 <= i < cap implies slot_of((#[trigger] ring.slots[i]).pos as int, cap)
        == i by {
        lemma_first_lap(i, cap);
    }
    shared::lemma_opened_is_accounted_for(ring, ParkSlot::Slotless);
    assert(shared::opened(ring, ParkSlot::Slotless) == opened::<T>(cap).shared());
}

/// Every value leaves exactly once: what was popped and what a teardown
/// hands back are together all that was pushed.
pub proof fn lemma_every_value_leaves_once<T>(s: Session<T>)
    requires
        accounted(s),
    ensures
        live_values(s.ring.slots, s.ring.cap as int).to_multiset().add(s.popped) == s.pushed,
{
    shared::lemma_every_value_leaves_once(s.shared());
}

/// A pop returns nothing exactly if all that was pushed has been popped,
/// wherever its scan starts.
pub proof fn lemma_pop_is_empty_exactly_when_all_is_popped<T>(s: Session<T>, next: usize)
    requires
        accounted(s),
    ensures
        s.ring.batched().claimable(next) is None <==> s.popped == s.pushed,
{
    shared::lemma_pop_is_empty_exactly_when_all_is_taken(s.shared(), next);
}

/// Giving up a batch changes neither what is in the ring nor what anybody
/// else has.
pub proof fn lemma_abandoning_keeps_the_contents<T>(s: Session<T>, who: int)
    requires
        accounted(s),
        s.batches.dom().contains(who),
    ensures
        contents(s.ring.abandoned(s.batches[who], 0).0.batched()) == contents(s.ring.batched()),
        accounted(stepped(s, Event::Depart(who))),
{
    lemma_abandoning_is_accounted_for(s, who, 0);
    lemma_step_is_accounted_for(s, Event::Depart(who));
}

/// Every position that was reserved, and that its slot has not passed, is
/// in a batch or published: none is lost to the ring.
pub open spec fn nothing_stranded<T>(s: Session<T>) -> bool {
    forall|pos: int|
        0 <= pos < s.ring.claim && #[trigger] s.ring.batched().at(pos).pos <= pos ==> {
            ||| exists|who: int| #[trigger]
                s.batches.dom().contains(who) && s.batches[who].reserves(pos)
            ||| s.ring.batched().at(pos).pos == pos && s.ring.batched().at(pos).phase is Published
        }
}

proof fn lemma_stranded_as_shared<T>(s: Session<T>)
    ensures
        nothing_stranded(s) == shared::nothing_stranded(s.shared()),
{
    assert forall|pos: int| #[trigger] shared::somewhere(s.shared(), pos) == ({
        ||| exists|who: int| #[trigger] s.batches.dom().contains(who) && s.batches[who].reserves(pos)
        ||| s.ring.batched().at(pos).pos == pos && s.ring.batched().at(pos).phase is Published
    }) by {
        let t = s.shared();
        if exists|who: int| #[trigger] s.batches.dom().contains(who) && s.batches[who].reserves(
            pos,
        ) {
            let who = choose|who: int| #[trigger]
                s.batches.dom().contains(who) && s.batches[who].reserves(pos);
            assert(t.batches.dom().contains(who) && t.batches[who].reserves(pos));
        }
        if exists|who: int| #[trigger] t.batches.dom().contains(who) && t.batches[who].reserves(
            pos,
        ) {
            let who = choose|who: int| #[trigger]
                t.batches.dom().contains(who) && t.batches[who].reserves(pos);
            assert(s.batches.dom().contains(who) && s.batches[who].reserves(pos));
        }
    }
    if nothing_stranded(s) {
        assert forall|pos: int|
            0 <= pos < s.shared().ring.claim && #[trigger] s.shared().ring.at(pos).pos
                <= pos implies shared::somewhere(s.shared(), pos) by {
            assert(s.ring.batched().at(pos).pos <= pos);
        }
    }
    if shared::nothing_stranded(s.shared()) {
        assert forall|pos: int|
            0 <= pos < s.ring.claim && #[trigger] s.ring.batched().at(pos).pos <= pos implies {
            ||| exists|who: int| #[trigger]
                s.batches.dom().contains(who) && s.batches[who].reserves(pos)
            ||| s.ring.batched().at(pos).pos == pos && s.ring.batched().at(pos).phase is Published
        } by {
            assert(s.shared().ring.at(pos).pos <= pos);
            assert(shared::somewhere(s.shared(), pos));
        }
    }
}

/// Nothing is stranded if nothing is in a session with the same slots and
/// cursors whose ring parks.
proof fn lemma_settles_stranding_nothing<T>(parking: shared::Session<T>, s: Session<T>)
    requires
        shared::nothing_stranded(parking),
        s.ring.cap == parking.ring.cap,
        s.ring.slots == parking.ring.slots,
        s.ring.claim == parking.ring.claim,
        s.batches == parking.batches,
        parking.reserved == Set::<int>::empty(),
        parking.held == Set::<int>::empty(),
    ensures
        nothing_stranded(s),
{
    let quiet = s.ring.batched();
    shared::lemma_otherwise_strands_nothing(parking, quiet);
    let settled = shared::stepped(parking, shared::Event::Otherwise(quiet));
    let same = shared::Session { pushed: s.pushed, taken: s.popped, ..settled };
    assert(same == s.shared());
    assert forall|pos: int|
        0 <= pos < same.ring.claim && #[trigger] same.ring.at(pos).pos <= pos implies shared::somewhere(
        same,
        pos,
    ) by {
        assert(settled.ring.at(pos).pos <= pos);
        assert(shared::somewhere(settled, pos));
        if exists|who: int| #[trigger]
            settled.batches.dom().contains(who) && settled.batches[who].reserves(pos) {
            let who = choose|who: int| #[trigger]
                settled.batches.dom().contains(who) && settled.batches[who].reserves(pos);
            assert(same.batches.dom().contains(who) && same.batches[who].reserves(pos));
        }
    }
    lemma_stranded_as_shared(s);
}

proof fn lemma_abandoning_strands_nothing<T>(s: Session<T>, who: int, from: int)
    requires
        accounted(s),
        nothing_stranded(s),
        s.batches.dom().contains(who),
        0 <= from <= 32,
    ensures
        ({
            let (ring, batch, blocked) = s.ring.abandoned(s.batches[who], from);
            nothing_stranded(Session { ring, batches: s.batches.insert(who, batch), ..s })
        }),
    decreases 32 - from,
{
    let batch = s.batches[who];
    let pos: int = batch.start + from;
    if from >= 32 {
        assert(s.batches.insert(who, batch) =~= s.batches);
    } else if !bit32(batch.unused, from) {
        lemma_abandoning_strands_nothing(s, who, from + 1);
    } else if s.ring.batched().writable(pos) {
        assert(batch.reserves(pos));
        lemma_stranded_as_shared(s);
        shared::lemma_giving_up_is_accounted_for(s.shared(), who, pos);
        shared::lemma_giving_up_strands_nothing(s.shared(), who, pos);
        let parking = shared::Session {
            ring: s.ring.batched().freed(pos),
            batches: s.batches.insert(who, batch.without(pos)),
            ..s.shared()
        };
        let next = Session {
            ring: s.ring.freed(pos),
            batches: s.batches.insert(who, batch.without(pos)),
            ..s
        };
        assert(parking.ring.slots =~= next.ring.slots);
        lemma_settles(parking, next);
        lemma_settles_stranding_nothing(parking, next);
        lemma_abandoning_strands_nothing(next, who, from + 1);
        let end = next.ring.abandoned(batch.without(pos), from + 1).1;
        assert(next.batches.insert(who, end) =~= s.batches.insert(who, end));
    } else {
        assert(s.batches.insert(who, batch) =~= s.batches);
    }
}

/// No step loses a position: whatever was reserved and is not passed by
/// its slot stays in a batch or is published. In particular a producer
/// that leaves hands its slots on.
pub proof fn lemma_step_strands_nothing<T>(s: Session<T>, event: Event<T>)
    requires
        accounted(s),
        nothing_stranded(s),
        possible(s, event),
    ensures
        nothing_stranded(stepped(s, event)),
{
    let t = stepped(s, event);
    lemma_stranded_as_shared(s);
    match event {
        Event::Push(who, val) => {
            let push = shared::Event::Push(who, PRODUCER_BATCH as nat, val);
            assert(s.shared().batches.dom().contains(who));
            lemma_push_moves_as_batched(s.ring, s.batches[who], val);
            shared::lemma_step_strands_nothing(s.shared(), push);
            let parking = shared::stepped(s.shared(), push);
            assert(t.batches =~= parking.batches);
            lemma_settles_stranding_nothing(parking, t);
        },
        Event::PushPrimary(who, val) => {
            let batch = s.batches[who];
            match primary_from(batch, 0) {
                Some(pos) => if s.ring.batched().writable(pos) {
                    lemma_primary_is_reserved(batch, 0);
                    shared::lemma_writing_strands_nothing(s.shared(), who, pos, val);
                    let ring = s.ring.batched().staged(pos, Some(val)).published(pos);
                    let parking = shared::Session {
                        ring,
                        batches: s.batches.insert(who, batch.without(pos)),
                        pushed: s.pushed.insert(val),
                        ..s.shared()
                    };
                    lemma_next_lap(pos, s.ring.cap);
                    assert(ring.slots =~= t.ring.slots);
                    lemma_settles_stranding_nothing(parking, t);
                },
                None => {},
            }
        },
        Event::Pop(scan) => {
            let batched = s.ring.batched();
            lemma_claimable_iff_published(batched, scan.next);
            match batched.claimable(scan.next) {
                Some(pos) => {
                    let claim = shared::Event::<T>::Claim(scan, CONSUMED_FLUSH as nat);
                    shared::lemma_step_is_accounted_for(s.shared(), claim);
                    shared::lemma_step_strands_nothing(s.shared(), claim);
                    let claimed = shared::stepped(s.shared(), claim);
                    assert(claimed.held.contains(pos));
                    let release = shared::Event::<T>::Release(pos);
                    shared::lemma_step_strands_nothing(claimed, release);
                    let parking = shared::stepped(claimed, release);
                    lemma_next_lap(pos, s.ring.cap);
                    assert(parking.ring.slots =~= t.ring.slots);
                    assert(parking.held =~= Set::<int>::empty());
                    lemma_settles_stranding_nothing(parking, t);
                },
                None => {
                    assert(t == s);
                },
            }
        },
        Event::Join(who) => {
            shared::lemma_coming_and_going_strands_nothing(
                s.shared(),
                who,
                shared::no_batch(ParkSlot::Slotless),
            );
            lemma_stranded_as_shared(t);
        },
        Event::Depart(who) => {
            lemma_abandoning_strands_nothing(s, who, 0);
            let (ring, batch, blocked) = s.ring.abandoned(s.batches[who], 0);
            let gone = Session { ring, batches: s.batches.insert(who, batch), ..s };
            if !blocked {
                lemma_scan_departure_strands_nothing(s.ring, s.batches[who], 0);
                lemma_stranded_as_shared(gone);
                shared::lemma_coming_and_going_strands_nothing(gone.shared(), who, batch);
                assert(gone.batches.remove(who) =~= s.batches.remove(who));
                lemma_stranded_as_shared(t);
            }
        },
        Event::Otherwise(ring) => lemma_settles_stranding_nothing(s.shared(), t),
    }
}

/// Over any run no position is lost to the ring.
pub proof fn lemma_run_strands_nothing<T>(s: Session<T>, run: Seq<Event<T>>)
    requires
        accounted(s),
        nothing_stranded(s),
        runs(s, run),
    ensures
        nothing_stranded(after(s, run)),
    decreases run.len(),
{
    if run.len() > 0 {
        lemma_run_strands_nothing(s, run.drop_last());
        lemma_every_value_is_accounted_for(s, run.drop_last());
        lemma_step_strands_nothing(after(s, run.drop_last()), run.last());
    }
}

} // verus!
