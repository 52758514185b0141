//! The shared part of the ring.

use core::marker::PhantomData;

use vstd::prelude::*;

use crate::capacity::{lemma_next_lap, slot_of, Capacity};
use crate::common::bits::has_bit64;
use crate::common::close_state::CloseState;
use crate::common::endpoint_count::EndpointCount;
use crate::common::park::{count_bits, population, WakeSet};
use crate::common::park_registry::{ParkRegistry, ParkSlot, PARK_SLOTS};
use crate::common::wake_delivery::WakeDelivery;
use crate::common::wake_interest::WakeInterest;
use crate::mpmc::awaited_batch::{announcement, AwaitedBatch};
use crate::mpmc::backstop_monitor::{
    BackstopMonitor, BackstopStats, BackstopWatch, WaiterSide, WatchState,
};
use crate::mpmc::config::{bounds_hold, Config, DefaultConfig};
use crate::mpmc::consumed_watermark::{ConsumedTally, ConsumedWatermark};
use crate::mpmc::consumer::Consumer;
use crate::mpmc::producer::Producer;
use crate::mpmc::ready_word::ReadyState;
use crate::mpmc::ring_model::{first_interested, routed, Batch, RingModel, Scan};
use crate::mpmc::slot_table::{live_values, ready_word_of, Phase, Slot, SlotTable};

verus! {

/// A multi-producer, multi-consumer ring.
///
/// Producers reserve batches of positions from a shared claim cursor and
/// publish into whichever slot of their batch is free first. Consumers
/// scan the slots from private cursors and claim the first published
/// one. There is no order between values, not even between those of one
/// producer.
#[derive(Debug)]
pub struct RingBuffer<T, C: Config = DefaultConfig> {
    table: SlotTable<T>,
    /// The claim cursor: the first position that nobody has reserved.
    claim: usize,
    /// A lower bound on the positions consumed, which bounds the size of
    /// a producer's next batch.
    consumed: ConsumedWatermark,
    producer_count: EndpointCount,
    consumer_count_live: EndpointCount,
    /// Set when the last consumer leaves; a blocked producer then fails
    /// instead of waiting for nobody.
    consumer_closed: CloseState,
    /// Counts the clones of consumers, to stagger where their scans
    /// start.
    clone_counter: usize,
    closed: CloseState,
    producer_park: WakeSet,
    /// What each parked producer waits for, by park slot, so that a
    /// release can be routed to the producer it frees.
    awaited: Vec<AwaitedBatch>,
    consumer_park: WakeSet,
    producer_slots: ParkRegistry,
    consumer_slots: ParkRegistry,
    producer_waker: WakeSet,
    consumer_waker: WakeSet,
    backstop: BackstopMonitor,
    _config: PhantomData<C>,
}

impl<T, C: Config> View for RingBuffer<T, C> {
    type V = RingModel<T>;

    closed spec fn view(&self) -> RingModel<T> {
        RingModel {
            cap: self.table.cap(),
            slots: self.table@,
            claim: self.claim,
            consumed: self.consumed@,
            producers: self.producer_count.live,
            consumers: self.consumer_count_live.live,
            producers_gone: self.closed.closed,
            consumers_gone: self.consumer_closed.closed,
            clones: self.clone_counter,
            producer_park: self.producer_park,
            consumer_park: self.consumer_park,
            producer_tasks: self.producer_waker,
            consumer_tasks: self.consumer_waker,
            awaited: self.awaited@.map_values(|a: AwaitedBatch| a@),
            producer_slots: self.producer_slots,
            consumer_slots: self.consumer_slots,
            backstop: self.backstop@,
        }
    }
}

impl<T, C: Config> RingBuffer<T, C> {
    /// The words of the slots are in order.
    pub closed spec fn parts_wf(&self) -> bool {
        self.table.wf()
    }

    pub open spec fn wf(&self) -> bool {
        &&& self.parts_wf()
        &&& self@.consistent()
        &&& bounds_hold::<C>()
    }

    /// Creates a ring. Fewer than four slots cannot tell the states of a
    /// slot apart, and the configuration must be one that
    /// [`validate`](crate::mpmc::config::validate) accepts.
    #[must_use]
    pub fn new(capacity: Capacity) -> (ring: Self)
        requires
            capacity.wf(),
            capacity@ >= 4,
            bounds_hold::<C>(),
        ensures
            ring.wf(),
            ring@ == RingModel::<T>::fresh(capacity@),
    {
        proof {
            capacity.lemma_bounds();
            capacity.lemma_half_the_word();
        }
        let table: SlotTable<T> = SlotTable::new(capacity);
        let mut awaited: Vec<AwaitedBatch> = Vec::new();
        let mut i: usize = 0;
        while i < PARK_SLOTS
            invariant
                i <= PARK_SLOTS,
                awaited@.len() == i,
                forall|j: int| 0 <= j < i ==> (#[trigger] awaited@[j])@ is None,
            decreases PARK_SLOTS - i,
        {
            awaited.push(AwaitedBatch::new());
            i = i + 1;
        }
        let ring = RingBuffer {
            table,
            claim: 0,
            consumed: ConsumedWatermark::new(),
            producer_count: EndpointCount::new(),
            consumer_count_live: EndpointCount::new(),
            consumer_closed: CloseState::new(),
            clone_counter: 0,
            closed: CloseState::new(),
            producer_park: WakeSet::new(),
            awaited,
            consumer_park: WakeSet::new(),
            producer_slots: ParkRegistry::new(),
            consumer_slots: ParkRegistry::new(),
            producer_waker: WakeSet::new(),
            consumer_waker: WakeSet::new(),
            backstop: BackstopMonitor::new(),
            _config: PhantomData,
        };
        proof {
            ring.table.lemma_shape();
            assert(ring@.awaited =~= RingModel::<T>::fresh(capacity@).awaited);
            assert(ring@ =~= RingModel::<T>::fresh(capacity@));
        }
        ring
    }

    /// Whether the positions of the next batch and of the three laps after
    /// it fit the machine word.
    pub fn has_headroom(&self) -> (fits: bool)
        requires
            self.wf(),
        ensures
            fits == self@.headroom(),
    {
        let cap: usize = self.capacity();
        cap <= (usize::MAX - 64) / 3 && self.claim <= usize::MAX - 64 - 3 * cap
    }

    /// The number of slots.
    pub fn capacity(&self) -> (cap: usize)
        requires
            self.wf(),
        ensures
            cap == self@.cap,
    {
        self.table.capacity().get()
    }

    /// The index of the slot that serves `pos`.
    pub(crate) fn index_of(&self, pos: usize) -> (index: usize)
        requires
            self.wf(),
        ensures
            index == slot_of(pos as int, self@.cap),
    {
        self.table.capacity().index_of(pos)
    }

    /// Hands out the first producer and the first consumer. Both can be
    /// cloned.
    pub fn split(&mut self) -> (handles: (Producer<T, C>, Consumer<T, C>))
        requires
            old(self).wf(),
            old(self)@ == RingModel::<T>::fresh(old(self)@.cap),
        ensures
            final(self).wf(),
            final(self)@ == (RingModel {
                producer_slots: old(self)@.producer_slots.after_lease(),
                consumer_slots: old(self)@.consumer_slots.after_lease(),
                ..old(self)@
            }),
            handles.0@ == (Batch {
                start: 0,
                unused: 0,
                size: 0,
                slot: old(self)@.producer_slots.next(),
            }),
            handles.0.attached(final(self)),
            handles.1@ == (Scan { next: 0, pending: 0, slot: old(self)@.consumer_slots.next() }),
            handles.1.wf(),
    {
        let producer: Producer<T, C> = Producer::new(self.producer_slots.lease());
        let consumer: Consumer<T, C> = Consumer::new(self.consumer_slots.lease());
        (producer, consumer)
    }

    /// Starts watching the park loop of a producer.
    pub fn watch_backstop_producer(&self) -> (watch: BackstopWatch)
        ensures
            watch@ == WatchState::fresh(WaiterSide::Producer),
    {
        BackstopWatch::new(WaiterSide::Producer)
    }

    /// Starts watching the park loop of a consumer.
    pub fn watch_backstop_consumer(&self) -> (watch: BackstopWatch)
        ensures
            watch@ == WatchState::fresh(WaiterSide::Consumer),
    {
        BackstopWatch::new(WaiterSide::Consumer)
    }

    /// Reads this ring's backstop counters.
    #[must_use]
    pub fn backstop_stats(&self) -> (stats: BackstopStats)
        ensures
            stats == self@.backstop,
    {
        self.backstop.stats()
    }

    /// Diagnostic snapshot: the claim cursor and the `ready` and `done`
    /// words of every slot.
    pub fn debug_snapshot(&self) -> (snapshot: (usize, Vec<usize>, Vec<usize>))
        requires
            self.wf(),
        ensures
            snapshot.0 == self@.claim,
            snapshot.1@.len() == self@.cap,
            snapshot.2@.len() == self@.cap,
            forall|s: int|
                0 <= s < self@.cap ==> #[trigger] snapshot.1@[s] == ready_word_of(
                    self@.slots[s],
                    self@.cap,
                ),
            forall|s: int| 0 <= s < self@.cap ==> #[trigger] snapshot.2@[s] == self@.slots[s].pos,
    {
        let (ready, done) = self.table.words();
        assert forall|s: int| 0 <= s < self@.cap implies #[trigger] ready@[s] == ready_word_of(
            self@.slots[s],
            self@.cap,
        ) by {
            assert(done@[s] == self@.slots[s].pos);
        }
        (self.claim, ready, done)
    }

    /// Diagnostic snapshot of who is parked: the bitmaps of the producers
    /// and of the consumers.
    pub fn debug_park_snapshot(&self) -> (snapshot: (u64, u64))
        ensures
            snapshot == (self@.producer_park.wake, self@.consumer_park.wake),
    {
        (self.producer_park.wake, self.consumer_park.wake)
    }

    /// How many producers are parked now.
    pub fn parked_producer_count(&self) -> (n: u32)
        ensures
            n == population(self@.producer_park.wake, 64),
    {
        count_bits(self.producer_park.wake)
    }

    /// What the producer of park slot `i` has announced.
    pub fn announced(&self, i: usize) -> (announced: Option<(u64, u32)>)
        requires
            self.wf(),
            i < PARK_SLOTS,
        ensures
            announced == self@.awaited[i as int],
    {
        self.awaited[i].announced()
    }

    /// Whether the handle of a producer's park slot is armed.
    pub fn producer_is_armed(&self, slot: ParkSlot) -> (armed: bool)
        requires
            slot.wf(),
        ensures
            armed == (slot matches ParkSlot::Leased(i) && crate::common::bits::bit64(
                self@.producer_park.handles,
                i as int,
            )),
    {
        self.producer_park.is_armed(slot)
    }

    /// Collects the unpark that is owed to the producer of park slot `i`.
    pub fn take_producer_unpark(&mut self, i: usize) -> (owed: bool)
        requires
            old(self).wf(),
            i < PARK_SLOTS,
        ensures
            final(self).wf(),
            owed == old(self)@.producer_park.owes(i as int),
            final(self)@ == (RingModel {
                producer_park: old(self)@.producer_park.paid(i as int),
                ..old(self)@
            }),
    {
        self.producer_park.take_unpark(i)
    }

    /// Collects the unpark that is owed to the consumer of park slot `i`.
    pub fn take_consumer_unpark(&mut self, i: usize) -> (owed: bool)
        requires
            old(self).wf(),
            i < PARK_SLOTS,
        ensures
            final(self).wf(),
            owed == old(self)@.consumer_park.owes(i as int),
            final(self)@ == (RingModel {
                consumer_park: old(self)@.consumer_park.paid(i as int),
                ..old(self)@
            }),
    {
        self.consumer_park.take_unpark(i)
    }

    /// Collects the waker call that is owed to the producer task of park
    /// slot `i`.
    pub fn take_producer_waker(&mut self, i: usize) -> (owed: bool)
        requires
            old(self).wf(),
            i < PARK_SLOTS,
        ensures
            final(self).wf(),
            owed == old(self)@.producer_tasks.owes(i as int),
            final(self)@ == (RingModel {
                producer_tasks: old(self)@.producer_tasks.paid(i as int),
                ..old(self)@
            }),
    {
        self.producer_waker.take_unpark(i)
    }

    /// Collects the waker call that is owed to the consumer task of park
    /// slot `i`.
    pub fn take_consumer_waker(&mut self, i: usize) -> (owed: bool)
        requires
            old(self).wf(),
            i < PARK_SLOTS,
        ensures
            final(self).wf(),
            owed == old(self)@.consumer_tasks.owes(i as int),
            final(self)@ == (RingModel {
                consumer_tasks: old(self)@.consumer_tasks.paid(i as int),
                ..old(self)@
            }),
    {
        self.consumer_waker.take_unpark(i)
    }

    /// Collects the unparks that are owed to the producers without a park
    /// slot.
    pub fn take_producer_overflow_unparks(&mut self) -> (owed: bool)
        requires
            old(self).wf(),
        ensures
            final(self).wf(),
            owed == old(self)@.producer_park.overflow_owed,
            final(self)@ == (RingModel {
                producer_park: old(self)@.producer_park.overflow_paid(),
                ..old(self)@
            }),
    {
        self.producer_park.take_overflow()
    }

    /// Collects the unparks that are owed to the consumers without a park
    /// slot.
    pub fn take_consumer_overflow_unparks(&mut self) -> (owed: bool)
        requires
            old(self).wf(),
        ensures
            final(self).wf(),
            owed == old(self)@.consumer_park.overflow_owed,
            final(self)@ == (RingModel {
                consumer_park: old(self)@.consumer_park.overflow_paid(),
                ..old(self)@
            }),
    {
        self.consumer_park.take_overflow()
    }

    /// Collects the waker calls that are owed to the producer tasks without a park
    /// slot.
    pub fn take_producer_overflow_wakers(&mut self) -> (owed: bool)
        requires
            old(self).wf(),
        ensures
            final(self).wf(),
            owed == old(self)@.producer_tasks.overflow_owed,
            final(self)@ == (RingModel {
                producer_tasks: old(self)@.producer_tasks.overflow_paid(),
                ..old(self)@
            }),
    {
        self.producer_waker.take_overflow()
    }

    /// Collects the waker calls that are owed to the consumer tasks without a park
    /// slot.
    pub fn take_consumer_overflow_wakers(&mut self) -> (owed: bool)
        requires
            old(self).wf(),
        ensures
            final(self).wf(),
            owed == old(self)@.consumer_tasks.overflow_owed,
            final(self)@ == (RingModel {
                consumer_tasks: old(self)@.consumer_tasks.overflow_paid(),
                ..old(self)@
            }),
    {
        self.consumer_waker.take_overflow()
    }

    /// Tears the ring down, handing back in slot order each value that
    /// was published and that no consumer has finished with.
    pub fn drop(self) -> (left: Vec<T>)
        requires
            self.wf(),
            self@.headroom(),
        ensures
            left@ == live_values(self@.slots, self@.cap as int),
    {
        proof {
            assert forall|i: int| 0 <= i < self.table.cap() implies (#[trigger] self.table@[i]).pos
                + self.table.cap() <= usize::MAX by {
                assert(self@.slots[i].pos < self@.claim + self@.cap);
            }
        }
        self.table.into_live_values()
    }

    /// Finds the first parked producer, going round from the cursor, that
    /// answers the release of `pos` with `wanted`.
    fn find_interested(&self, pos: usize, wanted: WakeInterest) -> (found: Option<usize>)
        requires
            self.wf(),
        ensures
            ({
                let first = first_interested(
                    self@.producer_park.wake,
                    self@.awaited,
                    pos,
                    wanted,
                    self@.producer_park.cursor as int,
                    64,
                );
                match found {
                    Some(i) => first == Some(i as int) && i < PARK_SLOTS,
                    None => first is None,
                }
            }),
    {
        let mut steps: usize = 0;
        while steps < PARK_SLOTS
            invariant
                steps <= PARK_SLOTS,
                self.wf(),
                first_interested(
                    self@.producer_park.wake,
                    self@.awaited,
                    pos,
                    wanted,
                    self@.producer_park.cursor as int,
                    64,
                ) == first_interested(
                    self@.producer_park.wake,
                    self@.awaited,
                    pos,
                    wanted,
                    self@.producer_park.cursor + steps,
                    (PARK_SLOTS - steps) as nat,
                ),
            decreases PARK_SLOTS - steps,
        {
            let i: usize = (self.producer_park.cursor + steps) % PARK_SLOTS;
            assert(self@.awaited[i as int] == self.awaited@[i as int]@);
            if has_bit64(self.producer_park.wake, i) && self.awaited[i].interest(pos) == wanted {
                return Some(i);
            }
            steps = steps + 1;
        }
        None
    }

    /// Wakes the parked producer that reserved `pos`, if there is one,
    /// and otherwise one that takes whatever frees first.
    ///
    /// Every release of a slot goes through here. A producer parked with
    /// a partial batch can only use the release of one of its own
    /// positions; one pinned to other positions is left asleep, since a
    /// wake would be spent on it for nothing. Producers without a park
    /// slot are woken in any case.
    pub(crate) fn wake_producer_for(&mut self, pos: usize)
        requires
            old(self).wf(),
        ensures
            final(self).wf(),
            final(self)@ == old(self)@.producer_woken_for(pos),
    {
        let reserved: Option<usize> = self.find_interested(pos, WakeInterest::Reserved);
        let found: Option<usize> = match reserved {
            Some(i) => Some(i),
            None => self.find_interested(pos, WakeInterest::Any),
        };
        match found {
            Some(i) => {
                self.producer_park.serve(i);
            },
            None => {},
        }
        self.producer_park.serve_overflow();
    }

    /// The first position that no producer has reserved.
    pub(crate) fn claim_cursor(&self) -> (claim: usize)
        ensures
            claim == self@.claim,
    {
        self.claim
    }

    /// How many positions a producer that reserves up to `limit` at a
    /// time gets now.
    pub(crate) fn refill_size(&self, limit: usize) -> (size: Option<usize>)
        requires
            self.wf(),
        ensures
            match size {
                Some(n) => self@.refill_size(limit as nat) == Some(n as nat),
                None => self@.refill_size(limit as nat) is None,
            },
    {
        match self.consumed.free(self.claim, self.capacity()) {
            Some(free) => Some(
                if free <= limit {
                    free
                } else {
                    limit
                },
            ),
            None => if self.table.is_free_for(self.claim) {
                Some(1)
            } else {
                None
            },
        }
    }

    /// Reserves the next `n` positions.
    pub(crate) fn claim_up(&mut self, n: usize)
        requires
            old(self).wf(),
            old(self)@.claim + n <= usize::MAX,
        ensures
            final(self).wf(),
            final(self)@ == old(self)@.claimed_up(n as nat),
    {
        self.claim = self.claim + n;
    }

    /// Whether the owner of `pos` can write now.
    pub(crate) fn is_writable(&self, pos: usize) -> (writable: bool)
        requires
            self.wf(),
        ensures
            writable == self@.writable(pos as int),
    {
        self.table.is_free_for(pos)
    }

    /// The cell of `pos`, for its owner to write.
    pub(crate) fn cell_mut(&mut self, pos: usize) -> (cell: &mut Option<T>)
        requires
            old(self).wf(),
            old(self)@.honours(pos as int),
            old(self)@.writable(pos as int),
        ensures
            old(self)@.at(pos as int).phase == Phase::Open(*cell),
            final(self).wf(),
            final(self)@ == old(self)@.staged(pos as int, *final(cell)),
    {
        proof {
            let p = pos as int;
            assert forall|staged: Option<T>| #[trigger] self@.staged(p, staged).consistent() by {
                crate::mpmc::ring_model::lemma_with_slot(
                    self@,
                    p,
                    Slot { pos: pos as nat, phase: Phase::Open(staged) },
                );
            }
        }
        self.table.cell_mut(pos)
    }

    /// Writes `val` at `pos`, ahead of its publication.
    pub(crate) fn stage(&mut self, pos: usize, val: T)
        requires
            old(self).wf(),
            old(self)@.honours(pos as int),
            old(self)@.writable(pos as int),
        ensures
            final(self).wf(),
            final(self)@ == old(self)@.staged(pos as int, Some(val)),
    {
        *self.cell_mut(pos) = Some(val);
    }

    /// Takes back what was written at `pos` and not published.
    pub(crate) fn unstage(&mut self, pos: usize) -> (val: Option<T>)
        requires
            old(self).wf(),
            old(self)@.honours(pos as int),
            old(self)@.writable(pos as int),
        ensures
            old(self)@.at(pos as int).phase == Phase::Open(val),
            final(self).wf(),
            final(self)@ == old(self)@.staged(pos as int, None),
    {
        self.cell_mut(pos).take()
    }

    /// Publishes what was written at `pos`, and wakes a consumer.
    pub(crate) fn publish(&mut self, pos: usize)
        requires
            old(self).wf(),
            old(self)@.honours(pos as int),
            old(self)@.writable(pos as int),
            old(self)@.at(pos as int).phase matches Phase::Open(staged) && staged is Some,
        ensures
            final(self).wf(),
            final(self)@ == old(self)@.published(pos as int),
    {
        proof {
            crate::mpmc::ring_model::lemma_with_slot(
                self@,
                pos as int,
                Slot {
                    pos: pos as nat,
                    phase: Phase::Published(self@.at(pos as int).value()),
                },
            );
        }
        self.table.publish(pos);
        self.consumer_park.wake_one();
        self.consumer_waker.flush();
    }

    /// The decoded state of the slot that serves `pos`.
    pub(crate) fn state(&self, pos: usize) -> (state: ReadyState)
        requires
            self.wf(),
        ensures
            match self@.at(pos as int).phase {
                Phase::Published(_) => state == ReadyState::Published(
                    self@.at(pos as int).pos as usize,
                ),
                Phase::Taken(_) => state == ReadyState::Claimed(
                    self@.at(pos as int).pos as usize,
                ),
                Phase::Open(_) => !(state is Published),
            },
            self@.at(pos as int).pos <= usize::MAX,
    {
        proof {
            self.table.lemma_shape();
            lemma_next_lap(pos as int, self@.cap);
        }
        self.table.state(pos)
    }

    /// Tries to claim the value published at `round_pos`.
    pub(crate) fn take(&mut self, round_pos: usize) -> (won: bool)
        requires
            old(self).wf(),
            round_pos + 2 <= usize::MAX,
        ensures
            final(self).wf(),
            won == (old(self)@.at(round_pos as int).pos == round_pos && old(self)@.at(
                round_pos as int,
            ).phase is Published),
            final(self)@ == if won {
                old(self)@.taken(round_pos as int)
            } else {
                old(self)@
            },
    {
        let won: bool = self.table.claim(round_pos);
        proof {
            lemma_next_lap(round_pos as int, old(self)@.cap);
            if won {
                crate::mpmc::ring_model::lemma_with_slot(
                    old(self)@,
                    round_pos as int,
                    Slot {
                        pos: round_pos as nat,
                        phase: Phase::Taken(old(self)@.at(round_pos as int).value()),
                    },
                );
            }
        }
        won
    }

    /// The value claimed at `round_pos`.
    pub(crate) fn peek(&self, round_pos: usize) -> (val: &T)
        requires
            self.wf(),
            self@.at(round_pos as int).pos == round_pos,
            self@.at(round_pos as int).phase is Taken,
        ensures
            *val == self@.at(round_pos as int).value(),
    {
        self.table.peek(round_pos)
    }

    /// Moves the value claimed at `round_pos` out, hands the slot to the
    /// next lap, and wakes the producer that this frees.
    pub(crate) fn free(&mut self, round_pos: usize) -> (val: T)
        requires
            old(self).wf(),
            old(self)@.headroom(),
            old(self)@.at(round_pos as int).pos == round_pos,
            old(self)@.at(round_pos as int).phase is Taken,
        ensures
            final(self).wf(),
            val == old(self)@.at(round_pos as int).value(),
            final(self)@ == old(self)@.freed(round_pos as int),
    {
        proof {
            lemma_next_lap(round_pos as int, self@.cap);
            crate::mpmc::ring_model::lemma_with_slot(
                self@,
                round_pos as int,
                Slot::open_for((round_pos + self@.cap) as nat),
            );
        }
        let next: usize = round_pos + self.capacity();
        let val: T = self.table.release(round_pos);
        self.wake_producer_for(next);
        val
    }

    /// Gives up the reservation of `pos`: hands the slot to the next lap
    /// and wakes the producer that this frees.
    pub(crate) fn abandon(&mut self, pos: usize)
        requires
            old(self).wf(),
            old(self)@.headroom(),
            old(self)@.honours(pos as int),
            old(self)@.writable(pos as int),
        ensures
            final(self).wf(),
            final(self)@ == old(self)@.freed(pos as int).producer_tasks_woken(),
    {
        proof {
            lemma_next_lap(pos as int, self@.cap);
            crate::mpmc::ring_model::lemma_with_slot(
                self@,
                pos as int,
                Slot::open_for((pos + self@.cap) as nat),
            );
        }
        let next: usize = pos + self.capacity();
        self.table.abandon(pos);
        self.wake_producer_for(next);
        self.producer_waker.flush();
    }

    /// Wakes every waiting producer task.
    pub(crate) fn notify_producers(&mut self)
        requires
            old(self).wf(),
        ensures
            final(self).wf(),
            final(self)@ == old(self)@.producer_tasks_woken(),
    {
        self.producer_waker.flush();
    }

    /// Wakes up to `n` waiting producer tasks.
    pub(crate) fn notify_producers_n(&mut self, n: usize)
        requires
            old(self).wf(),
        ensures
            final(self).wf(),
            final(self)@ == old(self)@.producer_tasks_woken_n(n as nat),
    {
        self.producer_waker.wake_n(n);
    }

    /// Wakes one sleeping consumer and every waiting consumer task.
    pub(crate) fn nudge_consumers(&mut self)
        requires
            old(self).wf(),
        ensures
            final(self).wf(),
            final(self)@ == old(self)@.consumers_nudged(),
    {
        self.consumer_park.wake_one();
        self.consumer_waker.flush();
    }

    /// Counts one pop of a consumer.
    pub(crate) fn count_pop(&mut self, tally: &mut ConsumedTally)
        requires
            old(self).wf(),
            old(tally)@ < C::CONSUMED_FLUSH,
        ensures
            final(self).wf(),
            (final(self)@, final(tally)@) == old(self)@.counted(
                old(tally)@,
                C::CONSUMED_FLUSH as nat,
            ),
            final(tally)@ < C::CONSUMED_FLUSH,
    {
        tally.record(&mut self.consumed, C::CONSUMED_FLUSH);
    }

    /// Publishes what is left of a consumer's tally.
    pub(crate) fn flush_tally(&mut self, tally: &mut ConsumedTally)
        requires
            old(self).wf(),
        ensures
            final(self).wf(),
            final(tally)@ == 0,
            final(self)@ == (RingModel {
                consumed: vstd::wrapping::usize_specs::wrapping_add(
                    old(self)@.consumed,
                    old(tally)@ as usize,
                ),
                ..old(self)@
            }),
    {
        tally.flush(&mut self.consumed);
    }

    /// Whether the last producer is gone.
    pub(crate) fn producers_gone(&self) -> (gone: bool)
        ensures
            gone == self@.producers_gone,
    {
        self.closed.is_closed()
    }

    /// Whether the last consumer is gone.
    pub(crate) fn consumers_gone(&self) -> (gone: bool)
        ensures
            gone == self@.consumers_gone,
    {
        self.consumer_closed.is_closed()
    }

    /// Announces the batch of a producer and arms its park slot, with
    /// what the watch samples just before the sleep.
    pub(crate) fn park_producer(
        &mut self,
        start: usize,
        unused: u32,
        slot: ParkSlot,
        watch: &mut BackstopWatch,
        work_visible: bool,
    )
        requires
            old(self).wf(),
            slot.wf(),
        ensures
            final(self).wf(),
            final(watch)@ == old(watch)@.before_park(
                old(self)@.producer_park.armed(slot).others(slot),
                work_visible,
            ),
            forall|size: u32|
                final(self)@ == (#[trigger] old(self)@.producer_parked(
                    Batch { start, unused, size, slot },
                )).with_backstop(
                    old(watch)@.counted_before_park(old(self)@.backstop, work_visible),
                ),
    {
        match slot {
            ParkSlot::Leased(i) => {
                self.awaited[i].announce(start, unused);
            },
            ParkSlot::Slotless => {},
        }
        self.producer_park.arm(slot);
        let peers: u32 = self.producer_park.others_parked(slot);
        watch.about_to_park(&mut self.backstop, peers, work_visible);
        proof {
            let announced = old(self)@.producer_parked(Batch { start, unused, size: 0, slot });
            assert(self@.awaited =~= announced.awaited);
        }
    }

    /// What the producer of `slot` finds when its sleep ends.
    pub(crate) fn producer_delivery(&self, slot: ParkSlot) -> (delivery: WakeDelivery)
        requires
            slot.wf(),
        ensures
            delivery == WakeDelivery::found(self@.producer_park, slot),
    {
        WakeDelivery::sample(&self.producer_park, slot)
    }

    /// Records how the sleep of the producer of `slot` ended, disarms the
    /// slot and withdraws what was announced.
    pub(crate) fn unpark_producer(
        &mut self,
        slot: ParkSlot,
        watch: &mut BackstopWatch,
        work: bool,
        claimed: bool,
    )
        requires
            old(self).wf(),
            slot.wf(),
        ensures
            final(self).wf(),
            ({
                let ended = old(watch)@.sleep_ended(
                    old(self)@.backstop,
                    WakeDelivery::found(old(self)@.producer_park, slot),
                    old(self)@.producer_park.others(slot),
                    work,
                    claimed,
                );
                &&& final(watch)@ == ended.0
                &&& final(self)@ == old(self)@.producer_unparked(slot).with_backstop(ended.1)
            }),
    {
        let work_visible = || -> (w: bool)
            ensures
                w == work,
            { work };
        let claimed_within_grace = || -> (c: bool)
            ensures
                c == claimed,
            { claimed };
        watch.parked_at(
            &mut self.backstop,
            &self.producer_park,
            slot,
            work_visible,
            claimed_within_grace,
        );
        self.disarm_producer(slot);
    }

    /// Whether the sleep of the producer of `slot` looks like one whose wake
    /// went missing, given whether work is visible to it.
    pub(crate) fn producer_deserves_grace(
        &self,
        slot: ParkSlot,
        watch: &BackstopWatch,
        work: bool,
    ) -> (deserves: bool)
        requires
            slot.wf(),
        ensures
            deserves == watch@.deserves_grace(
                WakeDelivery::found(self@.producer_park, slot),
                self@.producer_park.others(slot),
                work,
            ),
    {
        watch.looks_unwoken(
            WakeDelivery::sample(&self.producer_park, slot),
            self.producer_park.others_parked(slot),
            work,
        )
    }

    /// Records that the wake of the producer of `slot` came within the grace,
    /// and takes it off the record.
    pub(crate) fn unpark_producer_late(&mut self, slot: ParkSlot, watch: &mut BackstopWatch)
        requires
            old(self).wf(),
            slot.wf(),
        ensures
            final(self).wf(),
            final(watch)@ == old(watch)@.after_park(WakeDelivery::Delivered, 0, true),
            final(self)@ == old(self)@.producer_unparked(slot).with_backstop(
                old(self)@.backstop.with_late_wake(),
            ),
    {
        self.backstop.record_late_wake();
        watch.parked(&mut self.backstop, WakeDelivery::Delivered, 0, true);
        self.disarm_producer(slot);
    }

    /// Disarms a producer's park slot and withdraws its announcement.
    pub(crate) fn disarm_producer(&mut self, slot: ParkSlot)
        requires
            old(self).wf(),
            slot.wf(),
        ensures
            final(self).wf(),
            final(self)@ == old(self)@.producer_unparked(slot),
    {
        match slot {
            ParkSlot::Leased(i) => {
                self.awaited[i].retract();
            },
            ParkSlot::Slotless => {},
        }
        self.producer_park.disarm(slot);
        assert(self@.awaited =~= old(self)@.producer_unparked(slot).awaited);
    }

    /// Counts the success of a waiter.
    pub(crate) fn record_progress(&mut self, watch: &mut BackstopWatch)
        requires
            old(self).wf(),
        ensures
            final(self).wf(),
            final(watch)@ == WatchState::fresh(old(watch)@.side),
            final(self)@ == old(self)@.with_backstop(
                old(watch)@.counted_progress(old(self)@.backstop),
            ),
    {
        watch.made_progress(&mut self.backstop);
    }

    /// Arms a consumer's park slot, with what the watch samples just
    /// before the sleep.
    pub(crate) fn park_consumer(
        &mut self,
        slot: ParkSlot,
        watch: &mut BackstopWatch,
        work_visible: bool,
    )
        requires
            old(self).wf(),
            slot.wf(),
        ensures
            final(self).wf(),
            final(watch)@ == old(watch)@.before_park(
                old(self)@.consumer_park.armed(slot).others(slot),
                work_visible,
            ),
            final(self)@ == old(self)@.consumer_parked(slot).with_backstop(
                old(watch)@.counted_before_park(old(self)@.backstop, work_visible),
            ),
    {
        self.consumer_park.arm(slot);
        let peers: u32 = self.consumer_park.others_parked(slot);
        watch.about_to_park(&mut self.backstop, peers, work_visible);
    }

    /// What the consumer of `slot` finds when its sleep ends.
    pub(crate) fn consumer_delivery(&self, slot: ParkSlot) -> (delivery: WakeDelivery)
        requires
            slot.wf(),
        ensures
            delivery == WakeDelivery::found(self@.consumer_park, slot),
    {
        WakeDelivery::sample(&self.consumer_park, slot)
    }

    /// Records how the sleep of the consumer of `slot` ended, and disarms
    /// the slot.
    pub(crate) fn unpark_consumer(
        &mut self,
        slot: ParkSlot,
        watch: &mut BackstopWatch,
        work: bool,
        claimed: bool,
    )
        requires
            old(self).wf(),
            slot.wf(),
        ensures
            final(self).wf(),
            ({
                let ended = old(watch)@.sleep_ended(
                    old(self)@.backstop,
                    WakeDelivery::found(old(self)@.consumer_park, slot),
                    old(self)@.consumer_park.others(slot),
                    work,
                    claimed,
                );
                &&& final(watch)@ == ended.0
                &&& final(self)@ == old(self)@.consumer_unparked(slot).with_backstop(ended.1)
            }),
    {
        let work_visible = || -> (w: bool)
            ensures
                w == work,
            { work };
        let claimed_within_grace = || -> (c: bool)
            ensures
                c == claimed,
            { claimed };
        watch.parked_at(
            &mut self.backstop,
            &self.consumer_park,
            slot,
            work_visible,
            claimed_within_grace,
        );
        self.consumer_park.disarm(slot);
    }

    /// Whether the sleep of the consumer of `slot` looks like one whose wake
    /// went missing, given whether work is visible to it.
    pub(crate) fn consumer_deserves_grace(
        &self,
        slot: ParkSlot,
        watch: &BackstopWatch,
        work: bool,
    ) -> (deserves: bool)
        requires
            slot.wf(),
        ensures
            deserves == watch@.deserves_grace(
                WakeDelivery::found(self@.consumer_park, slot),
                self@.consumer_park.others(slot),
                work,
            ),
    {
        watch.looks_unwoken(
            WakeDelivery::sample(&self.consumer_park, slot),
            self.consumer_park.others_parked(slot),
            work,
        )
    }

    /// Records that the wake of the consumer of `slot` came within the grace,
    /// and takes it off the record.
    pub(crate) fn unpark_consumer_late(&mut self, slot: ParkSlot, watch: &mut BackstopWatch)
        requires
            old(self).wf(),
            slot.wf(),
        ensures
            final(self).wf(),
            final(watch)@ == old(watch)@.after_park(WakeDelivery::Delivered, 0, true),
            final(self)@ == old(self)@.consumer_unparked(slot).with_backstop(
                old(self)@.backstop.with_late_wake(),
            ),
    {
        self.backstop.record_late_wake();
        watch.parked(&mut self.backstop, WakeDelivery::Delivered, 0, true);
        self.consumer_park.disarm(slot);
    }

    /// Registers or withdraws the task of a producer.
    pub(crate) fn set_producer_task(&mut self, slot: ParkSlot, waiting: bool)
        requires
            old(self).wf(),
            slot.wf(),
        ensures
            final(self).wf(),
            final(self)@ == old(self)@.producer_task_set(slot, waiting),
    {
        if waiting {
            self.producer_waker.arm(slot);
        } else {
            self.producer_waker.disarm(slot);
        }
    }

    /// Registers or withdraws the task of a consumer.
    pub(crate) fn set_consumer_task(&mut self, slot: ParkSlot, waiting: bool)
        requires
            old(self).wf(),
            slot.wf(),
        ensures
            final(self).wf(),
            final(self)@ == old(self)@.consumer_task_set(slot, waiting),
    {
        if waiting {
            self.consumer_waker.arm(slot);
        } else {
            self.consumer_waker.disarm(slot);
        }
    }

    /// Registers one more producer and leases it a park slot.
    pub(crate) fn join_producer(&mut self) -> (slot: ParkSlot)
        requires
            old(self).wf(),
            0 < old(self)@.producers < usize::MAX,
        ensures
            final(self).wf(),
            slot == old(self)@.producer_slots.next(),
            slot.wf(),
            final(self)@ == old(self)@.producer_joined(),
    {
        self.producer_count.register();
        self.producer_slots.lease()
    }

    /// Registers one more consumer, leases it a park slot and counts the
    /// clone.
    pub(crate) fn join_consumer(&mut self) -> (joined: (ParkSlot, usize))
        requires
            old(self).wf(),
            0 < old(self)@.consumers < usize::MAX,
        ensures
            final(self).wf(),
            joined.0 == old(self)@.consumer_slots.next(),
            joined.0.wf(),
            joined.1 == final(self)@.clones,
            final(self)@ == old(self)@.consumer_joined(),
    {
        self.clone_counter = self.clone_counter.wrapping_add(1);
        self.consumer_count_live.register();
        (self.consumer_slots.lease(), self.clone_counter)
    }

    /// Lets a producer go. The last one closes the ring and wakes
    /// everybody who could still be waiting.
    pub(crate) fn leave_producer(&mut self, slot: ParkSlot)
        requires
            old(self).wf(),
            old(self)@.producers > 0,
            slot.wf(),
        ensures
            final(self).wf(),
            final(self)@ == old(self)@.producer_left(slot),
    {
        self.producer_slots.release(slot);
        if self.producer_count.release() {
            self.closed.close();
            self.producer_park.flush();
            self.consumer_park.flush();
            self.consumer_waker.flush();
        }
    }

    /// Lets a consumer go. After the last one no value will ever be
    /// taken, and every producer is told.
    pub(crate) fn leave_consumer(&mut self, slot: ParkSlot)
        requires
            old(self).wf(),
            old(self)@.consumers > 0,
            slot.wf(),
        ensures
            final(self).wf(),
            final(self)@ == old(self)@.consumer_left(slot),
    {
        self.consumer_slots.release(slot);
        if self.consumer_count_live.release() {
            self.consumer_closed.close();
            self.producer_park.flush();
            self.producer_waker.flush();
        }
    }
}

} // verus!
