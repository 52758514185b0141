//! Lap accounting for a consumer's scan of the ring.
//!
//! A consumer walks positions looking for a published slot to claim, and
//! needs to stop after one lap so an empty ring returns rather than
//! spins. Two separate quantities decide that:
//!
//! - **How far to jump** after losing a claim. A lost claim means a peer
//!   consumer is working the same slots, and moving well clear of them
//!   before the next attempt is worth real time.
//! - **How much of the lap that costs.** The lap is spent in
//!   *examinations*: every position looked at costs one, and a lost
//!   claim is one position looked at.
//!
//! No constant jump can visit every slot by arithmetic alone, because a
//! lap mixes steps and jumps. Coverage is therefore tracked directly: a
//! `floor` records the lowest position not yet examined, and the lap is
//! over only when the floor has crossed the whole ring. Once as many
//! examinations as the ring has slots are spent, the scan resumes a
//! plain sweep from the floor, which bounds the whole lap to twice the
//! capacity and leaves no slot unlooked-at.

use vstd::prelude::*;

verus! {

/// Tracks one lap of a consumer's scan: where to look next, and how
/// much of the lap is left.
#[derive(Debug, Clone, Copy, PartialEq, Eq, Structural)]
pub struct ScanBudget {
    position: usize,
    floor: usize,
    end: usize,
    spent: usize,
    probe_limit: usize,
    cas_skip: usize,
}

/// The lap that a [`ScanBudget`] stands for.
pub struct Lap {
    /// The position to examine next.
    pub position: int,
    /// The lowest position that has not been examined.
    pub floor: int,
    /// One past the last position of the lap.
    pub end: int,
    /// The examinations made so far.
    pub spent: int,
    /// The examinations that may be made out of order.
    pub probe_limit: int,
    /// How far a lost claim jumps.
    pub jump: int,
}

impl Lap {
    /// A lap of `capacity` positions from `start`. The jump is clamped to
    /// the ring: a full lap or more would return to the same slot having
    /// examined nothing.
    pub open spec fn fresh(start: int, capacity: int, cas_skip: int) -> Self {
        Lap {
            position: start,
            floor: start,
            end: start + capacity,
            spent: 0,
            probe_limit: capacity,
            jump: if cas_skip >= capacity {
                capacity - 1
            } else {
                cas_skip
            },
        }
    }

    /// This lap once the examination of its position is charged and the
    /// scan has moved `distance` further; with the probes spent, the scan
    /// returns to the floor.
    pub open spec fn moved(self, distance: int) -> Self {
        let floor: int = if self.position == self.floor {
            self.floor + 1
        } else {
            self.floor
        };
        let spent: int = self.spent + 1;
        Lap {
            position: if spent >= self.probe_limit {
                floor
            } else {
                self.position + distance
            },
            floor,
            spent,
            ..self
        }
    }

    /// This lap after a plain step.
    pub open spec fn stepped(self) -> Self {
        self.moved(1)
    }

    /// This lap after a claim was lost to a peer.
    pub open spec fn skipped(self) -> Self {
        self.moved(self.jump)
    }

    /// Whether every position of the lap has been examined.
    pub open spec fn is_over(self) -> bool {
        self.floor >= self.end
    }

    /// This lap after one move: a jump where `contended`, else a step.
    pub open spec fn advanced(self, contended: bool) -> Self {
        if contended {
            self.skipped()
        } else {
            self.stepped()
        }
    }

    /// This lap after the moves of `moves`, in order.
    pub open spec fn after(self, moves: Seq<bool>) -> Self
        decreases moves.len(),
    {
        if moves.len() == 0 {
            self
        } else {
            self.after(moves.drop_last()).advanced(moves.last())
        }
    }

    /// Whether `pos` is examined on the way through `moves`.
    pub open spec fn examines(self, moves: Seq<bool>, pos: int) -> bool {
        exists|n: int| 0 <= n < moves.len() && #[trigger] self.after(moves.take(n)).position == pos
    }

    /// Whether the lap is still alive before every one of `moves`.
    pub open spec fn runs(self, moves: Seq<bool>) -> bool {
        forall|n: int| 0 <= n < moves.len() ==> !(#[trigger] self.after(moves.take(n))).is_over()
    }
}

impl View for ScanBudget {
    type V = Lap;

    closed spec fn view(&self) -> Lap {
        Lap {
            position: self.position as int,
            floor: self.floor as int,
            end: self.end as int,
            spent: self.spent as int,
            probe_limit: self.probe_limit as int,
            jump: self.cas_skip as int,
        }
    }
}

impl ScanBudget {
    /// Starts a lap of `capacity` positions from `start`, jumping
    /// `cas_skip` positions past a slot lost to a peer.
    pub fn new(start: usize, capacity: usize, cas_skip: usize) -> (budget: Self)
        requires
            1 <= capacity,
            start + capacity <= usize::MAX,
        ensures
            budget@ == Lap::fresh(start as int, capacity as int, cas_skip as int),
    {
        let clamped: usize = if cas_skip >= capacity {
            capacity - 1
        } else {
            cas_skip
        };
        ScanBudget {
            position: start,
            floor: start,
            end: start + capacity,
            spent: 0,
            probe_limit: capacity,
            cas_skip: clamped,
        }
    }

    /// The position to examine.
    pub fn position(&self) -> (pos: usize)
        ensures
            pos == self@.position,
    {
        self.position
    }

    /// Advances one position, charging one against the lap.
    pub fn step(&mut self)
        requires
            old(self)@.position < usize::MAX,
            old(self)@.floor < usize::MAX,
            old(self)@.spent < usize::MAX,
        ensures
            final(self)@ == old(self)@.stepped(),
    {
        self.record();
        self.position = self.position + 1;
        self.resume_sweep_when_probes_are_spent();
    }

    /// Charges the position now being examined against the lap, and
    /// advances the coverage floor when this is the position the floor
    /// was waiting on.
    fn record(&mut self)
        requires
            old(self)@.floor < usize::MAX,
            old(self)@.spent < usize::MAX,
        ensures
            final(self)@ == (Lap {
                floor: if old(self)@.position == old(self)@.floor {
                    old(self)@.floor + 1
                } else {
                    old(self)@.floor
                },
                spent: old(self)@.spent + 1,
                ..old(self)@
            }),
    {
        if self.position == self.floor {
            self.floor = self.floor + 1;
        }
        self.spent = self.spent + 1;
    }

    /// Whether the lap has spent the probes it may take out of order.
    fn probes_are_spent(&self) -> (spent: bool)
        ensures
            spent == (self@.spent >= self@.probe_limit),
    {
        self.spent >= self.probe_limit
    }

    /// Returns the scan to the floor once the probe budget is gone, so
    /// the remainder of the lap is a plain sweep over the positions no
    /// jump has examined.
    fn resume_sweep_when_probes_are_spent(&mut self)
        ensures
            final(self)@ == (Lap {
                position: if old(self)@.spent >= old(self)@.probe_limit {
                    old(self)@.floor
                } else {
                    old(self)@.position
                },
                ..old(self)@
            }),
    {
        if self.probes_are_spent() && self.position != self.floor {
            self.position = self.floor;
        }
    }

    /// Moves clear of a slot a peer claimed first.
    ///
    /// Charges one examination, the slot that was lost, however far the
    /// position moves. A lost claim is evidence the ring is *busy*, not
    /// that it is empty, so it must not be able to end the lap on its
    /// own. This replaces [`step`](Self::step) for that slot; the caller
    /// does not step again. Once the probe budget is spent the jump is
    /// abandoned in favour of the sweep.
    pub fn skip_contended(&mut self)
        requires
            old(self)@.position < usize::MAX,
            old(self)@.position + old(self)@.jump <= usize::MAX,
            old(self)@.floor < usize::MAX,
            old(self)@.spent < usize::MAX,
        ensures
            final(self)@ == old(self)@.skipped(),
    {
        self.record();
        if self.probes_are_spent() {
            self.position = self.position + 1;
        } else {
            self.position = self.position + self.cas_skip;
        }
        self.resume_sweep_when_probes_are_spent();
    }

    /// Whether the lap is over.
    ///
    /// The lap ends when every position in it has been examined, not
    /// when a count of moves runs out. A jump that flies over slots
    /// therefore cannot end the lap on their behalf.
    pub fn exhausted(&self) -> (over: bool)
        ensures
            over == self@.is_over(),
    {
        self.floor >= self.end
    }
}

/// What every lap keeps, whatever its moves: all positions below the
/// floor are examined, the examinations are the moves, and once the
/// probes are spent the scan sits on the floor.
proof fn lemma_lap_invariant(start: int, capacity: int, cas_skip: int, moves: Seq<bool>)
    requires
        1 <= capacity,
        0 <= cas_skip,
    ensures
        ({
            let fresh = Lap::fresh(start, capacity, cas_skip);
            let lap = fresh.after(moves);
            &&& start <= lap.floor
            &&& lap.end == start + capacity
            &&& lap.probe_limit == capacity
            &&& lap.jump == fresh.jump
            &&& lap.spent == moves.len()
            &&& lap.spent >= capacity ==> lap.position == lap.floor
            &&& moves.len() > 0 ==> lap.floor >= start + 1
            &&& lap.spent > capacity ==> lap.floor >= start + 1 + (lap.spent - capacity)
            &&& forall|pos: int| start <= pos < lap.floor ==> #[trigger] fresh.examines(moves, pos)
        }),
    decreases moves.len(),
{
    let fresh = Lap::fresh(start, capacity, cas_skip);
    if moves.len() > 0 {
        let prefix = moves.drop_last();
        lemma_lap_invariant(start, capacity, cas_skip, prefix);
        let before = fresh.after(prefix);
        let lap = fresh.after(moves);
        assert forall|pos: int| start <= pos < lap.floor implies #[trigger] fresh.examines(
            moves,
            pos,
        ) by {
            if pos < before.floor {
                assert(fresh.examines(prefix, pos));
                let n = choose|n: int|
                    0 <= n < prefix.len() && #[trigger] fresh.after(prefix.take(n)).position == pos;
                assert(prefix.take(n) =~= moves.take(n));
                assert(fresh.after(moves.take(n)).position == pos);
            } else {
                assert(pos == before.floor && before.position == before.floor);
                let n: int = moves.len() - 1;
                assert(moves.take(n) =~= prefix);
                assert(fresh.after(moves.take(n)).position == pos);
            }
        }
        if prefix.len() == 0 {
            assert(before == fresh);
        }
    }
}

/// No pattern of moves leaves a slot unexamined: when a lap is over,
/// every one of its positions has been looked at.
pub proof fn lemma_lap_examines_every_position(
    start: int,
    capacity: int,
    cas_skip: int,
    moves: Seq<bool>,
    pos: int,
)
    requires
        1 <= capacity,
        0 <= cas_skip,
        Lap::fresh(start, capacity, cas_skip).after(moves).is_over(),
        start <= pos < start + capacity,
    ensures
        Lap::fresh(start, capacity, cas_skip).examines(moves, pos),
{
    lemma_lap_invariant(start, capacity, cas_skip, moves);
}

/// A lap ends, whatever its moves, and costs at most twice the capacity:
/// no run of moves that stays alive is longer, and any as long as that
/// is over.
pub proof fn lemma_lap_is_bounded(start: int, capacity: int, cas_skip: int, moves: Seq<bool>)
    requires
        1 <= capacity,
        0 <= cas_skip,
    ensures
        Lap::fresh(start, capacity, cas_skip).runs(moves) ==> moves.len() <= 2 * capacity,
        moves.len() >= 2 * capacity ==> Lap::fresh(start, capacity, cas_skip).after(
            moves,
        ).is_over(),
{
    let fresh = Lap::fresh(start, capacity, cas_skip);
    lemma_lap_invariant(start, capacity, cas_skip, moves);
    if fresh.runs(moves) && moves.len() > 2 * capacity {
        let cut = moves.take(2 * capacity);
        lemma_lap_invariant(start, capacity, cas_skip, cut);
        assert(fresh.after(cut).is_over());
    }
}

/// A lap takes its length: no run of moves shorter than the capacity ends
/// it, and one that stops when the lap is over leaves the scan, and all
/// that was examined, at the end of the lap.
pub proof fn lemma_lap_takes_its_length(start: int, capacity: int, cas_skip: int, moves: Seq<bool>)
    requires
        1 <= capacity,
        0 <= cas_skip,
        Lap::fresh(start, capacity, cas_skip).after(moves).is_over(),
    ensures
        moves.len() >= capacity,
        Lap::fresh(start, capacity, cas_skip).runs(moves) ==> {
            &&& Lap::fresh(start, capacity, cas_skip).after(moves).position == start + capacity
            &&& Lap::fresh(start, capacity, cas_skip).after(moves).floor == start + capacity
        },
{
    let fresh = Lap::fresh(start, capacity, cas_skip);
    lemma_lap_invariant(start, capacity, cas_skip, moves);
    lemma_floor_lags(start, capacity, cas_skip, moves);
    if fresh.runs(moves) {
        let prefix = moves.drop_last();
        lemma_lap_invariant(start, capacity, cas_skip, prefix);
        assert(moves.take(moves.len() - 1) =~= prefix);
        assert(!fresh.after(moves.take(moves.len() - 1)).is_over());
    }
}

/// An uncontended lap is one pass in order: after `n` steps the scan
/// looks at the `n`-th position, and the lap is over exactly when all
/// have been passed.
pub proof fn lemma_uncontended_lap(start: int, capacity: int, cas_skip: int, n: nat)
    requires
        1 <= capacity,
    ensures
        ({
            let lap = Lap::fresh(start, capacity, cas_skip).after(Seq::new(n, |i: int| false));
            &&& lap.position == start + n
            &&& lap.floor == start + n
            &&& lap.spent == n
            &&& lap.end == start + capacity
            &&& lap.probe_limit == capacity
            &&& lap.is_over() == (n >= capacity)
        }),
    decreases n,
{
    let moves = Seq::new(n, |i: int| false);
    if n > 0 {
        lemma_uncontended_lap(start, capacity, cas_skip, (n - 1) as nat);
        assert(moves.drop_last() =~= Seq::new((n - 1) as nat, |i: int| false));
    }
}

/// A lost claim costs one examination however far it jumps: while fewer
/// claims are lost than the ring has slots, the lap stays alive.
pub proof fn lemma_lost_claims_do_not_end_the_lap(
    start: int,
    capacity: int,
    cas_skip: int,
    lost: nat,
)
    requires
        1 <= capacity,
        0 <= cas_skip,
        lost < capacity,
    ensures
        !Lap::fresh(start, capacity, cas_skip).after(Seq::new(lost, |i: int| true)).is_over(),
        Lap::fresh(start, capacity, cas_skip).after(Seq::new(lost, |i: int| true)).spent == lost,
{
    lemma_floor_lags(start, capacity, cas_skip, Seq::new(lost, |i: int| true));
}

/// The floor rises by at most one a move.
proof fn lemma_floor_lags(start: int, capacity: int, cas_skip: int, moves: Seq<bool>)
    requires
        1 <= capacity,
    ensures
        Lap::fresh(start, capacity, cas_skip).after(moves).floor <= start + moves.len(),
        Lap::fresh(start, capacity, cas_skip).after(moves).spent == moves.len(),
        Lap::fresh(start, capacity, cas_skip).after(moves).end == start + capacity,
    decreases moves.len(),
{
    if moves.len() > 0 {
        lemma_floor_lags(start, capacity, cas_skip, moves.drop_last());
    }
}

/// A lap starts by looking at its first position, and a lost claim jumps
/// as far as it is asked to, but never a whole lap.
pub proof fn lemma_start_of_a_lap(start: int, capacity: int, cas_skip: int)
    requires
        1 <= capacity,
    ensures
        ({
            let lap = Lap::fresh(start, capacity, cas_skip);
            &&& lap.position == start
            &&& lap.floor == start
            &&& lap.end == start + capacity
            &&& lap.spent == 0
            &&& lap.probe_limit == capacity
            &&& lap.jump <= cas_skip
            &&& lap.jump < capacity
            &&& lap.jump == cas_skip || lap.jump == capacity - 1
            &&& !lap.is_over()
        }),
{
}

/// While fewer positions have been examined than the ring has slots, a
/// step looks at the next position and a lost claim one jump further on;
/// after that every move looks at the lowest position not examined yet.
/// Either way one examination is charged, and the floor rises exactly if
/// it was examined.
pub proof fn lemma_where_a_move_goes(
    start: int,
    capacity: int,
    cas_skip: int,
    moves: Seq<bool>,
    contended: bool,
)
    requires
        1 <= capacity,
        0 <= cas_skip,
    ensures
        ({
            let lap = Lap::fresh(start, capacity, cas_skip).after(moves);
            let next = Lap::fresh(start, capacity, cas_skip).after(moves.push(contended));
            &&& next.spent == lap.spent + 1
            &&& next.floor == if lap.position == lap.floor {
                lap.floor + 1
            } else {
                lap.floor
            }
            &&& moves.len() + 1 < capacity ==> next.position == lap.position + if !contended {
                1
            } else if cas_skip < capacity {
                cas_skip
            } else {
                capacity - 1
            }
            &&& moves.len() + 1 >= capacity ==> next.position == next.floor
            &&& next == lap.advanced(contended)
        }),
{
    lemma_lap_invariant(start, capacity, cas_skip, moves);
    assert(moves.push(contended).drop_last() =~= moves);
}

} // verus!
