use quetzalcoatl::mpmc::scan_budget::ScanBudget;

/// On a ring smaller than the skip one lost claim must not spend the
/// whole lap.
#[test]
fn one_lost_cas_does_not_end_the_lap_on_a_small_ring() {
    let mut budget = ScanBudget::new(0, 4, 128);
    budget.skip_contended();
    assert!(
        !budget.exhausted(),
        "three slots were never examined, so the lap is not over"
    );
}

/// A lost CAS is one examination, so it cannot end the lap on its
/// own however far the position moves.
#[test]
fn a_lost_cas_costs_one_examination() {
    let mut budget = ScanBudget::new(0, 16, 128);
    for lost in 1..16 {
        budget.skip_contended();
        assert!(
            !budget.exhausted(),
            "lost CAS {lost} of 15 must leave the lap alive"
        );
    }
}

/// A ring of contended slots still terminates.
#[test]
fn a_lap_of_contended_slots_still_ends() {
    let mut budget = ScanBudget::new(0, 4, 128);
    for _ in 0..16 {
        if budget.exhausted() {
            return;
        }
        budget.skip_contended();
    }
    panic!("a bounded lap must terminate");
}

/// Losing every CAS examines every slot before the lap ends.
#[test]
fn a_clamped_jump_visits_every_slot_before_repeating() {
    Coverage::of(16, ScanBudget::skip_contended).assert_complete();
}

#[test]
fn a_lap_ends_after_capacity_steps() {
    let mut budget = ScanBudget::new(0, 4, 128);
    for _ in 0..3 {
        budget.step();
        assert!(!budget.exhausted());
    }
    budget.step();
    assert!(budget.exhausted());
}

/// On a ring large enough for the skip, the skip is used as given:
/// the clamp must not degrade the cache-line backoff it exists for.
#[test]
fn a_large_ring_keeps_the_full_skip() {
    let mut budget = ScanBudget::new(0, 1024, 128);
    budget.skip_contended();
    assert_eq!(
        budget.position(),
        128,
        "the jump past a contended line is the point of the skip"
    );
    assert!(!budget.exhausted());
}

/// On a ring smaller than the skip the clamp governs the jump.
#[test]
fn the_default_skip_is_clamped_on_a_typical_small_ring() {
    let mut budget = ScanBudget::new(0, 16, 128);
    budget.skip_contended();
    assert_eq!(
        budget.position(),
        15,
        "a jump of 128 on a ring of 16 lands back on the same slot"
    );
    assert!(
        !budget.exhausted(),
        "one contended slot must leave the lap alive"
    );
}

/// Runs a lap under a caller-chosen pattern of moves and records
/// which slots it examined, so coverage is asserted directly
/// rather than inferred from the stride's arithmetic.
struct Coverage {
    seen: Vec<bool>,
    examinations: usize,
}

impl Coverage {
    /// Drives a lap of `cap` to exhaustion, applying `advance`
    /// after each examination. Panics rather than looping forever
    /// if the lap fails to terminate.
    fn of(cap: usize, mut advance: impl FnMut(&mut ScanBudget)) -> Self {
        let mut budget = ScanBudget::new(0, cap, 128);
        let mut this = Self {
            seen: vec![false; cap],
            examinations: 0,
        };
        while !budget.exhausted() {
            this.seen[budget.position() % cap] = true;
            this.examinations += 1;
            assert!(
                this.examinations <= 4 * cap,
                "a bounded lap must terminate"
            );
            advance(&mut budget);
        }
        this
    }

    /// Asserts the lap looked at every slot in the ring, and cost
    /// no more than the documented `2 * capacity` bound.
    fn assert_complete(&self) {
        let missed: Vec<_> = self
            .seen
            .iter()
            .enumerate()
            .filter(|(_, &s)| !s)
            .map(|(slot, _)| slot)
            .collect();
        assert!(
            missed.is_empty(),
            "the lap ended with slots never examined: {missed:?}"
        );
        assert!(
            self.examinations <= 2 * self.seen.len(),
            "a lap cost {} examinations on a ring of {}",
            self.examinations,
            self.seen.len()
        );
    }
}

/// A `step` and a clamped `skip_contended` cancel exactly, because the
/// clamp is `-1` modulo the capacity; the lap must not walk back and
/// forth over one pair of slots.
#[test]
fn a_lap_alternating_the_two_moves_still_examines_every_slot() {
    let mut contended = false;
    Coverage::of(16, |budget| {
        if contended {
            budget.skip_contended();
        } else {
            budget.step();
        }
        contended = !contended;
    })
    .assert_complete();
}

/// The same cancellation, driven from the opposite phase.
#[test]
fn a_lap_alternating_from_a_contended_slot_examines_every_slot() {
    let mut contended = true;
    Coverage::of(16, |budget| {
        if contended {
            budget.skip_contended();
        } else {
            budget.step();
        }
        contended = !contended;
    })
    .assert_complete();
}

/// A large ring is not exempt: a jump of 128 on a ring of 1024
/// flies over slots that no later move returns to.
#[test]
fn a_large_ring_examines_the_slots_its_jumps_flew_over() {
    let mut contended = false;
    Coverage::of(1024, |budget| {
        if contended {
            budget.skip_contended();
        } else {
            budget.step();
        }
        contended = !contended;
    })
    .assert_complete();
}

/// Every phase of every alternating pattern, over the ring sizes
/// the crate admits, must examine the whole ring.
#[test]
fn no_pattern_of_moves_leaves_a_slot_unexamined() {
    for cap in [4usize, 8, 16, 64, 256] {
        for pattern in 1u32..64 {
            let mut move_index = 0u32;
            Coverage::of(cap, |budget| {
                if pattern >> (move_index % 6) & 1 == 1 {
                    budget.skip_contended();
                } else {
                    budget.step();
                }
                move_index += 1;
            })
            .assert_complete();
        }
    }
}

/// An uncontended lap is the fast path and must not have grown:
/// exactly `capacity` examinations, one per slot, in order.
#[test]
fn an_uncontended_lap_costs_exactly_one_pass() {
    let mut budget = ScanBudget::new(0, 16, 128);
    for expected in 0..16 {
        assert_eq!(budget.position(), expected, "the sweep must stay in order");
        assert!(!budget.exhausted(), "slot {expected} not yet examined");
        budget.step();
    }
    assert!(budget.exhausted(), "a full pass ends the lap");
}

#[test]
fn scanning_starts_where_it_was_told_to() {
    let mut budget = ScanBudget::new(7, 8, 4);
    assert_eq!(budget.position(), 7);
    budget.step();
    assert_eq!(budget.position(), 8);
}

/// The sweep stays in order past the end of the lap, and the lap stays
/// over.
#[test]
fn a_lap_that_is_over_stays_over() {
    let mut budget = ScanBudget::new(3, 4, 2);
    for n in 0..9 {
        assert_eq!(budget.position(), 3 + n);
        assert_eq!(budget.exhausted(), n >= 4);
        budget.step();
    }
}

/// Whatever the moves, a lap takes at least its capacity and leaves the
/// scan at its end.
#[test]
fn a_lap_ends_at_its_end() {
    for pattern in 0u32..256 {
        let mut budget = ScanBudget::new(5, 4, 3);
        let mut moves = 0;
        while !budget.exhausted() {
            if pattern >> (moves % 8) & 1 == 1 {
                budget.skip_contended();
            } else {
                budget.step();
            }
            moves += 1;
        }
        assert!((4..=8).contains(&moves), "pattern {pattern:b} took {moves} moves");
        assert_eq!(budget.position(), 9);
    }
}
