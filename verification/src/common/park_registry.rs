//! Leases of park slots to the handles of one side.

use vstd::prelude::*;

use crate::common::bits::{bit64, has_bit64, with_bit64, without_bit64};

verus! {

/// The park slots that one side of a ring has.
pub const PARK_SLOTS: usize = 64;

/// The park slot of one handle.
#[derive(Clone, Copy, Debug, PartialEq, Eq, Structural)]
pub enum ParkSlot {
    /// A slot that no other live handle holds.
    Leased(usize),
    /// Every slot was taken when the handle was made, so it has no bit
    /// of its own and is woken with all the others in its place.
    Slotless,
}

impl ParkSlot {
    /// A leased slot is one of the side's park slots.
    pub open spec fn wf(self) -> bool {
        self matches ParkSlot::Leased(index) ==> index < PARK_SLOTS
    }

    /// The index of the slot, if there is one.
    pub fn index(&self) -> (index: Option<usize>)
        ensures
            index == (match *self {
                ParkSlot::Leased(i) => Some(i),
                ParkSlot::Slotless => None,
            }),
    {
        match *self {
            ParkSlot::Leased(i) => Some(i),
            ParkSlot::Slotless => None,
        }
    }
}

/// Which park slots are leased, as a bitmap.
#[derive(Clone, Copy, Debug, PartialEq, Eq, Structural)]
pub struct ParkRegistry {
    pub leased: u64,
}

/// The lowest index at or above `from` whose bit is clear.
pub open spec fn lowest_clear(mask: u64, from: int) -> Option<int>
    decreases 64 - from,
{
    if from >= 64 || from < 0 {
        None
    } else if !bit64(mask, from) {
        Some(from)
    } else {
        lowest_clear(mask, from + 1)
    }
}

impl ParkRegistry {
    /// The slot that the next lease hands out.
    pub open spec fn next(self) -> ParkSlot {
        match lowest_clear(self.leased, 0) {
            Some(i) => ParkSlot::Leased(i as usize),
            None => ParkSlot::Slotless,
        }
    }

    /// This registry after the next lease.
    pub open spec fn after_lease(self) -> Self {
        match lowest_clear(self.leased, 0) {
            Some(i) => ParkRegistry { leased: self.leased | (1u64 << (i as u64)) },
            None => self,
        }
    }

    /// This registry once `slot` is returned.
    pub open spec fn after_release(self, slot: ParkSlot) -> Self {
        match slot {
            ParkSlot::Leased(i) => ParkRegistry { leased: self.leased & !(1u64 << (i as u64)) },
            ParkSlot::Slotless => self,
        }
    }

    pub fn new() -> (registry: Self)
        ensures
            registry.leased == 0,
    {
        ParkRegistry { leased: 0 }
    }

    /// Leases the lowest free slot.
    pub fn lease(&mut self) -> (slot: ParkSlot)
        ensures
            slot == old(self).next(),
            *final(self) == old(self).after_lease(),
            slot.wf(),
            slot matches ParkSlot::Leased(i) ==> !bit64(old(self).leased, i as int) && bit64(
                final(self).leased,
                i as int,
            ),
            slot matches ParkSlot::Slotless ==> forall|i: int|
                0 <= i < 64 ==> bit64(old(self).leased, i),
    {
        let mut i: usize = 0;
        while i < PARK_SLOTS
            invariant
                i <= PARK_SLOTS,
                *self == *old(self),
                lowest_clear(self.leased, 0) == lowest_clear(self.leased, i as int),
                forall|j: int| 0 <= j < i ==> bit64(self.leased, j),
            decreases PARK_SLOTS - i,
        {
            if !has_bit64(self.leased, i) {
                self.leased = with_bit64(self.leased, i);
                return ParkSlot::Leased(i);
            }
            i = i + 1;
        }
        ParkSlot::Slotless
    }

    /// Returns a slot to the registry.
    pub fn release(&mut self, slot: ParkSlot)
        requires
            slot.wf(),
        ensures
            *final(self) == old(self).after_release(slot),
            slot matches ParkSlot::Leased(i) ==> !bit64(final(self).leased, i as int),
    {
        match slot {
            ParkSlot::Leased(i) => {
                self.leased = without_bit64(self.leased, i);
            },
            ParkSlot::Slotless => {},
        }
    }
}

} // verus!
