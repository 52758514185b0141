//! How far a wake of one waiter had come when its sleep ended.

use vstd::prelude::*;

use crate::common::bits::{bit64, has_bit64};
use crate::common::park::WakeSet;
use crate::common::park_registry::ParkSlot;

verus! {

/// What a waiter finds in its park slot when its sleep ends.
#[derive(Clone, Copy, Debug, PartialEq, Eq, Structural)]
pub enum WakeDelivery {
    /// A peer claimed the handle: the wake was delivered.
    Delivered,
    /// The wake bit is gone and the handle still armed: a peer is on its
    /// way, or its wake was lost.
    InFlight,
    /// Nobody has touched the slot.
    Untouched,
    /// The waiter holds no slot, so no wake can be told to be its own.
    Slotless,
}

impl WakeDelivery {
    /// What the waiter of `slot` finds in `set`.
    pub open spec fn found(set: WakeSet, slot: ParkSlot) -> Self {
        match slot {
            ParkSlot::Slotless => WakeDelivery::Slotless,
            ParkSlot::Leased(i) => if !bit64(set.handles, i as int) {
                WakeDelivery::Delivered
            } else if !bit64(set.wake, i as int) {
                WakeDelivery::InFlight
            } else {
                WakeDelivery::Untouched
            },
        }
    }

    /// Whether no peer's wake ended the sleep.
    pub open spec fn unwoken(self) -> bool {
        self != WakeDelivery::Delivered
    }

    /// Reads the delivery out of `set`.
    pub fn sample(set: &WakeSet, slot: ParkSlot) -> (delivery: Self)
        requires
            slot.wf(),
        ensures
            delivery == Self::found(*set, slot),
    {
        match slot {
            ParkSlot::Slotless => WakeDelivery::Slotless,
            ParkSlot::Leased(i) => {
                if !has_bit64(set.handles, i) {
                    WakeDelivery::Delivered
                } else if !has_bit64(set.wake, i) {
                    WakeDelivery::InFlight
                } else {
                    WakeDelivery::Untouched
                }
            },
        }
    }

    /// Whether no peer's wake ended the sleep.
    pub fn is_unwoken(self) -> (unwoken: bool)
        ensures
            unwoken == self.unwoken(),
    {
        self != WakeDelivery::Delivered
    }

    /// Whether the bit was taken without the handle being claimed.
    pub fn is_in_flight(self) -> (in_flight: bool)
        ensures
            in_flight == (self == WakeDelivery::InFlight),
    {
        self == WakeDelivery::InFlight
    }
}

} // verus!
