//! What a park episode leaves behind to explain a rescue.
//!
//! A rescue is a waiter whose sleep ended without a wake and that
//! immediately found work. On its own that says little: several benign
//! mechanisms produce one, and each has to be ruled out before the
//! remainder can be read as a wake that went missing.
//!
//! [`RescueEvidence`] accumulates the facts across every park in one
//! blocking call, because a waiter can sleep repeatedly before it
//! succeeds and an explanation observed at any of those parks still
//! explains the rescue at the end.
//!
//! Separately from who touched the waiter's bit, two samples bracket
//! *when* the work appeared, one just before the park and one the
//! instant it returns; [`RescueTiming`] names the three answers.

use vstd::prelude::*;

use crate::common::wake_delivery::WakeDelivery;

verus! {

/// What was observed about a waiter's park state, ordered by how much
/// it accounts for a rescue.
#[derive(Clone, Copy, PartialEq, Eq, Debug, PartialOrd, Ord, Structural)]
pub enum RescueExplanation {
    /// Nobody had touched this waiter's bit or handle.
    Untouched,
    /// The bit was taken without an unpark arriving. Suspicious, not
    /// exculpatory: a stolen wake looks exactly like a late one.
    BitTaken,
    /// The waiter was unreachable by construction, so no wake could
    /// ever have been delivered to it.
    Slotless,
}

impl RescueExplanation {
    /// How much the observation accounts for.
    pub open spec fn weight(self) -> int {
        match self {
            RescueExplanation::Untouched => 0,
            RescueExplanation::BitTaken => 1,
            RescueExplanation::Slotless => 2,
        }
    }

    /// The more informative of two observations.
    pub open spec fn stronger(self, other: Self) -> Self {
        if self.weight() >= other.weight() {
            self
        } else {
            other
        }
    }

    /// What a delivery says about a rescue that follows it. A delivered
    /// wake ends the sleep by itself, so it explains nothing.
    pub open spec fn of(delivery: WakeDelivery) -> Self {
        match delivery {
            WakeDelivery::Slotless => RescueExplanation::Slotless,
            WakeDelivery::InFlight => RescueExplanation::BitTaken,
            WakeDelivery::Untouched => RescueExplanation::Untouched,
            WakeDelivery::Delivered => RescueExplanation::Untouched,
        }
    }

    /// The more informative of two observations.
    ///
    /// Evidence accumulates over a park episode and never weakens: a
    /// waiter whose bit was once taken has that on record however many
    /// quiet sleeps follow it.
    #[must_use]
    pub fn strongest(self, other: Self) -> (strongest: Self)
        ensures
            strongest == self.stronger(other),
    {
        match self {
            RescueExplanation::Slotless => self,
            RescueExplanation::BitTaken => match other {
                RescueExplanation::Slotless => other,
                _ => self,
            },
            RescueExplanation::Untouched => other,
        }
    }
}

impl vstd::std_specs::convert::FromSpecImpl<WakeDelivery> for RescueExplanation {
    open spec fn obeys_from_spec() -> bool {
        true
    }

    open spec fn from_spec(delivery: WakeDelivery) -> Self {
        Self::of(delivery)
    }
}

impl From<WakeDelivery> for RescueExplanation {
    /// A delivered wake maps to `Untouched`, which explains nothing and
    /// is discarded when no rescue follows.
    fn from(delivery: WakeDelivery) -> (explanation: Self) {
        match delivery {
            WakeDelivery::Slotless => RescueExplanation::Slotless,
            _ => if delivery.is_in_flight() {
                RescueExplanation::BitTaken
            } else {
                RescueExplanation::Untouched
            },
        }
    }
}

/// When, relative to the sleep, the work a rescue found appeared.
#[derive(Clone, Copy, PartialEq, Eq, Debug, Structural)]
pub enum RescueTiming {
    /// Visible before the park: the check before the sleep missed it.
    Blind,
    /// Not visible when the park returned: it arrived afterwards.
    Late,
    /// Appeared during the sleep and was there when it ended. With an
    /// untouched bit this is the only timing that a lost wake produces.
    Waiting,
}

/// The facts gathered across one waiter's park episode.
#[derive(Clone, Copy, Debug)]
pub struct RescueEvidence {
    sole_waiter: bool,
    blind: bool,
    work_at_return: bool,
    explanation: RescueExplanation,
}

/// The facts that a [`RescueEvidence`] holds.
pub struct Facts {
    /// No peer was parked at either end of the last sleep.
    pub sole_waiter: bool,
    /// Work was visible before some sleep of the episode.
    pub blind: bool,
    /// Work was visible when the last sleep ended.
    pub work_at_return: bool,
    /// The strongest explanation observed.
    pub explanation: RescueExplanation,
}

impl Facts {
    /// Nothing observed yet.
    pub open spec fn none() -> Self {
        Facts {
            sole_waiter: false,
            blind: false,
            work_at_return: false,
            explanation: RescueExplanation::Untouched,
        }
    }

    /// These facts with the sample taken just before a sleep.
    pub open spec fn before_park(self, peers_parked: nat, work_visible: bool) -> Self {
        Facts {
            sole_waiter: peers_parked == 0,
            blind: self.blind || work_visible,
            ..self
        }
    }

    /// These facts with the sample taken when a sleep ended.
    pub open spec fn after_park(
        self,
        delivery: WakeDelivery,
        peers_parked: nat,
        work_visible: bool,
    ) -> Self {
        Facts {
            sole_waiter: self.sole_waiter && peers_parked == 0,
            blind: self.blind,
            work_at_return: work_visible,
            explanation: self.explanation.stronger(RescueExplanation::of(delivery)),
        }
    }

    /// When the work appeared.
    pub open spec fn when(self) -> RescueTiming {
        if self.blind {
            RescueTiming::Blind
        } else if self.work_at_return {
            RescueTiming::Waiting
        } else {
            RescueTiming::Late
        }
    }
}

impl View for RescueEvidence {
    type V = Facts;

    closed spec fn view(&self) -> Facts {
        Facts {
            sole_waiter: self.sole_waiter,
            blind: self.blind,
            work_at_return: self.work_at_return,
            explanation: self.explanation,
        }
    }
}

impl RescueEvidence {
    /// Fresh evidence for a waiter that has not yet parked.
    ///
    /// `sole_waiter` starts false so a watch that never parks cannot
    /// report one; the first sample before a sleep sets it.
    #[must_use]
    pub fn new() -> (evidence: Self)
        ensures
            evidence@ == Facts::none(),
    {
        RescueEvidence {
            sole_waiter: false,
            blind: false,
            work_at_return: false,
            explanation: RescueExplanation::Untouched,
        }
    }

    /// Records what was sampled just before sleeping: how many peers
    /// were parked, and whether work was visible to this waiter.
    ///
    /// Work visible at any park in the episode marks it blind for
    /// good: the check that preceded that park had already failed,
    /// so the item outlived the decision to sleep.
    pub fn about_to_park(&mut self, peers_parked: u32, work_visible: bool)
        ensures
            final(self)@ == old(self)@.before_park(peers_parked as nat, work_visible),
    {
        self.sole_waiter = peers_parked == 0;
        self.blind = self.blind || work_visible;
    }

    /// Records how one park ended, and whether work was visible the
    /// instant it did.
    ///
    /// A peer parked at *either* end of the sleep means round-robin
    /// had somewhere else to send the wake, so `sole_waiter` only
    /// survives when both samples saw nobody.
    ///
    /// `work_visible` is per park, not latched: the rescue is
    /// attributed to the sleep that immediately preceded it.
    pub fn parked(&mut self, delivery: WakeDelivery, peers_parked: u32, work_visible: bool)
        ensures
            final(self)@ == old(self)@.after_park(
                delivery,
                peers_parked as nat,
                work_visible,
            ),
    {
        self.sole_waiter = self.sole_waiter && peers_parked == 0;
        self.work_at_return = work_visible;
        self.explanation = self.explanation.strongest(RescueExplanation::from(delivery));
    }

    /// Whether no peer was parked to have absorbed this waiter's wake.
    #[must_use]
    pub fn is_sole_waiter(self) -> (sole: bool)
        ensures
            sole == self@.sole_waiter,
    {
        self.sole_waiter
    }

    /// Whether the waiter parked with work already visible to it.
    #[must_use]
    pub fn was_blind(self) -> (blind: bool)
        ensures
            blind == self@.blind,
    {
        self.blind
    }

    /// When the work the rescue found appeared, relative to the sleep.
    #[must_use]
    pub fn timing(self) -> (timing: RescueTiming)
        ensures
            timing == self@.when(),
    {
        if self.blind {
            RescueTiming::Blind
        } else if self.work_at_return {
            RescueTiming::Waiting
        } else {
            RescueTiming::Late
        }
    }

    /// The strongest explanation observed during the episode.
    #[must_use]
    pub fn explanation(self) -> (explanation: RescueExplanation)
        ensures
            explanation == self@.explanation,
    {
        self.explanation
    }

    /// Consumes the evidence, resetting for the next episode.
    pub fn take(&mut self) -> (taken: Self)
        ensures
            taken@ == old(self)@,
            final(self)@ == Facts::none(),
    {
        let taken: Self = *self;
        *self = Self::new();
        taken
    }
}

impl Default for RescueEvidence {
    fn default() -> (evidence: Self)
        ensures
            evidence@ == Facts::none(),
    {
        Self::new()
    }
}

/// Evidence never weakens: neither sample of a later park can take back
/// an explanation or the blindness that an earlier one put on record.
pub proof fn lemma_evidence_only_strengthens(
    facts: Facts,
    delivery: WakeDelivery,
    peers_before: nat,
    visible_before: bool,
    peers_after: nat,
    visible_after: bool,
)
    ensures
        ({
            let later = facts.before_park(peers_before, visible_before).after_park(
                delivery,
                peers_after,
                visible_after,
            );
            &&& later.explanation.weight() >= facts.explanation.weight()
            &&& later.explanation.weight() >= RescueExplanation::of(delivery).weight()
            &&& later.explanation == facts.explanation || later.explanation
                == RescueExplanation::of(delivery)
            &&& later.blind == (facts.blind || visible_before)
            &&& later.work_at_return == visible_after
            &&& later.sole_waiter == (peers_before == 0 && peers_after == 0)
        }),
{
}

/// The strongest of several observations does not depend on the order
/// in which they were made.
pub proof fn lemma_strongest_is_order_free(
    a: RescueExplanation,
    b: RescueExplanation,
    c: RescueExplanation,
)
    ensures
        a.stronger(b) == b.stronger(a),
        a.stronger(b).stronger(c) == a.stronger(b.stronger(c)),
        a.stronger(a) == a,
{
}

/// The strongest of two observations: that the waiter was out of reach, if
/// either says so; else that its bit was taken, if either says so.
pub proof fn lemma_strongest_explains_the_most(a: RescueExplanation, b: RescueExplanation)
    ensures
        a.stronger(b) is Slotless <==> a is Slotless || b is Slotless,
        a.stronger(b) is Untouched <==> a is Untouched && b is Untouched,
        a.stronger(b) is BitTaken <==> !(a is Slotless || b is Slotless) && (a is BitTaken
            || b is BitTaken),
{
}

/// What a delivery explains: a waiter without a slot was out of reach, one
/// with a wake in flight had its bit taken, and the others say nothing.
pub proof fn lemma_delivery_explains(delivery: WakeDelivery)
    ensures
        RescueExplanation::of(delivery) is Slotless <==> delivery is Slotless,
        RescueExplanation::of(delivery) is BitTaken <==> delivery is InFlight,
        RescueExplanation::of(delivery) is Untouched <==> delivery is Untouched
            || delivery is Delivered,
{
}

/// The timing of a rescue: blind if work was visible before some sleep,
/// else waiting or late as it was visible when the last one ended or not.
pub proof fn lemma_timing_of_a_rescue(facts: Facts)
    ensures
        facts.when() is Blind <==> facts.blind,
        facts.when() is Waiting <==> !facts.blind && facts.work_at_return,
        facts.when() is Late <==> !facts.blind && !facts.work_at_return,
{
}

/// Fresh evidence says nothing, and the sample before a sleep leaves what
/// only the end of one can tell.
pub proof fn lemma_fresh_evidence(facts: Facts, peers: nat, visible: bool)
    ensures
        !Facts::none().sole_waiter,
        !Facts::none().blind,
        !Facts::none().work_at_return,
        Facts::none().explanation is Untouched,
        facts.before_park(peers, visible).work_at_return == facts.work_at_return,
        facts.before_park(peers, visible).explanation == facts.explanation,
{
}

} // verus!
