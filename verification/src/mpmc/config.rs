//! Compile-time tuning of batching and scan behaviour.

use vstd::prelude::*;

verus! {

/// Compile-time tunables for batching and scan behaviour.
///
/// Implement this on a zero-sized type to customize a ring at compile
/// time; the default values live in [`DefaultConfig`]. A ring can be
/// built around a configuration only if [`bounds_hold`] does.
pub trait Config {
    /// Positions reserved at a time from the claim cursor; in `1..=32`,
    /// the width of a producer's bitmap. Larger values touch the cursor
    /// less often, and let a slow producer hold more positions out of
    /// reach of the others.
    const PRODUCER_BATCH: usize;

    /// How far a consumer's scan jumps past a slot that a peer claimed
    /// first.
    const CAS_FAIL_SKIP: usize;

    /// Pops between two publications of a consumer's private count to
    /// the shared watermark.
    const CONSUMED_FLUSH: usize;
}

/// The default tuning: batches of 32, a skip of 128, a flush every 64
/// pops.
#[derive(Debug, Clone, Copy)]
pub struct DefaultConfig;

impl Config for DefaultConfig {
    const PRODUCER_BATCH: usize = 32;
    const CAS_FAIL_SKIP: usize = 128;
    const CONSUMED_FLUSH: usize = 64;
}

/// A configuration given by its three values, for a ring that is tuned
/// where it is built.
#[derive(Debug, Clone, Copy)]
pub struct Cfg<const B: usize, const S: usize, const F: usize>;

impl<const B: usize, const S: usize, const F: usize> Config for Cfg<B, S, F> {
    const PRODUCER_BATCH: usize = B;
    const CAS_FAIL_SKIP: usize = S;
    const CONSUMED_FLUSH: usize = F;
}

/// What a configuration must satisfy: a batch fits the producer's
/// bitmap, and neither the skip nor the flush interval is zero.
pub open spec fn bounds_hold<C: Config>() -> bool {
    &&& 1 <= C::PRODUCER_BATCH <= 32
    &&& 1 <= C::CAS_FAIL_SKIP
    &&& 1 <= C::CONSUMED_FLUSH
}

/// Tests the bounds of a configuration.
pub fn validate<C: Config>() -> (valid: bool)
    ensures
        valid == bounds_hold::<C>(),
{
    1 <= C::PRODUCER_BATCH && C::PRODUCER_BATCH <= 32 && 1 <= C::CAS_FAIL_SKIP && 1
        <= C::CONSUMED_FLUSH
}

/// The values of the default tuning; they are within the bounds.
pub proof fn lemma_default_config()
    ensures
        <DefaultConfig as Config>::PRODUCER_BATCH == 32,
        <DefaultConfig as Config>::CAS_FAIL_SKIP == 128,
        <DefaultConfig as Config>::CONSUMED_FLUSH == 64,
        bounds_hold::<DefaultConfig>(),
{
}

/// The values of a configuration are those that it is given by.
pub proof fn lemma_cfg<const B: usize, const S: usize, const F: usize>()
    ensures
        <Cfg<B, S, F> as Config>::PRODUCER_BATCH == B,
        <Cfg<B, S, F> as Config>::CAS_FAIL_SKIP == S,
        <Cfg<B, S, F> as Config>::CONSUMED_FLUSH == F,
        bounds_hold::<Cfg<B, S, F>>() == (1 <= B <= 32 && 1 <= S && 1 <= F),
{
}

} // verus!
