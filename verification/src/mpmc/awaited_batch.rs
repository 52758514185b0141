//! What a parked producer is waiting for, stated so a release can be
//! routed to it.
//!
//! A producer parks holding a batch of specific reserved positions, and
//! only the release of one of *those* positions lets it continue. A
//! release that wakes some other producer is spent: the woken one finds
//! nothing and parks again, and with the consumers idle there is no
//! further release to reach the pinned one.
//!
//! The batch is published here as a compact pair packed into one word:
//! the batch's starting position and the bitmap of positions still
//! unused. A waker that frees `pos` asks each parked producer whether
//! `pos` falls in its batch, and wakes the one that says yes. A producer
//! with an exhausted batch announces nothing and is served only when no
//! producer wanted the position.

use vstd::prelude::*;

use crate::common::bits::bit32;
use crate::common::wake_interest::WakeInterest;

verus! {

/// A parked producer's announced batch, or "anything".
///
/// Packed as `start << 32 | unused`, and zero for "anything": a batch
/// has a set bit, so it never packs to zero. A batch holds at most 32
/// positions, so `unused` fits in the low half; `start` keeps its
/// low 32 bits, which suffices because a match is decided on the
/// offset `pos - start` and only offsets below 32 can be in the batch.
#[derive(Debug)]
pub struct AwaitedBatch {
    word: u64,
}

impl View for AwaitedBatch {
    type V = Option<(u64, u32)>;

    /// The announced start, modulo 2^32, and bitmap; `None` for
    /// "anything".
    closed spec fn view(&self) -> Option<(u64, u32)> {
        if self.word == 0 {
            None
        } else {
            Some((self.word >> 32, (self.word & 0xffff_ffff) as u32))
        }
    }
}

/// What is published for the batch of positions `start + i`, for each
/// set bit `i` of `unused`. An empty batch is "anything".
pub open spec fn announcement(start: usize, unused: u32) -> Option<(u64, u32)> {
    if unused == 0 {
        None
    } else {
        Some(((start as int % 0x1_0000_0000) as u64, unused))
    }
}

/// What an announcer can do with a release of `pos`: nothing in
/// particular is wanted by one that announced nothing; a batch wants a
/// position exactly if its offset from the start, modulo 2^32, is that
/// of a set bit.
pub open spec fn interest_in(announced: Option<(u64, u32)>, pos: usize) -> WakeInterest {
    match announced {
        None => WakeInterest::Any,
        Some((start, unused)) => if bit32(unused, (pos - start) % 0x1_0000_0000) {
            WakeInterest::Reserved
        } else {
            WakeInterest::Declines
        },
    }
}

impl AwaitedBatch {
    const ANY: u64 = 0;

    const BATCH_WIDTH: u64 = 32;

    pub fn new() -> (awaited: Self)
        ensures
            awaited@ is None,
    {
        AwaitedBatch { word: Self::ANY }
    }

    /// Announces the positions `start + i` for each set bit `i` of
    /// `unused`. An empty `unused` means the producer needs a refill
    /// and will take any release.
    pub fn announce(&mut self, start: usize, unused: u32)
        ensures
            final(self)@ == announcement(start, unused),
    {
        let word: u64 = if unused == 0 {
            Self::ANY
        } else {
            Self::pack(start, unused)
        };
        self.word = word;
    }

    /// Withdraws any announcement, leaving the slot as a fresh one, so
    /// that the next holder of the park slot does not inherit it.
    pub fn retract(&mut self)
        ensures
            final(self)@ is None,
    {
        self.word = Self::ANY;
    }

    /// What the announcer can do with a release of `pos`.
    ///
    /// A producer that announced a batch containing `pos` is the one the
    /// release belongs to. One that announced nothing is waiting for a
    /// refill and will take whatever frees first. One that announced a
    /// batch *without* `pos` is pinned elsewhere: waking it spends the
    /// release and leaves the producer that could have used it parked.
    pub fn interest(&self, pos: usize) -> (interest: WakeInterest)
        ensures
            interest == interest_in(self@, pos),
    {
        let word: u64 = self.word;
        if word == Self::ANY {
            return WakeInterest::Any;
        }
        if Self::matches(word, pos) {
            WakeInterest::Reserved
        } else {
            WakeInterest::Declines
        }
    }

    /// The announced `(start, unused)`, or `None` for "anything".
    pub fn announced(&self) -> (announced: Option<(u64, u32)>)
        ensures
            announced == self@,
    {
        let word: u64 = self.word;
        if word == Self::ANY {
            return None;
        }
        Some((word >> 32, (word & 0xffff_ffff) as u32))
    }

    fn pack(start: usize, unused: u32) -> (word: u64)
        ensures
            word >> 32 == start as int % 0x1_0000_0000,
            word & 0xffff_ffff == unused,
            unused != 0 ==> word != 0,
    {
        let s: u64 = start as u64;
        let u: u64 = unused as u64;
        let word: u64 = (s << 32) | u;
        proof {
            assert(word >> 32 == s % 0x1_0000_0000 && word & 0xffff_ffff == u && (u != 0 ==> word
                != 0)) by (bit_vector)
                requires
                    word == (s << 32) | u,
                    u <= 0xffff_ffff,
            ;
        }
        word
    }

    fn matches(word: u64, pos: usize) -> (wanted: bool)
        ensures
            wanted == bit32(
                (word & 0xffff_ffff) as u32,
                (pos - (word >> 32)) % 0x1_0000_0000,
            ),
    {
        let start: u64 = word >> 32;
        let unused: u64 = word & 0xffff_ffff;
        let p: u64 = pos as u64;
        let low: u64 = p & 0xffff_ffff;
        let gap: u64 = low.wrapping_sub(start);
        let offset: u64 = gap & 0xffff_ffff;
        proof {
            assert(low == p % 0x1_0000_0000 && offset == gap % 0x1_0000_0000 && start
                <= 0xffff_ffff && unused <= 0xffff_ffff) by (bit_vector)
                requires
                    low == p & 0xffff_ffff,
                    offset == gap & 0xffff_ffff,
                    start == word >> 32,
                    unused == word & 0xffff_ffff,
            ;
            assert(offset == (p - start) % 0x1_0000_0000);
            if offset < 32 {
                let o32: u32 = offset as u32;
                let u32s: u32 = unused as u32;
                assert(((unused >> offset) & 1 == 1) == ((u32s >> o32) & 1 == 1)) by (bit_vector)
                    requires
                        unused <= 0xffff_ffff,
                        offset < 32,
                        o32 == offset as u32,
                        u32s == unused as u32,
                ;
            }
        }
        offset < Self::BATCH_WIDTH && (unused >> offset) & 1 == 1
    }
}

/// An announced batch attracts the releases of exactly its own unused
/// positions: of the positions within 2^31 of the start, one is wanted if
/// it is `start + i` for a set bit `i`, and declined if not.
/// This survives the start running past 32 bits.
pub proof fn lemma_batch_wants_its_own_positions(start: usize, unused: u32, pos: usize)
    requires
        unused != 0,
        start - 0x8000_0000 <= pos < start + 0x8000_0000,
    ensures
        interest_in(announcement(start, unused), pos) == if bit32(unused, pos - start) {
            WakeInterest::Reserved
        } else {
            WakeInterest::Declines
        },
{
    let s: int = start as int % 0x1_0000_0000;
    if pos >= start {
        assert((pos - s) % 0x1_0000_0000 == pos - start);
    } else {
        assert((pos - s) % 0x1_0000_0000 == pos - start + 0x1_0000_0000);
    }
}

/// A retracted slot is indistinguishable from a fresh one: it takes
/// anything and is pinned to nothing.
pub proof fn lemma_nothing_announced_takes_anything(pos: usize)
    ensures
        interest_in(None, pos) == WakeInterest::Any,
{
}

/// An exhausted batch is announced as nothing, and takes anything.
pub proof fn lemma_exhausted_batch_takes_anything(start: usize, pos: usize)
    ensures
        interest_in(announcement(start, 0), pos) == WakeInterest::Any,
{
}

/// Interest repeats every 2^32 positions, which no ring is wide enough to
/// notice.
pub proof fn lemma_interest_repeats(announced: Option<(u64, u32)>, pos: usize, laps: int)
    requires
        0 <= pos + laps * 0x1_0000_0000 <= usize::MAX,
    ensures
        interest_in(announced, (pos + laps * 0x1_0000_0000) as usize) == interest_in(
            announced,
            pos,
        ),
{
    match announced {
        Some((start, unused)) => {
            vstd::arithmetic::div_mod::lemma_mod_multiples_vanish(
                laps,
                pos - start,
                0x1_0000_0000,
            );
            assert(pos + laps * 0x1_0000_0000 - start == 0x1_0000_0000 * laps + (pos - start));
        },
        None => {},
    }
}

} // verus!
