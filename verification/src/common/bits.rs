//! Single-bit operations on the bitmaps of the rings.

use vstd::prelude::*;

verus! {

/// Whether bit `i` of `mask` is set.
pub open spec fn bit64(mask: u64, i: int) -> bool {
    0 <= i < 64 && (mask >> (i as u64)) & 1 == 1
}

/// Whether bit `i` of `mask` is set.
pub open spec fn bit32(mask: u32, i: int) -> bool {
    0 <= i < 32 && (mask >> (i as u32)) & 1 == 1
}

/// Setting bit `i` sets that bit and keeps the others.
pub proof fn lemma_set_bit64(mask: u64, i: u64)
    requires
        i < 64,
    ensures
        forall|j: int| #[trigger] bit64(mask | (1u64 << i), j) == (j == i || bit64(mask, j)),
        mask | (1u64 << i) != 0,
{
    let new: u64 = mask | (1u64 << i);
    assert(new != 0) by (bit_vector)
        requires
            new == mask | (1u64 << i),
            i < 64,
    ;
    assert forall|j: int| #[trigger] bit64(new, j) == (j == i || bit64(mask, j)) by {
        if 0 <= j < 64 {
            let b: u64 = j as u64;
            assert(((new >> b) & 1 == 1) == (b == i || ((mask >> b) & 1 == 1))) by (bit_vector)
                requires
                    new == mask | (1u64 << i),
                    i < 64,
                    b < 64,
            ;
        }
    }
}

/// Clearing bit `i` clears that bit and keeps the others.
pub proof fn lemma_clear_bit64(mask: u64, i: u64)
    requires
        i < 64,
    ensures
        forall|j: int| #[trigger] bit64(mask & !(1u64 << i), j) == (j != i && bit64(mask, j)),
{
    let new: u64 = mask & !(1u64 << i);
    assert forall|j: int| #[trigger] bit64(new, j) == (j != i && bit64(mask, j)) by {
        if 0 <= j < 64 {
            let b: u64 = j as u64;
            assert(((new >> b) & 1 == 1) == (b != i && ((mask >> b) & 1 == 1))) by (bit_vector)
                requires
                    new == mask & !(1u64 << i),
                    i < 64,
                    b < 64,
            ;
        }
    }
}

/// A word with no bit set is zero.
pub proof fn lemma_no_bits64(mask: u64)
    requires
        forall|i: int| !(#[trigger] bit64(mask, i)),
    ensures
        mask == 0,
{
    if mask != 0 {
        let low: u64 = mask.trailing_zeros() as u64;
        vstd::std_specs::bits::axiom_u64_trailing_zeros(mask);
        assert(bit64(mask, low as int));
    }
}

/// Zero has no bit set.
pub proof fn lemma_zero_bits64(i: int)
    ensures
        !bit64(0, i),
{
    if 0 <= i < 64 {
        let b: u64 = i as u64;
        assert((0u64 >> b) & 1 == 0) by (bit_vector);
    }
}

/// Setting bit `i` sets that bit and keeps the others.
pub proof fn lemma_set_bit32(mask: u32, i: u32)
    requires
        i < 32,
    ensures
        forall|j: int| #[trigger] bit32(mask | (1u32 << i), j) == (j == i || bit32(mask, j)),
        mask | (1u32 << i) != 0,
{
    let new: u32 = mask | (1u32 << i);
    assert(new != 0) by (bit_vector)
        requires
            new == mask | (1u32 << i),
            i < 32,
    ;
    assert forall|j: int| #[trigger] bit32(new, j) == (j == i || bit32(mask, j)) by {
        if 0 <= j < 32 {
            let b: u32 = j as u32;
            assert(((new >> b) & 1 == 1) == (b == i || ((mask >> b) & 1 == 1))) by (bit_vector)
                requires
                    new == mask | (1u32 << i),
                    i < 32,
                    b < 32,
            ;
        }
    }
}

/// Clearing bit `i` clears that bit and keeps the others.
pub proof fn lemma_clear_bit32(mask: u32, i: u32)
    requires
        i < 32,
    ensures
        forall|j: int| #[trigger] bit32(mask & !(1u32 << i), j) == (j != i && bit32(mask, j)),
{
    let new: u32 = mask & !(1u32 << i);
    assert forall|j: int| #[trigger] bit32(new, j) == (j != i && bit32(mask, j)) by {
        if 0 <= j < 32 {
            let b: u32 = j as u32;
            assert(((new >> b) & 1 == 1) == (b != i && ((mask >> b) & 1 == 1))) by (bit_vector)
                requires
                    new == mask & !(1u32 << i),
                    i < 32,
                    b < 32,
            ;
        }
    }
}

/// A word with no bit set is zero.
pub proof fn lemma_no_bits32(mask: u32)
    requires
        forall|i: int| !(#[trigger] bit32(mask, i)),
    ensures
        mask == 0,
{
    if mask != 0 {
        let low: u32 = mask.trailing_zeros() as u32;
        vstd::std_specs::bits::axiom_u32_trailing_zeros(mask);
        assert(bit32(mask, low as int));
    }
}

/// Zero has no bit set.
pub proof fn lemma_zero_bits32(i: int)
    ensures
        !bit32(0, i),
{
    if 0 <= i < 32 {
        let b: u32 = i as u32;
        assert((0u32 >> b) & 1 == 0) by (bit_vector);
    }
}

/// Reads bit `i` of `mask`.
pub fn has_bit64(mask: u64, i: usize) -> (set: bool)
    requires
        i < 64,
    ensures
        set == bit64(mask, i as int),
{
    (mask >> (i as u64)) & 1 == 1
}

/// Reads bit `i` of `mask`.
pub fn has_bit32(mask: u32, i: u32) -> (set: bool)
    requires
        i < 32,
    ensures
        set == bit32(mask, i as int),
{
    (mask >> i) & 1 == 1
}

/// `mask` with bit `i` set.
pub fn with_bit64(mask: u64, i: usize) -> (new: u64)
    requires
        i < 64,
    ensures
        new == mask | (1u64 << (i as u64)),
        forall|j: int| #[trigger] bit64(new, j) == (j == i || bit64(mask, j)),
        new != 0,
{
    proof {
        lemma_set_bit64(mask, i as u64);
    }
    mask | (1u64 << (i as u64))
}

/// `mask` with bit `i` cleared.
pub fn without_bit64(mask: u64, i: usize) -> (new: u64)
    requires
        i < 64,
    ensures
        new == mask & !(1u64 << (i as u64)),
        forall|j: int| #[trigger] bit64(new, j) == (j != i && bit64(mask, j)),
{
    proof {
        lemma_clear_bit64(mask, i as u64);
    }
    mask & !(1u64 << (i as u64))
}

/// `mask` with bit `i` set.
pub fn with_bit32(mask: u32, i: u32) -> (new: u32)
    requires
        i < 32,
    ensures
        new == mask | (1u32 << i),
        forall|j: int| #[trigger] bit32(new, j) == (j == i || bit32(mask, j)),
        new != 0,
{
    proof {
        lemma_set_bit32(mask, i);
    }
    mask | (1u32 << i)
}

/// `mask` with bit `i` cleared.
pub fn without_bit32(mask: u32, i: u32) -> (new: u32)
    requires
        i < 32,
    ensures
        new == mask & !(1u32 << i),
        forall|j: int| #[trigger] bit32(new, j) == (j != i && bit32(mask, j)),
{
    proof {
        lemma_clear_bit32(mask, i);
    }
    mask & !(1u32 << i)
}

} // verus!
