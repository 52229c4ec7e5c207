//! Deciding whether two bytes count as different.

use vstd::prelude::*;

verus! {

/// How a pair of bytes is judged.
#[derive(Clone, Copy, Debug, PartialEq, Eq, Structural)]
pub enum ComparisonMode {
    /// Every pair of unequal bytes is a difference.
    ExactInequality,
    /// Only pairs that are one flipped bit apart are differences.
    SingleBitFlipOnly,
}

/// The value of bit `i` of `x`: 0 or 1.
pub open spec fn bit(x: u8, i: nat) -> nat {
    if (x >> i) & 1 == 1 {
        1
    } else {
        0
    }
}

/// The number of bits that are set in `x`.
pub open spec fn popcount(x: u8) -> nat {
    bit(x, 0) + bit(x, 1) + bit(x, 2) + bit(x, 3) + bit(x, 4) + bit(x, 5) + bit(x, 6) + bit(x, 7)
}

/// The number of bit positions in which `a` and `b` disagree.
pub open spec fn hamming_distance(a: u8, b: u8) -> nat {
    popcount(a ^ b)
}

/// Whether `a` and `b` count as different under `mode`.
pub open spec fn differs(a: u8, b: u8, mode: ComparisonMode) -> bool {
    match mode {
        ComparisonMode::ExactInequality => a != b,
        ComparisonMode::SingleBitFlipOnly => hamming_distance(a, b) == 1,
    }
}

/// The mode that the single-bit-flip switch selects.
pub open spec fn mode_of_switch(single_bitflip_only: bool) -> ComparisonMode {
    if single_bitflip_only {
        ComparisonMode::SingleBitFlipOnly
    } else {
        ComparisonMode::ExactInequality
    }
}

/// Two equal bytes never count as different, whatever the mode.
pub proof fn lemma_equal_bytes_never_differ(a: u8, mode: ComparisonMode)
    ensures
        !differs(a, a, mode),
{
    assert(popcount(a ^ a) == 0) by (bit_vector);
}

/// Two bytes are one bit apart exactly when flipping one of the eight bits of
/// the first gives the second.
pub proof fn lemma_one_bit_apart(a: u8, b: u8)
    ensures
        hamming_distance(a, b) == 1 <==> (b == a ^ 1 || b == a ^ 2 || b == a ^ 4 || b == a ^ 8 || b
            == a ^ 16 || b == a ^ 32 || b == a ^ 64 || b == a ^ 128),
{
    assert(popcount(a ^ b) == 1 <==> (b == a ^ 1 || b == a ^ 2 || b == a ^ 4 || b == a ^ 8 || b == a
        ^ 16 || b == a ^ 32 || b == a ^ 64 || b == a ^ 128)) by (bit_vector);
}

/// The order of the two bytes plays no part in whether they count as
/// different.
pub proof fn lemma_differs_is_symmetric(a: u8, b: u8, mode: ComparisonMode)
    ensures
        differs(a, b, mode) == differs(b, a, mode),
{
    assert(popcount(a ^ b) == popcount(b ^ a)) by (bit_vector);
}

/// Whatever the single-bit-flip mode reports, the exact mode reports too.
pub proof fn lemma_bit_flip_is_inequality(a: u8, b: u8)
    ensures
        differs(a, b, ComparisonMode::SingleBitFlipOnly) ==> differs(
            a,
            b,
            ComparisonMode::ExactInequality,
        ),
{
    assert(popcount(a ^ b) == 1 ==> a != b) by (bit_vector);
}

/// A byte has exactly one bit set exactly when it is non-zero and clearing its
/// lowest set bit leaves nothing.
pub proof fn lemma_one_bit_set(x: u8)
    ensures
        popcount(x) == 1 <==> (x != 0 && x & ((x - 1) as u8) == 0),
{
    assert(popcount(x) == 1 <==> (x != 0 && x & ((x - 1) as u8) == 0)) by (bit_vector);
}

impl ComparisonMode {
    /// The mode selected by the single-bit-flip switch.
    pub fn from_switch(single_bitflip_only: bool) -> (mode: ComparisonMode)
        ensures
            mode == mode_of_switch(single_bitflip_only),
    {
        if single_bitflip_only {
            ComparisonMode::SingleBitFlipOnly
        } else {
            ComparisonMode::ExactInequality
        }
    }
}

/// Tells whether `v1` and `v2` differ in exactly one bit position.
pub fn is_bitflipped(v1: u8, v2: u8) -> (flipped: bool)
    ensures
        flipped <==> hamming_distance(v1, v2) == 1,
{
    let v: u8 = v1 ^ v2;
    proof {
        lemma_one_bit_set(v);
    }
    if v == 0 {
        return false;
    }
    v & (v - 1) == 0
}

/// Tells whether `a` and `b` count as different under `mode`.
pub fn is_different(a: u8, b: u8, mode: ComparisonMode) -> (different: bool)
    ensures
        different == differs(a, b, mode),
{
    match mode {
        ComparisonMode::ExactInequality => a != b,
        ComparisonMode::SingleBitFlipOnly => is_bitflipped(a, b),
    }
}

} // verus!
