//! Ranks: integers that stand for scalars wherever only sign and order matter.
//!
//! A binary64 number is a sign bit followed by 63 bits of magnitude, and
//! among numbers of one sign a larger magnitude field means a number further
//! from zero. Reading the pattern as sign and magnitude therefore gives a
//! signed integer with the sign and the order of the number it encodes, and
//! both zeros become 0. The infinities have the ranks of largest magnitude;
//! a pattern whose magnitude field lies beyond theirs encodes no number and
//! has no rank.

use vstd::prelude::*;

verus! {

/// The sign bit of a 64-bit pattern.
pub const SIGN_BIT: u64 = 0x8000_0000_0000_0000;

/// The 63 magnitude bits of a 64-bit pattern.
pub const MAGNITUDE_MASK: u64 = 0x7fff_ffff_ffff_ffff;

/// The rank of positive infinity: the exponent field all ones, the fraction
/// zero. No rank is larger, and none is smaller than its opposite.
pub const INFINITY: i64 = 0x7ff0_0000_0000_0000;

/// The magnitude field of `bits`.
pub open spec fn magnitude(bits: u64) -> u64 {
    bits & MAGNITUDE_MASK
}

/// Whether the sign bit of `bits` is set.
pub open spec fn is_negative(bits: u64) -> bool {
    bits & SIGN_BIT != 0
}

/// Whether `bits` encodes a number, finite or infinite.
pub open spec fn is_number(bits: u64) -> bool {
    magnitude(bits) <= INFINITY
}

/// The rank of a pattern: its magnitude, negated where the sign bit is set.
pub open spec fn rank_of(bits: u64) -> int {
    if is_negative(bits) {
        -(magnitude(bits) as int)
    } else {
        magnitude(bits) as int
    }
}

/// Whether `rank` is the rank of a number.
pub open spec fn is_rank(rank: int) -> bool {
    -INFINITY <= rank <= INFINITY
}

/// The pattern of a rank: the magnitude `|rank|`, with the sign bit set for a
/// negative rank.
pub open spec fn bits_of(rank: int) -> int {
    if rank < 0 {
        -rank + SIGN_BIT
    } else {
        rank
    }
}

/// The rank of the number that `bits` encodes, if it encodes one.
pub fn from_bits(bits: u64) -> (rank: Option<i64>)
    ensures
        rank.is_some() <==> is_number(bits),
        rank matches Some(r) ==> r == rank_of(bits) && is_rank(r as int),
{
    let mag: u64 = bits & MAGNITUDE_MASK;
    assert(mag <= 0x7fff_ffff_ffff_ffff) by (bit_vector)
        requires
            mag == bits & 0x7fff_ffff_ffff_ffff,
    ;
    if mag > 0x7ff0_0000_0000_0000 {
        None
    } else if bits & SIGN_BIT != 0 {
        Some(-(mag as i64))
    } else {
        Some(mag as i64)
    }
}

/// The pattern of the number with the rank `rank`, if there is such a
/// number. The rank 0 gives the pattern of positive zero.
pub fn to_bits(rank: i64) -> (bits: Option<u64>)
    ensures
        bits.is_some() <==> is_rank(rank as int),
        bits matches Some(b) ==> b == bits_of(rank as int) && is_number(b) && rank_of(b) == rank,
{
    if rank > INFINITY || rank < -INFINITY {
        None
    } else if rank >= 0 {
        let b: u64 = rank as u64;
        assert(b & 0x8000_0000_0000_0000 == 0 && b & 0x7fff_ffff_ffff_ffff == b) by (bit_vector)
            requires
                b <= 0x7ff0_0000_0000_0000,
        ;
        Some(b)
    } else {
        let mag: u64 = (-rank) as u64;
        let b: u64 = mag | SIGN_BIT;
        assert(b == mag + 0x8000_0000_0000_0000 && b & 0x8000_0000_0000_0000 != 0 && b
            & 0x7fff_ffff_ffff_ffff == mag) by (bit_vector)
            requires
                mag <= 0x7ff0_0000_0000_0000,
                b == mag | 0x8000_0000_0000_0000,
        ;
        Some(b)
    }
}

/// A rank read from a pattern and written back gives the pattern again,
/// except that negative zero comes back as positive zero.
pub proof fn lemma_bits_round_trip(bits: u64)
    ensures
        bits != SIGN_BIT ==> bits_of(rank_of(bits)) == bits,
        bits == SIGN_BIT ==> bits_of(rank_of(bits)) == 0,
{
    assert(bits & 0x8000_0000_0000_0000 == 0 ==> bits & 0x7fff_ffff_ffff_ffff == bits)
        by (bit_vector);
    assert(bits & 0x8000_0000_0000_0000 != 0 ==> (bits & 0x7fff_ffff_ffff_ffff)
        + 0x8000_0000_0000_0000 == bits) by (bit_vector);
    assert(0x8000_0000_0000_0000u64 & 0x7fff_ffff_ffff_ffff == 0) by (bit_vector);
    assert(0x8000_0000_0000_0000u64 & 0x8000_0000_0000_0000 != 0) by (bit_vector);
}

/// Flipping the sign bit of a pattern negates its rank, and a pattern
/// encodes a number exactly when the flipped one does.
pub proof fn lemma_sign_flip_negates(bits: u64)
    ensures
        rank_of(bits ^ SIGN_BIT) == -rank_of(bits),
        is_number(bits ^ SIGN_BIT) == is_number(bits),
{
    assert((bits ^ 0x8000_0000_0000_0000) & 0x7fff_ffff_ffff_ffff == bits
        & 0x7fff_ffff_ffff_ffff) by (bit_vector);
    assert(((bits ^ 0x8000_0000_0000_0000) & 0x8000_0000_0000_0000 != 0) == (bits
        & 0x8000_0000_0000_0000 == 0)) by (bit_vector);
}

/// Among patterns without the sign bit, ranks are ordered as the patterns;
/// among patterns with it, in the opposite order; and no pattern with the sign
/// bit ranks above one without.
pub proof fn lemma_rank_order(a: u64, b: u64)
    ensures
        !is_negative(a) && !is_negative(b) ==> (rank_of(a) <= rank_of(b) <==> a <= b),
        is_negative(a) && is_negative(b) ==> (rank_of(a) <= rank_of(b) <==> b <= a),
        is_negative(a) && !is_negative(b) ==> rank_of(a) <= rank_of(b),
{
    assert(a & 0x8000_0000_0000_0000 == 0 ==> a & 0x7fff_ffff_ffff_ffff == a) by (bit_vector);
    assert(b & 0x8000_0000_0000_0000 == 0 ==> b & 0x7fff_ffff_ffff_ffff == b) by (bit_vector);
    assert(a & 0x8000_0000_0000_0000 != 0 ==> (a & 0x7fff_ffff_ffff_ffff)
        + 0x8000_0000_0000_0000 == a) by (bit_vector);
    assert(b & 0x8000_0000_0000_0000 != 0 ==> (b & 0x7fff_ffff_ffff_ffff)
        + 0x8000_0000_0000_0000 == b) by (bit_vector);
}

/// The rank of a number is zero exactly for the two zeros.
pub proof fn lemma_rank_zero(bits: u64)
    ensures
        rank_of(bits) == 0 <==> bits == 0 || bits == SIGN_BIT,
{
    assert(bits & 0x7fff_ffff_ffff_ffff == 0 <==> bits == 0 || bits == 0x8000_0000_0000_0000)
        by (bit_vector);
}

} // verus!
