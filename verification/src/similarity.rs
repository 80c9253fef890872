//! String similarity, carried as the bit pattern of a double.

use vstd::prelude::*;

verus! {

/// The Jaro-Winkler similarity of the texts `a` and `b`, as the IEEE-754 bit
/// pattern of the double that the measure yields.
pub uninterp spec fn jaro_winkler_bits(a: Seq<char>, b: Seq<char>) -> u64;

/// The bit pattern of the double 1.0. The patterns from zero up to this one
/// are those of the doubles from 0.0 to 1.0, in the same order.
pub const ONE_BITS: u64 = 0x3FF0_0000_0000_0000;

/// Whether `bits` is the pattern of a double from 0.0 to 1.0.
pub open spec fn is_unit_score(bits: u64) -> bool {
    bits <= ONE_BITS
}

/// The Jaro-Winkler similarity of `a` and `b`, as a bit pattern.
///
/// Trusted: the body calls `strsim::jaro_winkler` and takes the bits of the
/// double that it returns. The contract claims two things of that function.
/// Its result is determined by the characters of its two arguments: it
/// counts matching characters and divides the counts in double arithmetic,
/// and reads nothing else. And its result lies between 0.0 and 1.0: the
/// Jaro similarity is a third of the sum of three quotients, none above
/// one, and the boost for a common prefix adds at most four tenths of what
/// is missing to one.
#[verifier::external_body]
pub(crate) fn similarity_bits(a: &str, b: &str) -> (bits: u64)
    ensures
        bits == jaro_winkler_bits(a@, b@),
        is_unit_score(bits),
{
    strsim::jaro_winkler(a, b).to_bits()
}

} // verus!
