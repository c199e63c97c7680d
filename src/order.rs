use vstd::prelude::*;

verus! {

/// The sign bit of an IEEE-754 double.
pub const SIGN_BIT: u64 = 0x8000_0000_0000_0000;

/// The place of a double, given by its bit pattern, in the order of doubles.
///
/// Positive values (sign bit clear) come above every negative one and keep
/// the order of their bit patterns; negative values come in the reverse order
/// of theirs; the two zeros share one place. For any two doubles that are not
/// NaN, `x < y` holds exactly when the key of `x` is below the key of `y`.
pub open spec fn key_of(bits: u64) -> int {
    if bits > SIGN_BIT {
        u64::MAX - bits
    } else if bits == SIGN_BIT {
        SIGN_BIT as int
    } else {
        bits + SIGN_BIT
    }
}

/// The ordering key of a double given by its bit pattern.
pub fn order_key(bits: u64) -> (r: u64)
    ensures
        r == key_of(bits),
{
    if bits > SIGN_BIT {
        u64::MAX - bits
    } else if bits == SIGN_BIT {
        SIGN_BIT
    } else {
        bits + SIGN_BIT
    }
}

/// Whether a similarity is at least the threshold (both as bit patterns):
/// a similarity below the threshold is left out.
pub fn meets_threshold(similarity: u64, threshold: u64) -> (r: bool)
    ensures
        r == !(key_of(similarity) < key_of(threshold)),
{
    order_key(similarity) >= order_key(threshold)
}

/// Whether a score, as a bit pattern, is above zero.
pub fn is_positive(score: u64) -> (r: bool)
    ensures
        r == (key_of(score) > key_of(0)),
{
    order_key(score) > order_key(0)
}

} // verus!
