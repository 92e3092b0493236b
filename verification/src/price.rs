//! Ordering and comparison of `f64` prices held as their bit patterns.
//!
//! `f64::total_cmp` orders floats by a key derived from their bits: positive
//! values keep their bits, negative values map below all positive ones with
//! their magnitude reversed. The IEEE-754 `>` agrees with that order except
//! that it is false whenever a NaN is involved and treats `-0.0` and `+0.0`
//! as equal.

use vstd::prelude::*;

verus! {

/// The sign bit of an `f64` bit pattern.
pub const SIGN_BIT: u64 = 0x8000_0000_0000_0000u64;

/// The magnitude bits of the largest finite exponent pattern: bit patterns
/// whose magnitude exceeds this (all-ones exponent, non-zero mantissa) are NaN.
pub const INFINITY_MAGNITUDE: u64 = 0x7FF0_0000_0000_0000u64;

/// The key by which `f64::total_cmp` orders the float with these bits.
pub open spec fn total_order_key(bits: u64) -> int {
    if bits < SIGN_BIT {
        bits as int
    } else {
        -1 - (bits - SIGN_BIT)
    }
}

/// The magnitude (all bits but the sign) of an `f64` bit pattern.
pub open spec fn magnitude(bits: u64) -> int {
    if bits < SIGN_BIT {
        bits as int
    } else {
        bits - SIGN_BIT
    }
}

/// Whether the bits encode a NaN.
pub open spec fn is_nan_bits(bits: u64) -> bool {
    magnitude(bits) > INFINITY_MAGNITUDE
}

/// Whether the bits encode `+0.0` or `-0.0`.
pub open spec fn is_zero_bits(bits: u64) -> bool {
    magnitude(bits) == 0
}

/// IEEE-754 `a > b` on the floats with these bits.
pub open spec fn spec_price_gt(a: u64, b: u64) -> bool {
    &&& !is_nan_bits(a)
    &&& !is_nan_bits(b)
    &&& !(is_zero_bits(a) && is_zero_bits(b))
    &&& total_order_key(a) > total_order_key(b)
}

/// The `f64::total_cmp` key of a price's bits.
pub fn order_key(bits: u64) -> (k: i64)
    ensures
        k == total_order_key(bits),
{
    if bits < SIGN_BIT {
        bits as i64
    } else {
        -1 - ((bits - SIGN_BIT) as i64)
    }
}

/// Whether the float with bits `a` is greater than the one with bits `b`, as
/// the IEEE-754 `>` decides it.
pub fn price_gt(a: u64, b: u64) -> (r: bool)
    ensures
        r == spec_price_gt(a, b),
{
    let ma = if a < SIGN_BIT {
        a
    } else {
        a - SIGN_BIT
    };
    let mb = if b < SIGN_BIT {
        b
    } else {
        b - SIGN_BIT
    };
    if ma > INFINITY_MAGNITUDE || mb > INFINITY_MAGNITUDE {
        return false;
    }
    if ma == 0 && mb == 0 {
        return false;
    }
    order_key(a) > order_key(b)
}

/// Distinct bit patterns have distinct keys: the total order separates every
/// pair of distinct floats, so two prices of equal key are the same price.
pub proof fn lemma_total_order_key_injective(a: u64, b: u64)
    requires
        total_order_key(a) == total_order_key(b),
    ensures
        a == b,
{
}


/// The total order follows the bit patterns: among non-negative floats
/// (sign bit clear) a larger pattern is a larger float; among negative ones a
/// larger pattern is a smaller float; every negative float is below every
/// non-negative one.
pub proof fn lemma_total_order_follows_bits(a: u64, b: u64)
    ensures
        a < SIGN_BIT && b < SIGN_BIT ==> (total_order_key(a) < total_order_key(b) <==> a < b),
        a >= SIGN_BIT && b >= SIGN_BIT ==> (total_order_key(a) < total_order_key(b) <==> a > b),
        a >= SIGN_BIT && b < SIGN_BIT ==> total_order_key(a) < total_order_key(b),
{
}

/// IEEE `>` on bit patterns: false when either side is NaN; between two
/// non-negative floats it is `>` of their patterns, between two negative
/// floats `<` of their patterns; a non-negative float is greater than a
/// negative one unless both are zeros.
pub proof fn lemma_price_gt_follows_bits(a: u64, b: u64)
    ensures
        is_nan_bits(a) || is_nan_bits(b) ==> !spec_price_gt(a, b),
        !is_nan_bits(a) && !is_nan_bits(b) && a < SIGN_BIT && b < SIGN_BIT ==> (spec_price_gt(a, b) <==> a > b),
        !is_nan_bits(a) && !is_nan_bits(b) && a >= SIGN_BIT && b >= SIGN_BIT ==> (spec_price_gt(a, b) <==> a < b),
        !is_nan_bits(a) && !is_nan_bits(b) && a < SIGN_BIT && b >= SIGN_BIT ==> (spec_price_gt(a, b) <==> !(a == 0 && b == SIGN_BIT)),
        a >= SIGN_BIT && b < SIGN_BIT ==> !spec_price_gt(a, b),
{
}

} // verus!
