//! Facts about multiplication and floor division that the fixed-point
//! layer leans on.
use vstd::prelude::*;

verus! {

/// Floor division is monotone in the numerator.
pub proof fn lemma_div_monotone(a: int, b: int, d: int)
    requires
        a <= b,
        d > 0,
    ensures
        a / d <= b / d,
{
    vstd::arithmetic::div_mod::lemma_div_is_ordered(a, b, d);
}

/// Floor division by a larger denominator gives no larger quotient.
pub proof fn lemma_div_antitone(a: int, d1: int, d2: int)
    requires
        0 <= a,
        0 < d1 <= d2,
    ensures
        a / d2 <= a / d1,
{
    vstd::arithmetic::div_mod::lemma_div_is_ordered_by_denominator(a, d1, d2);
}

/// The defining bounds of a floor quotient.
pub proof fn lemma_div_bounds(a: int, d: int)
    requires
        d > 0,
    ensures
        (a / d) * d <= a < (a / d) * d + d,
{
    vstd::arithmetic::div_mod::lemma_fundamental_div_mod(a, d);
    vstd::arithmetic::div_mod::lemma_mod_bound(a, d);
    vstd::arithmetic::mul::lemma_mul_is_commutative(a / d, d);
}

/// A quotient is at least `q` as soon as the numerator reaches `q * d`.
pub proof fn lemma_div_at_least(a: int, d: int, q: int)
    requires
        d > 0,
        q * d <= a,
    ensures
        q <= a / d,
{
    lemma_div_bounds(a, d);
    assert(q < a / d + 1) by (nonlinear_arith)
        requires
            q * d <= a,
            a < (a / d) * d + d,
            d > 0,
    ;
}

/// A quotient is below `q` as soon as the numerator is below `q * d`.
pub proof fn lemma_div_below(a: int, d: int, q: int)
    requires
        d > 0,
        a < q * d,
    ensures
        a / d < q,
{
    lemma_div_bounds(a, d);
    assert((a / d) * d < q * d);
    assert(a / d < q) by (nonlinear_arith)
        requires
            (a / d) * d < q * d,
            d > 0,
    ;
}

/// Shifting a 128-bit number right by 64 divides it by `2^64`.
pub proof fn lemma_shr_64_is_div(x: u128)
    by (bit_vector)
    ensures
        x >> 64 == x / 0x1_0000_0000_0000_0000,
{
}

/// Shifting a number below `2^96` left by 32 multiplies it by `2^32`.
pub proof fn lemma_shl_32_is_mul(x: u128)
    by (bit_vector)
    requires
        x < 0x1_0000_0000_0000_0000_0000_0000,
    ensures
        x << 32 == x * 0x1_0000_0000,
{
}

/// Shifting a 128-bit number right by 32 divides it by `2^32`.
pub proof fn lemma_shr_32_is_div(x: u128)
    by (bit_vector)
    ensures
        x >> 32 == x / 0x1_0000_0000,
{
}

/// Shifting a 128-bit number right by 63 divides it by `2^63`, and shifting
/// it right by one halves it.
pub proof fn lemma_shr_63_is_div(x: u128)
    by (bit_vector)
    ensures
        x >> 63 == x / 0x8000_0000_0000_0000,
        x >> 1 == x / 2,
{
}

} // verus!
