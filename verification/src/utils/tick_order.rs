//! The conversion from square-root prices to ticks keeps the order of
//! prices: a higher price never has a lower tick.
use crate::utils::arith::{lemma_div_at_least, lemma_div_monotone};
use crate::utils::ladder::{lemma_sqrt_price_order, lemma_sqrt_price_range, sqrt_price_at_tick};
use crate::utils::math::{
    approximate_tick, floor_log2, is_valid_sqrt_price, is_valid_tick, lemma_floor_log2_bounds,
    log2_fraction, log2_mantissa, log2_x64, refine_tick, tick_at_sqrt_price, truncated_quotient,
    BIT_PRECISION, LOG_BASE, MAX_TICK,
};
use vstd::arithmetic::power2::{lemma_pow2_pos, pow2};
use vstd::prelude::*;

verus! {

/// The binary logarithm, floored, is monotone.
pub proof fn lemma_floor_log2_monotone(x: int, y: int)
    requires
        1 <= x <= y,
    ensures
        floor_log2(x) <= floor_log2(y),
    decreases y,
{
    if x > 1 {
        lemma_floor_log2_monotone(x / 2, y / 2);
    } else {
        lemma_floor_log2_bounds(y);
    }
}

/// With no weight left, the fractional bits are zero.
proof fn lemma_log2_fraction_of_no_weight(mantissa: int, rounds: nat)
    ensures
        log2_fraction(mantissa, 0, rounds) == 0,
    decreases rounds,
{
    if rounds > 0 {
        let square = mantissa * mantissa / 0x8000_0000_0000_0000;
        lemma_log2_fraction_of_no_weight(square / 2, (rounds - 1) as nat);
        lemma_log2_fraction_of_no_weight(square, (rounds - 1) as nat);
    }
}

/// The fractional bits weigh less than twice their first bit.
pub proof fn lemma_log2_fraction_bounds(mantissa: int, bit: int, rounds: nat)
    requires
        0 <= bit,
    ensures
        0 <= log2_fraction(mantissa, bit, rounds) <= 2 * bit,
        bit >= 1 ==> log2_fraction(mantissa, bit, rounds) <= 2 * bit - 1,
    decreases rounds,
{
    if rounds > 0 {
        let square = mantissa * mantissa / 0x8000_0000_0000_0000;
        lemma_log2_fraction_bounds(square / 2, bit / 2, (rounds - 1) as nat);
        lemma_log2_fraction_bounds(square, bit / 2, (rounds - 1) as nat);
        if bit == 1 {
            lemma_log2_fraction_of_no_weight(square / 2, (rounds - 1) as nat);
            lemma_log2_fraction_of_no_weight(square, (rounds - 1) as nat);
        }
    }
}

/// The fractional bits are monotone in the mantissa.
pub proof fn lemma_log2_fraction_monotone(low: int, high: int, bit: int, rounds: nat)
    requires
        0 <= low <= high,
        0 <= bit,
    ensures
        log2_fraction(low, bit, rounds) <= log2_fraction(high, bit, rounds),
    decreases rounds,
{
    if rounds > 0 {
        let low_square = low * low / 0x8000_0000_0000_0000;
        let high_square = high * high / 0x8000_0000_0000_0000;
        assert(0 <= low * low <= high * high) by (nonlinear_arith)
            requires
                0 <= low <= high,
        ;
        lemma_div_monotone(low * low, high * high, 0x8000_0000_0000_0000);
        lemma_div_at_least(low * low, 0x8000_0000_0000_0000, 0);
        let rest = (rounds - 1) as nat;
        if low_square >= 0x1_0000_0000_0000_0000 {
            lemma_log2_fraction_monotone(low_square / 2, high_square / 2, bit / 2, rest);
        } else if high_square >= 0x1_0000_0000_0000_0000 {
            lemma_log2_fraction_bounds(low_square, bit / 2, rest);
            lemma_log2_fraction_bounds(high_square / 2, bit / 2, rest);
            if bit == 1 {
                lemma_log2_fraction_of_no_weight(low_square, rest);
            }
        } else {
            lemma_log2_fraction_monotone(low_square, high_square, bit / 2, rest);
        }
    }
}

/// Among numbers with the same highest set bit, the mantissa is monotone.
pub proof fn lemma_log2_mantissa_monotone(x: int, y: int)
    requires
        1 <= x <= y,
        floor_log2(x) == floor_log2(y),
    ensures
        0 <= log2_mantissa(x) <= log2_mantissa(y),
{
    lemma_floor_log2_bounds(x);
    let msb = floor_log2(x);
    if msb >= 63 {
        let d = pow2((msb - 63) as nat) as int;
        lemma_pow2_pos((msb - 63) as nat);
        lemma_div_monotone(x, y, d);
        lemma_div_at_least(x, d, 0);
    } else {
        let d = pow2((63 - msb) as nat) as int;
        lemma_pow2_pos((63 - msb) as nat);
        assert(0 <= x * d <= y * d) by (nonlinear_arith)
            requires
                0 <= x <= y,
                0 < d,
        ;
    }
}

/// The binary logarithm in Q64.64 is monotone.
pub proof fn lemma_log2_x64_monotone(x: int, y: int)
    requires
        1 <= x <= y,
    ensures
        log2_x64(x) <= log2_x64(y),
{
    lemma_floor_log2_monotone(x, y);
    lemma_log2_fraction_bounds(log2_mantissa(x), 0x8000_0000_0000_0000, BIT_PRECISION as nat);
    lemma_log2_fraction_bounds(log2_mantissa(y), 0x8000_0000_0000_0000, BIT_PRECISION as nat);
    if floor_log2(x) == floor_log2(y) {
        lemma_log2_mantissa_monotone(x, y);
        lemma_log2_fraction_monotone(
            log2_mantissa(x),
            log2_mantissa(y),
            0x8000_0000_0000_0000,
            BIT_PRECISION as nat,
        );
    }
}

/// Division toward zero by a positive divisor is monotone.
pub proof fn lemma_truncated_quotient_monotone(a: int, b: int, d: int)
    requires
        a <= b,
        0 < d,
    ensures
        truncated_quotient(a, d) <= truncated_quotient(b, d),
{
    if a >= 0 {
        lemma_div_monotone(a, b, d);
    } else if b < 0 {
        lemma_div_monotone(-b, -a, d);
    } else {
        lemma_div_at_least(b, d, 0);
        lemma_div_at_least(-a, d, 0);
    }
}

/// The estimate of the tick is monotone in the price.
pub proof fn lemma_approximate_tick_monotone(low: int, high: int)
    requires
        0x1_0000_0000 <= low <= high,
    ensures
        approximate_tick(low) <= approximate_tick(high),
{
    lemma_div_monotone(low, high, 0x1_0000_0000);
    lemma_div_at_least(low, 0x1_0000_0000, 1);
    lemma_log2_x64_monotone(low / 0x1_0000_0000, high / 0x1_0000_0000);
    lemma_truncated_quotient_monotone(
        log2_x64(low / 0x1_0000_0000),
        log2_x64(high / 0x1_0000_0000),
        LOG_BASE as int,
    );
}

/// The refinement keeps the order of estimates and prices.
pub proof fn lemma_refine_tick_monotone(
    low_estimate: int,
    high_estimate: int,
    low_price: int,
    high_price: int,
)
    requires
        low_estimate <= high_estimate,
        low_price <= high_price,
    ensures
        refine_tick(low_estimate, low_price) <= refine_tick(high_estimate, high_price),
{
}

/// The tick of a square-root price is monotone in the price: of two valid
/// prices, the higher never has the lower tick.
pub proof fn lemma_tick_at_sqrt_price_monotone(low: int, high: int)
    requires
        is_valid_sqrt_price(low),
        is_valid_sqrt_price(high),
        low <= high,
    ensures
        tick_at_sqrt_price(low) <= tick_at_sqrt_price(high),
{
    lemma_approximate_tick_monotone(low, high);
    lemma_refine_tick_monotone(approximate_tick(low), approximate_tick(high), low, high);
}

/// The round trip from a tick to its price and back never falls as the
/// tick rises. The highest tick is left out: its price is the bound above
/// all prices that have a tick.
pub proof fn lemma_round_trip_monotone(low: int, high: int)
    requires
        is_valid_tick(low),
        is_valid_tick(high),
        low <= high < MAX_TICK,
    ensures
        is_valid_sqrt_price(sqrt_price_at_tick(low)),
        is_valid_sqrt_price(sqrt_price_at_tick(high)),
        tick_at_sqrt_price(sqrt_price_at_tick(low)) <= tick_at_sqrt_price(
            sqrt_price_at_tick(high),
        ),
{
    lemma_sqrt_price_range(low);
    lemma_sqrt_price_range(high);
    lemma_sqrt_price_order(low, high);
    lemma_tick_at_sqrt_price_monotone(sqrt_price_at_tick(low), sqrt_price_at_tick(high));
}

} // verus!
