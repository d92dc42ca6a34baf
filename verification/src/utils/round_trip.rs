//! The round trip from a tick to its square-root price and back: the tick
//! that comes back is within one of the tick that went in.
//!
//! The estimate that the binary logarithm gives for the price of a tick is
//! off by at most two, for the logarithm is exact to within a fraction of
//! the width of a tick and the width itself to within a few parts in a
//! million. The refinement then moves the estimate toward the tick.
use crate::utils::ladder::{
    ladder_ratio, lemma_sqrt_price_order, lemma_sqrt_price_range, reciprocal_numerator,
    sqrt_price_at_tick, sqrt_price_x64_at_tick,
};
use crate::utils::ladder_log::{
    lemma_fraction_round, lemma_log_of_ratio, lemma_log_of_reciprocal, two_to_128,
};
use crate::utils::log_bounds::{lemma_log2_x64_in_bits, log2_bits};
use crate::utils::math::{
    approximate_tick, is_valid_sqrt_price, is_valid_tick, lemma_floor_log2_unique,
    log2_mantissa, log2_x64, tick_at_sqrt_price, truncated_quotient, LOG_BASE,
    MAX_SQRT_PRICE_X96, MAX_TICK, MIN_SQRT_PRICE_X64, MIN_SQRT_PRICE_X96, MIN_TICK,
};
use crate::utils::tick_order::{lemma_approximate_tick_monotone, lemma_tick_at_sqrt_price_monotone};
use crate::utils::arith::{lemma_div_at_least, lemma_div_below};
use vstd::arithmetic::power2::{lemma2_to64, lemma2_to64_rest};
use vstd::prelude::*;

verus! {

/// The estimate looks at the price in Q64.64: the estimate of the price of
/// a tick is the logarithm of the tick's price in Q64.64 over the width of
/// a tick, rounded toward zero.
proof fn lemma_approximate_tick_of_price(tick: int)
    ensures
        approximate_tick(sqrt_price_at_tick(tick)) == truncated_quotient(
            log2_x64(sqrt_price_x64_at_tick(tick)),
            LOG_BASE as int,
        ),
{
    let x = sqrt_price_x64_at_tick(tick);
    assert(x * 0x1_0000_0000 / 0x1_0000_0000 == x);
}

/// The estimate of the tick of the price of a valid tick is off by at most
/// two: it lies between two below and one above a tick at or below zero,
/// and between one below and one above a tick above zero.
pub proof fn lemma_approximate_tick_is_near(tick: int)
    requires
        is_valid_tick(tick),
    ensures
        tick - 2 <= approximate_tick(sqrt_price_at_tick(tick)) <= tick + 1,
        tick > 0 ==> tick - 1 <= approximate_tick(sqrt_price_at_tick(tick)),
{
    lemma_approximate_tick_of_price(tick);
    let base = LOG_BASE as int;
    if tick <= 0 {
        let a = -tick;
        lemma_log_of_ratio(a);
        let l = log2_x64(ladder_ratio(a));
        assert(-(a + 3) * base < l < -(a - 1) * base);
        if l >= 0 {
            lemma_div_below(l, base, -(a - 1));
            lemma_div_at_least(l, base, 0);
        } else {
            assert(-l < (a + 3) * base);
            lemma_div_below(-l, base, a + 3);
            assert((a - 1) * base <= -l);
            lemma_div_at_least(-l, base, a - 1);
        }
    } else {
        lemma_log_of_reciprocal(tick);
        let l = log2_x64(reciprocal_numerator() / ladder_ratio(tick));
        assert(reciprocal_numerator() == two_to_128() - 1);
        assert((tick - 1) * base < l < (tick + 2) * base);
        assert(0 <= (tick - 1) * base) by (nonlinear_arith)
            requires
                1 <= tick,
                0 < base,
        ;
        lemma_div_below(l, base, tick + 2);
        lemma_div_at_least(l, base, tick - 1);
    }
}

/// The estimate of the tick of the lowest valid price is one below the
/// lowest valid tick.
pub proof fn lemma_approximate_tick_of_lowest_price()
    ensures
        approximate_tick(MIN_SQRT_PRICE_X96 as int) == MIN_TICK - 1,
{
    lemma2_to64();
    lemma2_to64_rest();
    lemma_fraction_round(17074389331082368429, 1, 15804131605255862742, 0, 1);
    lemma_fraction_round(12549240817781633340, 2, 17074389331082368429, 1, 1);
    lemma_fraction_round(10758546223467354512, 3, 12549240817781633340, 1, 1);
    lemma_fraction_round(9961429334926707676, 4, 10758546223467354512, 1, 1);
    lemma_fraction_round(9585299618419231370, 5, 9961429334926707676, 1, 1);
    lemma_fraction_round(9402594560301039130, 6, 9585299618419231370, 1, 1);
    lemma_fraction_round(9312552160464038465, 7, 9402594560301039130, 1, 1);
    lemma_fraction_round(9267854832083611217, 8, 9312552160464038465, 1, 1);
    lemma_fraction_round(9245586682297094413, 9, 9267854832083611217, 1, 1);
    lemma_fraction_round(9234472679574938278, 10, 9245586682297094413, 1, 1);
    lemma_fraction_round(9228920689218803658, 11, 9234472679574938278, 1, 1);
    lemma_fraction_round(9226145945913234820, 12, 9228920689218803658, 1, 1);
    lemma_fraction_round(9224758887118794764, 13, 9226145945913234820, 1, 1);
    lemma_fraction_round(9224065435922442163, 14, 9224758887118794764, 1, 1);
    lemma_fraction_round(9223718729872768128, 15, 9224065435922442163, 1, 1);
    lemma_fraction_round(9223545381734842368, 16, 9223718729872768128, 1, 1);
    lemma_floor_log2_unique(MIN_SQRT_PRICE_X64 as int, 32);
    assert(log2_mantissa(MIN_SQRT_PRICE_X64 as int) == 9223545381734842368);
    assert(log2_bits(MIN_SQRT_PRICE_X64 as int, 16) == 2097153);
    lemma_log2_x64_in_bits(MIN_SQRT_PRICE_X64 as int);
    assert(MIN_SQRT_PRICE_X96 as int / 0x1_0000_0000 == MIN_SQRT_PRICE_X64);
    assert(log2_x64(MIN_SQRT_PRICE_X64 as int) == -590295528883728941056);
}

/// The estimate of the tick of a valid square-root price lies between one
/// below the lowest valid tick and one above the highest.
pub proof fn lemma_approximate_tick_range(sqrt_price_x96: int)
    requires
        is_valid_sqrt_price(sqrt_price_x96),
    ensures
        MIN_TICK - 1 <= approximate_tick(sqrt_price_x96) <= MAX_TICK + 1,
{
    lemma_sqrt_price_range(MAX_TICK as int);
    lemma_approximate_tick_of_lowest_price();
    lemma_approximate_tick_is_near(MAX_TICK as int);
    lemma_approximate_tick_monotone(MIN_SQRT_PRICE_X96 as int, sqrt_price_x96);
    lemma_approximate_tick_monotone(sqrt_price_x96, MAX_SQRT_PRICE_X96 as int);
}

/// The tick of a square-root price is the greatest tick whose price does
/// not exceed it, or one of its two neighbours.
pub proof fn lemma_tick_at_sqrt_price_is_near(sqrt_price_x96: int, floor_tick: int)
    requires
        is_valid_tick(floor_tick),
        floor_tick < MAX_TICK,
        sqrt_price_at_tick(floor_tick) <= sqrt_price_x96 < sqrt_price_at_tick(floor_tick + 1),
    ensures
        is_valid_sqrt_price(sqrt_price_x96),
        floor_tick - 1 <= tick_at_sqrt_price(sqrt_price_x96) <= floor_tick + 1,
{
    let estimate = approximate_tick(sqrt_price_x96);
    let low = sqrt_price_at_tick(floor_tick);
    let high = sqrt_price_at_tick(floor_tick + 1);
    lemma_sqrt_price_range(floor_tick);
    lemma_sqrt_price_range(floor_tick + 1);
    lemma_approximate_tick_is_near(floor_tick);
    lemma_approximate_tick_is_near(floor_tick + 1);
    lemma_approximate_tick_monotone(low, sqrt_price_x96);
    lemma_approximate_tick_monotone(sqrt_price_x96, high);
    lemma_approximate_tick_range(sqrt_price_x96);
    if is_valid_tick(estimate + 1) {
        lemma_sqrt_price_order(estimate + 1, floor_tick);
        lemma_sqrt_price_order(estimate + 1, floor_tick + 1);
    }
    if is_valid_tick(estimate) {
        lemma_sqrt_price_order(estimate, floor_tick);
        lemma_sqrt_price_order(estimate, floor_tick + 1);
    }
}

/// The round trip from a tick to its square-root price and back returns a
/// tick within one of the tick that went in. The highest tick is left out:
/// its price is the bound above all prices that have a tick.
pub proof fn lemma_round_trip_is_near(tick: int)
    requires
        is_valid_tick(tick),
        tick < MAX_TICK,
    ensures
        is_valid_sqrt_price(sqrt_price_at_tick(tick)),
        tick - 1 <= tick_at_sqrt_price(sqrt_price_at_tick(tick)) <= tick + 1,
{
    lemma_sqrt_price_range(tick);
    lemma_sqrt_price_order(tick, tick + 1);
    lemma_tick_at_sqrt_price_is_near(sqrt_price_at_tick(tick), tick);
}

/// The tick of every valid square-root price is a valid tick.
pub proof fn lemma_tick_at_sqrt_price_range(sqrt_price_x96: int)
    requires
        is_valid_sqrt_price(sqrt_price_x96),
    ensures
        is_valid_tick(tick_at_sqrt_price(sqrt_price_x96)),
{
    let lowest = MIN_SQRT_PRICE_X96 as int;
    lemma_sqrt_price_range(MIN_TICK as int);
    // From below: the tick of the lowest price is the lowest tick.
    lemma_approximate_tick_of_lowest_price();
    assert(tick_at_sqrt_price(lowest) == MIN_TICK);
    lemma_tick_at_sqrt_price_monotone(lowest, sqrt_price_x96);
    // From above: the estimate is at most one above the highest tick.
    lemma_approximate_tick_range(sqrt_price_x96);
}

} // verus!
