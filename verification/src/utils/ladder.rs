//! The multiplier ladder behind the tick-to-price conversion, and the proof
//! that the conversion is strictly monotone.
//!
//! The square-root price of a tick `t <= 0` is a product of precomputed
//! Q64.64 multipliers, one for each set bit of `|t|`, each product floored
//! to 64 fractional bits. Flooring makes the exact value awkward, but the
//! order of two neighbouring ticks survives it: the step from a tick to the
//! next shrinks a ratio by more than one part in `gap_denominator()`, each
//! floor costs at most one unit, and no ratio ever falls below
//! `ladder_floor()`, which dwarfs the accumulated loss.
use crate::utils::arith::{lemma_div_at_least, lemma_div_bounds, lemma_div_monotone};
use crate::utils::math::{
    is_valid_tick, MAX_SQRT_PRICE_X64, MAX_SQRT_PRICE_X96, MAX_TICK, MIN_SQRT_PRICE_X64,
    MIN_SQRT_PRICE_X96, MIN_TICK, Q96,
};
use vstd::prelude::*;

verus! {

/// One in Q64.64: `2^64`.
pub open spec fn q64() -> int {
    18446744073709551616
}

/// The number of multipliers: one for each of the bits 0 to 18 of `|tick|`.
pub open spec fn ladder_len() -> int {
    19
}

/// The multiplier of bit `k`: `1.0001^(-2^k / 2)` in Q64.64.
pub open spec fn ladder_multiplier(k: int) -> int {
    if k == 0 {
        18445821805675392311
    } else if k == 1 {
        18444899583751176498
    } else if k == 2 {
        18443055278223354162
    } else if k == 3 {
        18439367220385604838
    } else if k == 4 {
        18431993317065449817
    } else if k == 5 {
        18417254355718160513
    } else if k == 6 {
        18387811781193591352
    } else if k == 7 {
        18329067761203520168
    } else if k == 8 {
        18212142134806087854
    } else if k == 9 {
        17980523815641551639
    } else if k == 10 {
        17526086738831147013
    } else if k == 11 {
        16651378430235024244
    } else if k == 12 {
        15030750278693429944
    } else if k == 13 {
        12247334978882834399
    } else if k == 14 {
        8131365268884726200
    } else if k == 15 {
        3584323654723342297
    } else if k == 16 {
        696457651847595233
    } else if k == 17 {
        26294789957452057
    } else {
        37481735321082
    }
}

/// One rung of the ladder: the product of a ratio and a multiplier, floored
/// to Q64.64.
pub open spec fn ladder_step(ratio: int, multiplier: int) -> int {
    ratio * multiplier / q64()
}

/// Applies to `ratio` the multipliers of the bits `k..19` of a number whose
/// bits from `k` upwards are `high_bits`, lowest bit first.
pub open spec fn ladder_fold(high_bits: int, k: int, ratio: int) -> int
    decreases ladder_len() - k,
{
    if k >= ladder_len() {
        ratio
    } else {
        let next = if high_bits % 2 == 1 {
            ladder_step(ratio, ladder_multiplier(k))
        } else {
            ratio
        };
        ladder_fold(high_bits / 2, k + 1, next)
    }
}

/// The Q64.64 ratio of the tick `-abs_tick`.
pub open spec fn ladder_ratio(abs_tick: int) -> int {
    ladder_fold(abs_tick, 0, q64())
}

/// The ratio reached when every bit below `k` is set.
pub open spec fn all_ones_ratio(k: int) -> int {
    if k <= 0 {
        18446744073709551616
    } else if k == 1 {
        18445821805675392311
    } else if k == 2 {
        18443977407934598850
    } else if k == 3 {
        18440289165698567478
    } else if k == 4 {
        18432914893692463368
    } else if k == 5 {
        18418175195415529478
    } else if k == 6 {
        18388731148799035466
    } else if k == 7 {
        18329984191681391131
    } else if k == 8 {
        18213052719148788671
    } else if k == 9 {
        17981422819357802651
    } else if k == 10 {
        17526963021261575450
    } else if k == 11 {
        16652210978343353594
    } else if k == 12 {
        15031501797419866121
    } else if k == 13 {
        12247947330323375219
    } else if k == 14 {
        8131771826984472022
    } else if k == 15 {
        3584502866425897898
    } else if k == 16 {
        696492473859659073
    } else if k == 17 {
        26296104664083085
    } else if k == 18 {
        37483609360998
    } else {
        76162531
    }
}

/// No ratio of the ladder falls below this value.
pub open spec fn ladder_floor() -> int {
    76162531
}

/// Two neighbouring ratios differ by more than one part in this many.
pub open spec fn gap_denominator() -> int {
    32768
}

/// `low` trails `high` by at least one part in `gap_denominator()` of
/// itself, less `slack` units.
pub open spec fn trails_by_gap(low: int, high: int, slack: int) -> bool {
    gap_denominator() * (high - low) >= low - gap_denominator() * slack
}

/// The table of all-ones ratios is the ladder run on all-ones input, it
/// descends, and each multiplier sits between its two neighbours in the
/// table, a gap below the upper one.
proof fn lemma_all_ones_table(k: int)
    requires
        0 <= k < ladder_len(),
    ensures
        ladder_step(all_ones_ratio(k), ladder_multiplier(k)) == all_ones_ratio(k + 1),
        all_ones_ratio(k + 1) <= ladder_multiplier(k) < all_ones_ratio(k) <= q64(),
        0 < ladder_multiplier(k) < q64(),
        ladder_floor() <= all_ones_ratio(k + 1),
        trails_by_gap(ladder_multiplier(k), all_ones_ratio(k), 0),
{
}

/// A rung keeps the order of two ratios.
proof fn lemma_step_monotone(low: int, high: int, multiplier: int)
    requires
        low <= high,
        0 <= multiplier,
    ensures
        ladder_step(low, multiplier) <= ladder_step(high, multiplier),
{
    assert(low * multiplier <= high * multiplier) by (nonlinear_arith)
        requires
            low <= high,
            0 <= multiplier,
    ;
    lemma_div_monotone(low * multiplier, high * multiplier, q64());
}

/// A rung never raises a ratio, and keeps it non-negative.
proof fn lemma_step_shrinks(ratio: int, multiplier: int)
    requires
        0 <= ratio,
        0 <= multiplier <= q64(),
    ensures
        0 <= ladder_step(ratio, multiplier) <= ratio,
{
    assert(0 <= ratio * multiplier <= ratio * q64()) by (nonlinear_arith)
        requires
            0 <= ratio,
            0 <= multiplier <= q64(),
    ;
    lemma_div_at_least(ratio * multiplier, q64(), 0);
    lemma_div_monotone(ratio * multiplier, ratio * q64(), q64());
    vstd::arithmetic::div_mod::lemma_div_by_multiple(ratio, q64());
}

/// A rung costs the gap between two ratios at most one unit of slack.
proof fn lemma_step_keeps_gap(low: int, high: int, multiplier: int, slack: int)
    requires
        0 <= low,
        0 <= slack,
        0 < multiplier <= q64(),
        trails_by_gap(low, high, slack),
    ensures
        trails_by_gap(
            ladder_step(low, multiplier),
            ladder_step(high, multiplier),
            slack + 1,
        ),
{
    let q = q64();
    let n = gap_denominator();
    let low2 = ladder_step(low, multiplier);
    let high2 = ladder_step(high, multiplier);
    lemma_div_bounds(low * multiplier, q);
    lemma_div_bounds(high * multiplier, q);
    assert(n * (high2 - low2) >= low2 - n * (slack + 1)) by (nonlinear_arith)
        requires
            low2 * q <= low * multiplier,
            high * multiplier < high2 * q + q,
            n * (high - low) >= low - n * slack,
            0 < multiplier <= q,
            0 <= slack,
            0 <= low,
            q > 0,
            n > 0,
    {
        // The gap before the rung, scaled by the multiplier.
        assert(multiplier * (n * (high - low)) >= multiplier * (low - n * slack));
        // The slack costs no more with the multiplier than with one.
        assert(multiplier * (n * slack) <= q * (n * slack));
        // The floor of the upper product loses less than one unit.
        assert(n * (high2 * q + q) > n * (high * multiplier));
        // Together, with the common factor cancelled.
        assert(q * (n * (high2 - low2)) > q * (low2 - n * (slack + 1)) - q);
        assert(n * (high2 - low2) > low2 - n * (slack + 1) - 1);
    }
}

/// From rung `k` on, a ratio that starts at or above the all-ones ratio
/// ends at or above the floor of the ladder.
proof fn lemma_fold_lower_bound(high_bits: int, k: int, ratio: int)
    requires
        0 <= k <= ladder_len(),
        all_ones_ratio(k) <= ratio,
    ensures
        ladder_floor() <= ladder_fold(high_bits, k, ratio),
    decreases ladder_len() - k,
{
    if k < ladder_len() {
        lemma_all_ones_table(k);
        if high_bits % 2 == 1 {
            lemma_step_monotone(all_ones_ratio(k), ratio, ladder_multiplier(k));
            lemma_fold_lower_bound(
                high_bits / 2,
                k + 1,
                ladder_step(ratio, ladder_multiplier(k)),
            );
        } else {
            lemma_fold_lower_bound(high_bits / 2, k + 1, ratio);
        }
    }
}

/// From rung `k` on, a ratio that starts at or below one ends at or below
/// one.
proof fn lemma_fold_upper_bound(high_bits: int, k: int, ratio: int)
    requires
        0 <= k <= ladder_len(),
        0 <= ratio <= q64(),
    ensures
        0 <= ladder_fold(high_bits, k, ratio) <= ratio,
    decreases ladder_len() - k,
{
    if k < ladder_len() {
        lemma_all_ones_table(k);
        if high_bits % 2 == 1 {
            lemma_step_shrinks(ratio, ladder_multiplier(k));
            lemma_fold_upper_bound(
                high_bits / 2,
                k + 1,
                ladder_step(ratio, ladder_multiplier(k)),
            );
        } else {
            lemma_fold_upper_bound(high_bits / 2, k + 1, ratio);
        }
    }
}

/// From rung `k` on, the same bits keep two ratios in order, no strictness
/// asked.
proof fn lemma_fold_monotone(high_bits: int, k: int, low: int, high: int)
    requires
        0 <= k <= ladder_len(),
        low <= high,
    ensures
        ladder_fold(high_bits, k, low) <= ladder_fold(high_bits, k, high),
    decreases ladder_len() - k,
{
    if k < ladder_len() {
        lemma_all_ones_table(k);
        if high_bits % 2 == 1 {
            lemma_step_monotone(low, high, ladder_multiplier(k));
            lemma_fold_monotone(
                high_bits / 2,
                k + 1,
                ladder_step(low, ladder_multiplier(k)),
                ladder_step(high, ladder_multiplier(k)),
            );
        } else {
            lemma_fold_monotone(high_bits / 2, k + 1, low, high);
        }
    }
}

/// From rung `k` on, the same bits keep two ratios strictly apart, given
/// that they start a gap apart with no more slack than rungs climbed.
proof fn lemma_fold_keeps_order(high_bits: int, k: int, low: int, high: int, slack: int)
    requires
        0 <= k <= ladder_len(),
        0 <= slack <= k,
        all_ones_ratio(k) <= low,
        trails_by_gap(low, high, slack),
    ensures
        ladder_fold(high_bits, k, low) < ladder_fold(high_bits, k, high),
    decreases ladder_len() - k,
{
    if k < ladder_len() {
        lemma_all_ones_table(k);
        if high_bits % 2 == 1 {
            let c = ladder_multiplier(k);
            lemma_step_keeps_gap(low, high, c, slack);
            lemma_step_monotone(all_ones_ratio(k), low, c);
            lemma_fold_keeps_order(
                high_bits / 2,
                k + 1,
                ladder_step(low, c),
                ladder_step(high, c),
                slack + 1,
            );
        } else {
            lemma_fold_keeps_order(high_bits / 2, k + 1, low, high, slack + 1);
        }
    }
}

/// The number of values that the bits `k..19` can spell.
pub open spec fn ladder_span(k: int) -> int
    decreases ladder_len() - k,
{
    if k >= ladder_len() {
        1
    } else {
        2 * ladder_span(k + 1)
    }
}

/// Adding one to the bits from `k` upwards lowers the final ratio, when the
/// bits below `k` were all ones and turn to all zeros.
proof fn lemma_fold_successor(high_bits: int, k: int)
    requires
        0 <= k < ladder_len(),
        0 <= high_bits,
        high_bits + 1 < ladder_span(k),
    ensures
        ladder_fold(high_bits + 1, k, q64()) < ladder_fold(high_bits, k, all_ones_ratio(k)),
    decreases ladder_len() - k,
{
    lemma_all_ones_table(k);
    let c = ladder_multiplier(k);
    let half = high_bits / 2;
    if high_bits % 2 == 0 {
        // The carry stops here: bit k turns from 0 to 1, the rest agree.
        assert((high_bits + 1) % 2 == 1);
        assert((high_bits + 1) / 2 == half);
        assert(ladder_step(q64(), c) == c) by {
            vstd::arithmetic::div_mod::lemma_div_by_multiple(c, q64());
            vstd::arithmetic::mul::lemma_mul_is_commutative(c, q64());
        }
        lemma_fold_keeps_order(half, k + 1, c, all_ones_ratio(k), 0);
    } else {
        // The carry moves on: bit k turns from 1 to 0.
        assert((high_bits + 1) % 2 == 0);
        assert((high_bits + 1) / 2 == half + 1);
        assert(ladder_span(k) == 2 * ladder_span(k + 1));
        if k + 1 >= ladder_len() {
            assert(ladder_span(k + 1) == 1);
            assert(false);
        }
        lemma_fold_successor(half, k + 1);
    }
}

/// The greatest number that the ladder's bits can spell, plus one.
pub open spec fn ladder_capacity() -> int {
    524288
}

/// The bits of the ladder spell the numbers below its capacity.
pub proof fn lemma_ladder_capacity_is_span()
    ensures
        ladder_span(0) == ladder_capacity(),
{
    reveal_with_fuel(ladder_span, 20);
}

/// The ratio of a tick falls strictly as the tick moves away from zero.
pub proof fn lemma_ratio_successor(abs_tick: int)
    requires
        0 <= abs_tick,
        abs_tick + 1 < ladder_capacity(),
    ensures
        ladder_ratio(abs_tick + 1) < ladder_ratio(abs_tick),
{
    lemma_ladder_capacity_is_span();
    lemma_fold_successor(abs_tick, 0);
}

/// The ratio is strictly antitone in the distance of the tick from zero.
pub proof fn lemma_ratio_strictly_antitone(near: int, far: int)
    requires
        0 <= near < far < ladder_capacity(),
    ensures
        ladder_ratio(far) < ladder_ratio(near),
    decreases far - near,
{
    lemma_ratio_successor(far - 1);
    if near < far - 1 {
        lemma_ratio_strictly_antitone(near, far - 1);
    }
}

/// Every ratio lies between the floor of the ladder and one.
pub proof fn lemma_ratio_bounds(abs_tick: int)
    ensures
        ladder_floor() <= ladder_ratio(abs_tick) <= q64(),
{
    lemma_fold_lower_bound(abs_tick, 0, q64());
    lemma_fold_upper_bound(abs_tick, 0, q64());
}

/// One rung of the fold, spelled out.
proof fn lemma_fold_unfold(high_bits: int, k: int, ratio: int)
    requires
        0 <= k < ladder_len(),
    ensures
        ladder_fold(high_bits, k, ratio) == ladder_fold(
            high_bits / 2,
            k + 1,
            if high_bits % 2 == 1 {
                ladder_step(ratio, ladder_multiplier(k))
            } else {
                ratio
            },
        ),
{
}

/// Bits that are all zero leave a ratio as it is.
proof fn lemma_fold_zero(k: int, ratio: int)
    requires
        0 <= k <= ladder_len(),
    ensures
        ladder_fold(0, k, ratio) == ratio,
    decreases ladder_len() - k,
{
    if k < ladder_len() {
        lemma_fold_zero(k + 1, ratio);
    }
}

/// The ratio of tick zero is one, the ratio of tick minus one is the first
/// multiplier, and the ratio of the farthest tick is the lowest square-root
/// price.
pub proof fn lemma_ratio_endpoints()
    ensures
        ladder_ratio(0) == q64(),
        ladder_ratio(1) == ladder_multiplier(0),
        ladder_ratio(443636) == 4295048016,
{
    lemma_fold_zero(0, q64());
    lemma_fold_unfold(1, 0, q64());
    lemma_fold_zero(1, ladder_multiplier(0));
    assert(ladder_step(q64(), ladder_multiplier(0)) == ladder_multiplier(0));
    lemma_fold_unfold(443636, 0, 18446744073709551616);
    lemma_fold_unfold(221818, 1, 18446744073709551616);
    lemma_fold_unfold(110909, 2, 18446744073709551616);
    assert(ladder_step(18446744073709551616, ladder_multiplier(2)) == 18443055278223354162);
    lemma_fold_unfold(55454, 3, 18443055278223354162);
    lemma_fold_unfold(27727, 4, 18443055278223354162);
    assert(ladder_step(18443055278223354162, ladder_multiplier(4)) == 18428307471288117479);
    lemma_fold_unfold(13863, 5, 18428307471288117479);
    assert(ladder_step(18428307471288117479, ladder_multiplier(5)) == 18398847226801858501);
    lemma_fold_unfold(6931, 6, 18398847226801858501);
    assert(ladder_step(18398847226801858501, ladder_multiplier(6)) == 18340067951587015306);
    lemma_fold_unfold(3465, 7, 18340067951587015306);
    assert(ladder_step(18340067951587015306, ladder_multiplier(7)) == 18223072152272561885);
    lemma_fold_unfold(1732, 8, 18223072152272561885);
    lemma_fold_unfold(866, 9, 18223072152272561885);
    lemma_fold_unfold(433, 10, 18223072152272561885);
    assert(ladder_step(18223072152272561885, ladder_multiplier(10)) == 17313578044587773368);
    lemma_fold_unfold(216, 11, 17313578044587773368);
    lemma_fold_unfold(108, 12, 17313578044587773368);
    lemma_fold_unfold(54, 13, 17313578044587773368);
    lemma_fold_unfold(27, 14, 17313578044587773368);
    assert(ladder_step(17313578044587773368, ladder_multiplier(14)) == 7631863196526440527);
    lemma_fold_unfold(13, 15, 7631863196526440527);
    assert(ladder_step(7631863196526440527, ladder_multiplier(15)) == 1482921196045045371);
    lemma_fold_unfold(6, 16, 1482921196045045371);
    lemma_fold_unfold(3, 17, 1482921196045045371);
    assert(ladder_step(1482921196045045371, ladder_multiplier(17)) == 2113820261052536);
    lemma_fold_unfold(1, 18, 2113820261052536);
    assert(ladder_step(2113820261052536, ladder_multiplier(18)) == 4295048016);
    lemma_fold_zero(19, 4295048016);
}

/// The greatest 128-bit number, the numerator of the reciprocal.
pub open spec fn reciprocal_numerator() -> int {
    340282366920938463463374607431768211455
}

/// The square-root price of a tick in Q64.64: the ladder's ratio for a tick
/// at or below zero, its reciprocal for a tick above.
pub open spec fn sqrt_price_x64_at_tick(tick: int) -> int {
    if tick <= 0 {
        ladder_ratio(-tick)
    } else {
        reciprocal_numerator() / ladder_ratio(tick)
    }
}

/// The square-root price of a tick in Q64.96.
pub open spec fn sqrt_price_at_tick(tick: int) -> int {
    sqrt_price_x64_at_tick(tick) * 4294967296
}

/// The reciprocal turns a strictly smaller ratio into a strictly greater
/// price.
proof fn lemma_reciprocal_strictly_antitone(low: int, high: int)
    requires
        0 < low < high <= q64(),
    ensures
        reciprocal_numerator() / high < reciprocal_numerator() / low,
{
    let m = reciprocal_numerator();
    let q = m / high;
    lemma_div_bounds(m, high);
    lemma_div_monotone(q64() * (q64() - 1), m, q64());
    vstd::arithmetic::div_mod::lemma_div_by_multiple(q64() - 1, q64());
    vstd::arithmetic::mul::lemma_mul_is_commutative(q64() - 1, q64());
    crate::utils::arith::lemma_div_antitone(m, high, q64());
    assert(q >= q64() - 1);
    assert((q + 1) * low <= m) by (nonlinear_arith)
        requires
            q * high <= m,
            0 < low < high,
            low <= q,
    ;
    lemma_div_at_least(m, low, q + 1);
}

/// The square-root price in Q64.64 rises strictly from each valid tick to
/// the next.
proof fn lemma_sqrt_price_x64_successor(tick: int)
    requires
        -ladder_capacity() < tick,
        tick + 1 < ladder_capacity(),
    ensures
        sqrt_price_x64_at_tick(tick) < sqrt_price_x64_at_tick(tick + 1),
{
    if tick < 0 {
        lemma_ratio_successor(-tick - 1);
    } else {
        lemma_ratio_bounds(tick);
        lemma_ratio_bounds(tick + 1);
        lemma_ratio_successor(tick);
        lemma_reciprocal_strictly_antitone(ladder_ratio(tick + 1), ladder_ratio(tick));
        if tick == 0 {
            lemma_ratio_endpoints();
            assert(reciprocal_numerator() / ladder_multiplier(0) > q64());
        }
    }
}

/// The square-root price in Q64.64 is strictly increasing in the tick.
pub proof fn lemma_sqrt_price_x64_strictly_increasing(low: int, high: int)
    requires
        -ladder_capacity() < low < high < ladder_capacity(),
    ensures
        sqrt_price_x64_at_tick(low) < sqrt_price_x64_at_tick(high),
    decreases high - low,
{
    lemma_sqrt_price_x64_successor(high - 1);
    if low < high - 1 {
        lemma_sqrt_price_x64_strictly_increasing(low, high - 1);
    }
}

/// The square-root prices, in Q64.64, of the lowest and highest valid tick.
pub proof fn lemma_sqrt_price_x64_endpoints()
    ensures
        sqrt_price_x64_at_tick(MIN_TICK as int) == MIN_SQRT_PRICE_X64,
        sqrt_price_x64_at_tick(0) == q64(),
        sqrt_price_x64_at_tick(MAX_TICK as int) == MAX_SQRT_PRICE_X64,
{
    lemma_ratio_endpoints();
}

/// The square-root price of every valid tick, in Q64.64, lies between the
/// prices of the lowest and the highest valid tick.
pub proof fn lemma_sqrt_price_x64_bounds(tick: int)
    requires
        is_valid_tick(tick),
    ensures
        MIN_SQRT_PRICE_X64 <= sqrt_price_x64_at_tick(tick) <= MAX_SQRT_PRICE_X64,
{
    lemma_sqrt_price_x64_endpoints();
    if MIN_TICK < tick {
        lemma_sqrt_price_x64_strictly_increasing(MIN_TICK as int, tick);
    }
    if tick < MAX_TICK {
        lemma_sqrt_price_x64_strictly_increasing(tick, MAX_TICK as int);
    }
}

/// The square-root price is strictly increasing in the tick: of two valid
/// ticks, the lower has the strictly lower price.
pub proof fn lemma_sqrt_price_strictly_increasing(low: int, high: int)
    requires
        is_valid_tick(low),
        is_valid_tick(high),
        low < high,
    ensures
        sqrt_price_at_tick(low) < sqrt_price_at_tick(high),
{
    lemma_sqrt_price_x64_strictly_increasing(low, high);
}

/// The square-root price orders valid ticks as the ticks are ordered.
pub proof fn lemma_sqrt_price_order(a: int, b: int)
    requires
        is_valid_tick(a),
        is_valid_tick(b),
    ensures
        a < b <==> sqrt_price_at_tick(a) < sqrt_price_at_tick(b),
        a <= b <==> sqrt_price_at_tick(a) <= sqrt_price_at_tick(b),
        a == b <==> sqrt_price_at_tick(a) == sqrt_price_at_tick(b),
{
    if a < b {
        lemma_sqrt_price_strictly_increasing(a, b);
    }
    if b < a {
        lemma_sqrt_price_strictly_increasing(b, a);
    }
}

/// The square-root price of the lowest valid tick is the lowest valid
/// price, that of tick zero is one, that of the highest valid tick is the
/// bound above all valid prices, and the price of every valid tick lies
/// between the two ends, below the upper end for every tick but the
/// highest.
pub proof fn lemma_sqrt_price_range(tick: int)
    requires
        is_valid_tick(tick),
    ensures
        sqrt_price_at_tick(MIN_TICK as int) == MIN_SQRT_PRICE_X96,
        sqrt_price_at_tick(0) == Q96,
        sqrt_price_at_tick(MAX_TICK as int) == MAX_SQRT_PRICE_X96,
        MIN_SQRT_PRICE_X96 <= sqrt_price_at_tick(tick) <= MAX_SQRT_PRICE_X96,
        tick < MAX_TICK ==> sqrt_price_at_tick(tick) < MAX_SQRT_PRICE_X96,
{
    lemma_sqrt_price_x64_endpoints();
    lemma_sqrt_price_x64_bounds(tick);
    if tick < MAX_TICK {
        lemma_sqrt_price_strictly_increasing(tick, MAX_TICK as int);
    }
}

} // verus!
