//! Q64.96 fixed-point arithmetic of the pricing core.
use crate::errors::ClmmError;
use crate::utils::arith::{
    lemma_div_at_least, lemma_div_below, lemma_div_bounds, lemma_shl_32_is_mul,
    lemma_shr_32_is_div, lemma_shr_63_is_div, lemma_shr_64_is_div,
};
use crate::utils::ladder::{
    ladder_fold, ladder_multiplier, ladder_ratio, lemma_ratio_bounds, lemma_sqrt_price_x64_bounds,
    q64, sqrt_price_at_tick, sqrt_price_x64_at_tick,
};
use crate::utils::round_trip::lemma_tick_at_sqrt_price_range;
use vstd::arithmetic::power2::{
    lemma2_to64, lemma2_to64_rest, lemma_pow2_adds, lemma_pow2_pos, lemma_pow2_unfold, pow2,
};
use vstd::prelude::*;

verus! {

/// One in Q64.96: `2^96`.
pub const Q96: u128 = 79228162514264337593543950336;

/// The tick spacing that pools use by default.
pub const TICK_SPACING: i32 = 10;

/// The lowest tick with a representable square-root price.
pub const MIN_TICK: i32 = -443636;

/// The highest tick with a representable square-root price.
pub const MAX_TICK: i32 = 443636;

/// The square-root price of `MIN_TICK` in Q64.64.
pub const MIN_SQRT_PRICE_X64: u128 = 4295048016;

/// The square-root price of `MAX_TICK` in Q64.64.
pub const MAX_SQRT_PRICE_X64: u128 = 79226673521066979257578248091;

/// The square-root price of `MIN_TICK` in Q64.96.
pub const MIN_SQRT_PRICE_X96: u128 = 18447090763469684736;

/// The square-root price of `MAX_TICK` in Q64.96.
pub const MAX_SQRT_PRICE_X96: u128 = 340275971743851842936808935711819431936;

/// `r` is the integer square root of `v`: the largest integer whose square
/// does not exceed `v`.
pub open spec fn is_integer_sqrt(v: int, r: int) -> bool {
    0 <= r && r * r <= v < (r + 1) * (r + 1)
}

/// The integer square root of a number: `⌊√v⌋`.
pub open spec fn integer_sqrt_of(v: int) -> int {
    choose|r: int| is_integer_sqrt(v, r)
}

/// An integer that is an integer square root of a number is the integer
/// square root of that number.
pub proof fn lemma_integer_sqrt_is(v: int, r: int)
    requires
        is_integer_sqrt(v, r),
    ensures
        integer_sqrt_of(v) == r,
{
    lemma_integer_sqrt_unique(v, r, integer_sqrt_of(v));
}

/// At most one integer is the integer square root of a number.
pub proof fn lemma_integer_sqrt_unique(v: int, r1: int, r2: int)
    requires
        is_integer_sqrt(v, r1),
        is_integer_sqrt(v, r2),
    ensures
        r1 == r2,
{
    assert(r1 == r2) by (nonlinear_arith)
        requires
            0 <= r1,
            0 <= r2,
            r1 * r1 <= v < (r1 + 1) * (r1 + 1),
            r2 * r2 <= v < (r2 + 1) * (r2 + 1),
    ;
}

/// One Newton step from any positive `x` lands on or above the integer
/// square root of `v`.
proof fn lemma_newton_step_stays_above(v: int, x: int)
    requires
        0 <= v,
        0 < x,
    ensures
        v < ((x + v / x) / 2 + 1) * ((x + v / x) / 2 + 1),
{
    let q = v / x;
    let y = (x + q) / 2;
    lemma_div_bounds(v, x);
    assert(v < q * x + x);
    assert(2 * y + 1 >= x + q);
    assert(q >= 0) by {
        lemma_div_at_least(v, x, 0);
    }
    assert(v < (y + 1) * (y + 1)) by (nonlinear_arith)
        requires
            v < q * x + x,
            2 * y + 1 >= x + q,
            0 < x,
            0 <= q,
    {
        // 4 (y + 1)^2 >= (x + q + 1)^2 = (x - q - 1)^2 + 4 x (q + 1) > 4 v
        assert((x + q + 1) * (x + q + 1) == (x - q - 1) * (x - q - 1) + 4 * (x * (q + 1)));
        assert((x - q - 1) * (x - q - 1) >= 0);
        assert((2 * y + 2) * (2 * y + 2) >= (x + q + 1) * (x + q + 1));
    }
}

/// The integer square root: `⌊√value⌋`.
pub fn integer_sqrt(value: u128) -> (root: u64)
    ensures
        is_integer_sqrt(value as int, root as int),
        root == integer_sqrt_of(value as int),
{
    if value == 0 {
        assert(is_integer_sqrt(0, 0)) by (nonlinear_arith);
        proof {
            lemma_integer_sqrt_is(0, 0);
        }
        return 0;
    }
    let mut x: u128 = value;
    let mut y: u128 = value / 2 + value % 2;
    proof {
        assert(value < (value + 1) * (value + 1)) by (nonlinear_arith)
            requires
                value > 0,
        ;
        assert(value / value == 1) by {
            vstd::arithmetic::div_mod::lemma_div_basics(value as int);
        }
        assert(y == (x + value / x) / 2);
        lemma_newton_step_stays_above(value as int, x as int);
    }
    while y < x
        invariant
            0 < x <= value,
            0 < y,
            y < x ==> y < value,
            y == (x + value / x) / 2,
            value < (x + 1) * (x + 1),
            value < (y + 1) * (y + 1),
        decreases x,
    {
        x = y;
        proof {
            lemma_div_bounds(value as int, x as int);
            // The quotient cannot exceed the dividend, so the sum fits.
            assert(value / x <= value) by {
                vstd::arithmetic::div_mod::lemma_div_is_ordered_by_denominator(
                    value as int,
                    1,
                    x as int,
                );
            }
            lemma_newton_step_stays_above(value as int, x as int);
            lemma_sum_fits(value as int, x as int);
        }
        y = (x + value / x) / 2;
        proof {
            assert(y > 0) by {
                if value / x == 0 {
                    // then value < x, yet x <= value
                    assert(false);
                }
            }
        }
    }
    proof {
        // y >= x means value / x >= x, hence x * x <= value.
        let q = value / x;
        assert(q >= x);
        lemma_div_bounds(value as int, x as int);
        assert(x * x <= value) by (nonlinear_arith)
            requires
                q >= x,
                q * x <= value,
                x > 0,
        ;
        assert(x < 0x1_0000_0000_0000_0000) by (nonlinear_arith)
            requires
                x * x <= value,
                value <= 0xffff_ffff_ffff_ffff_ffff_ffff_ffff_ffff,
                x >= 0,
        ;
        lemma_integer_sqrt_is(value as int, x as int);
    }
    x as u64
}

/// Below the radicand, an iterate and its quotient sum to at most the
/// radicand or to four, so the sum fits 128 bits.
proof fn lemma_sum_fits(v: int, x: int)
    requires
        0 < x < v,
        v <= u128::MAX,
        v < (x + 1) * (x + 1),
    ensures
        x + v / x <= u128::MAX,
{
    lemma_div_bounds(v, x);
    let q = v / x;
    assert(q >= 1) by {
        lemma_div_at_least(v, x, 1);
    }
    if x == 1 {
        assert(v < 4) by (nonlinear_arith)
            requires
                v < (x + 1) * (x + 1),
                x == 1,
        ;
    } else if q == 1 {
    } else {
        assert(x + q <= q * x) by (nonlinear_arith)
            requires
                x >= 2,
                q >= 2,
        ;
    }
}

/// The square-root price, in Q64.96, of an integer price: `⌊√price⌋ · 2^96`.
///
/// A zero price is refused with [`ClmmError::ZeroAmount`].
pub fn price_to_sqrt_price_x96(price: u64) -> (result: Result<u128, ClmmError>)
    ensures
        match result {
            Ok(sqrt_price) => price > 0 && sqrt_price == integer_sqrt_of(price as int) * Q96,
            Err(e) => price == 0 && e == ClmmError::ZeroAmount,
        },
{
    if price == 0 {
        return Err(ClmmError::ZeroAmount);
    }
    let root: u64 = integer_sqrt(price as u128);
    proof {
        assert(root < 0x1_0000_0000) by (nonlinear_arith)
            requires
                root * root <= price,
                price <= 0xffff_ffff_ffff_ffff,
                root >= 0,
        ;
        assert(root * Q96 <= u128::MAX) by (nonlinear_arith)
            requires
                root < 0x1_0000_0000,
                Q96 == 0x1_0000_0000_0000_0000_0000_0000,
        ;
    }
    Ok((root as u128) * Q96)
}

/// A tick with a representable square-root price.
pub open spec fn is_valid_tick(tick: int) -> bool {
    MIN_TICK <= tick <= MAX_TICK
}

/// The multiplier of bit `k` of the ladder.
fn ladder_multiplier_at(k: u32) -> (multiplier: u128)
    requires
        k < 19,
    ensures
        multiplier == ladder_multiplier(k as int),
{
    if k == 0 {
        18445821805675392311
    } else if k == 1 {
        18444899583751176498
    } else if k == 2 {
        18443055278223354162
    } else if k == 3 {
        18439367220385604838
    } else if k == 4 {
        18431993317065449817
    } else if k == 5 {
        18417254355718160513
    } else if k == 6 {
        18387811781193591352
    } else if k == 7 {
        18329067761203520168
    } else if k == 8 {
        18212142134806087854
    } else if k == 9 {
        17980523815641551639
    } else if k == 10 {
        17526086738831147013
    } else if k == 11 {
        16651378430235024244
    } else if k == 12 {
        15030750278693429944
    } else if k == 13 {
        12247334978882834399
    } else if k == 14 {
        8131365268884726200
    } else if k == 15 {
        3584323654723342297
    } else if k == 16 {
        696457651847595233
    } else if k == 17 {
        26294789957452057
    } else {
        37481735321082
    }
}

/// The square-root price of a tick in Q64.96: `√(1.0001^tick) · 2^96`, as
/// the multiplier ladder computes it.
///
/// A tick outside `[MIN_TICK, MAX_TICK]` is refused with
/// [`ClmmError::TickUpperOverflow`].
pub fn tick_to_sqrt_price_x96(tick: i32) -> (result: Result<u128, ClmmError>)
    ensures
        match result {
            Ok(sqrt_price) => {
                &&& is_valid_tick(tick as int)
                &&& sqrt_price == sqrt_price_at_tick(tick as int)
                &&& MIN_SQRT_PRICE_X96 <= sqrt_price <= MAX_SQRT_PRICE_X96
            },
            Err(e) => !is_valid_tick(tick as int) && e == ClmmError::TickUpperOverflow,
        },
{
    if tick < MIN_TICK || tick > MAX_TICK {
        return Err(ClmmError::TickUpperOverflow);
    }
    let abs_tick: u32 = if tick < 0 {
        (-tick) as u32
    } else {
        tick as u32
    };
    let mut ratio: u128 = 18446744073709551616;
    let mut high_bits: u32 = abs_tick;
    let mut k: u32 = 0;
    while k < 19
        invariant
            k <= 19,
            0 <= ratio <= q64(),
            ladder_fold(high_bits as int, k as int, ratio as int) == ladder_ratio(abs_tick as int),
        decreases 19 - k,
    {
        if high_bits % 2 == 1 {
            let multiplier: u128 = ladder_multiplier_at(k);
            proof {
                assert(ratio * multiplier <= q64() * q64()) by (nonlinear_arith)
                    requires
                        0 <= ratio <= q64(),
                        0 <= multiplier <= q64(),
                ;
                lemma_shr_64_is_div((ratio * multiplier) as u128);
            }
            ratio = (ratio * multiplier) >> 64;
        }
        high_bits = high_bits / 2;
        k = k + 1;
    }
    proof {
        lemma_ratio_bounds(abs_tick as int);
        lemma_sqrt_price_x64_bounds(tick as int);
    }
    if tick > 0 {
        ratio = u128::MAX / ratio;
    }
    proof {
        assert(ratio == sqrt_price_x64_at_tick(tick as int));
        lemma_shl_32_is_mul(ratio);
    }
    Ok(ratio << 32)
}

/// `log2(√1.0001) · 2^64`: the width of one tick on the binary-logarithm
/// scale, in Q64.64.
pub const LOG_BASE: u128 = 1330580271462080;

/// The number of fractional bits that the binary logarithm extracts.
pub const BIT_PRECISION: u32 = 16;

/// A square-root price that has a tick.
pub open spec fn is_valid_sqrt_price(sqrt_price_x96: int) -> bool {
    MIN_SQRT_PRICE_X96 <= sqrt_price_x96 < MAX_SQRT_PRICE_X96
}

/// The position of the highest set bit of a positive number, `⌊log2 x⌋`.
pub open spec fn floor_log2(x: int) -> int
    decreases x,
{
    if x <= 1 {
        0
    } else {
        1 + floor_log2(x / 2)
    }
}

/// A positive number lies between the power of two of its binary logarithm
/// and the next power of two.
pub proof fn lemma_floor_log2_bounds(x: int)
    requires
        1 <= x,
    ensures
        0 <= floor_log2(x),
        pow2(floor_log2(x) as nat) <= x < pow2((floor_log2(x) + 1) as nat),
    decreases x,
{
    if x == 1 {
        lemma2_to64();
    } else {
        lemma_floor_log2_bounds(x / 2);
        let l = floor_log2(x / 2);
        lemma_pow2_unfold((l + 1) as nat);
        lemma_pow2_unfold((l + 2) as nat);
    }
}

/// The binary logarithm of a number is the only exponent whose power of two
/// and the next enclose the number.
pub proof fn lemma_floor_log2_unique(x: int, e: int)
    requires
        0 <= e,
        pow2(e as nat) <= x < pow2((e + 1) as nat),
    ensures
        floor_log2(x) == e,
    decreases e,
{
    lemma_pow2_pos(e as nat);
    if e == 0 {
        lemma2_to64();
    } else {
        lemma_pow2_unfold(e as nat);
        lemma_pow2_unfold((e + 1) as nat);
        lemma_floor_log2_unique(x / 2, e - 1);
    }
}

/// A number scaled by a power of two so that its highest set bit is bit 63:
/// the mantissa of its binary logarithm, in `[2^63, 2^64)`.
pub open spec fn log2_mantissa(x: int) -> int {
    let msb = floor_log2(x);
    if msb >= 63 {
        x / (pow2((msb - 63) as nat) as int)
    } else {
        x * pow2((63 - msb) as nat)
    }
}

/// The mantissa of a positive number lies in `[2^63, 2^64)`.
pub proof fn lemma_log2_mantissa_bounds(x: int)
    requires
        1 <= x,
    ensures
        0x8000_0000_0000_0000 <= log2_mantissa(x) < 0x1_0000_0000_0000_0000,
{
    lemma_floor_log2_bounds(x);
    lemma2_to64();
    lemma2_to64_rest();
    let msb = floor_log2(x);
    if msb >= 63 {
        let shift = (msb - 63) as nat;
        let d = pow2(shift) as int;
        lemma_pow2_pos(shift);
        lemma_pow2_adds(63, shift);
        lemma_pow2_adds(64, shift);
        assert(pow2(63) * d <= x);
        assert(x < pow2(64) * d);
        lemma_div_at_least(x, d, pow2(63) as int);
        lemma_div_below(x, d, pow2(64) as int);
    } else {
        let shift = (63 - msb) as nat;
        let d = pow2(shift) as int;
        lemma_pow2_pos(shift);
        lemma_pow2_adds(msb as nat, shift);
        lemma_pow2_adds((msb + 1) as nat, shift);
        assert(pow2(msb as nat) * d <= x * d) by (nonlinear_arith)
            requires
                pow2(msb as nat) <= x,
                d > 0,
        ;
        assert(x * d < pow2((msb + 1) as nat) * d) by (nonlinear_arith)
            requires
                x < pow2((msb + 1) as nat),
                d > 0,
        ;
    }
}

/// The fractional bits of a binary logarithm, extracted by repeated
/// squaring of the mantissa: each round squares the mantissa, and a square
/// of two or more sets the round's bit and is halved. `bit` is the weight of
/// the first round's bit, and each later round weighs half as much.
pub open spec fn log2_fraction(mantissa: int, bit: int, rounds: nat) -> int
    decreases rounds,
{
    if rounds == 0 {
        0
    } else {
        let square = mantissa * mantissa / 0x8000_0000_0000_0000;
        if square >= 0x1_0000_0000_0000_0000 {
            bit + log2_fraction(square / 2, bit / 2, (rounds - 1) as nat)
        } else {
            log2_fraction(square, bit / 2, (rounds - 1) as nat)
        }
    }
}

/// The binary logarithm of a Q64.64 number, in Q64.64, to sixteen
/// fractional bits.
pub open spec fn log2_x64(x: int) -> int {
    (floor_log2(x) - 64) * 0x1_0000_0000_0000_0000 + log2_fraction(
        log2_mantissa(x),
        0x8000_0000_0000_0000,
        BIT_PRECISION as nat,
    )
}

/// The quotient of a division that rounds toward zero, by a positive
/// divisor.
pub open spec fn truncated_quotient(a: int, d: int) -> int {
    if a >= 0 {
        a / d
    } else {
        -((-a) / d)
    }
}

/// The first estimate of the tick of a square-root price: its binary
/// logarithm over the width of a tick, rounded toward zero.
pub open spec fn approximate_tick(sqrt_price_x96: int) -> int {
    truncated_quotient(log2_x64(sqrt_price_x96 / 0x1_0000_0000), LOG_BASE as int)
}

/// The tick chosen among an estimate and its two neighbours: the greatest
/// of the upper neighbour and the estimate that is a valid tick with a
/// price that does not exceed `sqrt_price_x96`, and the lower neighbour if
/// neither is.
pub open spec fn refine_tick(estimate: int, sqrt_price_x96: int) -> int {
    if is_valid_tick(estimate + 1) && sqrt_price_at_tick(estimate + 1) <= sqrt_price_x96 {
        estimate + 1
    } else if is_valid_tick(estimate) && sqrt_price_at_tick(estimate) <= sqrt_price_x96 {
        estimate
    } else {
        estimate - 1
    }
}

/// The tick of a square-root price.
pub open spec fn tick_at_sqrt_price(sqrt_price_x96: int) -> int {
    refine_tick(approximate_tick(sqrt_price_x96), sqrt_price_x96)
}

/// The position of the highest set bit of a positive number.
fn most_significant_bit(x: u128) -> (msb: u32)
    requires
        x >= 1,
    ensures
        msb == floor_log2(x as int),
        msb <= 127,
{
    let mut msb: u32 = 0;
    let mut rest: u128 = x;
    proof {
        lemma_floor_log2_bounds(x as int);
        lemma_log2_below_128(x as int);
    }
    while rest > 1
        invariant
            rest >= 1,
            msb + floor_log2(rest as int) == floor_log2(x as int),
            floor_log2(x as int) <= 127,
        decreases rest,
    {
        proof {
            lemma_floor_log2_bounds((rest / 2) as int);
        }
        rest = rest / 2;
        msb = msb + 1;
    }
    msb
}

/// The binary logarithm of a 128-bit number is at most 127.
proof fn lemma_log2_below_128(x: int)
    requires
        1 <= x <= u128::MAX,
    ensures
        floor_log2(x) <= 127,
{
    lemma_floor_log2_bounds(x);
    let l = floor_log2(x);
    if l >= 128 {
        lemma2_to64();
        lemma_pow2_adds(64, 64);
        lemma_pow2_adds(128, (l - 128) as nat);
        lemma_pow2_pos((l - 128) as nat);
        assert(pow2(128) == 0x1_0000_0000_0000_0000_0000_0000_0000_0000);
        assert(pow2(l as nat) >= pow2(128)) by (nonlinear_arith)
            requires
                pow2(l as nat) == pow2(128) * pow2((l - 128) as nat),
                pow2((l - 128) as nat) >= 1,
                pow2(128) > 0,
        ;
        assert(false);
    }
}

/// The mantissa of the binary logarithm of a positive number below `2^96`.
fn log2_mantissa_of(x: u128, msb: u32) -> (mantissa: u128)
    requires
        1 <= x,
        msb == floor_log2(x as int),
        msb <= 127,
    ensures
        mantissa == log2_mantissa(x as int),
        0x8000_0000_0000_0000 <= mantissa < 0x1_0000_0000_0000_0000,
{
    proof {
        lemma_log2_mantissa_bounds(x as int);
        lemma_floor_log2_bounds(x as int);
        lemma2_to64();
        lemma2_to64_rest();
    }
    if msb >= 64 {
        let shift: u128 = (msb - 63) as u128;
        proof {
            vstd::bits::lemma_u128_shr_is_div(x, shift);
        }
        x >> shift
    } else {
        let shift: u64 = (63 - msb) as u64;
        proof {
            lemma_pow2_adds((msb + 1) as nat, shift as nat);
            lemma_pow2_pos(shift as nat);
            assert(x * pow2(shift as nat) < pow2((msb + 1) as nat) * pow2(shift as nat))
                by (nonlinear_arith)
                requires
                    x < pow2((msb + 1) as nat),
                    pow2(shift as nat) > 0,
            ;
            assert(pow2(0) == 1);
            assert(x < 0x1_0000_0000_0000_0000) by {
                assert(x <= x * pow2(shift as nat)) by (nonlinear_arith)
                    requires
                        x >= 0,
                        pow2(shift as nat) >= 1,
                ;
            }
            vstd::bits::lemma_u64_shl_is_mul(x as u64, shift);
        }
        let low: u64 = x as u64;
        let mantissa: u64 = low << shift;
        proof {
            if msb == 63 {
                let one = pow2(0) as int;
                assert(x * one == x && x as int / one == x) by (nonlinear_arith)
                    requires
                        one == 1,
                ;
            }
        }
        mantissa as u128
    }
}

/// The tick of a square-root price: the refinement of the estimate that
/// the binary logarithm gives. The tick is a valid tick, within one of the
/// greatest tick whose price does not exceed the price given.
///
/// A price outside `[MIN_SQRT_PRICE_X96, MAX_SQRT_PRICE_X96)` is refused
/// with [`ClmmError::SqrtPriceX96`].
pub fn sqrt_price_x96_to_tick(sqrt_price_x96: u128) -> (result: Result<i32, ClmmError>)
    ensures
        match result {
            Ok(tick) => {
                &&& is_valid_sqrt_price(sqrt_price_x96 as int)
                &&& tick == tick_at_sqrt_price(sqrt_price_x96 as int)
                &&& is_valid_tick(tick as int)
            },
            Err(e) => !is_valid_sqrt_price(sqrt_price_x96 as int) && e == ClmmError::SqrtPriceX96,
        },
{
    if !(sqrt_price_x96 >= MIN_SQRT_PRICE_X96 && sqrt_price_x96 < MAX_SQRT_PRICE_X96) {
        return Err(ClmmError::SqrtPriceX96);
    }
    proof {
        lemma_shr_32_is_div(sqrt_price_x96);
        lemma_tick_at_sqrt_price_range(sqrt_price_x96 as int);
    }
    let sqrt_price_x64: u128 = sqrt_price_x96 >> 32;
    assert(MIN_SQRT_PRICE_X64 <= sqrt_price_x64 < MAX_SQRT_PRICE_X64);
    let msb: u32 = most_significant_bit(sqrt_price_x64);
    proof {
        lemma_floor_log2_bounds(sqrt_price_x64 as int);
        lemma_msb_of_price(sqrt_price_x64 as int);
    }
    let mut r: u128 = log2_mantissa_of(sqrt_price_x64, msb);
    let ghost mantissa: int = r as int;
    let mut fraction: u128 = 0;
    let mut bit: u128 = 0x8000_0000_0000_0000;
    let mut round: u32 = 0;
    while round < BIT_PRECISION
        invariant
            round <= BIT_PRECISION,
            0x8000_0000_0000_0000 <= r < 0x1_0000_0000_0000_0000,
            fraction + 2 * bit <= 0x1_0000_0000_0000_0000,
            log2_fraction(mantissa, 0x8000_0000_0000_0000, BIT_PRECISION as nat) == fraction
                + log2_fraction(r as int, bit as int, (BIT_PRECISION - round) as nat),
        decreases BIT_PRECISION - round,
    {
        proof {
            assert(0x4000_0000_0000_0000_0000_0000_0000_0000 <= r * r
                < 0x1_0000_0000_0000_0000_0000_0000_0000_0000) by (nonlinear_arith)
                requires
                    0x8000_0000_0000_0000 <= r < 0x1_0000_0000_0000_0000,
            ;
            lemma_shr_63_is_div((r * r) as u128);
        }
        let square: u128 = (r * r) >> 63;
        if square >= 0x1_0000_0000_0000_0000 {
            proof {
                lemma_shr_63_is_div(square);
            }
            r = square >> 1;
            fraction = fraction + bit;
        } else {
            r = square;
        }
        proof {
            lemma_shr_63_is_div(bit);
        }
        bit = bit >> 1;
        round = round + 1;
    }
    assert(fraction == log2_fraction(mantissa, 0x8000_0000_0000_0000, BIT_PRECISION as nat));
    let estimate: i32 = if msb >= 64 {
        let log2: u128 = ((msb - 64) as u128) * 0x1_0000_0000_0000_0000 + fraction;
        (log2 / LOG_BASE) as i32
    } else {
        let log2_negated: u128 = ((64 - msb) as u128) * 0x1_0000_0000_0000_0000 - fraction;
        -((log2_negated / LOG_BASE) as i32)
    };
    assert(estimate == approximate_tick(sqrt_price_x96 as int));
    let tick_low: i32 = estimate - 1;
    let tick_high: i32 = estimate + 1;
    match tick_to_sqrt_price_x96(tick_high) {
        Ok(price_high) => {
            if price_high <= sqrt_price_x96 {
                return Ok(tick_high);
            }
        },
        Err(_) => {},
    }
    match tick_to_sqrt_price_x96(estimate) {
        Ok(price_estimate) => {
            if price_estimate <= sqrt_price_x96 {
                Ok(estimate)
            } else {
                Ok(tick_low)
            }
        },
        Err(_) => Ok(tick_low),
    }
}

/// The highest set bit of a valid square-root price in Q64.64 is one of the
/// bits 32 to 95.
proof fn lemma_msb_of_price(x: int)
    requires
        MIN_SQRT_PRICE_X64 <= x < MAX_SQRT_PRICE_X64,
    ensures
        32 <= floor_log2(x) <= 95,
{
    lemma_floor_log2_bounds(x);
    lemma2_to64();
    lemma2_to64_rest();
    let l = floor_log2(x);
    if l < 32 {
        lemma_pow2_adds((l + 1) as nat, (31 - l) as nat);
        lemma_pow2_pos((31 - l) as nat);
        assert(pow2((l + 1) as nat) <= pow2(32)) by (nonlinear_arith)
            requires
                pow2(32) == pow2((l + 1) as nat) * pow2((31 - l) as nat),
                pow2((31 - l) as nat) >= 1,
                pow2((l + 1) as nat) >= 0,
        ;
        assert(false);
    }
    if l > 95 {
        lemma_pow2_adds(64, 32);
        lemma_pow2_adds(96, (l - 96) as nat);
        lemma_pow2_pos((l - 96) as nat);
        assert(pow2(l as nat) >= pow2(96)) by (nonlinear_arith)
            requires
                pow2(l as nat) == pow2(96) * pow2((l - 96) as nat),
                pow2((l - 96) as nat) >= 1,
                pow2(96) >= 0,
        ;
        assert(false);
    }
}

/// The product of two 128-bit numbers, or an overflow.
fn mul_checked(a: u128, b: u128) -> (result: Result<u128, ClmmError>)
    ensures
        match result {
            Ok(product) => product == a * b,
            Err(e) => a * b > u128::MAX && e == ClmmError::ArithmeticOverflow,
        },
{
    match a.checked_mul(b) {
        Some(product) => Ok(product),
        None => Err(ClmmError::ArithmeticOverflow),
    }
}

/// The sum of two 128-bit numbers, or an overflow.
fn add_checked(a: u128, b: u128) -> (result: Result<u128, ClmmError>)
    ensures
        match result {
            Ok(sum) => sum == a + b,
            Err(e) => a + b > u128::MAX && e == ClmmError::ArithmeticOverflow,
        },
{
    match a.checked_add(b) {
        Some(sum) => Ok(sum),
        None => Err(ClmmError::ArithmeticOverflow),
    }
}

/// The difference of two 128-bit numbers, or an overflow.
fn sub_checked(a: u128, b: u128) -> (result: Result<u128, ClmmError>)
    ensures
        match result {
            Ok(difference) => difference == a - b,
            Err(e) => a < b && e == ClmmError::ArithmeticOverflow,
        },
{
    match a.checked_sub(b) {
        Some(difference) => Ok(difference),
        None => Err(ClmmError::ArithmeticOverflow),
    }
}

/// The floor quotient of two 128-bit numbers, or an overflow for a zero
/// divisor.
fn div_checked(a: u128, b: u128) -> (result: Result<u128, ClmmError>)
    ensures
        match result {
            Ok(quotient) => b > 0 && quotient == a / b,
            Err(e) => b == 0 && e == ClmmError::ArithmeticOverflow,
        },
{
    match a.checked_div(b) {
        Some(quotient) => Ok(quotient),
        None => Err(ClmmError::ArithmeticOverflow),
    }
}

/// A 128-bit number as a 64-bit number, or an overflow.
fn narrow_to_u64(a: u128) -> (result: Result<u64, ClmmError>)
    ensures
        match result {
            Ok(narrow) => narrow == a,
            Err(e) => a > u64::MAX && e == ClmmError::ArithmeticOverflow,
        },
{
    if a > u64::MAX as u128 {
        Err(ClmmError::ArithmeticOverflow)
    } else {
        Ok(a as u64)
    }
}

/// The amount of token 0 that liquidity `l` holds between two square-root
/// prices: `((l · (upper − lower)) / lower) · 2^96 / upper`, each division
/// floored.
pub open spec fn amount_0_between(lower: int, upper: int, l: int) -> int {
    ((l * (upper - lower)) / lower) * Q96 / upper
}

/// The amount of token 1 that liquidity `l` holds between two square-root
/// prices: `l · (upper − lower) / 2^96`, floored.
pub open spec fn amount_1_between(lower: int, upper: int, l: int) -> int {
    l * (upper - lower) / (Q96 as int)
}

/// Whether the amount of token 0 can be computed: the prices are positive
/// and in order, no intermediate value leaves 128 bits, and the amount fits
/// 64 bits.
pub open spec fn amount_0_defined(lower: int, upper: int, l: int) -> bool {
    &&& 0 < lower <= upper
    &&& l * (upper - lower) <= u128::MAX
    &&& ((l * (upper - lower)) / lower) * Q96 <= u128::MAX
    &&& amount_0_between(lower, upper, l) <= u64::MAX
}

/// Whether the amount of token 1 can be computed: the prices are in order,
/// the product stays within 128 bits, and the amount fits 64 bits.
pub open spec fn amount_1_defined(lower: int, upper: int, l: int) -> bool {
    &&& lower <= upper
    &&& l * (upper - lower) <= u128::MAX
    &&& amount_1_between(lower, upper, l) <= u64::MAX
}

/// Where the current price stands relative to the range of a position.
pub enum PriceRegime {
    /// At or below the lower bound: the position holds token 0 only.
    BelowRange,
    /// Strictly inside: the position holds both tokens.
    InRange,
    /// At or above the upper bound: the position holds token 1 only.
    AboveRange,
}

/// The regime of a current price relative to a range.
pub open spec fn price_regime(current: int, lower: int, upper: int) -> PriceRegime {
    if current <= lower {
        PriceRegime::BelowRange
    } else if current >= upper {
        PriceRegime::AboveRange
    } else {
        PriceRegime::InRange
    }
}

/// Whether the amounts behind a position can be computed.
pub open spec fn amounts_defined(current: int, lower: int, upper: int, l: int) -> bool {
    match price_regime(current, lower, upper) {
        PriceRegime::BelowRange => amount_0_defined(lower, upper, l),
        PriceRegime::AboveRange => amount_1_defined(lower, upper, l),
        PriceRegime::InRange => amount_0_defined(current, upper, l) && amount_1_defined(
            lower,
            current,
            l,
        ),
    }
}

/// The amounts of token 0 and token 1 behind liquidity `l` over the range
/// `[lower, upper]` at the price `current`.
pub open spec fn amounts_for_liquidity(current: int, lower: int, upper: int, l: int) -> (int, int) {
    match price_regime(current, lower, upper) {
        PriceRegime::BelowRange => (amount_0_between(lower, upper, l), 0),
        PriceRegime::AboveRange => (0, amount_1_between(lower, upper, l)),
        PriceRegime::InRange => (
            amount_0_between(current, upper, l),
            amount_1_between(lower, current, l),
        ),
    }
}

/// The amount of token 0 between two prices, in 64 bits.
fn amount_0_for(lower: u128, upper: u128, liquidity: u128) -> (result: Result<u64, ClmmError>)
    ensures
        match result {
            Ok(amount) => amount_0_defined(lower as int, upper as int, liquidity as int)
                && amount == amount_0_between(lower as int, upper as int, liquidity as int),
            Err(e) => !amount_0_defined(lower as int, upper as int, liquidity as int)
                && e == ClmmError::ArithmeticOverflow,
        },
{
    let delta: u128 = sub_checked(upper, lower)?;
    let product: u128 = mul_checked(liquidity, delta)?;
    let step: u128 = div_checked(product, lower)?;
    let scaled: u128 = mul_checked(step, Q96)?;
    let amount: u128 = div_checked(scaled, upper)?;
    narrow_to_u64(amount)
}

/// The amount of token 1 between two prices, in 64 bits.
fn amount_1_for(lower: u128, upper: u128, liquidity: u128) -> (result: Result<u64, ClmmError>)
    ensures
        match result {
            Ok(amount) => amount_1_defined(lower as int, upper as int, liquidity as int)
                && amount == amount_1_between(lower as int, upper as int, liquidity as int),
            Err(e) => !amount_1_defined(lower as int, upper as int, liquidity as int)
                && e == ClmmError::ArithmeticOverflow,
        },
{
    let delta: u128 = sub_checked(upper, lower)?;
    let product: u128 = mul_checked(liquidity, delta)?;
    let amount: u128 = div_checked(product, Q96)?;
    narrow_to_u64(amount)
}

/// The amounts of token 0 and token 1 that `liquidity` stands for over the
/// range `[sqrt_price_x96_lower, sqrt_price_x96_upper]` when the pool's
/// price is `sqrt_price_x96_current`.
///
/// Fails with [`ClmmError::ArithmeticOverflow`] exactly when the amounts
/// are not defined: a bound is zero or the bounds are out of order, an
/// intermediate value leaves 128 bits, or an amount leaves 64 bits.
pub fn get_amounts_for_liquidity(
    sqrt_price_x96_current: u128,
    sqrt_price_x96_lower: u128,
    sqrt_price_x96_upper: u128,
    liquidity: u128,
) -> (result: Result<(u64, u64), ClmmError>)
    ensures
        match result {
            Ok((amount_0, amount_1)) => {
                &&& amounts_defined(
                    sqrt_price_x96_current as int,
                    sqrt_price_x96_lower as int,
                    sqrt_price_x96_upper as int,
                    liquidity as int,
                )
                &&& (amount_0 as int, amount_1 as int) == amounts_for_liquidity(
                    sqrt_price_x96_current as int,
                    sqrt_price_x96_lower as int,
                    sqrt_price_x96_upper as int,
                    liquidity as int,
                )
            },
            Err(e) => {
                &&& !amounts_defined(
                    sqrt_price_x96_current as int,
                    sqrt_price_x96_lower as int,
                    sqrt_price_x96_upper as int,
                    liquidity as int,
                )
                &&& e == ClmmError::ArithmeticOverflow
            },
        },
{
    if sqrt_price_x96_current <= sqrt_price_x96_lower {
        let amount_0: u64 = amount_0_for(sqrt_price_x96_lower, sqrt_price_x96_upper, liquidity)?;
        Ok((amount_0, 0))
    } else if sqrt_price_x96_current >= sqrt_price_x96_upper {
        let amount_1: u64 = amount_1_for(sqrt_price_x96_lower, sqrt_price_x96_upper, liquidity)?;
        Ok((0, amount_1))
    } else {
        let amount_0: u64 = amount_0_for(sqrt_price_x96_current, sqrt_price_x96_upper, liquidity)?;
        let amount_1: u64 = amount_1_for(sqrt_price_x96_lower, sqrt_price_x96_current, liquidity)?;
        Ok((amount_0, amount_1))
    }
}

/// The direction of a swap.
pub enum SwapDirection {
    /// Token 0 is sold for token 1, and the price falls.
    AToB,
    /// Token 1 is sold for token 0, and the price rises.
    BToA,
}

/// The direction that the flag of a swap stands for.
pub open spec fn swap_direction(a_to_b: bool) -> SwapDirection {
    if a_to_b {
        SwapDirection::AToB
    } else {
        SwapDirection::BToA
    }
}

/// The reserve of token 0 that liquidity `l` implies at a square-root
/// price: `l · 2^96 / sqrt_price`, floored.
pub open spec fn token_0_reserve(sqrt_price: int, l: int) -> int {
    l * Q96 / sqrt_price
}

/// The input that moves the price from `current` all the way to `target`.
pub open spec fn swap_required_in(current: int, target: int, l: int, a_to_b: bool) -> int {
    match swap_direction(a_to_b) {
        SwapDirection::AToB => token_0_reserve(target, l) - token_0_reserve(current, l),
        SwapDirection::BToA => l * (target - current) / (Q96 as int),
    }
}

/// Whether the input on offer moves the price all the way to the target.
pub open spec fn swap_reaches_target(
    current: int,
    target: int,
    l: int,
    remaining: int,
    a_to_b: bool,
) -> bool {
    remaining >= swap_required_in(current, target, l, a_to_b)
}

/// The price after a swap step: the target if the input reaches it, else
/// the price to which the whole input moves the current price.
pub open spec fn swap_next_price(
    current: int,
    target: int,
    l: int,
    remaining: int,
    a_to_b: bool,
) -> int {
    if swap_reaches_target(current, target, l, remaining, a_to_b) {
        target
    } else {
        match swap_direction(a_to_b) {
            SwapDirection::AToB => l * Q96 / (token_0_reserve(current, l) + remaining),
            SwapDirection::BToA => current + remaining * Q96 / l,
        }
    }
}

/// The input that a swap step consumes.
pub open spec fn swap_amount_in(
    current: int,
    target: int,
    l: int,
    remaining: int,
    a_to_b: bool,
) -> int {
    if swap_reaches_target(current, target, l, remaining, a_to_b) {
        swap_required_in(current, target, l, a_to_b)
    } else {
        remaining
    }
}

/// The output that a move of the price from `current` to `next` pays.
pub open spec fn swap_amount_out_between(current: int, next: int, l: int, a_to_b: bool) -> int {
    match swap_direction(a_to_b) {
        SwapDirection::AToB => l * (current - next) / (Q96 as int),
        SwapDirection::BToA => token_0_reserve(current, l) - token_0_reserve(next, l),
    }
}

/// The output that a swap step pays.
pub open spec fn swap_amount_out(
    current: int,
    target: int,
    l: int,
    remaining: int,
    a_to_b: bool,
) -> int {
    swap_amount_out_between(
        current,
        swap_next_price(current, target, l, remaining, a_to_b),
        l,
        a_to_b,
    )
}

/// Whether a swap step can be computed with positive liquidity: both
/// prices are positive, the target lies in the direction of the swap as far
/// as the floored reserves can tell, and no intermediate value leaves 128
/// bits.
pub open spec fn swap_step_defined(
    current: int,
    target: int,
    l: int,
    remaining: int,
    a_to_b: bool,
) -> bool {
    let next = swap_next_price(current, target, l, remaining, a_to_b);
    let reaches = swap_reaches_target(current, target, l, remaining, a_to_b);
    match swap_direction(a_to_b) {
        SwapDirection::AToB => {
            &&& l * Q96 <= u128::MAX
            &&& target > 0
            &&& current > 0
            &&& swap_required_in(current, target, l, a_to_b) >= 0
            &&& !reaches ==> 0 < token_0_reserve(current, l) + remaining <= u128::MAX
            &&& next <= current
            &&& l * (current - next) <= u128::MAX
        },
        SwapDirection::BToA => {
            &&& current <= target
            &&& l * (target - current) <= u128::MAX
            &&& !reaches ==> remaining * Q96 <= u128::MAX && next <= u128::MAX
            &&& l * Q96 <= u128::MAX
            &&& current > 0
            &&& next > 0
            &&& token_0_reserve(next, l) <= token_0_reserve(current, l)
        },
    }
}

/// One step of a swap: moves the price from `sqrt_price_current_x96` toward
/// `sqrt_price_target_x96` against `liquidity`, consuming at most
/// `amount_remaining` of the input token, and returns the new price, the
/// input consumed and the output paid.
///
/// Fails with [`ClmmError::InsufficientLiquidity`] when `liquidity` is
/// zero, and otherwise with [`ClmmError::ArithmeticOverflow`] exactly when
/// the step is not defined.
pub fn compute_swap_step(
    sqrt_price_current_x96: u128,
    sqrt_price_target_x96: u128,
    liquidity: u128,
    amount_remaining: u128,
    a_to_b: bool,
) -> (result: Result<(u128, u128, u128), ClmmError>)
    ensures
        match result {
            Ok((next_sqrt_price_x96, amount_in, amount_out)) => {
                &&& liquidity > 0
                &&& swap_step_defined(
                    sqrt_price_current_x96 as int,
                    sqrt_price_target_x96 as int,
                    liquidity as int,
                    amount_remaining as int,
                    a_to_b,
                )
                &&& next_sqrt_price_x96 == swap_next_price(
                    sqrt_price_current_x96 as int,
                    sqrt_price_target_x96 as int,
                    liquidity as int,
                    amount_remaining as int,
                    a_to_b,
                )
                &&& amount_in == swap_amount_in(
                    sqrt_price_current_x96 as int,
                    sqrt_price_target_x96 as int,
                    liquidity as int,
                    amount_remaining as int,
                    a_to_b,
                )
                &&& amount_out == swap_amount_out(
                    sqrt_price_current_x96 as int,
                    sqrt_price_target_x96 as int,
                    liquidity as int,
                    amount_remaining as int,
                    a_to_b,
                )
            },
            Err(e) => if liquidity == 0 {
                e == ClmmError::InsufficientLiquidity
            } else {
                &&& e == ClmmError::ArithmeticOverflow
                &&& !swap_step_defined(
                    sqrt_price_current_x96 as int,
                    sqrt_price_target_x96 as int,
                    liquidity as int,
                    amount_remaining as int,
                    a_to_b,
                )
            },
        },
{
    if liquidity == 0 {
        return Err(ClmmError::InsufficientLiquidity);
    }
    if a_to_b {
        let scaled: u128 = mul_checked(liquidity, Q96)?;
        let reserve_at_target: u128 = div_checked(scaled, sqrt_price_target_x96)?;
        let reserve_at_current: u128 = div_checked(scaled, sqrt_price_current_x96)?;
        let required_in: u128 = sub_checked(reserve_at_target, reserve_at_current)?;
        let next_sqrt_price_x96: u128;
        let amount_in: u128;
        if amount_remaining >= required_in {
            next_sqrt_price_x96 = sqrt_price_target_x96;
            amount_in = required_in;
        } else {
            let denominator: u128 = add_checked(reserve_at_current, amount_remaining)?;
            next_sqrt_price_x96 = div_checked(scaled, denominator)?;
            amount_in = amount_remaining;
        }
        let out_difference: u128 = sub_checked(sqrt_price_current_x96, next_sqrt_price_x96)?;
        let out_product: u128 = mul_checked(liquidity, out_difference)?;
        let amount_out: u128 = div_checked(out_product, Q96)?;
        Ok((next_sqrt_price_x96, amount_in, amount_out))
    } else {
        let price_difference: u128 = sub_checked(sqrt_price_target_x96, sqrt_price_current_x96)?;
        let product: u128 = mul_checked(liquidity, price_difference)?;
        let required_in: u128 = div_checked(product, Q96)?;
        let next_sqrt_price_x96: u128;
        let amount_in: u128;
        if amount_remaining >= required_in {
            next_sqrt_price_x96 = sqrt_price_target_x96;
            amount_in = required_in;
        } else {
            let scaled_in: u128 = mul_checked(amount_remaining, Q96)?;
            let price_delta: u128 = div_checked(scaled_in, liquidity)?;
            next_sqrt_price_x96 = add_checked(sqrt_price_current_x96, price_delta)?;
            amount_in = amount_remaining;
        }
        let scaled: u128 = mul_checked(liquidity, Q96)?;
        let reserve_at_current: u128 = div_checked(scaled, sqrt_price_current_x96)?;
        let reserve_at_next: u128 = div_checked(scaled, next_sqrt_price_x96)?;
        let amount_out: u128 = sub_checked(reserve_at_current, reserve_at_next)?;
        Ok((next_sqrt_price_x96, amount_in, amount_out))
    }
}

} // verus!
