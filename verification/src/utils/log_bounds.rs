//! How close the binary logarithm of the pricing core comes to the true
//! binary logarithm.
//!
//! The true logarithm is not a number that these proofs can hold, so it is
//! pinned down by powers: `p <= 2^n · log2 x` says the same as
//! `2^p <= x^(2^n)`, and `x^(2^n)` is `x` squared `n` times over.
use crate::utils::arith::{lemma_div_at_least, lemma_div_below, lemma_div_bounds};
use crate::utils::math::{
    floor_log2, lemma_floor_log2_bounds, lemma_log2_mantissa_bounds, log2_fraction,
    log2_mantissa, log2_x64,
};
use vstd::arithmetic::power2::{
    lemma2_to64, lemma2_to64_rest, lemma_pow2_adds, lemma_pow2_pos,
    lemma_pow2_strictly_increases, lemma_pow2_unfold, pow2,
};
use vstd::prelude::*;

verus! {

/// Two to the power of a number that is not negative.
pub open spec fn two_to(e: int) -> int {
    pow2(e as nat) as int
}

/// `x` squared `m` times over: `x^(2^m)`.
pub open spec fn repeated_square(x: int, m: nat) -> int
    decreases m,
{
    if m == 0 {
        x
    } else {
        repeated_square(x * x, (m - 1) as nat)
    }
}

/// Powers of two multiply by adding exponents.
pub proof fn lemma_two_to_adds(a: int, b: int)
    requires
        0 <= a,
        0 <= b,
    ensures
        two_to(a + b) == two_to(a) * two_to(b),
        two_to(a) > 0,
        two_to(b) > 0,
{
    lemma_pow2_adds(a as nat, b as nat);
    lemma_pow2_pos(a as nat);
    lemma_pow2_pos(b as nat);
}

/// Powers of two keep the order of their exponents, both ways.
pub proof fn lemma_two_to_order(a: int, b: int)
    requires
        0 <= a,
        0 <= b,
    ensures
        a < b <==> two_to(a) < two_to(b),
        a <= b <==> two_to(a) <= two_to(b),
{
    if a < b {
        lemma_pow2_strictly_increases(a as nat, b as nat);
    }
    if b < a {
        lemma_pow2_strictly_increases(b as nat, a as nat);
    }
}

/// Repeated squaring keeps what is not negative not negative, and what is
/// positive positive.
pub proof fn lemma_repeated_square_sign(x: int, m: nat)
    requires
        0 <= x,
    ensures
        0 <= repeated_square(x, m),
        0 < x ==> 0 < repeated_square(x, m),
    decreases m,
{
    if m > 0 {
        assert(0 <= x * x && (0 < x ==> 0 < x * x)) by (nonlinear_arith)
            requires
                0 <= x,
        ;
        lemma_repeated_square_sign(x * x, (m - 1) as nat);
    }
}

/// Repeated squaring keeps the order of numbers that are not negative.
pub proof fn lemma_repeated_square_monotone(x: int, y: int, m: nat)
    requires
        0 <= x <= y,
    ensures
        repeated_square(x, m) <= repeated_square(y, m),
    decreases m,
{
    if m > 0 {
        assert(0 <= x * x <= y * y) by (nonlinear_arith)
            requires
                0 <= x <= y,
        ;
        lemma_repeated_square_monotone(x * x, y * y, (m - 1) as nat);
    }
}

/// Repeated squaring goes through products.
pub proof fn lemma_repeated_square_of_product(x: int, y: int, m: nat)
    ensures
        repeated_square(x * y, m) == repeated_square(x, m) * repeated_square(y, m),
    decreases m,
{
    if m > 0 {
        assert((x * y) * (x * y) == (x * x) * (y * y)) by (nonlinear_arith);
        lemma_repeated_square_of_product(x * x, y * y, (m - 1) as nat);
    }
}

/// Squaring `a` times and then `b` times is squaring `a + b` times.
pub proof fn lemma_repeated_square_composes(x: int, a: nat, b: nat)
    ensures
        repeated_square(repeated_square(x, a), b) == repeated_square(x, a + b),
    decreases a,
{
    if a > 0 {
        lemma_repeated_square_composes(x * x, (a - 1) as nat, b);
    }
}

/// Squaring a power of two `m` times multiplies its exponent by `2^m`.
pub proof fn lemma_repeated_square_of_two_to(e: int, m: nat)
    requires
        0 <= e,
    ensures
        repeated_square(two_to(e), m) == two_to(e * two_to(m as int)),
        0 <= e * two_to(m as int),
    decreases m,
{
    lemma2_to64();
    if m == 0 {
        assert(e * two_to(0) == e) by (nonlinear_arith)
            requires
                two_to(0) == 1,
        ;
    } else {
        lemma_two_to_adds(e, e);
        lemma_repeated_square_of_two_to(2 * e, (m - 1) as nat);
        lemma_pow2_unfold(m);
        assert((2 * e) * two_to(m - 1) == e * two_to(m as int)) by (nonlinear_arith)
            requires
                two_to(m as int) == 2 * two_to(m - 1),
        ;
    }
}

/// The bits of the fraction with the last bit weighing one: the first `n`
/// fractional bits of the binary logarithm of a mantissa, as an integer.
pub open spec fn fraction_bits(mantissa: int, n: nat) -> int {
    if n == 0 {
        0
    } else {
        log2_fraction(mantissa, two_to(n - 1), n)
    }
}

/// What `n` squarings make of an error of `d` in a mantissa, at most.
pub open spec fn grown_error(d: int, n: nat) -> int
    decreases n,
{
    if n == 0 {
        d
    } else {
        grown_error(5 * d + 2, (n - 1) as nat)
    }
}

/// An error only grows.
proof fn lemma_grown_error_grows(d: int, n: nat)
    requires
        0 <= d,
    ensures
        d <= grown_error(d, n),
    decreases n,
{
    if n > 0 {
        lemma_grown_error_grows(5 * d + 2, (n - 1) as nat);
    }
}

/// One round of the logarithm on a mantissa in `[2^63, 2^64)`: the next
/// mantissa lies in the same range, the square of the mantissa lies
/// between the next mantissa and its successor, shifted by 63 bits and by
/// the bit of the round, and so does the square of a mantissa with an
/// error, with five times the error and two.
proof fn lemma_round(r: int, d: int)
    requires
        0x8000_0000_0000_0000 <= r < 0x1_0000_0000_0000_0000,
        0 <= d <= 0x8000_0000_0000_0000,
    ensures
        ({
            let square = r * r / 0x8000_0000_0000_0000;
            let bit: int = if square >= 0x1_0000_0000_0000_0000 {
                1
            } else {
                0
            };
            let next = if bit == 1 {
                square / 2
            } else {
                square
            };
            &&& 0x8000_0000_0000_0000 <= next < 0x1_0000_0000_0000_0000
            &&& next * two_to(63 + bit) <= r * r
            &&& (r + d) * (r + d) <= (next + 5 * d + 2) * two_to(63 + bit)
        }),
{
    lemma2_to64();
    lemma2_to64_rest();
    let h: int = 0x8000_0000_0000_0000;
    let square = r * r / h;
    assert(h * h <= r * r < 4 * (h * h)) by (nonlinear_arith)
        requires
            h <= r < 2 * h,
    ;
    lemma_div_bounds(r * r, h);
    lemma_div_at_least(r * r, h, h);
    assert(h * h == 0x4000_0000_0000_0000_0000_0000_0000_0000);
    lemma_div_below(r * r, h, 4 * h);
    assert(two_to(63) == h);
    assert(two_to(64) == 2 * h);
    if square >= 2 * h {
        let next = square / 2;
        assert(next * (2 * h) <= r * r < (next + 1) * (2 * h)) by (nonlinear_arith)
            requires
                square * h <= r * r < square * h + h,
                2 * next <= square <= 2 * next + 1,
                h > 0,
        ;
        assert((r + d) * (r + d) <= (next + 5 * d + 2) * (2 * h)) by (nonlinear_arith)
            requires
                r * r < (next + 1) * (2 * h),
                0 <= r < 2 * h,
                0 <= d <= h,
                h > 0,
        {
            assert((r + d) * (r + d) == r * r + 2 * (r * d) + d * d);
            assert(r * d <= (2 * h) * d);
            assert(d * d <= h * d);
        }
    } else {
        assert((r + d) * (r + d) <= (square + 5 * d + 2) * h) by (nonlinear_arith)
            requires
                r * r < square * h + h,
                0 <= r < 2 * h,
                0 <= d <= h,
                h > 0,
        {
            assert((r + d) * (r + d) == r * r + 2 * (r * d) + d * d);
            assert(r * d <= (2 * h) * d);
            assert(d * d <= h * d);
        }
    }
}

/// The first `n` fractional bits of a mantissa are the bit of the first
/// round, weighing `2^(n-1)`, and the first `n - 1` bits of the next
/// mantissa.
pub proof fn lemma_fraction_bits_unfold(r: int, n: nat)
    requires
        n > 0,
    ensures
        ({
            let square = r * r / 0x8000_0000_0000_0000;
            if square >= 0x1_0000_0000_0000_0000 {
                fraction_bits(r, n) == two_to(n - 1) + fraction_bits(square / 2, (n - 1) as nat)
            } else {
                fraction_bits(r, n) == fraction_bits(square, (n - 1) as nat)
            }
        }),
{
    lemma2_to64();
    let square = r * r / 0x8000_0000_0000_0000;
    let bit = two_to(n - 1);
    let rest = (n - 1) as nat;
    assert(log2_fraction(r, bit, n) == if square >= 0x1_0000_0000_0000_0000 {
        bit + log2_fraction(square / 2, bit / 2, rest)
    } else {
        log2_fraction(square, bit / 2, rest)
    });
    if n >= 2 {
        lemma_pow2_unfold((n - 1) as nat);
        assert(bit / 2 == two_to(n - 2));
    } else {
        assert(log2_fraction(square / 2, bit / 2, 0) == 0);
        assert(log2_fraction(square, bit / 2, 0) == 0);
    }
}

/// The logarithm of a mantissa, to `n` fractional bits: the mantissa is in
/// `[2^63, 2^64)`, so the logarithm is 63 and the fractional bits. The
/// bits never exceed the true logarithm, and fall short of it by less than
/// two units of the last bit, even for a number that exceeds the mantissa
/// by an error `d` that `n` squarings keep below `2^63`.
pub proof fn lemma_mantissa_logarithm(r: int, d: int, n: nat)
    requires
        0x8000_0000_0000_0000 <= r < 0x1_0000_0000_0000_0000,
        0 <= d,
        grown_error(d, n) <= 0x8000_0000_0000_0000,
    ensures
        0 <= fraction_bits(r, n) < two_to(n as int),
        two_to(63 * two_to(n as int) + fraction_bits(r, n)) <= repeated_square(r, n),
        repeated_square(r + d, n) < two_to(63 * two_to(n as int) + fraction_bits(r, n) + 2),
    decreases n,
{
    lemma2_to64();
    lemma2_to64_rest();
    lemma_grown_error_grows(d, n);
    if n == 0 {
        assert(63 * two_to(0) == 63);
        lemma_pow2_unfold(65);
    } else {
        let rest = (n - 1) as nat;
        let square = r * r / 0x8000_0000_0000_0000;
        let bit: int = if square >= 0x1_0000_0000_0000_0000 {
            1
        } else {
            0
        };
        let next = if bit == 1 {
            square / 2
        } else {
            square
        };
        let shift = 63 + bit;
        let half = two_to(n - 1);
        lemma_round(r, d);
        lemma_fraction_bits_unfold(r, n);
        lemma_mantissa_logarithm(next, 5 * d + 2, rest);
        lemma_pow2_unfold(n);
        lemma_pow2_pos(rest);
        let low = 63 * half + fraction_bits(next, rest);
        assert(fraction_bits(r, n) == bit * half + fraction_bits(next, rest)) by (nonlinear_arith)
            requires
                bit == 1 ==> fraction_bits(r, n) == half + fraction_bits(next, rest),
                bit == 0 ==> fraction_bits(r, n) == fraction_bits(next, rest),
                bit == 0 || bit == 1,
        ;
        assert(63 * two_to(n as int) + fraction_bits(r, n) == low + shift * half)
            by (nonlinear_arith)
            requires
                two_to(n as int) == 2 * half,
                fraction_bits(r, n) == bit * half + fraction_bits(next, rest),
                low == 63 * half + fraction_bits(next, rest),
                shift == 63 + bit,
        ;
        assert(0 <= shift * half) by (nonlinear_arith)
            requires
                0 <= shift,
                0 < half,
        ;
        // Lower bound: r^(2^n) = (r * r)^(2^rest) >= (next * 2^shift)^(2^rest).
        lemma_two_to_adds(shift, 0);
        assert(0 <= next * two_to(shift)) by (nonlinear_arith)
            requires
                0 <= next,
                0 < two_to(shift),
        ;
        lemma_repeated_square_monotone(next * two_to(shift), r * r, rest);
        lemma_repeated_square_of_product(next, two_to(shift), rest);
        lemma_repeated_square_of_two_to(shift, rest);
        lemma_two_to_adds(low, shift * half);
        lemma_repeated_square_sign(next, rest);
        assert(two_to(low) * two_to(shift * half) <= repeated_square(next, rest) * two_to(
            shift * half,
        )) by (nonlinear_arith)
            requires
                two_to(low) <= repeated_square(next, rest),
                0 < two_to(shift * half),
        ;
        // Upper bound: (r + d)^(2^n) <= ((next + 5d + 2) * 2^shift)^(2^rest).
        let wide = next + 5 * d + 2;
        assert(0 <= (r + d) * (r + d)) by (nonlinear_arith);
        lemma_repeated_square_monotone((r + d) * (r + d), wide * two_to(shift), rest);
        lemma_repeated_square_of_product(wide, two_to(shift), rest);
        lemma_two_to_adds(low + 2, shift * half);
        assert(repeated_square(wide, rest) * two_to(shift * half) < two_to(low + 2) * two_to(
            shift * half,
        )) by (nonlinear_arith)
            requires
                repeated_square(wide, rest) < two_to(low + 2),
                0 < two_to(shift * half),
        ;
        // The bits stay below 2^n.
        assert(fraction_bits(r, n) < two_to(n as int));
    }
}

/// The logarithm that the algorithm of the pricing core gives for a
/// positive number, to `n` fractional bits: the position of the highest
/// set bit, and the fractional bits of the mantissa.
pub open spec fn log2_bits(x: int, n: nat) -> int {
    floor_log2(x) * two_to(n as int) + fraction_bits(log2_mantissa(x), n)
}

/// The algorithm's logarithm never exceeds the true binary logarithm, and
/// falls short of it by less than two units of the last fractional bit:
/// `2^l <= x^(2^n) < 2^(l + 2)` for `l = log2_bits(x, n)`, that is
/// `l <= 2^n · log2 x < l + 2`.
pub proof fn lemma_log2_bits_bracket(x: int, n: nat)
    requires
        1 <= x,
        grown_error(1, n) <= 0x8000_0000_0000_0000,
    ensures
        0 <= log2_bits(x, n),
        two_to(log2_bits(x, n)) <= repeated_square(x, n),
        repeated_square(x, n) < two_to(log2_bits(x, n) + 2),
{
    lemma_floor_log2_bounds(x);
    lemma_log2_mantissa_bounds(x);
    let msb = floor_log2(x);
    let r = log2_mantissa(x);
    let t = two_to(n as int);
    let f = fraction_bits(r, n);
    lemma_pow2_pos(n);
    assert(0 <= msb * t) by (nonlinear_arith)
        requires
            0 <= msb,
            0 < t,
    ;
    let mantissa_log = 63 * t + f;
    if msb >= 63 {
        let s = msb - 63;
        let scale = two_to(s);
        lemma_pow2_pos(s as nat);
        lemma_div_bounds(x, scale);
        lemma_mantissa_logarithm(r, 1, n);
        assert(0 <= s * t) by (nonlinear_arith)
            requires
                0 <= s,
                0 < t,
        ;
        assert(log2_bits(x, n) == mantissa_log + s * t) by (nonlinear_arith)
            requires
                log2_bits(x, n) == msb * t + f,
                mantissa_log == 63 * t + f,
                s == msb - 63,
        ;
        // r * 2^s <= x < (r + 1) * 2^s
        assert(0 <= r * scale <= x) by (nonlinear_arith)
            requires
                r * scale <= x,
                0 <= r,
                0 < scale,
        ;
        assert(x <= (r + 1) * scale) by (nonlinear_arith)
            requires
                x < r * scale + scale,
        ;
        lemma_repeated_square_monotone(r * scale, x, n);
        lemma_repeated_square_monotone(x, (r + 1) * scale, n);
        lemma_repeated_square_of_product(r, scale, n);
        lemma_repeated_square_of_product(r + 1, scale, n);
        lemma_repeated_square_of_two_to(s, n);
        lemma_two_to_adds(mantissa_log, s * t);
        lemma_two_to_adds(mantissa_log + 2, s * t);
        assert(two_to(mantissa_log) * two_to(s * t) <= repeated_square(r, n) * two_to(s * t))
            by (nonlinear_arith)
            requires
                two_to(mantissa_log) <= repeated_square(r, n),
                0 < two_to(s * t),
        ;
        assert(repeated_square(r + 1, n) * two_to(s * t) < two_to(mantissa_log + 2) * two_to(
            s * t,
        )) by (nonlinear_arith)
            requires
                repeated_square(r + 1, n) < two_to(mantissa_log + 2),
                0 < two_to(s * t),
        ;
    } else {
        let c = 63 - msb;
        let scale = two_to(c);
        lemma_pow2_pos(c as nat);
        lemma_grown_error_is_monotone(0, 1, n);
        lemma_mantissa_logarithm(r, 0, n);
        assert(0 <= c * t) by (nonlinear_arith)
            requires
                0 <= c,
                0 < t,
        ;
        assert(mantissa_log == log2_bits(x, n) + c * t) by (nonlinear_arith)
            requires
                log2_bits(x, n) == msb * t + f,
                mantissa_log == 63 * t + f,
                c == 63 - msb,
        ;
        // r == x * 2^c
        lemma_repeated_square_of_product(x, scale, n);
        lemma_repeated_square_of_two_to(c, n);
        lemma_two_to_adds(log2_bits(x, n), c * t);
        lemma_two_to_adds(log2_bits(x, n) + 2, c * t);
        let rest = two_to(c * t);
        assert(two_to(log2_bits(x, n)) <= repeated_square(x, n)) by (nonlinear_arith)
            requires
                two_to(log2_bits(x, n)) * rest <= repeated_square(x, n) * rest,
                0 < rest,
        ;
        assert(repeated_square(x, n) < two_to(log2_bits(x, n) + 2)) by (nonlinear_arith)
            requires
                repeated_square(x, n) * rest < two_to(log2_bits(x, n) + 2) * rest,
                0 < rest,
        ;
    }
}

/// A smaller error grows into no greater error.
proof fn lemma_grown_error_is_monotone(small: int, large: int, n: nat)
    requires
        small <= large,
    ensures
        grown_error(small, n) <= grown_error(large, n),
    decreases n,
{
    if n > 0 {
        lemma_grown_error_is_monotone(5 * small + 2, 5 * large + 2, (n - 1) as nat);
    }
}

/// Repeated squaring keeps the strict order of numbers that are not
/// negative.
pub proof fn lemma_repeated_square_strictly_monotone(x: int, y: int, m: nat)
    requires
        0 <= x < y,
    ensures
        repeated_square(x, m) < repeated_square(y, m),
    decreases m,
{
    if m > 0 {
        assert(0 <= x * x < y * y) by (nonlinear_arith)
            requires
                0 <= x < y,
        ;
        lemma_repeated_square_strictly_monotone(x * x, y * y, (m - 1) as nat);
    }
}

/// One more squaring squares the result.
pub proof fn lemma_repeated_square_once_more(x: int, m: nat)
    ensures
        repeated_square(x, m + 1) == repeated_square(x, m) * repeated_square(x, m),
{
    lemma_repeated_square_of_product(x, x, m);
}

/// A number that exceeds another by a small part of it has a power that
/// is at most twice the power of the other: if `j · 2^(n+1) <= x`, then
/// `(x + j)^(2^n) <= 2 · x^(2^n)`.
pub proof fn lemma_repeated_square_nearby(x: int, j: int, n: nat)
    requires
        0 <= j,
        0 < x,
        j * two_to(n as int + 1) <= x,
    ensures
        repeated_square(x + j, n) <= 2 * repeated_square(x, n),
{
    lemma_pow2_unfold(n + 1);
    let w = two_to(n as int);
    lemma_pow2_pos(n);
    assert(j * w <= x && 2 * (j * w) <= x) by (nonlinear_arith)
        requires
            j * (2 * w) <= x,
            0 <= j,
            0 < w,
    ;
    lemma_repeated_square_shrinking_gap(x, j, n);
    let a = repeated_square(x + j, n);
    let b = repeated_square(x, n);
    lemma_repeated_square_sign(x + j, n);
    lemma_repeated_square_sign(x, n);
    assert(a <= 2 * b) by (nonlinear_arith)
        requires
            a * (x - j * w) <= b * x,
            2 * (j * w) <= x,
            0 < x,
            0 <= a,
            0 <= b,
    {
        assert(a * x <= 2 * (a * (x - j * w)));
        assert(a * x <= (2 * b) * x);
    }
}

/// `(x + j)^(2^n) · (x - j · 2^n) <= x^(2^n) · x`: the power of the greater
/// number gains on the power of the smaller no faster than the factor
/// shrinks.
proof fn lemma_repeated_square_shrinking_gap(x: int, j: int, n: nat)
    requires
        0 <= j,
        0 < x,
        j * two_to(n as int) <= x,
    ensures
        repeated_square(x + j, n) * (x - j * two_to(n as int)) <= repeated_square(x, n) * x,
    decreases n,
{
    lemma2_to64();
    if n == 0 {
        assert((x + j) * (x - j * 1) <= x * x) by (nonlinear_arith)
            requires
                0 <= j,
        ;
    } else {
        let m = (n - 1) as nat;
        let w = two_to(m as int);
        lemma_pow2_unfold(n);
        lemma_pow2_pos(m);
        assert(j * w <= x) by (nonlinear_arith)
            requires
                j * (2 * w) <= x,
                0 <= j,
                0 < w,
        ;
        lemma_repeated_square_shrinking_gap(x, j, m);
        lemma_repeated_square_once_more(x + j, m);
        lemma_repeated_square_once_more(x, m);
        lemma_repeated_square_sign(x + j, m);
        lemma_repeated_square_sign(x, m);
        let a = repeated_square(x + j, m);
        let b = repeated_square(x, m);
        let g = x - j * w;
        let h = x - j * (2 * w);
        assert((a * a) * h <= (b * b) * x) by (nonlinear_arith)
            requires
                a * g <= b * x,
                g == x - j * w,
                h == x - j * (2 * w),
                0 <= g,
                0 <= h,
                0 < x,
                0 <= a,
                0 <= b,
                0 <= j,
                0 < w,
        {
            assert((a * g) * (a * g) <= (b * x) * (b * x));
            assert(g * g >= x * h);
            assert((a * a) * (x * h) <= (a * a) * (g * g));
            assert((a * a) * (g * g) == (a * g) * (a * g));
            assert((b * x) * (b * x) == ((b * b) * x) * x);
            assert((a * a) * (x * h) == ((a * a) * h) * x);
            assert(((a * a) * h) * x <= ((b * b) * x) * x);
        }
    }
}

/// The fractional bits scale with the weight of the first bit.
pub proof fn lemma_fraction_scales(r: int, j: int, s: int, n: nat)
    requires
        n >= 1,
        j >= n - 1,
        s >= 0,
    ensures
        log2_fraction(r, two_to(j + s), n) == two_to(s) * log2_fraction(r, two_to(j), n),
    decreases n,
{
    let square = r * r / 0x8000_0000_0000_0000;
    let set = square >= 0x1_0000_0000_0000_0000;
    let next = if set {
        square / 2
    } else {
        square
    };
    let rest = (n - 1) as nat;
    lemma_two_to_adds(j, s);
    let large = two_to(j + s);
    let small = two_to(j);
    assert(log2_fraction(r, large, n) == (if set {
        large
    } else {
        0
    }) + log2_fraction(next, large / 2, rest));
    assert(log2_fraction(r, small, n) == (if set {
        small
    } else {
        0
    }) + log2_fraction(next, small / 2, rest));
    if n == 1 {
        assert(log2_fraction(next, large / 2, 0) == 0);
        assert(log2_fraction(next, small / 2, 0) == 0);
        assert(two_to(s) * 0 == 0);
    } else {
        lemma_pow2_unfold((j + s) as nat);
        lemma_pow2_unfold(j as nat);
        lemma_fraction_scales(next, j - 1, s, rest);
        let tail = log2_fraction(next, two_to(j - 1), rest);
        assert(two_to(s) * (small + tail) == two_to(s) * small + two_to(s) * tail)
            by (nonlinear_arith);
    }
    assert(two_to(s) * small == large) by (nonlinear_arith)
        requires
            large == small * two_to(s),
    ;
}

/// The logarithm in Q64.64 is the algorithm's logarithm to sixteen
/// fractional bits, less 64, in units of `2^48`.
pub proof fn lemma_log2_x64_in_bits(x: int)
    ensures
        log2_x64(x) == (log2_bits(x, 16) - 64 * 65536) * 0x1_0000_0000_0000,
{
    lemma2_to64();
    lemma2_to64_rest();
    let r = log2_mantissa(x);
    lemma_fraction_scales(r, 15, 48, 16);
    assert(two_to(63) == 0x8000_0000_0000_0000);
    assert(two_to(48) == 0x1_0000_0000_0000);
    assert(two_to(16) == 65536);
    let msb = floor_log2(x);
    let f = log2_fraction(r, two_to(15), 16);
    assert(fraction_bits(r, 16) == f);
    assert(log2_fraction(r, 0x8000_0000_0000_0000, 16) == two_to(48) * f);
    assert(two_to(48) * f == 0x1_0000_0000_0000 * f) by (nonlinear_arith)
        requires
            two_to(48) == 0x1_0000_0000_0000,
    ;
    assert(msb * two_to(16) == msb * 65536) by (nonlinear_arith)
        requires
            two_to(16) == 65536,
    ;
    assert(log2_bits(x, 16) == msb * 65536 + f);
    assert(log2_x64(x) == (msb - 64) * 0x1_0000_0000_0000_0000 + 0x1_0000_0000_0000 * f);
    assert((msb - 64) * 0x1_0000_0000_0000_0000 + 0x1_0000_0000_0000 * f == (msb * 65536 + f - 64
        * 65536) * 0x1_0000_0000_0000) by (nonlinear_arith);
}

/// The algorithm's logarithm to sixteen fractional bits, as a bracket of
/// the twentieth power of two of a number:
/// `2^(16·l) <= x^(2^20) < 2^(16·l + 32)` for `l = log2_bits(x, 16)`.
pub proof fn lemma_log2_bits_lifted(x: int)
    requires
        1 <= x,
    ensures
        0 <= log2_bits(x, 16),
        two_to(16 * log2_bits(x, 16)) <= repeated_square(x, 20),
        repeated_square(x, 20) < two_to(16 * log2_bits(x, 16) + 32),
{
    reveal_with_fuel(grown_error, 17);
    lemma2_to64();
    lemma_log2_bits_bracket(x, 16);
    let l = log2_bits(x, 16);
    let s = repeated_square(x, 16);
    lemma_repeated_square_composes(x, 16, 4);
    lemma_pow2_pos(l as nat);
    lemma_repeated_square_monotone(two_to(l), s, 4);
    lemma_repeated_square_strictly_monotone(s, two_to(l + 2), 4);
    lemma_repeated_square_of_two_to(l, 4);
    lemma_repeated_square_of_two_to(l + 2, 4);
    assert(l * two_to(4) == 16 * l && (l + 2) * two_to(4) == 16 * l + 32) by (nonlinear_arith)
        requires
            two_to(4) == 16,
    ;
    lemma_repeated_square_sign(x, 16);
}

} // verus!
