//! What holds of every swap step: the output never decreases with the
//! input, a step at price one pays out no more than it takes in, a step
//! that cannot reach its target does not depend on it, and a step whose
//! target is the current price moves nothing.
use crate::utils::arith::{
    lemma_div_antitone, lemma_div_at_least, lemma_div_below, lemma_div_bounds,
    lemma_div_monotone,
};
use crate::utils::math::{
    swap_amount_in, swap_amount_out, swap_amount_out_between, swap_next_price,
    swap_reaches_target, swap_required_in, swap_step_defined, token_0_reserve, Q96,
};
use vstd::prelude::*;

verus! {

/// The reserve of token 0 is antitone in the price: a higher price implies
/// no greater reserve, and no reserve is negative.
pub proof fn lemma_reserve_antitone(low: int, high: int, l: int)
    requires
        0 < low <= high,
        0 <= l,
    ensures
        0 <= token_0_reserve(high, l) <= token_0_reserve(low, l),
{
    assert(0 <= l * Q96) by (nonlinear_arith)
        requires
            0 <= l,
    ;
    lemma_div_antitone(l * Q96, low, high);
    lemma_div_at_least(l * Q96, high, 0);
}

/// The price after a step lies between the target and the current price:
/// a step never overshoots its target and never moves away from it.
pub proof fn lemma_swap_next_price_between(
    current: int,
    target: int,
    l: int,
    remaining: int,
    a_to_b: bool,
)
    requires
        0 < l,
        0 <= remaining,
        swap_step_defined(current, target, l, remaining, a_to_b),
    ensures
        a_to_b ==> target <= swap_next_price(current, target, l, remaining, a_to_b) <= current,
        !a_to_b ==> current <= swap_next_price(current, target, l, remaining, a_to_b) <= target,
{
    let q = Q96 as int;
    let next = swap_next_price(current, target, l, remaining, a_to_b);
    if !swap_reaches_target(current, target, l, remaining, a_to_b) {
        if a_to_b {
            // remaining < reserve(target) - reserve(current), so the
            // denominator stays at or below reserve(target).
            let rc = token_0_reserve(current, l);
            let rt = token_0_reserve(target, l);
            let d = rc + remaining;
            lemma_div_bounds(l * q, target);
            assert(target * d <= l * q) by (nonlinear_arith)
                requires
                    rt * target <= l * q,
                    0 < d <= rt,
                    0 < target,
            ;
            lemma_div_at_least(l * q, d, target);
        } else {
            // remaining < l * (target - current) / Q, so the price delta
            // stays below target - current.
            let required = l * (target - current) / q;
            lemma_div_bounds(l * (target - current), q);
            assert(remaining * q < l * (target - current)) by (nonlinear_arith)
                requires
                    remaining + 1 <= required,
                    required * q <= l * (target - current),
                    q > 0,
            ;
            assert(remaining * q < (target - current) * l) by (nonlinear_arith)
                requires
                    remaining * q < l * (target - current),
            ;
            lemma_div_below(remaining * q, l, target - current);
            assert(0 <= remaining * q) by (nonlinear_arith)
                requires
                    0 <= remaining,
                    0 < q,
            ;
            lemma_div_at_least(remaining * q, l, 0);
        }
    }
}

/// The output of a move of the price is monotone in the distance moved:
/// selling token 0, a lower new price pays no less; selling token 1, a
/// higher new price pays no less.
pub proof fn lemma_swap_amount_out_monotone_in_next(
    current: int,
    near: int,
    far: int,
    l: int,
    a_to_b: bool,
)
    requires
        0 < l,
        a_to_b ==> far <= near,
        !a_to_b ==> 0 < near <= far,
    ensures
        swap_amount_out_between(current, near, l, a_to_b) <= swap_amount_out_between(
            current,
            far,
            l,
            a_to_b,
        ),
{
    let q = Q96 as int;
    if a_to_b {
        assert(l * (current - near) <= l * (current - far)) by (nonlinear_arith)
            requires
                0 < l,
                far <= near,
        ;
        lemma_div_monotone(l * (current - near), l * (current - far), q);
    } else {
        lemma_reserve_antitone(near, far, l);
    }
}

/// The price after a step is monotone in the input: more input moves the
/// price no less far.
pub proof fn lemma_swap_next_price_monotone_in_input(
    current: int,
    target: int,
    l: int,
    less: int,
    more: int,
    a_to_b: bool,
)
    requires
        0 < l,
        0 <= less <= more,
        swap_step_defined(current, target, l, less, a_to_b),
        swap_step_defined(current, target, l, more, a_to_b),
    ensures
        a_to_b ==> swap_next_price(current, target, l, more, a_to_b) <= swap_next_price(
            current,
            target,
            l,
            less,
            a_to_b,
        ),
        !a_to_b ==> swap_next_price(current, target, l, less, a_to_b) <= swap_next_price(
            current,
            target,
            l,
            more,
            a_to_b,
        ),
{
    let q = Q96 as int;
    if swap_reaches_target(current, target, l, more, a_to_b) {
        lemma_swap_next_price_between(current, target, l, less, a_to_b);
    } else {
        // Neither input reaches the target.
        if a_to_b {
            let rc = token_0_reserve(current, l);
            assert(0 <= l * q) by (nonlinear_arith)
                requires
                    0 < l,
                    0 < q,
            ;
            lemma_div_antitone(l * q, rc + less, rc + more);
        } else {
            assert(less * q <= more * q) by (nonlinear_arith)
                requires
                    less <= more,
                    0 < q,
            ;
            lemma_div_monotone(less * q, more * q, l);
        }
    }
}

/// The output of a swap step never decreases with the input on offer.
pub proof fn lemma_swap_amount_out_monotone_in_input(
    current: int,
    target: int,
    l: int,
    less: int,
    more: int,
    a_to_b: bool,
)
    requires
        0 < l,
        0 <= less <= more,
        swap_step_defined(current, target, l, less, a_to_b),
        swap_step_defined(current, target, l, more, a_to_b),
    ensures
        swap_amount_out(current, target, l, less, a_to_b) <= swap_amount_out(
            current,
            target,
            l,
            more,
            a_to_b,
        ),
{
    lemma_swap_next_price_monotone_in_input(current, target, l, less, more, a_to_b);
    lemma_swap_next_price_between(current, target, l, less, a_to_b);
    lemma_swap_amount_out_monotone_in_next(
        current,
        swap_next_price(current, target, l, less, a_to_b),
        swap_next_price(current, target, l, more, a_to_b),
        l,
        a_to_b,
    );
}

/// The input that a swap step consumes never exceeds the input on offer.
pub proof fn lemma_swap_amount_in_at_most_remaining(
    current: int,
    target: int,
    l: int,
    remaining: int,
    a_to_b: bool,
)
    ensures
        swap_amount_in(current, target, l, remaining, a_to_b) <= remaining,
{
}

/// An input that reaches neither of two targets gives the same step for
/// both: the same new price, the whole input consumed, the same output.
pub proof fn lemma_swap_step_ignores_unreached_target(
    current: int,
    near: int,
    far: int,
    l: int,
    remaining: int,
    a_to_b: bool,
)
    requires
        !swap_reaches_target(current, near, l, remaining, a_to_b),
        !swap_reaches_target(current, far, l, remaining, a_to_b),
    ensures
        swap_next_price(current, near, l, remaining, a_to_b) == swap_next_price(
            current,
            far,
            l,
            remaining,
            a_to_b,
        ),
        swap_amount_in(current, near, l, remaining, a_to_b) == remaining,
        swap_amount_in(current, far, l, remaining, a_to_b) == remaining,
        swap_amount_out(current, near, l, remaining, a_to_b) == swap_amount_out(
            current,
            far,
            l,
            remaining,
            a_to_b,
        ),
{
}

/// A farther target asks for no less input: an input that does not reach
/// the nearer of two targets does not reach the farther.
pub proof fn lemma_swap_required_in_monotone_in_target(
    current: int,
    near: int,
    far: int,
    l: int,
    a_to_b: bool,
)
    requires
        0 < l,
        a_to_b ==> 0 < far <= near,
        !a_to_b ==> near <= far,
    ensures
        swap_required_in(current, near, l, a_to_b) <= swap_required_in(current, far, l, a_to_b),
{
    let q = Q96 as int;
    if a_to_b {
        lemma_reserve_antitone(far, near, l);
    } else {
        assert(l * (near - current) <= l * (far - current)) by (nonlinear_arith)
            requires
                0 < l,
                near <= far,
        ;
        lemma_div_monotone(l * (near - current), l * (far - current), q);
    }
}

/// At a price of one, a sale of token 0 pays out no more than it takes in.
pub proof fn lemma_swap_out_at_most_in_at_price_one(target: int, l: int, remaining: int)
    requires
        0 < l,
        0 <= remaining,
        swap_step_defined(Q96 as int, target, l, remaining, true),
    ensures
        swap_amount_out(Q96 as int, target, l, remaining, true) <= swap_amount_in(
            Q96 as int,
            target,
            l,
            remaining,
            true,
        ),
{
    let q = Q96 as int;
    let next = swap_next_price(q, target, l, remaining, true);
    assert(token_0_reserve(q, l) == l) by {
        vstd::arithmetic::div_mod::lemma_div_by_multiple(l, q);
    }
    assert(l < q) by (nonlinear_arith)
        requires
            l * q <= u128::MAX,
            q == 0x1_0000_0000_0000_0000_0000_0000,
            0 < l,
    ;
    if swap_reaches_target(q, target, l, remaining, true) {
        // out = l (q - t) / q,  in = l q / t - l
        let t = target;
        let a = l * q / t;
        lemma_div_bounds(l * q, t);
        assert(l * (q - t) < (a - l + 1) * q) by (nonlinear_arith)
            requires
                l * q < a * t + t,
                0 < t <= q,
                0 < l,
        {
            assert(l * ((q - t) * (q - t)) >= 0);
            assert((a * t + t) * q > (l * q) * q);
            assert(((a - l + 1) * q - l * (q - t)) * t == (a * t + t) * q - (l * q) * q + l * ((q
                - t) * (q - t)));
        }
        lemma_div_below(l * (q - t), q, a - l + 1);
    } else {
        // out = l (q - n) / q with n = l q / (l + x),  in = x
        let x = remaining;
        let d = l + x;
        let n = l * q / d;
        lemma_div_bounds(l * q, d);
        assert(l * (q - n) < (x + 1) * q) by (nonlinear_arith)
            requires
                l * q < n * d + d,
                d == l + x,
                0 < l < q,
                0 <= x,
        {
            assert((l * (q - n)) * d == l * (q * d) - l * (n * d));
            assert(l * (n * d) > l * (l * q - d));
            assert(((x + 1) * q) * d - (l * (q * d) - l * (l * q - d)) == (q * x) * x + q * l + q
                * x - l * l - l * x);
            assert(l * l <= q * l);
            assert(l * x <= q * x);
            assert((q * x) * x >= 0);
            assert((l * (q - n)) * d < ((x + 1) * q) * d);
        }
        lemma_div_below(l * (q - n), q, x + 1);
    }
}

/// A step whose target is the current price moves nothing: the price
/// stays, nothing is consumed and nothing is paid. Such a step is defined
/// exactly when the price is positive and the liquidity, scaled to Q64.96,
/// fits 128 bits.
pub proof fn lemma_swap_step_at_target(price: int, l: int, remaining: int, a_to_b: bool)
    requires
        0 <= price,
        0 < l,
        0 <= remaining,
    ensures
        swap_step_defined(price, price, l, remaining, a_to_b) <==> (price > 0 && l * Q96
            <= u128::MAX),
        swap_next_price(price, price, l, remaining, a_to_b) == price,
        swap_amount_in(price, price, l, remaining, a_to_b) == 0,
        swap_amount_out(price, price, l, remaining, a_to_b) == 0,
{
    let q = Q96 as int;
    assert(l * (price - price) == 0) by (nonlinear_arith);
    assert(0int / q == 0);
    assert(swap_required_in(price, price, l, a_to_b) == 0);
    assert(swap_reaches_target(price, price, l, remaining, a_to_b));
}

} // verus!
