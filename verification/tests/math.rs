use clmm::errors::ClmmError;
use clmm::utils::math::{
    compute_swap_step, price_to_sqrt_price_x96, sqrt_price_x96_to_tick, tick_to_sqrt_price_x96,
    MAX_TICK, MIN_SQRT_PRICE_X96, Q96,
};

#[test]
fn test_price_to_sqrt_price_x96_perfect_square() {
    let price = 4;
    let result = price_to_sqrt_price_x96(price).unwrap();
    let expected = 2u128 * Q96;
    assert_eq!(result, expected);
}

#[test]
fn test_price_to_sqrt_price_x96_non_perfect_square() {
    let price = 10;
    let result = price_to_sqrt_price_x96(price).unwrap();
    let expected = 3u128 * Q96;
    assert_eq!(result, expected);
}

#[test]
fn test_price_to_sqrt_price_x96_zero_price() {
    let price = 0;
    let result = price_to_sqrt_price_x96(price);
    assert!(result.is_err());
    assert_eq!(result.unwrap_err(), ClmmError::ZeroAmount);
}

#[test]
fn test_price_to_sqrt_price_x96_large_price() {
    let price = 1_000_000;
    let result = price_to_sqrt_price_x96(price).unwrap();
    let expected = 1000u128 * Q96;
    assert_eq!(result, expected);
}

#[test]
fn test_tick_to_sqrt_price_at_tick_zero() {
    let tick = 0;
    let result = tick_to_sqrt_price_x96(tick).unwrap();
    let expected = 1u128 << 96;
    assert_eq!(result, expected);
}

#[test]
fn test_tick_to_sqrt_price_positive_tick() {
    let tick = 100;
    let result = tick_to_sqrt_price_x96(tick).unwrap();
    let base = 1u128 << 96;
    assert!(result > base);
}

#[test]
fn test_tick_to_sqrt_price_negative_tick() {
    let tick = -100;
    let result = tick_to_sqrt_price_x96(tick).unwrap();
    let base = 1u128 << 96;
    assert!(result < base);
}

#[test]
fn test_sqrt_price_to_tick_at_price_one() {
    let sqrt_price = 1u128 << 96;
    let result = sqrt_price_x96_to_tick(sqrt_price).unwrap();
    assert_eq!(result, 0);
}

#[test]
fn test_roundtrip_tick_to_price_to_tick() {
    let original_tick = 1000;
    let sqrt_price = tick_to_sqrt_price_x96(original_tick).unwrap();
    let recovered_tick = sqrt_price_x96_to_tick(sqrt_price).unwrap();
    assert!((recovered_tick - original_tick).abs() <= 1);
}

#[test]
fn test_roundtrip_negative_tick() {
    let original_tick = -5000;
    let sqrt_price = tick_to_sqrt_price_x96(original_tick).unwrap();
    let recovered_tick = sqrt_price_x96_to_tick(sqrt_price).unwrap();
    assert!((recovered_tick - original_tick).abs() <= 1);
}

#[test]
fn test_tick_overflow() {
    let tick = MAX_TICK + 1;
    let result = tick_to_sqrt_price_x96(tick);
    assert!(result.is_err());
}

#[test]
fn test_sqrt_price_below_min() {
    let sqrt_price = MIN_SQRT_PRICE_X96 - 1;
    let result = sqrt_price_x96_to_tick(sqrt_price);
    assert!(result.is_err());
}

#[test]
fn test_swap_a_to_b_full_cross() {
    let sqrt_current = tick_to_sqrt_price_x96(0).unwrap();
    let sqrt_target = tick_to_sqrt_price_x96(-10).unwrap();

    let liquidity: u128 = 1_000_000_000;

    let amount_remaining: u128 = 1_000_000_000;

    let (next_price, amount_in, amount_out) =
        compute_swap_step(sqrt_current, sqrt_target, liquidity, amount_remaining, true).unwrap();

    assert_eq!(next_price, sqrt_target);
    assert!(amount_in > 0);
    assert!(amount_out > 0);
    assert!(amount_in <= amount_remaining);
}

#[test]
fn test_swap_a_to_b_partial() {
    let sqrt_current = tick_to_sqrt_price_x96(0).unwrap();
    let sqrt_target = tick_to_sqrt_price_x96(-100).unwrap();
    let liquidity: u128 = 1_000_000_000;

    let amount_remaining: u128 = 1;

    let (next_price, amount_in, _amount_out) =
        compute_swap_step(sqrt_current, sqrt_target, liquidity, amount_remaining, true).unwrap();

    assert!(next_price < sqrt_current);
    assert!(next_price > sqrt_target);
    assert_eq!(amount_in, amount_remaining);
}

#[test]
fn test_swap_b_to_a_full_cross() {
    let sqrt_current = tick_to_sqrt_price_x96(0).unwrap();
    let sqrt_target = tick_to_sqrt_price_x96(10).unwrap();
    let liquidity: u128 = 1_000_000_000;

    let amount_remaining: u128 = 1_000_000_000;

    let (next_price, amount_in, amount_out) =
        compute_swap_step(sqrt_current, sqrt_target, liquidity, amount_remaining, false).unwrap();

    assert_eq!(next_price, sqrt_target);
    assert!(amount_in > 0);
    assert!(amount_out > 0);
    assert!(amount_in <= amount_remaining);
}

#[test]
fn test_swap_zero_liquidity_fails() {
    let sqrt_current = tick_to_sqrt_price_x96(0).unwrap();
    let sqrt_target = tick_to_sqrt_price_x96(-100).unwrap();

    let result = compute_swap_step(sqrt_current, sqrt_target, 0, 1000, true);
    assert!(result.is_err());
}
