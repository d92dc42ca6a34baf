use clmm::errors::ClmmError;
use clmm::utils::math::{
    compute_swap_step, get_amounts_for_liquidity, tick_to_sqrt_price_x96, Q96,
};

fn price(tick: i32) -> u128 {
    tick_to_sqrt_price_x96(tick).unwrap()
}

#[test]
fn amounts_in_range_hold_both_tokens() {
    assert_eq!(
        get_amounts_for_liquidity(Q96, price(-10), price(10), 1_000_000),
        Ok((499, 499))
    );
    assert_eq!(
        get_amounts_for_liquidity(Q96, price(-10), price(10), 1_000_000_000),
        Ok((499850, 499850))
    );
}

#[test]
fn amounts_below_range_hold_token_0_only() {
    assert_eq!(
        get_amounts_for_liquidity(price(-20), price(-10), price(10), 1_000_000),
        Ok((999, 0))
    );
    assert_eq!(
        get_amounts_for_liquidity(price(-10), price(-10), price(10), 1_000_000),
        Ok((999, 0))
    );
}

#[test]
fn amounts_above_range_hold_token_1_only() {
    assert_eq!(
        get_amounts_for_liquidity(price(20), price(-10), price(10), 1_000_000),
        Ok((0, 999))
    );
    assert_eq!(
        get_amounts_for_liquidity(price(10), price(-10), price(10), 1_000_000),
        Ok((0, 999))
    );
}

#[test]
fn amounts_of_no_liquidity_are_zero() {
    assert_eq!(
        get_amounts_for_liquidity(Q96, price(-10), price(10), 0),
        Ok((0, 0))
    );
}

#[test]
fn amounts_fail_on_bounds_out_of_order() {
    assert_eq!(
        get_amounts_for_liquidity(price(-20), price(10), price(-10), 1_000_000),
        Err(ClmmError::ArithmeticOverflow)
    );
    assert_eq!(
        get_amounts_for_liquidity(price(20), price(10), price(-10), 1_000_000),
        Err(ClmmError::ArithmeticOverflow)
    );
}

#[test]
fn amounts_fail_on_a_zero_lower_bound() {
    assert_eq!(
        get_amounts_for_liquidity(0, 0, price(10), 1_000_000),
        Err(ClmmError::ArithmeticOverflow)
    );
}

#[test]
fn amounts_fail_on_overflow() {
    assert_eq!(
        get_amounts_for_liquidity(Q96, price(-10), price(10), u128::MAX),
        Err(ClmmError::ArithmeticOverflow)
    );
    assert_eq!(
        get_amounts_for_liquidity(price(20), price(-10), price(10), 1u128 << 70),
        Err(ClmmError::ArithmeticOverflow)
    );
}

#[test]
fn swap_step_exact_values() {
    assert_eq!(
        compute_swap_step(Q96, price(-10), 1_000_000_000, 1_000_000_000, true),
        Ok((79188560314459151369368502272, 500100, 499850))
    );
    assert_eq!(
        compute_swap_step(Q96, price(-100), 1_000_000_000, 1, true),
        Ok((79228162435036175158507775177, 1, 0))
    );
    assert_eq!(
        compute_swap_step(Q96, price(-10), 1_000_000, 100, true),
        Ok((79220240490215316061937756560, 100, 99))
    );
    assert_eq!(
        compute_swap_step(Q96, price(10), 1_000_000_000, 1_000_000_000, false),
        Ok((79267784519130042432841842688, 500100, 499851))
    );
    assert_eq!(
        compute_swap_step(Q96, price(10), 1_000_000_000, 1000, false),
        Ok((79228241742426851857881543879, 1000, 1000))
    );
}

#[test]
fn swap_step_without_liquidity_is_refused() {
    assert_eq!(
        compute_swap_step(Q96, price(-100), 0, 1000, true),
        Err(ClmmError::InsufficientLiquidity)
    );
    assert_eq!(
        compute_swap_step(Q96, price(100), 0, 1000, false),
        Err(ClmmError::InsufficientLiquidity)
    );
}

#[test]
fn swap_step_against_the_direction_overflows() {
    assert_eq!(
        compute_swap_step(Q96, price(100), 1_000_000_000, 1000, true),
        Err(ClmmError::ArithmeticOverflow)
    );
    assert_eq!(
        compute_swap_step(Q96, price(-100), 1_000_000_000, 1000, false),
        Err(ClmmError::ArithmeticOverflow)
    );
}

#[test]
fn swap_step_with_liquidity_too_large_to_scale_overflows() {
    assert_eq!(
        compute_swap_step(Q96, price(-10), 1u128 << 32, 1000, true),
        Err(ClmmError::ArithmeticOverflow)
    );
    assert_eq!(
        compute_swap_step(Q96, price(10), 1u128 << 32, 1000, false),
        Err(ClmmError::ArithmeticOverflow)
    );
}

#[test]
fn swap_step_with_a_zero_price_overflows() {
    assert_eq!(
        compute_swap_step(Q96, 0, 1000, 1000, true),
        Err(ClmmError::ArithmeticOverflow)
    );
    assert_eq!(
        compute_swap_step(0, Q96, 1000, 1000, false),
        Err(ClmmError::ArithmeticOverflow)
    );
}

#[test]
fn swap_step_at_its_target_moves_nothing() {
    assert_eq!(
        compute_swap_step(Q96, Q96, 1_000_000_000, 5, true),
        Ok((Q96, 0, 0))
    );
    assert_eq!(
        compute_swap_step(Q96, Q96, 1_000_000_000, 5, false),
        Ok((Q96, 0, 0))
    );
    assert_eq!(
        compute_swap_step(price(77), price(77), 3, 0, true),
        Ok((price(77), 0, 0))
    );
}

#[test]
fn swap_at_price_one_pays_out_no_more_than_it_takes() {
    let mut remaining: u128 = 0;
    while remaining < 3000 {
        let (_, amount_in, amount_out) =
            compute_swap_step(Q96, price(-10), 1_000_000, remaining, true).unwrap();
        assert!(amount_out <= amount_in);
        remaining += 7;
    }
}

#[test]
fn swap_output_never_falls_as_the_input_grows() {
    for a_to_b in [true, false] {
        let target = if a_to_b { price(-60) } else { price(60) };
        let mut previous: u128 = 0;
        let mut remaining: u128 = 0;
        while remaining < 5_000_000 {
            let (_, _, amount_out) =
                compute_swap_step(Q96, target, 1_000_000_000, remaining, a_to_b).unwrap();
            assert!(previous <= amount_out);
            previous = amount_out;
            remaining += 9973;
        }
    }
}

#[test]
fn swap_output_does_not_depend_on_a_target_out_of_reach() {
    let near = compute_swap_step(Q96, price(-10), 1_000_000_000, 1000, true).unwrap();
    let far = compute_swap_step(Q96, price(-100), 1_000_000_000, 1000, true).unwrap();
    assert_eq!(near, far);
}

#[test]
fn swap_output_grows_with_a_target_in_reach() {
    let near = compute_swap_step(Q96, price(-10), 1_000_000_000, 1_000_000_000, true).unwrap();
    let far = compute_swap_step(Q96, price(-100), 1_000_000_000, 1_000_000_000, true).unwrap();
    assert_eq!(near, (79188560314459151369368502272, 500100, 499850));
    assert_eq!(far, (78833030112140176566104621056, 5012269, 4987272));
}
