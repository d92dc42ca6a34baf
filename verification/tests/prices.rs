use clmm::errors::ClmmError;
use clmm::utils::math::{
    integer_sqrt, price_to_sqrt_price_x96, sqrt_price_x96_to_tick, tick_to_sqrt_price_x96,
    MAX_SQRT_PRICE_X64, MAX_SQRT_PRICE_X96, MAX_TICK, MIN_SQRT_PRICE_X64, MIN_SQRT_PRICE_X96,
    MIN_TICK, Q96,
};

#[test]
fn integer_sqrt_of_small_numbers() {
    assert_eq!(integer_sqrt(0), 0);
    assert_eq!(integer_sqrt(1), 1);
    assert_eq!(integer_sqrt(2), 1);
    assert_eq!(integer_sqrt(3), 1);
    assert_eq!(integer_sqrt(4), 2);
    assert_eq!(integer_sqrt(8), 2);
    assert_eq!(integer_sqrt(9), 3);
    assert_eq!(integer_sqrt(99), 9);
    assert_eq!(integer_sqrt(100), 10);
}

#[test]
fn integer_sqrt_of_the_largest_numbers() {
    assert_eq!(integer_sqrt(u128::MAX), u64::MAX);
    assert_eq!(integer_sqrt(u128::MAX - 1), u64::MAX);
    let root = u64::MAX as u128;
    assert_eq!(integer_sqrt(root * root), u64::MAX);
    assert_eq!(integer_sqrt(root * root - 1), u64::MAX - 1);
    assert_eq!(integer_sqrt(1u128 << 126), 1u64 << 63);
}

#[test]
fn integer_sqrt_is_the_floor_of_the_root() {
    let mut value: u128 = 0;
    while value < 5000 {
        let root = integer_sqrt(value) as u128;
        assert!(root * root <= value);
        assert!((root + 1) * (root + 1) > value);
        value += 1;
    }
}

#[test]
fn price_to_sqrt_price_of_the_largest_price() {
    assert_eq!(
        price_to_sqrt_price_x96(u64::MAX),
        Ok(4294967295u128 * Q96)
    );
    assert_eq!(price_to_sqrt_price_x96(1), Ok(Q96));
    assert_eq!(price_to_sqrt_price_x96(3), Ok(Q96));
}

#[test]
fn constants_agree() {
    assert_eq!(Q96, 1u128 << 96);
    assert_eq!(MIN_TICK, -MAX_TICK);
    assert_eq!(MIN_SQRT_PRICE_X96, MIN_SQRT_PRICE_X64 << 32);
    assert_eq!(MAX_SQRT_PRICE_X96, MAX_SQRT_PRICE_X64 << 32);
}

#[test]
fn tick_to_sqrt_price_exact_values() {
    assert_eq!(tick_to_sqrt_price_x96(1), Ok(79232123823359799118734032896));
    assert_eq!(tick_to_sqrt_price_x96(-1), Ok(79224201403219477167714861056));
    assert_eq!(tick_to_sqrt_price_x96(10), Ok(79267784519130042432841842688));
    assert_eq!(tick_to_sqrt_price_x96(-10), Ok(79188560314459151369368502272));
    assert_eq!(tick_to_sqrt_price_x96(100), Ok(79625275426524748803362258944));
    assert_eq!(tick_to_sqrt_price_x96(-100), Ok(78833030112140176566104621056));
    assert_eq!(tick_to_sqrt_price_x96(1000), Ok(83290069058676223022016233472));
    assert_eq!(tick_to_sqrt_price_x96(-5000), Ok(61703726247759831721310158848));
    assert_eq!(
        tick_to_sqrt_price_x96(295913),
        Ok(210973288730155917722730567663878144)
    );
}

#[test]
fn tick_to_sqrt_price_at_the_ends_of_the_range() {
    assert_eq!(tick_to_sqrt_price_x96(MIN_TICK), Ok(MIN_SQRT_PRICE_X96));
    assert_eq!(tick_to_sqrt_price_x96(MAX_TICK), Ok(MAX_SQRT_PRICE_X96));
    assert!(tick_to_sqrt_price_x96(MIN_TICK).unwrap() >= MIN_SQRT_PRICE_X96);
    assert!(tick_to_sqrt_price_x96(MAX_TICK - 1).unwrap() < MAX_SQRT_PRICE_X96);
}

#[test]
fn tick_to_sqrt_price_refuses_ticks_out_of_range() {
    assert_eq!(
        tick_to_sqrt_price_x96(MAX_TICK + 1),
        Err(ClmmError::TickUpperOverflow)
    );
    assert_eq!(
        tick_to_sqrt_price_x96(MIN_TICK - 1),
        Err(ClmmError::TickUpperOverflow)
    );
    assert_eq!(
        tick_to_sqrt_price_x96(i32::MAX),
        Err(ClmmError::TickUpperOverflow)
    );
    assert_eq!(
        tick_to_sqrt_price_x96(i32::MIN),
        Err(ClmmError::TickUpperOverflow)
    );
}

#[test]
fn tick_to_sqrt_price_is_strictly_increasing_over_all_ticks() {
    let mut previous = tick_to_sqrt_price_x96(MIN_TICK).unwrap();
    let mut tick = MIN_TICK + 1;
    while tick <= MAX_TICK {
        let price = tick_to_sqrt_price_x96(tick).unwrap();
        assert!(previous < price, "tick {}", tick);
        previous = price;
        tick += 1;
    }
}

#[test]
fn sqrt_price_to_tick_exact_values() {
    assert_eq!(sqrt_price_x96_to_tick(Q96 + 1), Ok(0));
    assert_eq!(sqrt_price_x96_to_tick(Q96 - 1), Ok(-1));
    assert_eq!(sqrt_price_x96_to_tick(2 * Q96), Ok(13863));
    assert_eq!(sqrt_price_x96_to_tick(Q96 / 2), Ok(-13864));
    assert_eq!(sqrt_price_x96_to_tick(3 * Q96), Ok(21973));
    assert_eq!(sqrt_price_x96_to_tick(MIN_SQRT_PRICE_X96), Ok(MIN_TICK));
}

#[test]
fn sqrt_price_to_tick_refuses_prices_out_of_range() {
    assert_eq!(
        sqrt_price_x96_to_tick(MIN_SQRT_PRICE_X96 - 1),
        Err(ClmmError::SqrtPriceX96)
    );
    assert_eq!(
        sqrt_price_x96_to_tick(MAX_SQRT_PRICE_X96),
        Err(ClmmError::SqrtPriceX96)
    );
    assert_eq!(sqrt_price_x96_to_tick(0), Err(ClmmError::SqrtPriceX96));
    assert_eq!(
        sqrt_price_x96_to_tick(u128::MAX),
        Err(ClmmError::SqrtPriceX96)
    );
}

#[test]
fn sqrt_price_to_tick_never_leaves_the_valid_ticks() {
    assert_eq!(sqrt_price_x96_to_tick(MAX_SQRT_PRICE_X96 - 1), Ok(MAX_TICK));
    let last = tick_to_sqrt_price_x96(MAX_TICK - 1).unwrap();
    assert_eq!(sqrt_price_x96_to_tick(last), Ok(MAX_TICK - 1));
    assert_eq!(sqrt_price_x96_to_tick(last - 1), Ok(MAX_TICK - 1));
    assert_eq!(sqrt_price_x96_to_tick(MIN_SQRT_PRICE_X96 + 1), Ok(MIN_TICK));
}

#[test]
fn sqrt_price_to_tick_falls_back_to_the_lower_neighbour() {
    let boundary = tick_to_sqrt_price_x96(295913).unwrap();
    assert_eq!(sqrt_price_x96_to_tick(boundary), Ok(295913));
    assert_eq!(sqrt_price_x96_to_tick(boundary - 1), Ok(295913));
}

#[test]
fn round_trip_stays_within_one_tick_and_never_falls() {
    let mut previous = MIN_TICK - 1;
    let mut tick = MIN_TICK;
    while tick < MAX_TICK {
        let price = tick_to_sqrt_price_x96(tick).unwrap();
        let recovered = sqrt_price_x96_to_tick(price).unwrap();
        assert!((recovered - tick).abs() <= 1, "tick {}", tick);
        assert!(previous <= recovered, "tick {}", tick);
        previous = recovered;
        tick += 1;
    }
}

#[test]
fn round_trip_of_the_highest_tick_is_refused() {
    let price = tick_to_sqrt_price_x96(MAX_TICK).unwrap();
    assert_eq!(sqrt_price_x96_to_tick(price), Err(ClmmError::SqrtPriceX96));
}

#[test]
fn tick_of_a_price_is_within_one_of_the_greatest_tick_at_or_below_it() {
    let mut tick = MIN_TICK;
    let mut seed: u128 = 0x9e37_79b9_7f4a_7c15;
    while tick < MAX_TICK {
        let low = tick_to_sqrt_price_x96(tick).unwrap();
        let high = tick_to_sqrt_price_x96(tick + 1).unwrap();
        seed = seed.wrapping_mul(6364136223846793005).wrapping_add(1442695040888963407);
        for price in [low, high - 1, low + seed % (high - low)] {
            let found = sqrt_price_x96_to_tick(price).unwrap();
            assert!(tick <= found && found <= tick + 1, "tick {}", tick);
        }
        tick += 97;
    }
}

#[test]
fn tick_of_every_price_lies_in_the_range_of_ticks() {
    let mut price = MIN_SQRT_PRICE_X96;
    while price < MAX_SQRT_PRICE_X96 {
        let tick = sqrt_price_x96_to_tick(price).unwrap();
        assert!(MIN_TICK <= tick && tick <= MAX_TICK);
        price = match price.checked_add(price / 777 + 1) {
            Some(next) => next,
            None => MAX_SQRT_PRICE_X96,
        };
    }
    assert_eq!(sqrt_price_x96_to_tick(MAX_SQRT_PRICE_X96 - 1), Ok(MAX_TICK));
    assert_eq!(sqrt_price_x96_to_tick(MIN_SQRT_PRICE_X96), Ok(MIN_TICK));
}

#[test]
fn tick_of_a_price_never_falls_as_the_price_rises() {
    let mut price = MIN_SQRT_PRICE_X96;
    let mut previous = MIN_TICK;
    while price < MAX_SQRT_PRICE_X96 {
        let tick = sqrt_price_x96_to_tick(price).unwrap();
        assert!(previous <= tick);
        previous = tick;
        price = match price.checked_add(price / 5000 + 1) {
            Some(next) => next,
            None => MAX_SQRT_PRICE_X96,
        };
    }
}
