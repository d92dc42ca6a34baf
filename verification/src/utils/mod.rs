pub mod arith;
pub mod constants;
pub mod ladder;
pub mod ladder_log;
pub mod log_bounds;
pub mod math;
pub mod round_trip;
pub mod swap_bounds;
pub mod tick_order;

pub use constants::{ANCHOR_DISCRIMINATOR, TICKS_PER_ARRAY};
pub use math::{
    compute_swap_step, get_amounts_for_liquidity, integer_sqrt, is_valid_sqrt_price,
    is_valid_tick, price_to_sqrt_price_x96, sqrt_price_x96_to_tick, tick_to_sqrt_price_x96,
    BIT_PRECISION, LOG_BASE, MAX_SQRT_PRICE_X64, MAX_SQRT_PRICE_X96, MAX_TICK,
    MIN_SQRT_PRICE_X64, MIN_SQRT_PRICE_X96, MIN_TICK, Q96, TICK_SPACING,
};
