use clmm::errors::ClmmError;
use clmm::instructions::close_position::{check_may_close, close_position, ClosePosition};
use clmm::instructions::decrease_liquidity::decrease_liquidity;
use clmm::instructions::increase_liquidity::{increase_liquidity, IncreaseLiquidity};
use clmm::instructions::initialize_pool::{init_pool, InitializePool};
use clmm::instructions::open_position::{open_position, OpenPosition};
use clmm::instructions::swap::{swap, target_tick_of, Swap, SwapOutcome};
use clmm::instructions::transfers::{
    liquidity_transfers, swap_transfers, TokenSide, TokenTransfer, TransferDirection,
};
use clmm::states::address::Address;
use clmm::states::pool::Pool;
use clmm::states::position::Position;
use clmm::states::ticks::{TickArrayState, TickState};
use clmm::utils::math::{tick_to_sqrt_price_x96, MAX_SQRT_PRICE_X96, Q96};

fn address(first: u8) -> Address {
    let mut bytes = [0u8; 32];
    bytes[0] = first;
    Address::new(bytes)
}

fn blank_pool() -> Pool {
    Pool {
        token_0: Address::default(),
        token_1: Address::default(),
        token_vault_0: Address::default(),
        token_vault_1: Address::default(),
        global_liquidity: 0,
        sqrt_price_x96: 0,
        current_tick: 0,
        tick_spacing: 0,
        bump: 0,
    }
}

fn pool_at(sqrt_price_x96: u128, tick_spacing: i32) -> Pool {
    let mut ctx = InitializePool {
        token_0_mint: address(1),
        token_1_mint: address(2),
        pool: blank_pool(),
        token_0_vault: address(3),
        token_1_vault: address(4),
        pool_bump: 254,
    };
    init_pool(&mut ctx, tick_spacing, sqrt_price_x96).unwrap();
    ctx.pool
}

fn opening(pool: Pool) -> OpenPosition {
    OpenPosition {
        signer: address(9),
        pool_key: address(5),
        pool,
        lower_tick_array: TickArrayState::new(0),
        upper_tick_array: TickArrayState::new(0),
        position: None,
        position_bump: 253,
    }
}

fn opened(liquidity: u128) -> OpenPosition {
    let mut ctx = opening(pool_at(Q96, 10));
    open_position(&mut ctx, 10, -10, -640, 0, liquidity).unwrap();
    ctx
}

fn changing(from: &OpenPosition) -> IncreaseLiquidity {
    IncreaseLiquidity {
        signer: from.signer,
        pool_key: from.pool_key,
        pool: from.pool,
        lower_tick_array: from.lower_tick_array,
        upper_tick_array: from.upper_tick_array,
        position: from.position.unwrap(),
    }
}

fn closing(from: &OpenPosition) -> ClosePosition {
    ClosePosition {
        signer: from.signer,
        pool_key: from.pool_key,
        pool: from.pool,
        lower_tick_array: from.lower_tick_array,
        upper_tick_array: from.upper_tick_array,
        position: from.position,
    }
}

fn same_pool(a: &Pool, b: &Pool) -> bool {
    a.token_0 == b.token_0
        && a.token_1 == b.token_1
        && a.token_vault_0 == b.token_vault_0
        && a.token_vault_1 == b.token_vault_1
        && a.global_liquidity == b.global_liquidity
        && a.sqrt_price_x96 == b.sqrt_price_x96
        && a.current_tick == b.current_tick
        && a.tick_spacing == b.tick_spacing
        && a.bump == b.bump
}

fn same_array(a: &TickArrayState, b: &TickArrayState) -> bool {
    a.pool == b.pool && a.starting_tick == b.starting_tick && a.ticks == b.ticks && a.bump == b.bump
}

#[test]
fn init_pool_fills_in_the_pool() {
    let pool = pool_at(Q96, 10);
    assert!(pool.token_0 == address(1));
    assert!(pool.token_1 == address(2));
    assert!(pool.token_vault_0 == address(3));
    assert!(pool.token_vault_1 == address(4));
    assert_eq!(pool.global_liquidity, 0);
    assert_eq!(pool.sqrt_price_x96, Q96);
    assert_eq!(pool.current_tick, 0);
    assert_eq!(pool.tick_spacing, 10);
    assert_eq!(pool.bump, 254);
    assert!(pool.is_well_formed());
    let high = pool_at(2 * Q96, 1);
    assert_eq!(high.current_tick, 13863);
}

#[test]
fn init_pool_refuses_tokens_out_of_order() {
    let mut ctx = InitializePool {
        token_0_mint: address(2),
        token_1_mint: address(1),
        pool: blank_pool(),
        token_0_vault: address(3),
        token_1_vault: address(4),
        pool_bump: 0,
    };
    assert_eq!(init_pool(&mut ctx, 10, Q96), Err(ClmmError::InvalidTokenOrder));
    assert!(same_pool(&ctx.pool, &blank_pool()));
    ctx.token_0_mint = address(1);
    assert_eq!(init_pool(&mut ctx, 10, Q96), Err(ClmmError::InvalidTokenOrder));
}

#[test]
fn init_pool_refuses_a_tick_spacing_that_is_not_positive() {
    let mut ctx = InitializePool {
        token_0_mint: address(1),
        token_1_mint: address(2),
        pool: blank_pool(),
        token_0_vault: address(3),
        token_1_vault: address(4),
        pool_bump: 0,
    };
    assert_eq!(init_pool(&mut ctx, 0, Q96), Err(ClmmError::InvalidTickSpacing));
    assert_eq!(init_pool(&mut ctx, -10, Q96), Err(ClmmError::InvalidTickSpacing));
    assert!(same_pool(&ctx.pool, &blank_pool()));
}

#[test]
fn init_pool_refuses_a_price_out_of_range() {
    let mut ctx = InitializePool {
        token_0_mint: address(1),
        token_1_mint: address(2),
        pool: blank_pool(),
        token_0_vault: address(3),
        token_1_vault: address(4),
        pool_bump: 0,
    };
    assert_eq!(init_pool(&mut ctx, 10, 0), Err(ClmmError::SqrtPriceX96));
    assert_eq!(
        init_pool(&mut ctx, 10, MAX_SQRT_PRICE_X96),
        Err(ClmmError::SqrtPriceX96)
    );
    assert!(same_pool(&ctx.pool, &blank_pool()));
}

#[test]
fn open_position_in_range_activates_the_liquidity() {
    let mut ctx = opening(pool_at(Q96, 10));
    assert_eq!(
        open_position(&mut ctx, 10, -10, -640, 0, 1_000_000),
        Ok((499, 499))
    );
    assert_eq!(ctx.pool.global_liquidity, 1_000_000);
    assert_eq!(ctx.pool.sqrt_price_x96, Q96);
    assert_eq!(ctx.pool.current_tick, 0);
    let position = ctx.position.unwrap();
    assert_eq!(position.liquidity, 1_000_000);
    assert_eq!(position.lower_tick, -10);
    assert_eq!(position.upper_tick, 10);
    assert!(position.owner == address(9));
    assert!(position.pool == address(5));
    assert_eq!(position.bump, 253);
    assert!(ctx.lower_tick_array.pool == address(5));
    assert_eq!(ctx.lower_tick_array.starting_tick, -640);
    assert!(ctx.upper_tick_array.pool == address(5));
    assert_eq!(ctx.upper_tick_array.starting_tick, 0);
    assert_eq!(
        ctx.lower_tick_array.ticks[63],
        TickState { initialized: true, gross_liquidity: 1_000_000, net_liquidity: 1_000_000 }
    );
    assert_eq!(
        ctx.upper_tick_array.ticks[1],
        TickState { initialized: true, gross_liquidity: 1_000_000, net_liquidity: -1_000_000 }
    );
    assert_eq!(ctx.upper_tick_array.ticks[0], TickState::new());
}

#[test]
fn open_position_out_of_range_leaves_the_active_liquidity() {
    let mut above = opening(pool_at(Q96, 10));
    assert_eq!(
        open_position(&mut above, 30, 10, 0, 0, 1_000_000),
        Ok((998, 0))
    );
    assert_eq!(above.pool.global_liquidity, 0);
    let mut below = opening(pool_at(Q96, 10));
    assert_eq!(
        open_position(&mut below, -10, -30, -640, -640, 1_000_000),
        Ok((0, 998))
    );
    assert_eq!(below.pool.global_liquidity, 0);
    let mut at_upper = opening(pool_at(Q96, 10));
    assert_eq!(
        open_position(&mut at_upper, 0, -20, -640, 0, 1_000_000),
        Ok((0, 999))
    );
    assert_eq!(at_upper.pool.global_liquidity, 0);
    let mut at_lower = opening(pool_at(Q96, 10));
    assert_eq!(
        open_position(&mut at_lower, 20, 0, 0, 0, 1_000_000),
        Ok((999, 0))
    );
    assert_eq!(at_lower.pool.global_liquidity, 1_000_000);
}

#[test]
fn open_position_keeps_the_header_of_a_claimed_array() {
    let mut ctx = opened(1_000_000);
    ctx.position = None;
    assert_eq!(
        open_position(&mut ctx, 20, -20, 6400, 6400, 5),
        Ok((0, 0))
    );
    assert_eq!(ctx.lower_tick_array.starting_tick, -640);
    assert_eq!(ctx.upper_tick_array.starting_tick, 0);
    assert_eq!(ctx.lower_tick_array.ticks[62].gross_liquidity, 5);
    assert_eq!(ctx.upper_tick_array.ticks[2].net_liquidity, -5);
    assert_eq!(ctx.pool.global_liquidity, 1_000_005);
}

#[test]
fn open_position_refuses_a_zero_amount() {
    let before = opening(pool_at(Q96, 10));
    let mut ctx = before;
    assert_eq!(
        open_position(&mut ctx, 10, -10, -640, 0, 0),
        Err(ClmmError::ZeroAmount)
    );
    assert!(ctx.position.is_none());
    assert!(same_array(&ctx.lower_tick_array, &before.lower_tick_array));
}

#[test]
fn open_position_refuses_an_invalid_range() {
    let mut ctx = opening(pool_at(Q96, 10));
    assert_eq!(
        open_position(&mut ctx, -10, 10, 0, -640, 1000),
        Err(ClmmError::InvalidTickRange)
    );
    assert_eq!(
        open_position(&mut ctx, 10, 10, 0, 0, 1000),
        Err(ClmmError::InvalidTickRange)
    );
    assert_eq!(
        open_position(&mut ctx, 10, -5, -640, 0, 1000),
        Err(ClmmError::InvalidTickRange)
    );
    assert_eq!(
        open_position(&mut ctx, 15, -10, -640, 0, 1000),
        Err(ClmmError::InvalidTickRange)
    );
    assert!(ctx.position.is_none());
    assert_eq!(ctx.pool.global_liquidity, 0);
}

#[test]
fn open_position_refuses_ticks_beyond_the_valid_range() {
    let before = opening(pool_at(Q96, 10));
    let mut ctx = before;
    assert_eq!(
        open_position(&mut ctx, 443640, 0, 0, 443520, 1000),
        Err(ClmmError::TickUpperOverflow)
    );
    assert!(ctx.position.is_none());
    assert!(same_array(&ctx.lower_tick_array, &before.lower_tick_array));
    assert!(same_array(&ctx.upper_tick_array, &before.upper_tick_array));
    assert!(same_pool(&ctx.pool, &before.pool));
}

#[test]
fn open_position_refuses_a_tick_without_a_slot() {
    let before = opening(pool_at(Q96, 10));
    let mut ctx = before;
    assert_eq!(
        open_position(&mut ctx, 10, -10, 0, 0, 1000),
        Err(ClmmError::ArithmeticOverflow)
    );
    assert!(ctx.position.is_none());
    assert!(same_array(&ctx.upper_tick_array, &before.upper_tick_array));
}

#[test]
fn open_position_refuses_liquidity_beyond_a_signed_delta() {
    let mut ctx = opening(pool_at(Q96, 10));
    assert_eq!(
        open_position(&mut ctx, 10, -10, -640, 0, 1u128 << 127),
        Err(ClmmError::ArithmeticOverflow)
    );
    assert_eq!(
        open_position(&mut ctx, 10, -10, -640, 0, u128::MAX),
        Err(ClmmError::ArithmeticOverflow)
    );
    assert!(ctx.position.is_none());
}

#[test]
fn increase_liquidity_adds_to_ticks_position_and_pool() {
    let mut ctx = changing(&opened(1_000_000));
    assert_eq!(
        increase_liquidity(&mut ctx, 500_000, 10, -10, -640, 0),
        Ok((249, 249))
    );
    assert_eq!(ctx.position.liquidity, 1_500_000);
    assert_eq!(ctx.pool.global_liquidity, 1_500_000);
    assert_eq!(
        ctx.lower_tick_array.ticks[63],
        TickState { initialized: true, gross_liquidity: 1_500_000, net_liquidity: 1_500_000 }
    );
    assert_eq!(
        ctx.upper_tick_array.ticks[1],
        TickState { initialized: true, gross_liquidity: 1_500_000, net_liquidity: -1_500_000 }
    );
}

#[test]
fn increase_liquidity_checks_the_request_in_order() {
    let before = changing(&opened(1_000_000));
    let mut ctx = before;
    ctx.pool_key = address(6);
    ctx.signer = address(7);
    assert_eq!(
        increase_liquidity(&mut ctx, 0, 20, -20, -640, 0),
        Err(ClmmError::InvalidPositionRange)
    );
    ctx.pool_key = before.pool_key;
    assert_eq!(
        increase_liquidity(&mut ctx, 0, 20, -20, -640, 0),
        Err(ClmmError::InvalidPositionOwner)
    );
    ctx.signer = before.signer;
    assert_eq!(
        increase_liquidity(&mut ctx, 0, 20, -20, -640, 0),
        Err(ClmmError::ZeroAmount)
    );
    assert_eq!(
        increase_liquidity(&mut ctx, 5, 20, -10, -640, 0),
        Err(ClmmError::InvalidTicks)
    );
    assert_eq!(
        increase_liquidity(&mut ctx, 5, 10, -20, -640, 0),
        Err(ClmmError::InvalidTicks)
    );
    assert_eq!(ctx.position.liquidity, 1_000_000);
    assert_eq!(ctx.pool.global_liquidity, 1_000_000);
}

#[test]
fn increase_liquidity_refuses_a_stored_range_off_the_spacing() {
    let mut ctx = changing(&opened(1_000_000));
    ctx.position.lower_tick = -15;
    assert_eq!(
        increase_liquidity(&mut ctx, 5, 10, -15, -640, 0),
        Err(ClmmError::InvalidTickRange)
    );
}

#[test]
fn increase_liquidity_refuses_an_overflow_of_the_position() {
    let mut ctx = changing(&opened(1_000_000));
    ctx.position.liquidity = u128::MAX - 1;
    assert_eq!(
        increase_liquidity(&mut ctx, 2, 10, -10, -640, 0),
        Err(ClmmError::ArithmeticOverflow)
    );
    assert_eq!(ctx.position.liquidity, u128::MAX - 1);
    assert_eq!(ctx.pool.global_liquidity, 1_000_000);
    assert_eq!(ctx.lower_tick_array.ticks[63].gross_liquidity, 1_000_000);
}

#[test]
fn decrease_liquidity_subtracts_from_position_and_pool() {
    let mut ctx = changing(&opened(1_000_000));
    assert_eq!(
        decrease_liquidity(&mut ctx, 400_000, 10, -10, -640, 0),
        Ok((199, 199))
    );
    assert_eq!(ctx.position.liquidity, 600_000);
    assert_eq!(ctx.pool.global_liquidity, 600_000);
    assert_eq!(
        ctx.lower_tick_array.ticks[63],
        TickState { initialized: true, gross_liquidity: 1_400_000, net_liquidity: 600_000 }
    );
    assert_eq!(
        ctx.upper_tick_array.ticks[1],
        TickState { initialized: true, gross_liquidity: 1_400_000, net_liquidity: -600_000 }
    );
    assert_eq!(
        decrease_liquidity(&mut ctx, 600_000, 10, -10, -640, 0),
        Ok((299, 299))
    );
    assert_eq!(ctx.position.liquidity, 0);
    assert_eq!(ctx.pool.global_liquidity, 0);
}

#[test]
fn decrease_liquidity_refuses_more_than_the_position_holds() {
    let before = changing(&opened(1_000_000));
    let mut ctx = before;
    assert_eq!(
        decrease_liquidity(&mut ctx, 1_000_001, 10, -10, -640, 0),
        Err(ClmmError::InvalidAmount)
    );
    assert_eq!(ctx.position.liquidity, 1_000_000);
    assert_eq!(ctx.pool.global_liquidity, 1_000_000);
    assert!(same_array(&ctx.lower_tick_array, &before.lower_tick_array));
}

#[test]
fn decrease_liquidity_checks_the_request_in_order() {
    let before = changing(&opened(1_000_000));
    let mut ctx = before;
    ctx.pool_key = address(6);
    assert_eq!(
        decrease_liquidity(&mut ctx, 0, 10, -10, -640, 0),
        Err(ClmmError::InvalidPositionRange)
    );
    ctx.pool_key = before.pool_key;
    ctx.signer = address(7);
    assert_eq!(
        decrease_liquidity(&mut ctx, 0, 10, -10, -640, 0),
        Err(ClmmError::InvalidPositionOwner)
    );
    ctx.signer = before.signer;
    assert_eq!(
        decrease_liquidity(&mut ctx, 0, 10, -10, -640, 0),
        Err(ClmmError::ZeroAmount)
    );
    assert_eq!(
        decrease_liquidity(&mut ctx, 2_000_000, 10, 0, -640, 0),
        Err(ClmmError::InvalidTicks)
    );
}

#[test]
fn close_position_pays_back_what_the_opening_took() {
    let after_open = opened(1_000_000);
    let mut ctx = closing(&after_open);
    assert!(check_may_close(&ctx));
    assert_eq!(close_position(&mut ctx, 10, -10), Ok((499, 499)));
    assert!(ctx.position.is_none());
    assert_eq!(ctx.pool.global_liquidity, 0);
    assert!(same_pool(&ctx.pool, &pool_at(Q96, 10)));
    assert_eq!(
        ctx.lower_tick_array.ticks[63],
        TickState { initialized: true, gross_liquidity: 2_000_000, net_liquidity: 0 }
    );
    assert_eq!(
        ctx.upper_tick_array.ticks[1],
        TickState { initialized: true, gross_liquidity: 2_000_000, net_liquidity: 0 }
    );
}

#[test]
fn open_then_close_conserves_for_many_ranges_and_prices() {
    let prices = [
        Q96,
        tick_to_sqrt_price_x96(-35).unwrap(),
        tick_to_sqrt_price_x96(35).unwrap() + 12345,
        tick_to_sqrt_price_x96(20).unwrap(),
        tick_to_sqrt_price_x96(-20).unwrap(),
    ];
    let ranges = [(-10, 10), (-30, -20), (20, 40), (-20, 20), (0, 630)];
    let liquidities = [1u128, 999, 1_000_000, 123_456_789_012];
    for sqrt_price in prices {
        for (lower, upper) in ranges {
            for liquidity in liquidities {
                let mut open = opening(pool_at(sqrt_price, 10));
                let lower_start = TickArrayState::get_start_tick_idx(lower, 10);
                let upper_start = TickArrayState::get_start_tick_idx(upper, 10);
                let before = open.pool;
                let paid =
                    open_position(&mut open, upper, lower, lower_start, upper_start, liquidity)
                        .unwrap();
                let mut close = closing(&open);
                let returned = close_position(&mut close, upper, lower).unwrap();
                assert_eq!(paid, returned);
                assert!(same_pool(&close.pool, &before));
                assert!(close.position.is_none());
            }
        }
    }
}

#[test]
fn close_position_refuses_bounds_that_are_not_the_stored_bounds() {
    let after_open = opened(1_000_000);
    let mut ctx = closing(&after_open);
    assert_eq!(close_position(&mut ctx, 20, -10), Err(ClmmError::ZeroAmount));
    assert_eq!(close_position(&mut ctx, 10, -20), Err(ClmmError::ZeroAmount));
    assert!(ctx.position.is_some());
    assert_eq!(ctx.pool.global_liquidity, 1_000_000);
}

#[test]
fn close_position_is_for_the_owner_of_an_existing_position() {
    let after_open = opened(1_000_000);
    let mut ctx = closing(&after_open);
    assert!(check_may_close(&ctx));
    ctx.signer = address(7);
    assert!(!check_may_close(&ctx));
    ctx.signer = after_open.signer;
    ctx.pool_key = address(6);
    assert!(!check_may_close(&ctx));
    ctx.pool_key = after_open.pool_key;
    ctx.position = None;
    assert!(!check_may_close(&ctx));
}

#[test]
fn close_position_refuses_a_gross_overflow() {
    let after_open = opened(1_000_000);
    let mut ctx = closing(&after_open);
    ctx.lower_tick_array.ticks[63].gross_liquidity = u128::MAX;
    assert_eq!(
        close_position(&mut ctx, 10, -10),
        Err(ClmmError::ArithmeticOverflow)
    );
    assert!(ctx.position.is_some());
    assert_eq!(ctx.upper_tick_array.ticks[1].gross_liquidity, 1_000_000);
}

fn swapping(from: &OpenPosition) -> Swap {
    Swap {
        signer: address(8),
        pool_key: from.pool_key,
        pool: from.pool,
        tick_array: from.upper_tick_array,
    }
}

#[test]
fn swap_target_is_the_next_boundary_in_the_direction() {
    assert_eq!(target_tick_of(57, 10, true), Some(50));
    assert_eq!(target_tick_of(57, 10, false), Some(60));
    assert_eq!(target_tick_of(50, 10, true), Some(40));
    assert_eq!(target_tick_of(50, 10, false), Some(60));
    assert_eq!(target_tick_of(0, 10, true), Some(-10));
    assert_eq!(target_tick_of(0, 10, false), Some(10));
    assert_eq!(target_tick_of(-57, 10, true), Some(-60));
    assert_eq!(target_tick_of(-57, 10, false), Some(-50));
    assert_eq!(target_tick_of(-50, 10, true), Some(-60));
    assert_eq!(target_tick_of(-50, 10, false), Some(-40));
    assert_eq!(target_tick_of(443630, 10, false), None);
    assert_eq!(target_tick_of(-443630, 10, true), None);
    assert_eq!(target_tick_of(5, i32::MAX, false), None);
}

#[test]
fn swap_a_to_b_moves_the_price_down_to_the_boundary() {
    let mut ctx = swapping(&opened(1_000_000));
    let before = ctx.pool;
    assert_eq!(
        swap(&mut ctx, 1000, true, 0),
        Ok(SwapOutcome { amount_in: 500, amount_out: 499, new_tick: -10 })
    );
    assert_eq!(ctx.pool.sqrt_price_x96, tick_to_sqrt_price_x96(-10).unwrap());
    assert_eq!(ctx.pool.current_tick, -10);
    assert_eq!(ctx.pool.global_liquidity, before.global_liquidity);
    assert!(ctx.pool.is_well_formed());
}

#[test]
fn swap_a_to_b_stops_short_of_the_boundary() {
    let mut ctx = swapping(&opened(1_000_000));
    assert_eq!(
        swap(&mut ctx, 100, true, 99),
        Ok(SwapOutcome { amount_in: 100, amount_out: 99, new_tick: -2 })
    );
    assert_eq!(ctx.pool.sqrt_price_x96, 79220240490215316061937756560);
    assert_eq!(ctx.pool.current_tick, -2);
}

#[test]
fn swap_b_to_a_moves_the_price_up() {
    let mut ctx = swapping(&opened(1_000_000_000));
    assert_eq!(
        swap(&mut ctx, 1000, false, 0),
        Ok(SwapOutcome { amount_in: 1000, amount_out: 1000, new_tick: 0 })
    );
    assert_eq!(ctx.pool.sqrt_price_x96, 79228241742426851857881543879);
    let mut full = swapping(&opened(1_000_000_000));
    assert_eq!(
        swap(&mut full, 1_000_000_000, false, 0),
        Ok(SwapOutcome { amount_in: 500100, amount_out: 499851, new_tick: 10 })
    );
    assert_eq!(full.pool.sqrt_price_x96, tick_to_sqrt_price_x96(10).unwrap());
}

#[test]
fn swap_refuses_the_wrong_tick_array() {
    let after_open = opened(1_000_000);
    let mut ctx = swapping(&after_open);
    ctx.tick_array = after_open.lower_tick_array;
    assert_eq!(
        swap(&mut ctx, 0, true, 0),
        Err(ClmmError::InvalidTickArrayAccount)
    );
    let mut other_pool = swapping(&after_open);
    other_pool.pool_key = address(6);
    assert_eq!(
        swap(&mut other_pool, 1000, true, 0),
        Err(ClmmError::InvalidTickArrayAccount)
    );
}

#[test]
fn swap_refuses_a_zero_input() {
    let mut ctx = swapping(&opened(1_000_000));
    assert_eq!(swap(&mut ctx, 0, true, 0), Err(ClmmError::ZeroAmount));
}

#[test]
fn swap_refuses_a_pool_without_active_liquidity() {
    let mut open = opening(pool_at(Q96, 10));
    open_position(&mut open, 30, 10, 0, 0, 1_000_000).unwrap();
    let mut ctx = swapping(&open);
    assert_eq!(
        swap(&mut ctx, 1000, true, 0),
        Err(ClmmError::InsufficientLiquidity)
    );
}

#[test]
fn swap_refuses_an_output_below_the_minimum() {
    let before = swapping(&opened(1_000_000));
    let mut ctx = before;
    assert_eq!(
        swap(&mut ctx, 1000, true, 500),
        Err(ClmmError::SlippageExceeded)
    );
    assert!(same_pool(&ctx.pool, &before.pool));
    assert_eq!(
        swap(&mut ctx, 1000, true, 499),
        Ok(SwapOutcome { amount_in: 500, amount_out: 499, new_tick: -10 })
    );
}

#[test]
fn swap_refuses_liquidity_too_large_to_scale() {
    let mut ctx = swapping(&opened(1u128 << 32));
    assert_eq!(
        swap(&mut ctx, 1000, true, 0),
        Err(ClmmError::ArithmeticOverflow)
    );
}

#[test]
fn swap_refuses_a_target_beyond_the_valid_ticks() {
    let top = tick_to_sqrt_price_x96(443635).unwrap();
    let mut open = opening(pool_at(top, 10));
    open_position(&mut open, 443630, 443620, 443520, 443520, 1000).unwrap();
    let mut ctx = Swap {
        signer: address(8),
        pool_key: open.pool_key,
        pool: Pool { global_liquidity: 1000, ..open.pool },
        tick_array: open.upper_tick_array,
    };
    assert_eq!(
        swap(&mut ctx, 1000, false, 0),
        Err(ClmmError::TickUpperOverflow)
    );
}

#[test]
fn position_records_hold_what_was_opened() {
    let ctx = opened(77);
    let position: Position = ctx.position.unwrap();
    assert_eq!(position.liquidity, 77);
    assert_eq!((position.lower_tick, position.upper_tick), (-10, 10));
}

#[test]
fn end_to_end_open_swap_close() {
    let pool = pool_at(Q96, 10);
    assert_eq!(pool.global_liquidity, 0);
    let mut vault_0: i128 = 0;
    let mut vault_1: i128 = 0;

    let mut open = opening(pool);
    let lower_start = TickArrayState::get_start_tick_idx(-10, 10);
    let upper_start = TickArrayState::get_start_tick_idx(10, 10);
    let (paid_0, paid_1) =
        open_position(&mut open, 10, -10, lower_start, upper_start, 1_000_000).unwrap();
    vault_0 += paid_0 as i128;
    vault_1 += paid_1 as i128;
    assert_eq!(open.pool.global_liquidity, 1_000_000);

    let mut swapped = swapping(&open);
    let outcome = swap(&mut swapped, 1000, true, 0).unwrap();
    vault_0 += outcome.amount_in as i128;
    vault_1 -= outcome.amount_out as i128;
    assert!(swapped.pool.sqrt_price_x96 < Q96);
    assert!(-10 <= swapped.pool.current_tick && swapped.pool.current_tick <= 0);
    assert_eq!(outcome.new_tick, swapped.pool.current_tick);

    let mut close = ClosePosition {
        signer: open.signer,
        pool_key: open.pool_key,
        pool: swapped.pool,
        lower_tick_array: open.lower_tick_array,
        upper_tick_array: open.upper_tick_array,
        position: open.position,
    };
    let (returned_0, returned_1) = close_position(&mut close, 10, -10).unwrap();
    vault_0 -= returned_0 as i128;
    vault_1 -= returned_1 as i128;
    assert!(close.position.is_none());
    assert_eq!(close.pool.global_liquidity, 0);
    assert!(vault_0.abs() <= 1);
    assert!(vault_1.abs() <= 1);
    assert!(vault_0 >= 0);
    assert!(vault_1 >= 0);
}

#[test]
fn liquidity_transfers_skip_zero_amounts() {
    assert_eq!(
        liquidity_transfers(499, 0, true),
        (
            Some(TokenTransfer {
                token: TokenSide::Token0,
                direction: TransferDirection::UserToVault,
                amount: 499,
            }),
            None,
        )
    );
    assert_eq!(
        liquidity_transfers(0, 7, false),
        (
            None,
            Some(TokenTransfer {
                token: TokenSide::Token1,
                direction: TransferDirection::VaultToUser,
                amount: 7,
            }),
        )
    );
    assert_eq!(liquidity_transfers(0, 0, true), (None, None));
    assert_eq!(
        liquidity_transfers(3, 4, false),
        (
            Some(TokenTransfer {
                token: TokenSide::Token0,
                direction: TransferDirection::VaultToUser,
                amount: 3,
            }),
            Some(TokenTransfer {
                token: TokenSide::Token1,
                direction: TransferDirection::VaultToUser,
                amount: 4,
            }),
        )
    );
}

#[test]
fn swap_transfers_take_the_token_sold_and_pay_the_token_bought() {
    let outcome = SwapOutcome { amount_in: 500, amount_out: 499, new_tick: -10 };
    assert_eq!(
        swap_transfers(&outcome, true),
        (
            Some(TokenTransfer {
                token: TokenSide::Token0,
                direction: TransferDirection::UserToVault,
                amount: 500,
            }),
            Some(TokenTransfer {
                token: TokenSide::Token1,
                direction: TransferDirection::VaultToUser,
                amount: 499,
            }),
        )
    );
    assert_eq!(
        swap_transfers(&outcome, false),
        (
            Some(TokenTransfer {
                token: TokenSide::Token1,
                direction: TransferDirection::UserToVault,
                amount: 500,
            }),
            Some(TokenTransfer {
                token: TokenSide::Token0,
                direction: TransferDirection::VaultToUser,
                amount: 499,
            }),
        )
    );
    let nothing = SwapOutcome { amount_in: 1, amount_out: 0, new_tick: 0 };
    assert_eq!(swap_transfers(&nothing, true).1, None);
}
