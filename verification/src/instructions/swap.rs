//! Swapping one token for the other.
use crate::errors::ClmmError;
use crate::states::address::Address;
use crate::states::pool::Pool;
use crate::states::ticks::{start_tick_index, TickArrayState};
use crate::utils::ladder::sqrt_price_at_tick;
use crate::utils::math::{
    compute_swap_step, is_valid_sqrt_price, is_valid_tick, sqrt_price_x96_to_tick,
    swap_amount_in, swap_amount_out, swap_next_price, swap_step_defined, tick_at_sqrt_price,
    tick_to_sqrt_price_x96, MAX_TICK, MIN_TICK,
};
use crate::utils::swap_bounds::lemma_swap_next_price_between;
use vstd::prelude::*;

verus! {

/// What a swap reads and writes.
#[derive(Clone, Copy, Debug)]
pub struct Swap {
    /// Who swaps.
    pub signer: Address,
    /// The address of the pool.
    pub pool_key: Address,
    /// The pool.
    pub pool: Pool,
    /// The tick array that holds the pool's current tick.
    pub tick_array: TickArrayState,
}

/// What a swap settles: the input that the signer owes the vault of the
/// token sold, the output that the vault of the token bought owes the
/// signer, and the pool's tick after the swap.
#[derive(Clone, Copy, Debug, PartialEq, Eq, Structural)]
pub struct SwapOutcome {
    /// The amount of the token sold that the swap consumed.
    pub amount_in: u64,
    /// The amount of the token bought that the swap paid.
    pub amount_out: u64,
    /// The pool's tick after the swap.
    pub new_tick: i32,
}

/// The tick boundary that a swap heads for: selling token 0, the multiple
/// of the spacing at or below the current tick, or one spacing lower if the
/// current tick is such a multiple; selling token 1, the next multiple
/// above the current tick.
pub open spec fn swap_target_tick(current_tick: int, tick_spacing: int, a_to_b: bool) -> int {
    let boundary = (current_tick / tick_spacing) * tick_spacing;
    if a_to_b {
        if boundary == current_tick {
            boundary - tick_spacing
        } else {
            boundary
        }
    } else {
        boundary + tick_spacing
    }
}

/// The boundary that a swap heads for lies on a multiple of the spacing,
/// strictly beyond the current tick in the direction of the swap and at
/// most one spacing away.
pub proof fn lemma_swap_target_tick_is_next_boundary(
    current_tick: int,
    tick_spacing: int,
    a_to_b: bool,
)
    requires
        tick_spacing > 0,
    ensures
        swap_target_tick(current_tick, tick_spacing, a_to_b) % tick_spacing == 0,
        a_to_b ==> current_tick - tick_spacing <= swap_target_tick(
            current_tick,
            tick_spacing,
            a_to_b,
        ) < current_tick,
        !a_to_b ==> current_tick < swap_target_tick(current_tick, tick_spacing, a_to_b)
            <= current_tick + tick_spacing,
{
    let q = current_tick / tick_spacing;
    crate::utils::arith::lemma_div_bounds(current_tick, tick_spacing);
    vstd::arithmetic::div_mod::lemma_mod_multiples_basic(q, tick_spacing);
    vstd::arithmetic::div_mod::lemma_mod_multiples_basic(q - 1, tick_spacing);
    vstd::arithmetic::div_mod::lemma_mod_multiples_basic(q + 1, tick_spacing);
    assert((q - 1) * tick_spacing == q * tick_spacing - tick_spacing) by (nonlinear_arith);
    assert((q + 1) * tick_spacing == q * tick_spacing + tick_spacing) by (nonlinear_arith);
}

/// Whether a tick array is the one that holds the current tick of a pool.
pub open spec fn holds_current_tick(tick_array: TickArrayState, pool: Pool, pool_key: Address) -> bool {
    &&& tick_array.pool@ == pool_key@
    &&& tick_array.starting_tick == start_tick_index(
        pool.current_tick as int,
        pool.tick_spacing as int,
    )
}

/// The error that refuses a swap, if any. The tick array is checked first,
/// then the input, then the active liquidity, then the target tick, then
/// the swap step, then the new price, then the width of the output, then
/// the output against the minimum.
pub open spec fn swap_error(ctx: Swap, amount_in: u64, a_to_b: bool, min_amount_out: u64) -> Option<
    ClmmError,
> {
    let pool = ctx.pool;
    let target_tick = swap_target_tick(pool.current_tick as int, pool.tick_spacing as int, a_to_b);
    let current = pool.sqrt_price_x96 as int;
    let target = sqrt_price_at_tick(target_tick);
    let l = pool.global_liquidity as int;
    if !holds_current_tick(ctx.tick_array, pool, ctx.pool_key) {
        Some(ClmmError::InvalidTickArrayAccount)
    } else if amount_in == 0 {
        Some(ClmmError::ZeroAmount)
    } else if pool.global_liquidity == 0 {
        Some(ClmmError::InsufficientLiquidity)
    } else if !is_valid_tick(target_tick) {
        Some(ClmmError::TickUpperOverflow)
    } else if !swap_step_defined(current, target, l, amount_in as int, a_to_b) {
        Some(ClmmError::ArithmeticOverflow)
    } else if !is_valid_sqrt_price(swap_next_price(current, target, l, amount_in as int, a_to_b)) {
        Some(ClmmError::SqrtPriceX96)
    } else if swap_amount_out(current, target, l, amount_in as int, a_to_b) > u64::MAX {
        Some(ClmmError::ArithmeticOverflow)
    } else if swap_amount_out(current, target, l, amount_in as int, a_to_b) < min_amount_out {
        Some(ClmmError::SlippageExceeded)
    } else {
        None
    }
}

/// The tick boundary that a swap heads for, or nothing when it is no valid
/// tick.
pub fn target_tick_of(current_tick: i32, tick_spacing: i32, a_to_b: bool) -> (target: Option<i32>)
    requires
        tick_spacing > 0,
    ensures
        match target {
            Some(target) => {
                &&& target == swap_target_tick(current_tick as int, tick_spacing as int, a_to_b)
                &&& is_valid_tick(target as int)
            },
            None => !is_valid_tick(
                swap_target_tick(current_tick as int, tick_spacing as int, a_to_b),
            ),
        },
{
    proof {
        crate::utils::arith::lemma_div_bounds(current_tick as int, tick_spacing as int);
        let q = current_tick as int / tick_spacing as int;
        assert(i32::MIN <= q <= i32::MAX) by (nonlinear_arith)
            requires
                q * tick_spacing <= current_tick < q * tick_spacing + tick_spacing,
                tick_spacing >= 1,
                i32::MIN <= current_tick <= i32::MAX,
        ;
    }
    let slot: i32 = match current_tick.checked_div_euclid(tick_spacing) {
        Some(slot) => slot,
        None => {
            return None;
        },
    };
    proof {
        assert(-0x4000_0000_0000_0000 <= slot * tick_spacing <= 0x4000_0000_0000_0000)
            by (nonlinear_arith)
            requires
                -0x8000_0000 <= slot <= 0x8000_0000,
                0 < tick_spacing <= 0x8000_0000,
        ;
    }
    let boundary: i64 = (slot as i64) * (tick_spacing as i64);
    let target: i64 = if a_to_b {
        if boundary == current_tick as i64 {
            boundary - tick_spacing as i64
        } else {
            boundary
        }
    } else {
        boundary + tick_spacing as i64
    };
    if target < MIN_TICK as i64 || target > MAX_TICK as i64 {
        None
    } else {
        Some(target as i32)
    }
}

/// Whether a tick array is the one that holds the current tick of a pool.
pub fn check_holds_current_tick(tick_array: &TickArrayState, pool: &Pool, pool_key: &Address) -> (holds:
    bool)
    requires
        pool.tick_spacing > 0,
    ensures
        holds == holds_current_tick(*tick_array, *pool, *pool_key),
{
    if !(tick_array.pool == *pool_key) {
        return false;
    }
    match TickArrayState::checked_start_tick_idx(pool.current_tick, pool.tick_spacing) {
        Some(start) => tick_array.starting_tick == start,
        None => false,
    }
}

/// Swaps up to `amount_in` of one token for the other, token 0 for token 1
/// if `a_to_b`: moves the pool's price toward the next tick boundary in the
/// direction of the swap, no further, against the pool's active liquidity,
/// sets the pool's tick to the tick of the new price, and returns what the
/// swap consumed and paid.
///
/// Fails, leaving everything as it was, with the error that [`swap_error`]
/// names.
pub fn swap(ctx: &mut Swap, amount_in: u64, a_to_b: bool, min_amount_out: u64) -> (result: Result<
    SwapOutcome,
    ClmmError,
>)
    requires
        old(ctx).pool.wf(),
    ensures
        match result {
            Ok(outcome) => {
                let pool = old(ctx).pool;
                let current = pool.sqrt_price_x96 as int;
                let target = sqrt_price_at_tick(
                    swap_target_tick(pool.current_tick as int, pool.tick_spacing as int, a_to_b),
                );
                let l = pool.global_liquidity as int;
                let next = swap_next_price(current, target, l, amount_in as int, a_to_b);
                &&& swap_error(*old(ctx), amount_in, a_to_b, min_amount_out) is None
                &&& final(ctx).pool == (Pool {
                    sqrt_price_x96: next as u128,
                    current_tick: tick_at_sqrt_price(next) as i32,
                    ..pool
                })
                &&& final(ctx).pool.wf()
                &&& outcome.amount_in == swap_amount_in(current, target, l, amount_in as int, a_to_b)
                &&& outcome.amount_out == swap_amount_out(
                    current,
                    target,
                    l,
                    amount_in as int,
                    a_to_b,
                )
                &&& outcome.new_tick == tick_at_sqrt_price(next)
                &&& outcome.amount_in <= amount_in
                &&& outcome.amount_out >= min_amount_out
                &&& a_to_b ==> target <= final(ctx).pool.sqrt_price_x96 <= current
                &&& !a_to_b ==> current <= final(ctx).pool.sqrt_price_x96 <= target
                &&& final(ctx).tick_array == old(ctx).tick_array
                &&& final(ctx).signer == old(ctx).signer
                &&& final(ctx).pool_key == old(ctx).pool_key
            },
            Err(e) => {
                &&& swap_error(*old(ctx), amount_in, a_to_b, min_amount_out) == Some(e)
                &&& *final(ctx) == *old(ctx)
            },
        },
{
    if !check_holds_current_tick(&ctx.tick_array, &ctx.pool, &ctx.pool_key) {
        return Err(ClmmError::InvalidTickArrayAccount);
    }
    if amount_in == 0 {
        return Err(ClmmError::ZeroAmount);
    }
    if ctx.pool.global_liquidity == 0 {
        return Err(ClmmError::InsufficientLiquidity);
    }
    let target_tick: i32 = match target_tick_of(ctx.pool.current_tick, ctx.pool.tick_spacing, a_to_b) {
        Some(target_tick) => target_tick,
        None => {
            return Err(ClmmError::TickUpperOverflow);
        },
    };
    let sqrt_price_target_x96: u128 = tick_to_sqrt_price_x96(target_tick)?;
    let (next_sqrt_price_x96, amount_consumed, amount_produced) = compute_swap_step(
        ctx.pool.sqrt_price_x96,
        sqrt_price_target_x96,
        ctx.pool.global_liquidity,
        amount_in as u128,
        a_to_b,
    )?;
    proof {
        lemma_swap_next_price_between(
            ctx.pool.sqrt_price_x96 as int,
            sqrt_price_target_x96 as int,
            ctx.pool.global_liquidity as int,
            amount_in as int,
            a_to_b,
        );
    }
    let new_tick: i32 = sqrt_price_x96_to_tick(next_sqrt_price_x96)?;
    if amount_produced > u64::MAX as u128 {
        return Err(ClmmError::ArithmeticOverflow);
    }
    let amount_out: u64 = amount_produced as u64;
    assert(amount_consumed <= amount_in);
    let amount_in_consumed: u64 = amount_consumed as u64;
    if amount_out < min_amount_out {
        return Err(ClmmError::SlippageExceeded);
    }
    ctx.pool.sqrt_price_x96 = next_sqrt_price_x96;
    ctx.pool.current_tick = new_tick;
    Ok(SwapOutcome { amount_in: amount_in_consumed, amount_out, new_tick })
}

} // verus!
