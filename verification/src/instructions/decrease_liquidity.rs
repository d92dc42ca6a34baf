//! Withdrawing liquidity from a position.
use crate::errors::ClmmError;
use crate::instructions::increase_liquidity::{
    check_position_request, is_liquidity_changed, position_request_error, IncreaseLiquidity,
};
use crate::instructions::shared_functions::{apply_liquidity_change, liquidity_change_error};
use crate::states::pool::Pool;
use crate::states::ticks::TickArrayState;
use vstd::prelude::*;

verus! {

/// What a decrease of the liquidity of a position reads and writes: the
/// same records as an increase.
pub type DecreaseLiquidity = IncreaseLiquidity;

/// The error that refuses a decrease of liquidity, if any: the request is
/// checked first, then the amount against the position's liquidity, then
/// the change of liquidity.
pub open spec fn decrease_liquidity_error(
    ctx: DecreaseLiquidity,
    liquidity_amount: u128,
    upper_tick: i32,
    lower_tick: i32,
) -> Option<ClmmError> {
    let request = position_request_error(
        ctx.position,
        ctx.pool_key,
        ctx.signer,
        ctx.pool.tick_spacing as int,
        liquidity_amount,
        upper_tick,
        lower_tick,
    );
    if request is Some {
        request
    } else if liquidity_amount > ctx.position.liquidity {
        Some(ClmmError::InvalidAmount)
    } else {
        liquidity_change_error(
            ctx.pool,
            ctx.lower_tick_array,
            ctx.upper_tick_array,
            lower_tick as int,
            upper_tick as int,
            liquidity_amount as int,
            false,
        )
    }
}

/// Withdraws `liquidity_amount` from a position: subtracts it at both
/// ticks and from the position, subtracts it from the pool's active
/// liquidity if and only if the pool's price lies in the range, and returns
/// the amounts of token 0 and token 1 that the vaults owe the signer.
///
/// Fails, leaving everything as it was, with the error that
/// [`decrease_liquidity_error`] names.
pub fn decrease_liquidity(
    ctx: &mut DecreaseLiquidity,
    liquidity_amount: u128,
    upper_tick: i32,
    lower_tick: i32,
    _tick_array_lower_start_index: i32,
    _tick_array_upper_start_index: i32,
) -> (result: Result<(u64, u64), ClmmError>)
    requires
        old(ctx).pool.wf(),
    ensures
        match result {
            Ok((amount_0, amount_1)) => {
                &&& decrease_liquidity_error(*old(ctx), liquidity_amount, upper_tick, lower_tick)
                    is None
                &&& is_liquidity_changed(
                    *old(ctx),
                    *final(ctx),
                    liquidity_amount,
                    upper_tick,
                    lower_tick,
                    false,
                    amount_0,
                    amount_1,
                )
                &&& final(ctx).pool.wf()
            },
            Err(e) => {
                &&& decrease_liquidity_error(*old(ctx), liquidity_amount, upper_tick, lower_tick)
                    == Some(e)
                &&& *final(ctx) == *old(ctx)
            },
        },
{
    check_position_request(
        &ctx.position,
        &ctx.pool_key,
        &ctx.signer,
        ctx.pool.tick_spacing,
        liquidity_amount,
        upper_tick,
        lower_tick,
    )?;
    if liquidity_amount > ctx.position.liquidity {
        return Err(ClmmError::InvalidAmount);
    }
    let mut pool: Pool = ctx.pool;
    let mut lower_tick_array: TickArrayState = ctx.lower_tick_array;
    let mut upper_tick_array: TickArrayState = ctx.upper_tick_array;
    let amounts: (u64, u64) = apply_liquidity_change(
        &mut pool,
        &mut lower_tick_array,
        &mut upper_tick_array,
        lower_tick,
        upper_tick,
        liquidity_amount,
        false,
    )?;
    ctx.lower_tick_array = lower_tick_array;
    ctx.upper_tick_array = upper_tick_array;
    ctx.position.liquidity = ctx.position.liquidity - liquidity_amount;
    ctx.pool = pool;
    Ok(amounts)
}

} // verus!
