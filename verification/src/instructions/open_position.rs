//! Opening a position.
use crate::errors::ClmmError;
use crate::instructions::shared_functions::{
    amounts_of_change, apply_liquidity_change, claim_array, claimed_array, is_active_range,
    liquidity_change_error, pool_after_change,
};
use crate::states::address::Address;
use crate::states::pool::Pool;
use crate::states::position::{is_tick_range, Position};
use crate::states::ticks::TickArrayState;
use vstd::prelude::*;

verus! {

/// What the opening of a position reads and writes.
#[derive(Clone, Copy, Debug)]
pub struct OpenPosition {
    /// Who opens the position, and will own it.
    pub signer: Address,
    /// The address of the pool.
    pub pool_key: Address,
    /// The pool.
    pub pool: Pool,
    /// The tick array that holds the lower tick.
    pub lower_tick_array: TickArrayState,
    /// The tick array that holds the upper tick.
    pub upper_tick_array: TickArrayState,
    /// The record of the position: none before, the new position after.
    pub position: Option<Position>,
    /// The byte from which the host derived the address of the position.
    pub position_bump: u8,
}

/// Whether a tick is a multiple of a positive spacing.
pub fn is_multiple_of_spacing(tick: i32, tick_spacing: i32) -> (multiple: bool)
    requires
        tick_spacing > 0,
    ensures
        multiple == (tick as int % tick_spacing as int == 0),
{
    match tick.checked_rem_euclid(tick_spacing) {
        Some(remainder) => remainder == 0,
        None => false,
    }
}

/// Whether two ticks can bound a position of a pool with the given spacing.
pub fn check_tick_range(lower_tick: i32, upper_tick: i32, tick_spacing: i32) -> (valid: bool)
    requires
        tick_spacing > 0,
    ensures
        valid == is_tick_range(lower_tick as int, upper_tick as int, tick_spacing as int),
{
    lower_tick < upper_tick && is_multiple_of_spacing(lower_tick, tick_spacing)
        && is_multiple_of_spacing(upper_tick, tick_spacing)
}

/// The error that refuses the opening of a position, if any: the amount is
/// checked first, then the range, then the change of liquidity.
pub open spec fn open_position_error(
    ctx: OpenPosition,
    upper_tick: i32,
    lower_tick: i32,
    tick_array_lower_start_index: i32,
    tick_array_upper_start_index: i32,
    liquidity_amount: u128,
) -> Option<ClmmError> {
    if liquidity_amount == 0 {
        Some(ClmmError::ZeroAmount)
    } else if !is_tick_range(lower_tick as int, upper_tick as int, ctx.pool.tick_spacing as int) {
        Some(ClmmError::InvalidTickRange)
    } else {
        liquidity_change_error(
            ctx.pool,
            claimed_array(ctx.lower_tick_array, ctx.pool_key, tick_array_lower_start_index),
            claimed_array(ctx.upper_tick_array, ctx.pool_key, tick_array_upper_start_index),
            lower_tick as int,
            upper_tick as int,
            liquidity_amount as int,
            true,
        )
    }
}

/// What the opening of a position makes of its records, and what it
/// returns: both tick arrays claimed and updated with the liquidity, the
/// position created for the signer, the pool's active liquidity raised if
/// its price lies in the range, and the amounts that the liquidity stands
/// for at the pool's price.
pub open spec fn is_opened(
    before: OpenPosition,
    after: OpenPosition,
    upper_tick: i32,
    lower_tick: i32,
    tick_array_lower_start_index: i32,
    tick_array_upper_start_index: i32,
    liquidity_amount: u128,
    amount_0: u64,
    amount_1: u64,
) -> bool {
    &&& after.lower_tick_array.is_update_of(
        claimed_array(before.lower_tick_array, before.pool_key, tick_array_lower_start_index),
        lower_tick as int,
        before.pool.tick_spacing as int,
        liquidity_amount as int,
        true,
    )
    &&& after.upper_tick_array.is_update_of(
        claimed_array(before.upper_tick_array, before.pool_key, tick_array_upper_start_index),
        upper_tick as int,
        before.pool.tick_spacing as int,
        liquidity_amount as int,
        false,
    )
    &&& after.position == Some(
        Position {
            liquidity: liquidity_amount,
            lower_tick,
            upper_tick,
            owner: before.signer,
            pool: before.pool_key,
            bump: before.position_bump,
        },
    )
    &&& after.pool == pool_after_change(
        before.pool,
        lower_tick as int,
        upper_tick as int,
        liquidity_amount as int,
        true,
    )
    &&& (amount_0 as int, amount_1 as int) == amounts_of_change(
        before.pool,
        lower_tick as int,
        upper_tick as int,
        liquidity_amount as int,
    )
    &&& after.signer == before.signer
    &&& after.pool_key == before.pool_key
    &&& after.position_bump == before.position_bump
}

/// Opens a position of `liquidity_amount` over `[lower_tick, upper_tick]`:
/// claims the two tick arrays if they are blank, adds the liquidity at both
/// ticks, creates the position for the signer, adds the liquidity to the
/// pool's active liquidity if and only if the pool's price lies in the
/// range, and returns the amounts of token 0 and token 1 that the signer
/// owes the vaults.
///
/// Fails, leaving everything as it was, with the error that
/// [`open_position_error`] names.
pub fn open_position(
    ctx: &mut OpenPosition,
    upper_tick: i32,
    lower_tick: i32,
    tick_array_lower_start_index: i32,
    tick_array_upper_start_index: i32,
    liquidity_amount: u128,
) -> (result: Result<(u64, u64), ClmmError>)
    requires
        old(ctx).pool.wf(),
    ensures
        match result {
            Ok((amount_0, amount_1)) => {
                &&& open_position_error(
                    *old(ctx),
                    upper_tick,
                    lower_tick,
                    tick_array_lower_start_index,
                    tick_array_upper_start_index,
                    liquidity_amount,
                ) is None
                &&& is_opened(
                    *old(ctx),
                    *final(ctx),
                    upper_tick,
                    lower_tick,
                    tick_array_lower_start_index,
                    tick_array_upper_start_index,
                    liquidity_amount,
                    amount_0,
                    amount_1,
                )
                &&& final(ctx).pool.wf()
                &&& final(ctx).position->0.wf(old(ctx).pool.tick_spacing as int)
                &&& final(ctx).pool.global_liquidity == old(ctx).pool.global_liquidity
                    + liquidity_amount <==> is_active_range(
                    old(ctx).pool.sqrt_price_x96 as int,
                    lower_tick as int,
                    upper_tick as int,
                )
            },
            Err(e) => {
                &&& open_position_error(
                    *old(ctx),
                    upper_tick,
                    lower_tick,
                    tick_array_lower_start_index,
                    tick_array_upper_start_index,
                    liquidity_amount,
                ) == Some(e)
                &&& *final(ctx) == *old(ctx)
            },
        },
{
    if liquidity_amount == 0 {
        return Err(ClmmError::ZeroAmount);
    }
    if !check_tick_range(lower_tick, upper_tick, ctx.pool.tick_spacing) {
        return Err(ClmmError::InvalidTickRange);
    }
    let mut pool: Pool = ctx.pool;
    let mut lower_tick_array: TickArrayState = ctx.lower_tick_array;
    let mut upper_tick_array: TickArrayState = ctx.upper_tick_array;
    claim_array(&mut lower_tick_array, ctx.pool_key, tick_array_lower_start_index);
    claim_array(&mut upper_tick_array, ctx.pool_key, tick_array_upper_start_index);
    let amounts: (u64, u64) = apply_liquidity_change(
        &mut pool,
        &mut lower_tick_array,
        &mut upper_tick_array,
        lower_tick,
        upper_tick,
        liquidity_amount,
        true,
    )?;
    ctx.lower_tick_array = lower_tick_array;
    ctx.upper_tick_array = upper_tick_array;
    ctx.position = Some(
        Position {
            liquidity: liquidity_amount,
            lower_tick,
            upper_tick,
            owner: ctx.signer,
            pool: ctx.pool_key,
            bump: ctx.position_bump,
        },
    );
    ctx.pool = pool;
    Ok(amounts)
}

} // verus!
