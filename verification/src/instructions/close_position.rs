//! Closing a position.
use crate::errors::ClmmError;
use crate::instructions::shared_functions::{
    amounts_of_change, apply_liquidity_change, liquidity_change_error, pool_after_change,
};
use crate::states::address::Address;
use crate::states::pool::Pool;
use crate::states::position::Position;
use crate::states::ticks::TickArrayState;
use vstd::prelude::*;

verus! {

/// What the closing of a position reads and writes.
#[derive(Clone, Copy, Debug)]
pub struct ClosePosition {
    /// Who closes the position.
    pub signer: Address,
    /// The address of the pool.
    pub pool_key: Address,
    /// The pool.
    pub pool: Pool,
    /// The tick array that holds the lower tick.
    pub lower_tick_array: TickArrayState,
    /// The tick array that holds the upper tick.
    pub upper_tick_array: TickArrayState,
    /// The record of the position: the position before, none after.
    pub position: Option<Position>,
}

/// The error that refuses the closing of a position, if any: the bounds
/// are checked against the stored bounds first, then the removal of the
/// position's whole liquidity.
pub open spec fn close_position_error(
    ctx: ClosePosition,
    position: Position,
    upper_tick: i32,
    lower_tick: i32,
) -> Option<ClmmError> {
    if !(upper_tick == position.upper_tick && lower_tick == position.lower_tick) {
        Some(ClmmError::ZeroAmount)
    } else {
        liquidity_change_error(
            ctx.pool,
            ctx.lower_tick_array,
            ctx.upper_tick_array,
            lower_tick as int,
            upper_tick as int,
            position.liquidity as int,
            false,
        )
    }
}

/// Whether a position is there to be closed by the signer: it exists, the
/// signer owns it, and it belongs to the pool.
pub open spec fn may_close(ctx: ClosePosition) -> bool {
    &&& ctx.position matches Some(position)
    &&& position.owner@ == ctx.signer@
    &&& position.pool@ == ctx.pool_key@
}

/// Whether a position is there to be closed by the signer.
pub fn check_may_close(ctx: &ClosePosition) -> (allowed: bool)
    ensures
        allowed == may_close(*ctx),
{
    match ctx.position {
        Some(position) => position.owner == ctx.signer && position.pool == ctx.pool_key,
        None => false,
    }
}

/// What the closing of a position makes of its records, and what it
/// returns: both tick arrays updated with the negated liquidity of the
/// position, the record of the position deleted, the pool's active
/// liquidity lowered if its price lies in the range, and the amounts that
/// the liquidity stands for at the pool's price.
pub open spec fn is_closed(
    before: ClosePosition,
    after: ClosePosition,
    upper_tick: i32,
    lower_tick: i32,
    amount_0: u64,
    amount_1: u64,
) -> bool {
    let position = before.position->0;
    &&& after.lower_tick_array.is_update_of(
        before.lower_tick_array,
        lower_tick as int,
        before.pool.tick_spacing as int,
        -(position.liquidity as int),
        true,
    )
    &&& after.upper_tick_array.is_update_of(
        before.upper_tick_array,
        upper_tick as int,
        before.pool.tick_spacing as int,
        -(position.liquidity as int),
        false,
    )
    &&& after.position is None
    &&& after.pool == pool_after_change(
        before.pool,
        lower_tick as int,
        upper_tick as int,
        position.liquidity as int,
        false,
    )
    &&& (amount_0 as int, amount_1 as int) == amounts_of_change(
        before.pool,
        lower_tick as int,
        upper_tick as int,
        position.liquidity as int,
    )
    &&& after.signer == before.signer
    &&& after.pool_key == before.pool_key
}

/// Closes a position: subtracts its whole liquidity at both ticks,
/// subtracts it from the pool's active liquidity if and only if the pool's
/// price lies in the range, deletes the record of the position, and returns
/// the amounts of token 0 and token 1 that the vaults owe the signer.
///
/// Fails, leaving everything as it was, with the error that
/// [`close_position_error`] names.
pub fn close_position(ctx: &mut ClosePosition, upper_tick: i32, lower_tick: i32) -> (result: Result<
    (u64, u64),
    ClmmError,
>)
    requires
        old(ctx).pool.wf(),
        may_close(*old(ctx)),
    ensures
        match result {
            Ok((amount_0, amount_1)) => {
                &&& close_position_error(
                    *old(ctx),
                    old(ctx).position->0,
                    upper_tick,
                    lower_tick,
                ) is None
                &&& is_closed(*old(ctx), *final(ctx), upper_tick, lower_tick, amount_0, amount_1)
                &&& final(ctx).pool.wf()
            },
            Err(e) => {
                &&& close_position_error(
                    *old(ctx),
                    old(ctx).position->0,
                    upper_tick,
                    lower_tick,
                ) == Some(e)
                &&& *final(ctx) == *old(ctx)
            },
        },
{
    let position: Position = match ctx.position {
        Some(position) => position,
        None => {
            return Err(ClmmError::InvalidPositionOwner);
        },
    };
    if !(upper_tick == position.upper_tick && lower_tick == position.lower_tick) {
        return Err(ClmmError::ZeroAmount);
    }
    let mut pool: Pool = ctx.pool;
    let mut lower_tick_array: TickArrayState = ctx.lower_tick_array;
    let mut upper_tick_array: TickArrayState = ctx.upper_tick_array;
    let amounts: (u64, u64) = apply_liquidity_change(
        &mut pool,
        &mut lower_tick_array,
        &mut upper_tick_array,
        lower_tick,
        upper_tick,
        position.liquidity,
        false,
    )?;
    ctx.lower_tick_array = lower_tick_array;
    ctx.upper_tick_array = upper_tick_array;
    ctx.position = None;
    ctx.pool = pool;
    Ok(amounts)
}

} // verus!
