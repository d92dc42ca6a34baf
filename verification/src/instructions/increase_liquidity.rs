//! Adding liquidity to a position.
use crate::errors::ClmmError;
use crate::instructions::open_position::check_tick_range;
use crate::instructions::shared_functions::{
    amounts_of_change, apply_liquidity_change, liquidity_change_error, pool_after_change,
    signed_liquidity,
};
use crate::states::address::Address;
use crate::states::pool::Pool;
use crate::states::position::{is_tick_range, Position};
use crate::states::ticks::TickArrayState;
use vstd::prelude::*;

verus! {

/// What a change of the liquidity of a position reads and writes.
#[derive(Clone, Copy, Debug)]
pub struct IncreaseLiquidity {
    /// Who asks for the change.
    pub signer: Address,
    /// The address of the pool.
    pub pool_key: Address,
    /// The pool.
    pub pool: Pool,
    /// The tick array that holds the lower tick.
    pub lower_tick_array: TickArrayState,
    /// The tick array that holds the upper tick.
    pub upper_tick_array: TickArrayState,
    /// The position.
    pub position: Position,
}

/// The error that refuses a request on an existing position before any
/// arithmetic, if any: the pool of the position is checked first, then its
/// owner, then the amount, then the bounds against the stored bounds, then
/// the range.
pub open spec fn position_request_error(
    position: Position,
    pool_key: Address,
    signer: Address,
    tick_spacing: int,
    liquidity_amount: u128,
    upper_tick: i32,
    lower_tick: i32,
) -> Option<ClmmError> {
    if position.pool@ != pool_key@ {
        Some(ClmmError::InvalidPositionRange)
    } else if position.owner@ != signer@ {
        Some(ClmmError::InvalidPositionOwner)
    } else if liquidity_amount == 0 {
        Some(ClmmError::ZeroAmount)
    } else if !(lower_tick == position.lower_tick && upper_tick == position.upper_tick) {
        Some(ClmmError::InvalidTicks)
    } else if !is_tick_range(lower_tick as int, upper_tick as int, tick_spacing) {
        Some(ClmmError::InvalidTickRange)
    } else {
        None
    }
}

/// Checks a request on an existing position before any arithmetic.
pub fn check_position_request(
    position: &Position,
    pool_key: &Address,
    signer: &Address,
    tick_spacing: i32,
    liquidity_amount: u128,
    upper_tick: i32,
    lower_tick: i32,
) -> (result: Result<(), ClmmError>)
    requires
        tick_spacing > 0,
    ensures
        match result {
            Ok(_) => position_request_error(
                *position,
                *pool_key,
                *signer,
                tick_spacing as int,
                liquidity_amount,
                upper_tick,
                lower_tick,
            ) is None,
            Err(e) => position_request_error(
                *position,
                *pool_key,
                *signer,
                tick_spacing as int,
                liquidity_amount,
                upper_tick,
                lower_tick,
            ) == Some(e),
        },
{
    if !(position.pool == *pool_key) {
        return Err(ClmmError::InvalidPositionRange);
    }
    if !(position.owner == *signer) {
        return Err(ClmmError::InvalidPositionOwner);
    }
    if liquidity_amount == 0 {
        return Err(ClmmError::ZeroAmount);
    }
    if !(lower_tick == position.lower_tick && upper_tick == position.upper_tick) {
        return Err(ClmmError::InvalidTicks);
    }
    if !check_tick_range(lower_tick, upper_tick, tick_spacing) {
        return Err(ClmmError::InvalidTickRange);
    }
    Ok(())
}

/// The error that refuses an increase of liquidity, if any: the request is
/// checked first, then the change of liquidity, then the sum of the
/// position's liquidity.
pub open spec fn increase_liquidity_error(
    ctx: IncreaseLiquidity,
    liquidity_amount: u128,
    upper_tick: i32,
    lower_tick: i32,
) -> Option<ClmmError> {
    let request = position_request_error(
        ctx.position,
        ctx.pool_key,
        ctx.signer,
        ctx.pool.tick_spacing as int,
        liquidity_amount,
        upper_tick,
        lower_tick,
    );
    let change = liquidity_change_error(
        ctx.pool,
        ctx.lower_tick_array,
        ctx.upper_tick_array,
        lower_tick as int,
        upper_tick as int,
        liquidity_amount as int,
        true,
    );
    if request is Some {
        request
    } else if change is Some {
        change
    } else if ctx.position.liquidity + liquidity_amount > u128::MAX {
        Some(ClmmError::ArithmeticOverflow)
    } else {
        None
    }
}

/// What a change of the liquidity of a position makes of its records, and
/// what it returns: both tick arrays updated with the delta, the delta
/// added to the position, the pool's active liquidity changed by the delta
/// if its price lies in the range, and the amounts that the liquidity
/// stands for at the pool's price.
pub open spec fn is_liquidity_changed(
    before: IncreaseLiquidity,
    after: IncreaseLiquidity,
    liquidity_amount: u128,
    upper_tick: i32,
    lower_tick: i32,
    add: bool,
    amount_0: u64,
    amount_1: u64,
) -> bool {
    let delta = signed_liquidity(liquidity_amount as int, add);
    &&& after.lower_tick_array.is_update_of(
        before.lower_tick_array,
        lower_tick as int,
        before.pool.tick_spacing as int,
        delta,
        true,
    )
    &&& after.upper_tick_array.is_update_of(
        before.upper_tick_array,
        upper_tick as int,
        before.pool.tick_spacing as int,
        delta,
        false,
    )
    &&& after.position == (Position {
        liquidity: (before.position.liquidity + delta) as u128,
        ..before.position
    })
    &&& after.pool == pool_after_change(
        before.pool,
        lower_tick as int,
        upper_tick as int,
        liquidity_amount as int,
        add,
    )
    &&& (amount_0 as int, amount_1 as int) == amounts_of_change(
        before.pool,
        lower_tick as int,
        upper_tick as int,
        liquidity_amount as int,
    )
    &&& after.signer == before.signer
    &&& after.pool_key == before.pool_key
}

/// Adds `liquidity_amount` to a position: adds it at both ticks and to the
/// position, adds it to the pool's active liquidity if and only if the
/// pool's price lies in the range, and returns the amounts of token 0 and
/// token 1 that the signer owes the vaults.
///
/// Fails, leaving everything as it was, with the error that
/// [`increase_liquidity_error`] names.
pub fn increase_liquidity(
    ctx: &mut IncreaseLiquidity,
    liquidity_amount: u128,
    upper_tick: i32,
    lower_tick: i32,
    _tick_array_lower_start_index: i32,
    _tick_array_upper_start_index: i32,
) -> (result: Result<(u64, u64), ClmmError>)
    requires
        old(ctx).pool.wf(),
    ensures
        match result {
            Ok((amount_0, amount_1)) => {
                &&& increase_liquidity_error(*old(ctx), liquidity_amount, upper_tick, lower_tick)
                    is None
                &&& is_liquidity_changed(
                    *old(ctx),
                    *final(ctx),
                    liquidity_amount,
                    upper_tick,
                    lower_tick,
                    true,
                    amount_0,
                    amount_1,
                )
                &&& final(ctx).pool.wf()
            },
            Err(e) => {
                &&& increase_liquidity_error(*old(ctx), liquidity_amount, upper_tick, lower_tick)
                    == Some(e)
                &&& *final(ctx) == *old(ctx)
            },
        },
{
    check_position_request(
        &ctx.position,
        &ctx.pool_key,
        &ctx.signer,
        ctx.pool.tick_spacing,
        liquidity_amount,
        upper_tick,
        lower_tick,
    )?;
    let mut pool: Pool = ctx.pool;
    let mut lower_tick_array: TickArrayState = ctx.lower_tick_array;
    let mut upper_tick_array: TickArrayState = ctx.upper_tick_array;
    let amounts: (u64, u64) = apply_liquidity_change(
        &mut pool,
        &mut lower_tick_array,
        &mut upper_tick_array,
        lower_tick,
        upper_tick,
        liquidity_amount,
        true,
    )?;
    let liquidity: u128 = match ctx.position.liquidity.checked_add(liquidity_amount) {
        Some(liquidity) => liquidity,
        None => {
            return Err(ClmmError::ArithmeticOverflow);
        },
    };
    ctx.lower_tick_array = lower_tick_array;
    ctx.upper_tick_array = upper_tick_array;
    ctx.position.liquidity = liquidity;
    ctx.pool = pool;
    Ok(amounts)
}

} // verus!
