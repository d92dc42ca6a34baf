//! What the position instructions share: the change of liquidity over a
//! range, applied to both bounding ticks and to the pool.
use crate::errors::ClmmError;
use crate::states::address::Address;
use crate::states::pool::Pool;
use crate::states::ticks::TickArrayState;
use crate::utils::ladder::sqrt_price_at_tick;
use crate::utils::math::{
    amounts_defined, amounts_for_liquidity, get_amounts_for_liquidity, is_valid_tick,
    tick_to_sqrt_price_x96,
};
use vstd::prelude::*;

verus! {

/// Whether a square-root price lies in the range of two ticks: at or above
/// the price of the lower, strictly below the price of the upper.
pub open spec fn is_active_range(sqrt_price_x96: int, lower_tick: int, upper_tick: int) -> bool {
    sqrt_price_at_tick(lower_tick) <= sqrt_price_x96 < sqrt_price_at_tick(upper_tick)
}

/// A liquidity as a delta: positive when added, negative when removed.
pub open spec fn signed_liquidity(liquidity: int, add: bool) -> int {
    if add {
        liquidity
    } else {
        -liquidity
    }
}

/// Whether both bounding ticks can take the delta: the liquidity fits a
/// signed delta and both tick updates are defined.
pub open spec fn ticks_change_defined(
    lower_tick_array: TickArrayState,
    upper_tick_array: TickArrayState,
    lower_tick: int,
    upper_tick: int,
    tick_spacing: int,
    liquidity: int,
    add: bool,
) -> bool {
    &&& liquidity <= i128::MAX
    &&& lower_tick_array.update_defined(
        lower_tick,
        tick_spacing,
        signed_liquidity(liquidity, add),
        true,
    )
    &&& upper_tick_array.update_defined(
        upper_tick,
        tick_spacing,
        signed_liquidity(liquidity, add),
        false,
    )
}

/// Whether the pool can take the delta: its active liquidity stays within
/// its type if the range is active, and the token amounts are defined.
pub open spec fn pool_change_defined(
    pool: Pool,
    lower_tick: int,
    upper_tick: int,
    liquidity: int,
    add: bool,
) -> bool {
    &&& is_active_range(pool.sqrt_price_x96 as int, lower_tick, upper_tick) ==> 0
        <= pool.global_liquidity + signed_liquidity(liquidity, add) <= u128::MAX
    &&& amounts_defined(
        pool.sqrt_price_x96 as int,
        sqrt_price_at_tick(lower_tick),
        sqrt_price_at_tick(upper_tick),
        liquidity,
    )
}

/// The error that refuses a change of liquidity, if any. The ticks are
/// updated first, then the bounds are priced, then the pool is updated and
/// the amounts are computed.
pub open spec fn liquidity_change_error(
    pool: Pool,
    lower_tick_array: TickArrayState,
    upper_tick_array: TickArrayState,
    lower_tick: int,
    upper_tick: int,
    liquidity: int,
    add: bool,
) -> Option<ClmmError> {
    if !ticks_change_defined(
        lower_tick_array,
        upper_tick_array,
        lower_tick,
        upper_tick,
        pool.tick_spacing as int,
        liquidity,
        add,
    ) {
        Some(ClmmError::ArithmeticOverflow)
    } else if !(is_valid_tick(lower_tick) && is_valid_tick(upper_tick)) {
        Some(ClmmError::TickUpperOverflow)
    } else if !pool_change_defined(pool, lower_tick, upper_tick, liquidity, add) {
        Some(ClmmError::ArithmeticOverflow)
    } else {
        None
    }
}

/// The pool after a change of liquidity over a range: the delta joins the
/// active liquidity if and only if the range is active.
pub open spec fn pool_after_change(
    pool: Pool,
    lower_tick: int,
    upper_tick: int,
    liquidity: int,
    add: bool,
) -> Pool {
    if is_active_range(pool.sqrt_price_x96 as int, lower_tick, upper_tick) {
        Pool {
            global_liquidity: (pool.global_liquidity + signed_liquidity(liquidity, add)) as u128,
            ..pool
        }
    } else {
        pool
    }
}

/// The token amounts that a change of liquidity over a range moves.
pub open spec fn amounts_of_change(pool: Pool, lower_tick: int, upper_tick: int, liquidity: int) -> (
    int,
    int,
) {
    amounts_for_liquidity(
        pool.sqrt_price_x96 as int,
        sqrt_price_at_tick(lower_tick),
        sqrt_price_at_tick(upper_tick),
        liquidity,
    )
}

/// An array as a position claims it: a blank array takes the pool and the
/// start index handed in, any other stays as it is.
pub open spec fn claimed_array(
    array: TickArrayState,
    pool_key: Address,
    start_index: i32,
) -> TickArrayState {
    if array.starting_tick == 0 && array.pool@ == Address::zero() {
        TickArrayState { pool: pool_key, starting_tick: start_index, ..array }
    } else {
        array
    }
}

/// Claims a tick array for a pool if it is blank.
pub fn claim_array(array: &mut TickArrayState, pool_key: Address, start_index: i32)
    ensures
        *final(array) == claimed_array(*old(array), pool_key, start_index),
{
    if array.starting_tick == 0 && array.pool == Address::default() {
        array.pool = pool_key;
        array.starting_tick = start_index;
    }
}

/// Adds liquidity to a range, or removes it: updates the two bounding
/// ticks, adds the delta to the pool's active liquidity if the pool's price
/// lies in the range, and returns the amounts of token 0 and token 1 that
/// the liquidity stands for at the pool's price.
///
/// Fails, leaving everything as it was, with the error that
/// [`liquidity_change_error`] names.
pub fn apply_liquidity_change(
    pool: &mut Pool,
    lower_tick_array: &mut TickArrayState,
    upper_tick_array: &mut TickArrayState,
    lower_tick: i32,
    upper_tick: i32,
    liquidity: u128,
    add: bool,
) -> (result: Result<(u64, u64), ClmmError>)
    ensures
        match result {
            Ok((amount_0, amount_1)) => {
                &&& liquidity_change_error(
                    *old(pool),
                    *old(lower_tick_array),
                    *old(upper_tick_array),
                    lower_tick as int,
                    upper_tick as int,
                    liquidity as int,
                    add,
                ) is None
                &&& final(lower_tick_array).is_update_of(
                    *old(lower_tick_array),
                    lower_tick as int,
                    old(pool).tick_spacing as int,
                    signed_liquidity(liquidity as int, add),
                    true,
                )
                &&& final(upper_tick_array).is_update_of(
                    *old(upper_tick_array),
                    upper_tick as int,
                    old(pool).tick_spacing as int,
                    signed_liquidity(liquidity as int, add),
                    false,
                )
                &&& *final(pool) == pool_after_change(
                    *old(pool),
                    lower_tick as int,
                    upper_tick as int,
                    liquidity as int,
                    add,
                )
                &&& (amount_0 as int, amount_1 as int) == amounts_of_change(
                    *old(pool),
                    lower_tick as int,
                    upper_tick as int,
                    liquidity as int,
                )
            },
            Err(e) => {
                &&& liquidity_change_error(
                    *old(pool),
                    *old(lower_tick_array),
                    *old(upper_tick_array),
                    lower_tick as int,
                    upper_tick as int,
                    liquidity as int,
                    add,
                ) == Some(e)
                &&& *final(pool) == *old(pool)
                &&& *final(lower_tick_array) == *old(lower_tick_array)
                &&& *final(upper_tick_array) == *old(upper_tick_array)
            },
        },
{
    if liquidity > i128::MAX as u128 {
        return Err(ClmmError::ArithmeticOverflow);
    }
    let delta: i128 = if add {
        liquidity as i128
    } else {
        -(liquidity as i128)
    };
    let mut lower_array: TickArrayState = *lower_tick_array;
    lower_array.update_liquidity_at(lower_tick, pool.tick_spacing, delta, true)?;
    let mut upper_array: TickArrayState = *upper_tick_array;
    upper_array.update_liquidity_at(upper_tick, pool.tick_spacing, delta, false)?;
    let lower_sqrt: u128 = tick_to_sqrt_price_x96(lower_tick)?;
    let upper_sqrt: u128 = tick_to_sqrt_price_x96(upper_tick)?;
    let mut global_liquidity: u128 = pool.global_liquidity;
    if pool.sqrt_price_x96 >= lower_sqrt && pool.sqrt_price_x96 < upper_sqrt {
        let changed: Option<u128> = if add {
            global_liquidity.checked_add(liquidity)
        } else {
            global_liquidity.checked_sub(liquidity)
        };
        match changed {
            Some(changed) => {
                global_liquidity = changed;
            },
            None => {
                return Err(ClmmError::ArithmeticOverflow);
            },
        }
    }
    let amounts: (u64, u64) = get_amounts_for_liquidity(
        pool.sqrt_price_x96,
        lower_sqrt,
        upper_sqrt,
        liquidity,
    )?;
    *lower_tick_array = lower_array;
    *upper_tick_array = upper_array;
    pool.global_liquidity = global_liquidity;
    Ok(amounts)
}

} // verus!
