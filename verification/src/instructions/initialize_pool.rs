//! Pool initialisation.
use crate::errors::ClmmError;
use crate::states::address::{lemma_precedes_is_strict_total, precedes, Address};
use crate::states::pool::Pool;
use crate::utils::math::{is_valid_sqrt_price, sqrt_price_x96_to_tick, tick_at_sqrt_price};
use vstd::prelude::*;

verus! {

/// What the initialisation of a pool reads and writes.
#[derive(Clone, Copy, Debug)]
pub struct InitializePool {
    /// The first token of the pair.
    pub token_0_mint: Address,
    /// The second token of the pair.
    pub token_1_mint: Address,
    /// The pool record to fill in.
    pub pool: Pool,
    /// The empty vault for the first token.
    pub token_0_vault: Address,
    /// The empty vault for the second token.
    pub token_1_vault: Address,
    /// The byte from which the host derived the address of the pool.
    pub pool_bump: u8,
}

/// The error that refuses the initialisation of a pool, if any: the order
/// of the tokens is checked first, then the tick spacing, then the price.
pub open spec fn init_pool_error(
    token_0: Seq<u8>,
    token_1: Seq<u8>,
    tick_spacing: int,
    sqrt_price: int,
) -> Option<ClmmError> {
    if !precedes(token_0, token_1) {
        Some(ClmmError::InvalidTokenOrder)
    } else if tick_spacing <= 0 {
        Some(ClmmError::InvalidTickSpacing)
    } else if token_0 == token_1 {
        Some(ClmmError::InvalidTokenPair)
    } else if !is_valid_sqrt_price(sqrt_price) {
        Some(ClmmError::SqrtPriceX96)
    } else {
        None
    }
}

/// No initialisation is refused for an invalid token pair: tokens that are
/// the same token are refused for their order before.
pub proof fn lemma_token_order_covers_token_pair(
    token_0: Seq<u8>,
    token_1: Seq<u8>,
    tick_spacing: int,
    sqrt_price: int,
)
    requires
        token_0.len() == token_1.len(),
    ensures
        init_pool_error(token_0, token_1, tick_spacing, sqrt_price) != Some(
            ClmmError::InvalidTokenPair,
        ),
{
    lemma_precedes_is_strict_total(token_0, token_1);
}

/// Initialises the pool of a pair of tokens at a price: no liquidity, the
/// given spacing and price, and the tick of that price.
///
/// Fails, leaving the record as it was, with the error that
/// [`init_pool_error`] names.
pub fn init_pool(ctx: &mut InitializePool, tick_spacing: i32, initialize_sqrt_price: u128) -> (result:
    Result<(), ClmmError>)
    ensures
        match result {
            Ok(_) => {
                &&& init_pool_error(
                    old(ctx).token_0_mint@,
                    old(ctx).token_1_mint@,
                    tick_spacing as int,
                    initialize_sqrt_price as int,
                ) is None
                &&& final(ctx).pool.wf()
                &&& final(ctx).pool.token_0 == old(ctx).token_0_mint
                &&& final(ctx).pool.token_1 == old(ctx).token_1_mint
                &&& final(ctx).pool.token_vault_0 == old(ctx).token_0_vault
                &&& final(ctx).pool.token_vault_1 == old(ctx).token_1_vault
                &&& final(ctx).pool.global_liquidity == 0
                &&& final(ctx).pool.sqrt_price_x96 == initialize_sqrt_price
                &&& final(ctx).pool.current_tick == tick_at_sqrt_price(initialize_sqrt_price as int)
                &&& final(ctx).pool.tick_spacing == tick_spacing
                &&& final(ctx).pool.bump == old(ctx).pool_bump
                &&& final(ctx).token_0_mint == old(ctx).token_0_mint
                &&& final(ctx).token_1_mint == old(ctx).token_1_mint
                &&& final(ctx).token_0_vault == old(ctx).token_0_vault
                &&& final(ctx).token_1_vault == old(ctx).token_1_vault
                &&& final(ctx).pool_bump == old(ctx).pool_bump
            },
            Err(e) => {
                &&& init_pool_error(
                    old(ctx).token_0_mint@,
                    old(ctx).token_1_mint@,
                    tick_spacing as int,
                    initialize_sqrt_price as int,
                ) == Some(e)
                &&& *final(ctx) == *old(ctx)
            },
        },
{
    if !ctx.token_0_mint.is_before(&ctx.token_1_mint) {
        return Err(ClmmError::InvalidTokenOrder);
    }
    if tick_spacing <= 0 {
        return Err(ClmmError::InvalidTickSpacing);
    }
    if ctx.token_0_mint == ctx.token_1_mint {
        return Err(ClmmError::InvalidTokenPair);
    }
    let current_tick: i32 = sqrt_price_x96_to_tick(initialize_sqrt_price)?;
    ctx.pool = Pool {
        token_0: ctx.token_0_mint,
        token_1: ctx.token_1_mint,
        token_vault_0: ctx.token_0_vault,
        token_vault_1: ctx.token_1_vault,
        global_liquidity: 0,
        sqrt_price_x96: initialize_sqrt_price,
        current_tick,
        tick_spacing,
        bump: ctx.pool_bump,
    };
    Ok(())
}

} // verus!
