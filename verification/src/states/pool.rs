//! The pool: one per pair of tokens and tick spacing.
use crate::states::address::{precedes, Address};
use crate::utils::constants::ANCHOR_DISCRIMINATOR;
use crate::utils::math::{
    is_valid_sqrt_price, is_valid_tick, sqrt_price_x96_to_tick, tick_at_sqrt_price,
};
use crate::utils::round_trip::lemma_tick_at_sqrt_price_range;
use vstd::prelude::*;

verus! {

/// The state of a pool.
#[derive(Clone, Copy, Debug)]
pub struct Pool {
    /// The first token of the pair.
    pub token_0: Address,
    /// The second token of the pair.
    pub token_1: Address,
    /// The vault that holds the pool's reserve of the first token.
    pub token_vault_0: Address,
    /// The vault that holds the pool's reserve of the second token.
    pub token_vault_1: Address,
    /// The liquidity of the positions whose range covers the current price.
    pub global_liquidity: u128,
    /// The current square-root price in Q64.96.
    pub sqrt_price_x96: u128,
    /// The tick of the current price.
    pub current_tick: i32,
    /// The distance between two ticks that may bound a position.
    pub tick_spacing: i32,
    /// The byte from which the host derives the address of the pool.
    pub bump: u8,
}

impl Pool {
    /// The number of bytes of a stored pool.
    pub const SPACE: usize = ANCHOR_DISCRIMINATOR + 32 + 32 + 32 + 32 + 16 + 16 + 4 + 4 + 1;

    /// The invariant of a pool: the first token sorts before the second,
    /// the tick spacing is positive, the price has a tick, and the current
    /// tick is that tick.
    pub open spec fn wf(self) -> bool {
        &&& precedes(self.token_0@, self.token_1@)
        &&& self.tick_spacing > 0
        &&& is_valid_sqrt_price(self.sqrt_price_x96 as int)
        &&& self.current_tick == tick_at_sqrt_price(self.sqrt_price_x96 as int)
    }

    /// The current tick of a pool is a valid tick.
    pub proof fn lemma_current_tick_is_valid(self)
        requires
            self.wf(),
        ensures
            is_valid_tick(self.current_tick as int),
    {
        lemma_tick_at_sqrt_price_range(self.sqrt_price_x96 as int);
    }

    /// Whether the invariant of the pool holds.
    pub fn is_well_formed(&self) -> (well_formed: bool)
        ensures
            well_formed == self.wf(),
    {
        if !self.token_0.is_before(&self.token_1) || self.tick_spacing <= 0 {
            return false;
        }
        match sqrt_price_x96_to_tick(self.sqrt_price_x96) {
            Ok(tick) => tick == self.current_tick,
            Err(_) => false,
        }
    }
}

} // verus!
