//! The position: the liquidity of one owner over one range of one pool.
use crate::states::address::Address;
use crate::utils::constants::ANCHOR_DISCRIMINATOR;
use crate::utils::math::is_valid_tick;
use vstd::prelude::*;

verus! {

/// The state of a position.
#[derive(Clone, Copy, Debug)]
pub struct Position {
    /// The liquidity that the position contributes.
    pub liquidity: u128,
    /// The lower bound of the range.
    pub lower_tick: i32,
    /// The upper bound of the range.
    pub upper_tick: i32,
    /// The owner, who alone may change or close the position.
    pub owner: Address,
    /// The pool to which the position belongs.
    pub pool: Address,
    /// The byte from which the host derives the address of the position.
    pub bump: u8,
}

/// Whether two ticks can bound a position of a pool with the given spacing:
/// the lower is below the upper and both are multiples of the spacing.
pub open spec fn is_tick_range(lower_tick: int, upper_tick: int, tick_spacing: int) -> bool {
    &&& lower_tick < upper_tick
    &&& lower_tick % tick_spacing == 0
    &&& upper_tick % tick_spacing == 0
}

impl Position {
    /// The number of bytes of a stored position.
    pub const SPACE: usize = ANCHOR_DISCRIMINATOR + 16 + 4 + 4 + 32 + 32 + 1;

    /// The invariant of a position of a pool with the given spacing: its
    /// bounds form a range of valid ticks.
    pub open spec fn wf(self, tick_spacing: int) -> bool {
        &&& is_tick_range(self.lower_tick as int, self.upper_tick as int, tick_spacing)
        &&& is_valid_tick(self.lower_tick as int)
        &&& is_valid_tick(self.upper_tick as int)
    }
}

} // verus!
