use vstd::prelude::*;

verus! {

/// Every way in which an operation of the engine can fail.
#[derive(Clone, Copy, Debug, PartialEq, Eq, Structural)]
pub enum ClmmError {
    /// A checked addition, subtraction, multiplication, division or
    /// narrowing conversion left the range of its type.
    ArithmeticOverflow,
    /// The two tokens of a pool are the same token.
    InvalidTokenPair,
    /// The tick spacing of a pool is not strictly positive.
    InvalidTickSpacing,
    /// The first token of a pool does not sort before the second.
    InvalidTokenOrder,
    /// A liquidity delta or a swap input is zero.
    ZeroAmount,
    /// A tick lies outside `[MIN_TICK, MAX_TICK]`.
    TickUpperOverflow,
    /// A square-root price lies outside
    /// `[MIN_SQRT_PRICE_X96, MAX_SQRT_PRICE_X96)`.
    SqrtPriceX96,
    /// A position belongs to another pool.
    InvalidPositionRange,
    /// A position belongs to another owner.
    InvalidPositionOwner,
    /// Reserved.
    InvalidMintRange,
    /// The lower tick is not below the upper tick, or a bound is not a
    /// multiple of the tick spacing.
    InvalidTickRange,
    /// The bounds handed in are not the bounds of the stored position.
    InvalidTicks,
    /// More liquidity is withdrawn than the position holds.
    InvalidAmount,
    /// A swap found no active liquidity.
    InsufficientLiquidity,
    /// A swap would pay out less than the caller's minimum.
    SlippageExceeded,
    /// The tick array handed in is not the one that holds the current tick.
    InvalidTickArrayAccount,
}

} // verus!
