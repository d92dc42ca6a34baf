//! The token transfers that settle an instruction.
//!
//! The engine computes amounts; the custody of tokens is the host's. What
//! the host has to move is spelled out here, so that nothing is left for it
//! to decide: which token, in which direction, how much, and no transfer at
//! all for an amount of zero.
use crate::instructions::swap::SwapOutcome;
use vstd::prelude::*;

verus! {

/// One of the two tokens of a pool.
#[derive(Clone, Copy, Debug, PartialEq, Eq, Structural)]
pub enum TokenSide {
    /// The first token of the pair.
    Token0,
    /// The second token of the pair.
    Token1,
}

/// The direction of a transfer.
#[derive(Clone, Copy, Debug, PartialEq, Eq, Structural)]
pub enum TransferDirection {
    /// From the user's account to the pool's vault, on the user's
    /// authority.
    UserToVault,
    /// From the pool's vault to the user's account, on the pool's
    /// authority.
    VaultToUser,
}

/// A transfer of tokens between the user and the vault of one token.
#[derive(Clone, Copy, Debug, PartialEq, Eq, Structural)]
pub struct TokenTransfer {
    /// The token that moves.
    pub token: TokenSide,
    /// The direction in which it moves.
    pub direction: TransferDirection,
    /// The amount that moves; never zero.
    pub amount: u64,
}

/// The transfer of an amount, or none for an amount of zero.
pub open spec fn transfer_of(token: TokenSide, direction: TransferDirection, amount: u64) -> Option<
    TokenTransfer,
> {
    if amount > 0 {
        Some(TokenTransfer { token, direction, amount })
    } else {
        None
    }
}

/// The transfer of an amount, or none for an amount of zero.
pub fn make_transfer(token: TokenSide, direction: TransferDirection, amount: u64) -> (transfer:
    Option<TokenTransfer>)
    ensures
        transfer == transfer_of(token, direction, amount),
{
    if amount > 0 {
        Some(TokenTransfer { token, direction, amount })
    } else {
        None
    }
}

/// The transfers that settle a change of liquidity: token 0 first, then
/// token 1, both from the user to the vaults when liquidity is added, both
/// from the vaults to the user when it is removed.
pub fn liquidity_transfers(amount_0: u64, amount_1: u64, add: bool) -> (transfers: (
    Option<TokenTransfer>,
    Option<TokenTransfer>,
))
    ensures
        transfers.0 == transfer_of(
            TokenSide::Token0,
            if add {
                TransferDirection::UserToVault
            } else {
                TransferDirection::VaultToUser
            },
            amount_0,
        ),
        transfers.1 == transfer_of(
            TokenSide::Token1,
            if add {
                TransferDirection::UserToVault
            } else {
                TransferDirection::VaultToUser
            },
            amount_1,
        ),
{
    let direction = if add {
        TransferDirection::UserToVault
    } else {
        TransferDirection::VaultToUser
    };
    (
        make_transfer(TokenSide::Token0, direction, amount_0),
        make_transfer(TokenSide::Token1, direction, amount_1),
    )
}

/// The transfers that settle a swap: first the input, from the user to the
/// vault of the token sold, then the output, from the vault of the token
/// bought to the user. Token 0 is sold if `a_to_b`, token 1 otherwise.
pub fn swap_transfers(outcome: &SwapOutcome, a_to_b: bool) -> (transfers: (
    Option<TokenTransfer>,
    Option<TokenTransfer>,
))
    ensures
        transfers.0 == transfer_of(
            if a_to_b {
                TokenSide::Token0
            } else {
                TokenSide::Token1
            },
            TransferDirection::UserToVault,
            outcome.amount_in,
        ),
        transfers.1 == transfer_of(
            if a_to_b {
                TokenSide::Token1
            } else {
                TokenSide::Token0
            },
            TransferDirection::VaultToUser,
            outcome.amount_out,
        ),
{
    let (sold, bought) = if a_to_b {
        (TokenSide::Token0, TokenSide::Token1)
    } else {
        (TokenSide::Token1, TokenSide::Token0)
    };
    (
        make_transfer(sold, TransferDirection::UserToVault, outcome.amount_in),
        make_transfer(bought, TransferDirection::VaultToUser, outcome.amount_out),
    )
}

} // verus!
