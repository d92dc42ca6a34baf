pub mod close_position;
pub mod decrease_liquidity;
pub mod increase_liquidity;
pub mod initialize_pool;
pub mod open_position;
pub mod round_trip;
pub mod shared_functions;
pub mod swap;
pub mod transfers;

pub use close_position::{close_position, ClosePosition};
pub use decrease_liquidity::{decrease_liquidity, DecreaseLiquidity};
pub use increase_liquidity::{increase_liquidity, IncreaseLiquidity};
pub use initialize_pool::{init_pool, InitializePool};
pub use open_position::{open_position, OpenPosition};
pub use shared_functions::{apply_liquidity_change, claim_array};
pub use swap::{swap, Swap, SwapOutcome};
pub use transfers::{
    liquidity_transfers, swap_transfers, TokenSide, TokenTransfer, TransferDirection,
};
