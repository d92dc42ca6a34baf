//! Pricing and liquidity core of a concentrated-liquidity market maker.
//!
//! The crate is organised in three layers:
//!
//! * [`utils`] holds the Q64.96 fixed-point arithmetic: the conversions
//!   between ticks and square-root prices, the token amounts behind a
//!   liquidity position and the single swap step.
//! * [`states`] holds the records the engine keeps: pool, position, tick and
//!   tick array.
//! * [`instructions`] holds the state transitions: pool initialisation,
//!   opening, growing, shrinking and closing a position, and swapping, and
//!   the token transfers that settle them.
//!
//! Every function carries a contract over mathematical integers, and every
//! contract is machine-checked. Beside the contracts stand the theorems
//! that tie the functions together:
//!
//! * the square-root price is strictly increasing in the tick and stays
//!   within its bounds ([`utils::ladder`]);
//! * the tick of a price never falls as the price rises
//!   ([`utils::tick_order`]), and the round trip from a tick to its price
//!   and back returns a tick within one of the tick that went in
//!   ([`utils::round_trip`]);
//! * the output of a swap step never falls as its input grows, and at a
//!   price of one it never exceeds the input ([`utils::swap_bounds`]);
//! * the gross and net liquidity of a tick are the sums of its history
//!   ([`states::tick_history`]);
//! * a position that is opened and closed at one price is paid back exactly
//!   what it paid in ([`instructions::round_trip`]).
pub mod errors;
pub mod instructions;
pub mod states;
pub mod utils;
