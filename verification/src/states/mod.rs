pub mod address;
pub mod pool;
pub mod position;
pub mod tick_history;
pub mod ticks;

pub use address::{precedes, Address};
pub use pool::Pool;
pub use position::Position;
pub use ticks::{TickArrayState, TickState};
