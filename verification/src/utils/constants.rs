//! Sizes that the records of the engine share.
use vstd::prelude::*;

verus! {

/// The number of bytes that the host puts before the fields of a stored
/// record.
pub const ANCHOR_DISCRIMINATOR: usize = 8;

/// The number of tick slots in one tick array.
pub const TICKS_PER_ARRAY: usize = 64;

} // verus!
