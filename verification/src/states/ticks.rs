//! Per-tick liquidity state, sharded into fixed-size tick arrays.
use crate::errors::ClmmError;
use crate::states::address::Address;
use crate::utils::constants::{ANCHOR_DISCRIMINATOR, TICKS_PER_ARRAY};
use vstd::prelude::*;

verus! {

/// The liquidity that references one tick.
#[derive(Clone, Copy, Debug, PartialEq, Eq, Structural)]
pub struct TickState {
    /// Set by the first update, never cleared.
    pub initialized: bool,
    /// The sum of the magnitudes of all updates applied at this tick.
    pub gross_liquidity: u128,
    /// The liquidity that becomes active when the price crosses this tick
    /// upward: the deltas of the positions that start here, less the deltas
    /// of those that end here.
    pub net_liquidity: i128,
}

/// The magnitude of a liquidity delta.
pub open spec fn magnitude(delta: int) -> int {
    if delta >= 0 {
        delta
    } else {
        -delta
    }
}

/// The contribution of a delta to the net liquidity of a tick: the delta
/// itself at the lower bound of a position, its negation at the upper.
pub open spec fn signed_contribution(delta: int, is_lower: bool) -> int {
    if is_lower {
        delta
    } else {
        -delta
    }
}

impl TickState {
    /// The number of bytes of a stored tick.
    pub const SPACE: usize = ANCHOR_DISCRIMINATOR + 1 + 16 + 16;

    /// A tick that no update has touched.
    pub open spec fn untouched() -> TickState {
        TickState { initialized: false, gross_liquidity: 0, net_liquidity: 0 }
    }

    /// Whether an update keeps both sums within their types.
    pub open spec fn update_defined(self, delta: int, is_lower: bool) -> bool {
        &&& self.gross_liquidity + magnitude(delta) <= u128::MAX
        &&& i128::MIN <= self.net_liquidity + signed_contribution(delta, is_lower) <= i128::MAX
    }

    /// The tick after an update.
    pub open spec fn updated(self, delta: int, is_lower: bool) -> TickState {
        TickState {
            initialized: true,
            gross_liquidity: (self.gross_liquidity + magnitude(delta)) as u128,
            net_liquidity: (self.net_liquidity + signed_contribution(delta, is_lower)) as i128,
        }
    }

    /// A tick that no update has touched.
    pub fn new() -> (tick: TickState)
        ensures
            tick == TickState::untouched(),
    {
        TickState { initialized: false, gross_liquidity: 0, net_liquidity: 0 }
    }

    /// Applies a liquidity delta of a position that has this tick as its
    /// lower (`is_lower`) or upper bound: marks the tick initialized, adds
    /// the magnitude of the delta to the gross liquidity, and adds the delta
    /// to the net liquidity at a lower bound, subtracts it at an upper.
    ///
    /// Fails with [`ClmmError::ArithmeticOverflow`], leaving the tick as it
    /// was, exactly when a sum would leave its type.
    pub fn update_liquidity(&mut self, liquidity_delta: i128, is_lower: bool) -> (result: Result<
        (),
        ClmmError,
    >)
        ensures
            match result {
                Ok(_) => {
                    &&& old(self).update_defined(liquidity_delta as int, is_lower)
                    &&& *final(self) == old(self).updated(liquidity_delta as int, is_lower)
                },
                Err(e) => {
                    &&& !old(self).update_defined(liquidity_delta as int, is_lower)
                    &&& e == ClmmError::ArithmeticOverflow
                    &&& *final(self) == *old(self)
                },
            },
    {
        let delta_magnitude: u128 = if liquidity_delta >= 0 {
            liquidity_delta as u128
        } else if liquidity_delta == i128::MIN {
            170141183460469231731687303715884105728
        } else {
            (-liquidity_delta) as u128
        };
        let gross: u128 = match self.gross_liquidity.checked_add(delta_magnitude) {
            Some(gross) => gross,
            None => {
                return Err(ClmmError::ArithmeticOverflow);
            },
        };
        let net: Option<i128> = if is_lower {
            self.net_liquidity.checked_add(liquidity_delta)
        } else {
            self.net_liquidity.checked_sub(liquidity_delta)
        };
        match net {
            Some(net) => {
                self.initialized = true;
                self.gross_liquidity = gross;
                self.net_liquidity = net;
                Ok(())
            },
            None => Err(ClmmError::ArithmeticOverflow),
        }
    }
}

/// A shard of the tick store: the ticks of one pool from `starting_tick`
/// upward, one slot for each multiple of the tick spacing.
#[derive(Clone, Copy, Debug)]
pub struct TickArrayState {
    /// The pool whose ticks these are.
    pub pool: Address,
    /// The lowest tick of the array.
    pub starting_tick: i32,
    /// The slots, in ascending order of tick.
    pub ticks: [TickState; 64],
    /// The byte from which the host derives the address of the array.
    pub bump: u8,
}

/// The quotient of a division that rounds toward zero.
pub open spec fn truncated_div(a: int, b: int) -> int {
    if a >= 0 && b > 0 {
        a / b
    } else if a < 0 && b < 0 {
        (-a) / (-b)
    } else if a < 0 {
        -((-a) / b)
    } else {
        -(a / (-b))
    }
}

/// The remainder of a division that rounds toward zero. It has the sign of
/// the dividend.
pub open spec fn truncated_rem(a: int, b: int) -> int {
    a - b * truncated_div(a, b)
}

/// The first tick of the array that holds `tick`:
/// `⌊⌊tick / tick_spacing⌋ / 64⌋ · tick_spacing · 64`.
pub open spec fn start_tick_index(tick: int, tick_spacing: int) -> int {
    ((tick / tick_spacing) / (TICKS_PER_ARRAY as int)) * tick_spacing * TICKS_PER_ARRAY
}

/// The distance of a tick from the start of an array, in slots, on the
/// number line of quotients that round toward zero.
pub open spec fn slot_distance(tick: int, starting_tick: int, tick_spacing: int) -> int {
    truncated_div(tick, tick_spacing) - truncated_div(starting_tick, tick_spacing)
}

/// The slot of a tick in the array that starts at `starting_tick`:
/// `((tick / tick_spacing) − (starting_tick / tick_spacing)) mod 64`, with
/// quotients and remainder rounding toward zero.
pub open spec fn slot_offset_of(tick: int, starting_tick: int, tick_spacing: int) -> int {
    truncated_rem(slot_distance(tick, starting_tick, tick_spacing), TICKS_PER_ARRAY as int)
}

/// Whether a tick has a slot: the spacing is not zero, neither quotient nor
/// their difference leaves 32 bits, and the offset is not negative.
pub open spec fn slot_offset_defined(tick: int, starting_tick: int, tick_spacing: int) -> bool {
    &&& tick_spacing != 0
    &&& truncated_div(tick, tick_spacing) <= i32::MAX
    &&& truncated_div(starting_tick, tick_spacing) <= i32::MAX
    &&& i32::MIN <= slot_distance(tick, starting_tick, tick_spacing) <= i32::MAX
    &&& 0 <= slot_offset_of(tick, starting_tick, tick_spacing)
}

/// The array that holds a tick starts at or below the tick, less than one
/// array's width below it, on a multiple of that width.
pub proof fn lemma_start_tick_index_bounds(tick: int, tick_spacing: int)
    requires
        tick_spacing > 0,
    ensures
        start_tick_index(tick, tick_spacing) <= tick < start_tick_index(tick, tick_spacing) + 64
            * tick_spacing,
        start_tick_index(tick, tick_spacing) == ((tick / tick_spacing) / 64) * (64
            * tick_spacing),
{
    let q1 = tick / tick_spacing;
    let q2 = q1 / 64;
    crate::utils::arith::lemma_div_bounds(tick, tick_spacing);
    crate::utils::arith::lemma_div_bounds(q1, 64);
    assert(q2 * tick_spacing * 64 == q2 * (64 * tick_spacing)) by (nonlinear_arith);
    assert((q2 * 64) * tick_spacing <= q1 * tick_spacing) by (nonlinear_arith)
        requires
            q2 * 64 <= q1,
            tick_spacing > 0,
    ;
    assert((q1 + 1) * tick_spacing <= (q2 * 64 + 64) * tick_spacing) by (nonlinear_arith)
        requires
            q1 + 1 <= q2 * 64 + 64,
            tick_spacing > 0,
    ;
    assert((q2 * 64) * tick_spacing == q2 * (64 * tick_spacing)) by (nonlinear_arith);
    assert((q2 * 64 + 64) * tick_spacing == q2 * (64 * tick_spacing) + 64 * tick_spacing)
        by (nonlinear_arith);
    assert((q1 + 1) * tick_spacing == q1 * tick_spacing + tick_spacing) by (nonlinear_arith);
}

/// Division toward zero is exact division where the divisor divides.
proof fn lemma_truncated_div_of_multiple(q: int, d: int)
    requires
        d > 0,
    ensures
        truncated_div(q * d, d) == q,
        (q * d) / d == q,
{
    vstd::arithmetic::div_mod::lemma_div_multiples_vanish(q, d);
    vstd::arithmetic::mul::lemma_mul_is_commutative(q, d);
    if q < 0 {
        vstd::arithmetic::div_mod::lemma_div_multiples_vanish(-q, d);
        vstd::arithmetic::mul::lemma_mul_is_commutative(-q, d);
        assert(-(q * d) == (-q) * d) by (nonlinear_arith);
        assert(q * d < 0) by (nonlinear_arith)
            requires
                q < 0,
                d > 0,
        ;
    } else {
        assert(q * d >= 0) by (nonlinear_arith)
            requires
                q >= 0,
                d > 0,
        ;
    }
}

/// Every multiple of the tick spacing has a slot in the array that holds
/// it: counted from the start of that array, the tick has a slot offset,
/// the offset is the number of spacings between the start and the tick,
/// and so two different multiples in one array have different slots.
pub proof fn lemma_tick_has_slot_in_its_array(tick: int, tick_spacing: int)
    requires
        tick_spacing > 0,
        tick % tick_spacing == 0,
        i32::MIN <= start_tick_index(tick, tick_spacing),
        tick <= i32::MAX,
    ensures
        slot_offset_defined(tick, start_tick_index(tick, tick_spacing), tick_spacing),
        0 <= slot_offset_of(tick, start_tick_index(tick, tick_spacing), tick_spacing) < 64,
        tick == start_tick_index(tick, tick_spacing) + slot_offset_of(
            tick,
            start_tick_index(tick, tick_spacing),
            tick_spacing,
        ) * tick_spacing,
{
    let q = tick / tick_spacing;
    let array = q / 64;
    let start = start_tick_index(tick, tick_spacing);
    lemma_start_tick_index_bounds(tick, tick_spacing);
    crate::utils::arith::lemma_div_bounds(tick, tick_spacing);
    vstd::arithmetic::div_mod::lemma_fundamental_div_mod(tick, tick_spacing);
    assert(tick == q * tick_spacing) by (nonlinear_arith)
        requires
            tick == tick_spacing * q + tick % tick_spacing,
            tick % tick_spacing == 0,
    ;
    assert(start == (array * 64) * tick_spacing) by (nonlinear_arith)
        requires
            start == array * (64 * tick_spacing),
    ;
    lemma_truncated_div_of_multiple(q, tick_spacing);
    lemma_truncated_div_of_multiple(array * 64, tick_spacing);
    let distance = q - array * 64;
    assert(slot_distance(tick, start, tick_spacing) == distance);
    assert(0 <= distance < 64);
    assert(truncated_div(distance, 64) == 0);
    assert(truncated_rem(distance, 64) == distance);
    assert(tick == start + distance * tick_spacing) by (nonlinear_arith)
        requires
            tick == q * tick_spacing,
            start == (array * 64) * tick_spacing,
            distance == q - array * 64,
    ;
    // The quotients fit 32 bits, for they are no greater than the ticks.
    assert(i32::MIN <= array * 64 <= q <= i32::MAX) by (nonlinear_arith)
        requires
            tick == q * tick_spacing,
            start == (array * 64) * tick_spacing,
            i32::MIN <= start,
            tick <= i32::MAX,
            tick_spacing >= 1,
            0 <= q - array * 64,
    ;
}

impl TickArrayState {
    /// The number of bytes of a stored tick array.
    pub const SPACE: usize = ANCHOR_DISCRIMINATOR + 32 + 4 + TICKS_PER_ARRAY * 41 + 1;

    /// An array that no position has touched: no pool, start zero, every
    /// slot untouched.
    pub open spec fn is_blank(self) -> bool {
        &&& self.pool@ == Address::zero()
        &&& self.starting_tick == 0
        &&& forall|i: int| 0 <= i < 64 ==> self.ticks[i] == TickState::untouched()
    }

    /// The slot of a tick in this array.
    pub open spec fn slot_of(self, tick: int, tick_spacing: int) -> int {
        slot_offset_of(tick, self.starting_tick as int, tick_spacing)
    }

    /// Whether a liquidity delta can be applied at a tick: the tick has a
    /// slot in this array, and the update of that slot is defined.
    pub open spec fn update_defined(
        self,
        tick: int,
        tick_spacing: int,
        delta: int,
        is_lower: bool,
    ) -> bool {
        &&& slot_offset_defined(tick, self.starting_tick as int, tick_spacing)
        &&& self.ticks[self.slot_of(tick, tick_spacing)].update_defined(delta, is_lower)
    }

    /// Whether this array is `before` with a liquidity delta applied at a
    /// tick: the slot of the tick is updated, and nothing else differs.
    pub open spec fn is_update_of(
        self,
        before: TickArrayState,
        tick: int,
        tick_spacing: int,
        delta: int,
        is_lower: bool,
    ) -> bool {
        let slot = before.slot_of(tick, tick_spacing);
        &&& self.pool == before.pool
        &&& self.starting_tick == before.starting_tick
        &&& self.bump == before.bump
        &&& self.ticks@ == before.ticks@.update(
            slot,
            before.ticks[slot].updated(delta, is_lower),
        )
    }

    /// An array that no position has touched.
    pub fn new(bump: u8) -> (array: TickArrayState)
        ensures
            array.is_blank(),
            array.bump == bump,
    {
        TickArrayState {
            pool: Address::default(),
            starting_tick: 0,
            ticks: [TickState::new(); 64],
            bump,
        }
    }

    /// The first tick of the array that holds `tick`, or nothing when that
    /// tick is below the 32-bit range.
    pub fn checked_start_tick_idx(tick: i32, tick_spacing: i32) -> (start: Option<i32>)
        requires
            tick_spacing > 0,
        ensures
            match start {
                Some(start) => start == start_tick_index(tick as int, tick_spacing as int),
                None => start_tick_index(tick as int, tick_spacing as int) < i32::MIN,
            },
    {
        proof {
            crate::utils::arith::lemma_div_bounds(tick as int, tick_spacing as int);
            let q = tick as int / tick_spacing as int;
            assert(i32::MIN <= q <= i32::MAX) by (nonlinear_arith)
                requires
                    q * tick_spacing <= tick < q * tick_spacing + tick_spacing,
                    tick_spacing >= 1,
                    i32::MIN <= tick <= i32::MAX,
            ;
        }
        let slot_index: i32 = match tick.checked_div_euclid(tick_spacing) {
            Some(q) => q,
            None => {
                return None;
            },
        };
        let array_index: i32 = match slot_index.checked_div_euclid(64) {
            Some(q) => q,
            None => {
                return None;
            },
        };
        proof {
            lemma_start_tick_index_bounds(tick as int, tick_spacing as int);
            assert(-0x100_0000_0000_0000 <= array_index * tick_spacing <= 0x100_0000_0000_0000)
                by (nonlinear_arith)
                requires
                    -0x200_0000 <= array_index <= 0x200_0000,
                    0 < tick_spacing <= 0x8000_0000,
            ;
        }
        let start: i64 = (array_index as i64) * (tick_spacing as i64) * 64;
        if start < i32::MIN as i64 {
            None
        } else {
            Some(start as i32)
        }
    }

    /// The first tick of the array that holds `tick`.
    pub fn get_start_tick_idx(tick: i32, tick_spacing: i32) -> (start: i32)
        requires
            tick_spacing > 0,
            i32::MIN <= start_tick_index(tick as int, tick_spacing as int),
        ensures
            start == start_tick_index(tick as int, tick_spacing as int),
    {
        match TickArrayState::checked_start_tick_idx(tick, tick_spacing) {
            Some(start) => start,
            None => 0,
        }
    }

    /// The slot of `tick` in the array that starts at `starting_tick`.
    ///
    /// Fails with [`ClmmError::ArithmeticOverflow`] exactly when the tick
    /// has no slot.
    pub fn slot_offset(tick: i32, starting_tick: i32, tick_spacing: i32) -> (result: Result<
        usize,
        ClmmError,
    >)
        ensures
            match result {
                Ok(offset) => {
                    &&& slot_offset_defined(tick as int, starting_tick as int, tick_spacing as int)
                    &&& offset == slot_offset_of(
                        tick as int,
                        starting_tick as int,
                        tick_spacing as int,
                    )
                    &&& offset < 64
                },
                Err(e) => {
                    &&& !slot_offset_defined(
                        tick as int,
                        starting_tick as int,
                        tick_spacing as int,
                    )
                    &&& e == ClmmError::ArithmeticOverflow
                },
            },
    {
        let tick_slots: i32 = match tick.checked_div(tick_spacing) {
            Some(q) => q,
            None => {
                return Err(ClmmError::ArithmeticOverflow);
            },
        };
        let start_slots: i32 = match starting_tick.checked_div(tick_spacing) {
            Some(q) => q,
            None => {
                return Err(ClmmError::ArithmeticOverflow);
            },
        };
        let distance: i32 = match tick_slots.checked_sub(start_slots) {
            Some(d) => d,
            None => {
                return Err(ClmmError::ArithmeticOverflow);
            },
        };
        let offset: i32 = match distance.checked_rem(64) {
            Some(r) => r,
            None => {
                return Err(ClmmError::ArithmeticOverflow);
            },
        };
        if offset < 0 {
            return Err(ClmmError::ArithmeticOverflow);
        }
        Ok(offset as usize)
    }

    /// The slot of `tick`, for reading and writing.
    ///
    /// Fails with [`ClmmError::ArithmeticOverflow`], leaving the array as it
    /// was, exactly when the tick has no slot in this array.
    pub fn get_tick_state_mut(&mut self, tick: i32, tick_spacing: i32) -> (result: Result<
        &mut TickState,
        ClmmError,
    >)
        ensures
            match result {
                Ok(slot) => {
                    let offset = slot_offset_of(
                        tick as int,
                        old(self).starting_tick as int,
                        tick_spacing as int,
                    );
                    &&& slot_offset_defined(
                        tick as int,
                        old(self).starting_tick as int,
                        tick_spacing as int,
                    )
                    &&& *slot == old(self).ticks[offset]
                    &&& final(self).ticks@ == old(self).ticks@.update(offset, *final(slot))
                    &&& final(self).pool == old(self).pool
                    &&& final(self).starting_tick == old(self).starting_tick
                    &&& final(self).bump == old(self).bump
                },
                Err(e) => {
                    &&& !slot_offset_defined(
                        tick as int,
                        old(self).starting_tick as int,
                        tick_spacing as int,
                    )
                    &&& e == ClmmError::ArithmeticOverflow
                    &&& *final(self) == *old(self)
                },
            },
    {
        let offset: usize = TickArrayState::slot_offset(tick, self.starting_tick, tick_spacing)?;
        Ok(&mut self.ticks[offset])
    }

    /// Applies a liquidity delta at a tick of this array.
    ///
    /// Fails with [`ClmmError::ArithmeticOverflow`], leaving the array as it
    /// was, exactly when the update is not defined.
    pub fn update_liquidity_at(
        &mut self,
        tick: i32,
        tick_spacing: i32,
        liquidity_delta: i128,
        is_lower: bool,
    ) -> (result: Result<(), ClmmError>)
        ensures
            match result {
                Ok(_) => {
                    &&& old(self).update_defined(
                        tick as int,
                        tick_spacing as int,
                        liquidity_delta as int,
                        is_lower,
                    )
                    &&& final(self).is_update_of(
                        *old(self),
                        tick as int,
                        tick_spacing as int,
                        liquidity_delta as int,
                        is_lower,
                    )
                },
                Err(e) => {
                    &&& !old(self).update_defined(
                        tick as int,
                        tick_spacing as int,
                        liquidity_delta as int,
                        is_lower,
                    )
                    &&& e == ClmmError::ArithmeticOverflow
                    &&& *final(self) == *old(self)
                },
            },
    {
        let ghost before = *self;
        let slot = self.get_tick_state_mut(tick, tick_spacing)?;
        let updated = slot.update_liquidity(liquidity_delta, is_lower);
        proof {
            if updated is Err {
                assert(self.ticks@ =~= before.ticks@);
                assert(self.ticks =~= before.ticks);
            }
        }
        updated
    }
}

} // verus!
