//! Conservation: a position that is opened and closed at one price pays
//! back exactly what it took.
use crate::instructions::close_position::{
    close_position_error, is_closed, may_close, ClosePosition,
};
use crate::instructions::open_position::{is_opened, open_position_error, OpenPosition};
use crate::instructions::shared_functions::claimed_array;
use crate::states::ticks::TickArrayState;
use vstd::prelude::*;

verus! {

/// The records with which a position is closed right after it was opened:
/// everything as the opening left it.
pub open spec fn closing_after(opened: OpenPosition) -> ClosePosition {
    ClosePosition {
        signer: opened.signer,
        pool_key: opened.pool_key,
        pool: opened.pool,
        lower_tick_array: opened.lower_tick_array,
        upper_tick_array: opened.upper_tick_array,
        position: opened.position,
    }
}

/// The gross liquidity at the slot of a tick.
pub open spec fn gross_at(array: TickArrayState, tick: int, tick_spacing: int) -> int {
    array.ticks[array.slot_of(tick, tick_spacing)].gross_liquidity as int
}

/// The net liquidity at the slot of a tick.
pub open spec fn net_at(array: TickArrayState, tick: int, tick_spacing: int) -> int {
    array.ticks[array.slot_of(tick, tick_spacing)].net_liquidity as int
}

/// A position that was just opened may be closed by its owner, and the
/// closing fails only if the gross liquidity of one of the two ticks cannot
/// take the liquidity a second time.
pub proof fn lemma_opened_position_can_close(
    before: OpenPosition,
    opened: OpenPosition,
    upper_tick: i32,
    lower_tick: i32,
    tick_array_lower_start_index: i32,
    tick_array_upper_start_index: i32,
    liquidity_amount: u128,
    amount_0: u64,
    amount_1: u64,
)
    requires
        before.pool.wf(),
        open_position_error(
            before,
            upper_tick,
            lower_tick,
            tick_array_lower_start_index,
            tick_array_upper_start_index,
            liquidity_amount,
        ) is None,
        is_opened(
            before,
            opened,
            upper_tick,
            lower_tick,
            tick_array_lower_start_index,
            tick_array_upper_start_index,
            liquidity_amount,
            amount_0,
            amount_1,
        ),
    ensures
        may_close(closing_after(opened)),
        closing_after(opened).pool.wf(),
        close_position_error(
            closing_after(opened),
            opened.position->0,
            upper_tick,
            lower_tick,
        ) is None <==> {
            &&& gross_at(
                opened.lower_tick_array,
                lower_tick as int,
                before.pool.tick_spacing as int,
            ) + liquidity_amount <= u128::MAX
            &&& gross_at(
                opened.upper_tick_array,
                upper_tick as int,
                before.pool.tick_spacing as int,
            ) + liquidity_amount <= u128::MAX
        },
{
    let spacing = before.pool.tick_spacing as int;
    let lower0 = claimed_array(
        before.lower_tick_array,
        before.pool_key,
        tick_array_lower_start_index,
    );
    let upper0 = claimed_array(
        before.upper_tick_array,
        before.pool_key,
        tick_array_upper_start_index,
    );
    let lower_slot = lower0.slot_of(lower_tick as int, spacing);
    let upper_slot = upper0.slot_of(upper_tick as int, spacing);
    assert(opened.lower_tick_array.ticks[lower_slot] == opened.lower_tick_array.ticks@[lower_slot]);
    assert(opened.upper_tick_array.ticks[upper_slot] == opened.upper_tick_array.ticks@[upper_slot]);
}

/// Conservation across open and close: a position that is opened and then
/// closed, with nothing in between, is paid back exactly the amounts of
/// both tokens that it paid in, so that no token is created or lost; the
/// pool is as it was before the opening; and at both ticks the net
/// liquidity is as it was, while the gross liquidity has grown by twice the
/// liquidity of the position.
pub proof fn lemma_open_then_close_conserves(
    before: OpenPosition,
    opened: OpenPosition,
    closed: ClosePosition,
    upper_tick: i32,
    lower_tick: i32,
    tick_array_lower_start_index: i32,
    tick_array_upper_start_index: i32,
    liquidity_amount: u128,
    paid_0: u64,
    paid_1: u64,
    returned_0: u64,
    returned_1: u64,
)
    requires
        before.pool.wf(),
        open_position_error(
            before,
            upper_tick,
            lower_tick,
            tick_array_lower_start_index,
            tick_array_upper_start_index,
            liquidity_amount,
        ) is None,
        is_opened(
            before,
            opened,
            upper_tick,
            lower_tick,
            tick_array_lower_start_index,
            tick_array_upper_start_index,
            liquidity_amount,
            paid_0,
            paid_1,
        ),
        close_position_error(
            closing_after(opened),
            opened.position->0,
            upper_tick,
            lower_tick,
        ) is None,
        is_closed(closing_after(opened), closed, upper_tick, lower_tick, returned_0, returned_1),
    ensures
        returned_0 == paid_0,
        returned_1 == paid_1,
        closed.pool == before.pool,
        closed.position is None,
        net_at(closed.lower_tick_array, lower_tick as int, before.pool.tick_spacing as int)
            == net_at(
            claimed_array(
                before.lower_tick_array,
                before.pool_key,
                tick_array_lower_start_index,
            ),
            lower_tick as int,
            before.pool.tick_spacing as int,
        ),
        net_at(closed.upper_tick_array, upper_tick as int, before.pool.tick_spacing as int)
            == net_at(
            claimed_array(
                before.upper_tick_array,
                before.pool_key,
                tick_array_upper_start_index,
            ),
            upper_tick as int,
            before.pool.tick_spacing as int,
        ),
        gross_at(closed.lower_tick_array, lower_tick as int, before.pool.tick_spacing as int)
            == gross_at(
            claimed_array(
                before.lower_tick_array,
                before.pool_key,
                tick_array_lower_start_index,
            ),
            lower_tick as int,
            before.pool.tick_spacing as int,
        ) + 2 * liquidity_amount,
        gross_at(closed.upper_tick_array, upper_tick as int, before.pool.tick_spacing as int)
            == gross_at(
            claimed_array(
                before.upper_tick_array,
                before.pool_key,
                tick_array_upper_start_index,
            ),
            upper_tick as int,
            before.pool.tick_spacing as int,
        ) + 2 * liquidity_amount,
{
    let spacing = before.pool.tick_spacing as int;
    let lower0 = claimed_array(
        before.lower_tick_array,
        before.pool_key,
        tick_array_lower_start_index,
    );
    let upper0 = claimed_array(
        before.upper_tick_array,
        before.pool_key,
        tick_array_upper_start_index,
    );
    let lower_slot = lower0.slot_of(lower_tick as int, spacing);
    let upper_slot = upper0.slot_of(upper_tick as int, spacing);
    assert(opened.lower_tick_array.ticks[lower_slot] == opened.lower_tick_array.ticks@[lower_slot]);
    assert(opened.upper_tick_array.ticks[upper_slot] == opened.upper_tick_array.ticks@[upper_slot]);
    assert(closed.lower_tick_array.ticks[lower_slot] == closed.lower_tick_array.ticks@[lower_slot]);
    assert(closed.upper_tick_array.ticks[upper_slot] == closed.upper_tick_array.ticks@[upper_slot]);
    assert(closed.pool == before.pool);
}

} // verus!
