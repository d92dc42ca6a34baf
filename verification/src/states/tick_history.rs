//! The bookkeeping of a tick over its whole history of updates.
use crate::states::ticks::{magnitude, signed_contribution, TickState};
use vstd::prelude::*;

verus! {

/// One update of a tick: the liquidity delta of a position, and whether the
/// tick is the lower bound of that position.
pub struct TickUpdate {
    pub delta: int,
    pub is_lower: bool,
}

/// The tick that a history of updates, applied in order, makes of `start`.
pub open spec fn after_history(start: TickState, history: Seq<TickUpdate>) -> TickState
    decreases history.len(),
{
    if history.len() == 0 {
        start
    } else {
        after_history(start, history.drop_last()).updated(
            history.last().delta,
            history.last().is_lower,
        )
    }
}

/// Whether every update of a history is defined on the tick that the
/// updates before it made.
pub open spec fn history_defined(start: TickState, history: Seq<TickUpdate>) -> bool
    decreases history.len(),
{
    history.len() == 0 || {
        &&& history_defined(start, history.drop_last())
        &&& after_history(start, history.drop_last()).update_defined(
            history.last().delta,
            history.last().is_lower,
        )
    }
}

/// The sum of the magnitudes of the deltas of a history.
pub open spec fn gross_sum(history: Seq<TickUpdate>) -> int
    decreases history.len(),
{
    if history.len() == 0 {
        0
    } else {
        gross_sum(history.drop_last()) + magnitude(history.last().delta)
    }
}

/// The sum of the deltas of a history, each counted positive at a lower
/// bound and negative at an upper bound.
pub open spec fn net_sum(history: Seq<TickUpdate>) -> int
    decreases history.len(),
{
    if history.len() == 0 {
        0
    } else {
        net_sum(history.drop_last()) + signed_contribution(
            history.last().delta,
            history.last().is_lower,
        )
    }
}

/// After any history of defined updates, the gross liquidity of a tick is
/// what it started with plus the sum of the magnitudes of all deltas, its
/// net liquidity is what it started with plus the signed sum of all deltas,
/// and it is initialized if it was or if the history is not empty.
pub proof fn lemma_tick_bookkeeping(start: TickState, history: Seq<TickUpdate>)
    requires
        history_defined(start, history),
    ensures
        after_history(start, history).gross_liquidity == start.gross_liquidity + gross_sum(
            history,
        ),
        after_history(start, history).net_liquidity == start.net_liquidity + net_sum(history),
        after_history(start, history).initialized == (start.initialized || history.len() > 0),
    decreases history.len(),
{
    if history.len() > 0 {
        lemma_tick_bookkeeping(start, history.drop_last());
    }
}

/// On a tick that no update had touched, the gross liquidity is the sum of
/// the magnitudes of all deltas ever applied, and the net liquidity is
/// their signed sum.
pub proof fn lemma_untouched_tick_bookkeeping(history: Seq<TickUpdate>)
    requires
        history_defined(TickState::untouched(), history),
    ensures
        after_history(TickState::untouched(), history).gross_liquidity == gross_sum(history),
        after_history(TickState::untouched(), history).net_liquidity == net_sum(history),
{
    lemma_tick_bookkeeping(TickState::untouched(), history);
}

/// The gross liquidity never shrinks, and once set the initialized bit
/// stays set.
pub proof fn lemma_gross_liquidity_grows(start: TickState, history: Seq<TickUpdate>)
    requires
        history_defined(start, history),
    ensures
        start.gross_liquidity <= after_history(start, history).gross_liquidity,
        start.initialized ==> after_history(start, history).initialized,
    decreases history.len(),
{
    lemma_tick_bookkeeping(start, history);
    lemma_gross_sum_nonnegative(history);
}

/// A sum of magnitudes is not negative.
pub proof fn lemma_gross_sum_nonnegative(history: Seq<TickUpdate>)
    ensures
        0 <= gross_sum(history),
    decreases history.len(),
{
    if history.len() > 0 {
        lemma_gross_sum_nonnegative(history.drop_last());
    }
}

/// The sums of a history that continues another are the sums of the two.
pub proof fn lemma_sums_of_concatenation(first: Seq<TickUpdate>, second: Seq<TickUpdate>)
    ensures
        gross_sum(first + second) == gross_sum(first) + gross_sum(second),
        net_sum(first + second) == net_sum(first) + net_sum(second),
    decreases second.len(),
{
    if second.len() == 0 {
        assert(first + second =~= first);
    } else {
        assert((first + second).drop_last() =~= first + second.drop_last());
        lemma_sums_of_concatenation(first, second.drop_last());
    }
}

/// The updates that a position leaves at one of its bounds when it adds a
/// liquidity and later removes the same liquidity.
pub open spec fn added_then_removed(liquidity: int, is_lower: bool) -> Seq<TickUpdate> {
    seq![
        TickUpdate { delta: liquidity, is_lower },
        TickUpdate { delta: -liquidity, is_lower },
    ]
}

/// A liquidity that a position adds at a tick and later removes leaves the
/// net liquidity of the tick as it was and the gross liquidity greater by
/// twice the liquidity: only live positions count in the net liquidity.
pub proof fn lemma_added_then_removed_cancels(liquidity: int, is_lower: bool)
    requires
        0 <= liquidity,
    ensures
        net_sum(added_then_removed(liquidity, is_lower)) == 0,
        gross_sum(added_then_removed(liquidity, is_lower)) == 2 * liquidity,
{
    let h = added_then_removed(liquidity, is_lower);
    assert(h.drop_last() =~= seq![TickUpdate { delta: liquidity, is_lower }]);
    assert(h.drop_last().drop_last() =~= Seq::<TickUpdate>::empty());
    reveal_with_fuel(net_sum, 3);
    reveal_with_fuel(gross_sum, 3);
}

} // verus!
