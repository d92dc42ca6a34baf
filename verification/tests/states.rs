use clmm::errors::ClmmError;
use clmm::states::address::Address;
use clmm::states::pool::Pool;
use clmm::states::position::Position;
use clmm::states::ticks::{TickArrayState, TickState};
use clmm::utils::math::Q96;

fn address(first: u8, last: u8) -> Address {
    let mut bytes = [0u8; 32];
    bytes[0] = first;
    bytes[31] = last;
    Address::new(bytes)
}

#[test]
fn addresses_compare_byte_by_byte() {
    assert!(address(1, 0).is_before(&address(2, 0)));
    assert!(!address(2, 0).is_before(&address(1, 0)));
    assert!(address(1, 9).is_before(&address(2, 0)));
    assert!(address(1, 0).is_before(&address(1, 1)));
    assert!(!address(1, 1).is_before(&address(1, 1)));
    assert!(address(0, 255).is_before(&address(1, 0)));
}

#[test]
fn addresses_are_equal_when_all_bytes_are() {
    assert!(address(3, 4) == address(3, 4));
    assert!(address(3, 4) != address(3, 5));
    assert!(address(3, 4) != address(4, 4));
    assert!(Address::default() == address(0, 0));
    assert_eq!(Address::default().bytes, [0u8; 32]);
}

#[test]
fn record_sizes() {
    assert_eq!(Pool::SPACE, 177);
    assert_eq!(Position::SPACE, 97);
    assert_eq!(TickState::SPACE, 41);
    assert_eq!(TickArrayState::SPACE, 8 + 32 + 4 + 64 * 41 + 1);
}

#[test]
fn tick_update_at_a_lower_bound_adds_to_net() {
    let mut tick = TickState::new();
    assert_eq!(tick.update_liquidity(1000, true), Ok(()));
    assert_eq!(
        tick,
        TickState { initialized: true, gross_liquidity: 1000, net_liquidity: 1000 }
    );
    assert_eq!(tick.update_liquidity(-400, true), Ok(()));
    assert_eq!(
        tick,
        TickState { initialized: true, gross_liquidity: 1400, net_liquidity: 600 }
    );
}

#[test]
fn tick_update_at_an_upper_bound_subtracts_from_net() {
    let mut tick = TickState::new();
    assert_eq!(tick.update_liquidity(1000, false), Ok(()));
    assert_eq!(
        tick,
        TickState { initialized: true, gross_liquidity: 1000, net_liquidity: -1000 }
    );
    assert_eq!(tick.update_liquidity(-1000, false), Ok(()));
    assert_eq!(
        tick,
        TickState { initialized: true, gross_liquidity: 2000, net_liquidity: 0 }
    );
}

#[test]
fn tick_update_of_zero_only_initializes() {
    let mut tick = TickState::new();
    assert!(!tick.initialized);
    assert_eq!(tick.update_liquidity(0, true), Ok(()));
    assert_eq!(
        tick,
        TickState { initialized: true, gross_liquidity: 0, net_liquidity: 0 }
    );
}

#[test]
fn tick_update_fails_on_gross_overflow_and_leaves_the_tick() {
    let before = TickState { initialized: true, gross_liquidity: u128::MAX - 5, net_liquidity: 0 };
    let mut tick = before;
    assert_eq!(
        tick.update_liquidity(6, true),
        Err(ClmmError::ArithmeticOverflow)
    );
    assert_eq!(tick, before);
    assert_eq!(tick.update_liquidity(5, true), Ok(()));
    assert_eq!(tick.gross_liquidity, u128::MAX);
}

#[test]
fn tick_update_fails_on_net_overflow_and_leaves_the_tick() {
    let before = TickState { initialized: false, gross_liquidity: 0, net_liquidity: i128::MAX };
    let mut tick = before;
    assert_eq!(
        tick.update_liquidity(1, true),
        Err(ClmmError::ArithmeticOverflow)
    );
    assert_eq!(tick, before);
    let low = TickState { initialized: false, gross_liquidity: 0, net_liquidity: i128::MIN };
    let mut tick = low;
    assert_eq!(
        tick.update_liquidity(1, false),
        Err(ClmmError::ArithmeticOverflow)
    );
    assert_eq!(tick, low);
}

#[test]
fn tick_update_takes_the_most_negative_delta() {
    let mut tick = TickState::new();
    assert_eq!(tick.update_liquidity(i128::MIN, true), Ok(()));
    assert_eq!(tick.gross_liquidity, 1u128 << 127);
    assert_eq!(tick.net_liquidity, i128::MIN);
    let mut tick = TickState::new();
    assert_eq!(
        tick.update_liquidity(i128::MIN, false),
        Err(ClmmError::ArithmeticOverflow)
    );
}

#[test]
fn tick_history_sums_magnitudes_and_signed_deltas() {
    let history: [(i128, bool); 6] = [
        (500, true),
        (300, false),
        (-200, true),
        (700, true),
        (-300, false),
        (-1000, true),
    ];
    let mut tick = TickState::new();
    let mut gross: u128 = 0;
    let mut net: i128 = 0;
    for (delta, is_lower) in history {
        assert_eq!(tick.update_liquidity(delta, is_lower), Ok(()));
        gross += delta.unsigned_abs();
        net += if is_lower { delta } else { -delta };
        assert_eq!(tick.gross_liquidity, gross);
        assert_eq!(tick.net_liquidity, net);
        assert!(tick.initialized);
    }
    assert_eq!(tick.gross_liquidity, 3000);
    assert_eq!(tick.net_liquidity, 0);
}

#[test]
fn start_tick_index_rounds_down_to_a_multiple_of_the_array_width() {
    assert_eq!(TickArrayState::get_start_tick_idx(0, 10), 0);
    assert_eq!(TickArrayState::get_start_tick_idx(10, 10), 0);
    assert_eq!(TickArrayState::get_start_tick_idx(639, 10), 0);
    assert_eq!(TickArrayState::get_start_tick_idx(640, 10), 640);
    assert_eq!(TickArrayState::get_start_tick_idx(57, 10), 0);
    assert_eq!(TickArrayState::get_start_tick_idx(-1, 10), -640);
    assert_eq!(TickArrayState::get_start_tick_idx(-10, 10), -640);
    assert_eq!(TickArrayState::get_start_tick_idx(-640, 10), -640);
    assert_eq!(TickArrayState::get_start_tick_idx(-641, 10), -1280);
    assert_eq!(TickArrayState::get_start_tick_idx(443636, 1), 443584);
    assert_eq!(TickArrayState::get_start_tick_idx(-443636, 1), -443648);
}

#[test]
fn checked_start_tick_index_reports_what_does_not_fit() {
    assert_eq!(TickArrayState::checked_start_tick_idx(-10, 10), Some(-640));
    assert_eq!(TickArrayState::checked_start_tick_idx(i32::MIN, 1), Some(i32::MIN));
    assert_eq!(TickArrayState::checked_start_tick_idx(-1, 1 << 30), None);
    assert_eq!(TickArrayState::checked_start_tick_idx(5, 1 << 30), Some(0));
}

#[test]
fn slot_offset_counts_slots_from_the_start_of_the_array() {
    assert_eq!(TickArrayState::slot_offset(0, 0, 10), Ok(0));
    assert_eq!(TickArrayState::slot_offset(10, 0, 10), Ok(1));
    assert_eq!(TickArrayState::slot_offset(630, 0, 10), Ok(63));
    assert_eq!(TickArrayState::slot_offset(-10, -640, 10), Ok(63));
    assert_eq!(TickArrayState::slot_offset(-640, -640, 10), Ok(0));
    assert_eq!(TickArrayState::slot_offset(640, 0, 10), Ok(0));
    assert_eq!(TickArrayState::slot_offset(57, 0, 10), Ok(5));
}

#[test]
fn slot_offset_refuses_what_has_no_slot() {
    assert_eq!(
        TickArrayState::slot_offset(-10, 0, 10),
        Err(ClmmError::ArithmeticOverflow)
    );
    assert_eq!(
        TickArrayState::slot_offset(10, 0, 0),
        Err(ClmmError::ArithmeticOverflow)
    );
    assert_eq!(
        TickArrayState::slot_offset(i32::MIN, 0, -1),
        Err(ClmmError::ArithmeticOverflow)
    );
    assert_eq!(
        TickArrayState::slot_offset(i32::MIN, i32::MAX, 1),
        Err(ClmmError::ArithmeticOverflow)
    );
    assert_eq!(
        TickArrayState::slot_offset(10, 6400, 10),
        Err(ClmmError::ArithmeticOverflow)
    );
}

#[test]
fn tick_state_is_reached_through_the_array() {
    let mut array = TickArrayState::new(7);
    assert_eq!(array.bump, 7);
    assert_eq!(array.starting_tick, 0);
    assert!(array.pool == Address::default());
    {
        let slot = array.get_tick_state_mut(30, 10).unwrap();
        assert_eq!(*slot, TickState::new());
        slot.update_liquidity(55, true).unwrap();
    }
    assert_eq!(
        array.ticks[3],
        TickState { initialized: true, gross_liquidity: 55, net_liquidity: 55 }
    );
    assert_eq!(array.ticks[2], TickState::new());
    assert_eq!(array.ticks[4], TickState::new());
    assert!(array.get_tick_state_mut(-10, 10).is_err());
    assert_eq!(
        array.get_tick_state_mut(30, 0).err(),
        Some(ClmmError::ArithmeticOverflow)
    );
}

#[test]
fn array_update_changes_one_slot_or_nothing() {
    let mut array = TickArrayState::new(0);
    array.starting_tick = -640;
    assert_eq!(array.update_liquidity_at(-10, 10, 1000, false), Ok(()));
    assert_eq!(
        array.ticks[63],
        TickState { initialized: true, gross_liquidity: 1000, net_liquidity: -1000 }
    );
    let before = array;
    assert_eq!(
        array.update_liquidity_at(-10, 10, i128::MIN, true),
        Err(ClmmError::ArithmeticOverflow)
    );
    assert_eq!(array.ticks, before.ticks);
    assert_eq!(
        array.update_liquidity_at(-650, 10, 5, true),
        Err(ClmmError::ArithmeticOverflow)
    );
    assert_eq!(array.ticks, before.ticks);
}

#[test]
fn pool_well_formedness_is_checked() {
    let pool = Pool {
        token_0: address(1, 0),
        token_1: address(2, 0),
        token_vault_0: address(3, 0),
        token_vault_1: address(4, 0),
        global_liquidity: 0,
        sqrt_price_x96: Q96,
        current_tick: 0,
        tick_spacing: 10,
        bump: 0,
    };
    assert!(pool.is_well_formed());
    assert!(!Pool { current_tick: 1, ..pool }.is_well_formed());
    assert!(!Pool { tick_spacing: 0, ..pool }.is_well_formed());
    assert!(!Pool { sqrt_price_x96: 0, ..pool }.is_well_formed());
    assert!(!Pool { token_1: address(1, 0), ..pool }.is_well_formed());
    assert!(!Pool { token_0: address(2, 0), token_1: address(1, 0), ..pool }.is_well_formed());
}

#[test]
fn every_multiple_of_the_spacing_has_a_slot_in_its_array() {
    for tick_spacing in [1, 7, 10, 60, 200] {
        let mut tick = -443636 / tick_spacing * tick_spacing;
        let mut checked = 0;
        while tick <= 443636 && checked < 5000 {
            let start = TickArrayState::get_start_tick_idx(tick, tick_spacing);
            assert!(start <= tick && tick < start + 64 * tick_spacing);
            assert_eq!(start.rem_euclid(64 * tick_spacing), 0);
            let offset = TickArrayState::slot_offset(tick, start, tick_spacing).unwrap();
            assert_eq!(start + offset as i32 * tick_spacing, tick);
            tick += tick_spacing * 37;
            checked += 1;
        }
    }
}
