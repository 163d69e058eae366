use prop_amm_strategy::after_swap;
use prop_amm_strategy::burst::after_swap_fits;
use prop_amm_strategy::bytes::{read_u64, write_u64};

fn notice(step: u64) -> Vec<u8> {
    let mut data = vec![0u8; 42];
    data[0] = 2;
    write_u64(&mut data, 34, step);
    data
}

fn storage(last: u64, level: u64) -> [u8; 32] {
    let mut storage = [5u8; 32];
    write_u64(&mut storage, 0, last);
    write_u64(&mut storage, 8, level);
    storage
}

fn next_level(last: u64, level: u64, step: u64) -> u64 {
    let mut kept = storage(last, level);
    after_swap(&notice(step), &mut kept);
    assert_eq!(read_u64(&kept, 0), step);
    assert_eq!(kept[16..], [5u8; 16]);
    read_u64(&kept, 8)
}

#[test]
fn a_quick_trade_raises_the_level() {
    assert_eq!(next_level(100, 0, 100), 25);
    assert_eq!(next_level(100, 0, 119), 25);
    assert_eq!(next_level(100, 60, 105), 85);
    assert_eq!(next_level(100, 90, 105), 100);
    assert_eq!(next_level(100, 100, 105), 100);
}

#[test]
fn a_slow_trade_halves_the_level() {
    assert_eq!(next_level(100, 75, 120), 37);
    assert_eq!(next_level(100, 1, 500), 0);
    assert_eq!(next_level(0, u64::MAX, u64::MAX), u64::MAX / 2);
}

#[test]
fn a_step_before_the_last_one_is_quick() {
    assert_eq!(next_level(100, 10, 3), 35);
    assert_eq!(next_level(u64::MAX, 10, 0), 35);
}

#[test]
fn a_level_out_of_range_comes_down() {
    assert_eq!(next_level(100, 5_000, 105), 100);
    assert_eq!(next_level(100, u64::MAX - 25, 105), 100);
}

#[test]
fn what_does_not_fit_is_told() {
    assert!(after_swap_fits(&notice(105), &storage(100, u64::MAX - 25)));
    assert!(!after_swap_fits(&notice(105), &storage(100, u64::MAX - 24)));
    assert!(after_swap_fits(&notice(120), &storage(100, u64::MAX)));
    assert!(after_swap_fits(&notice(105)[..41], &storage(100, u64::MAX)));
    assert!(after_swap_fits(&notice(105), &storage(100, u64::MAX)[..15]));
}

#[test]
fn a_short_notice_or_storage_changes_nothing() {
    let mut kept = storage(100, 50);
    after_swap(&notice(105)[..41], &mut kept);
    assert_eq!(kept, storage(100, 50));
    after_swap(&notice(105), &mut kept[..15]);
    assert_eq!(kept, storage(100, 50));
}

#[test]
fn the_shortest_storage_is_enough() {
    let mut kept = [0u8; 16];
    after_swap(&notice(7), &mut kept);
    assert_eq!(kept, [7, 0, 0, 0, 0, 0, 0, 0, 25, 0, 0, 0, 0, 0, 0, 0]);
}

#[test]
fn the_level_stays_in_range_from_the_start() {
    let mut kept = [0u8; 1024];
    let mut step = 0;
    for k in 0..500u64 {
        step += k * k % 41;
        after_swap(&notice(step), &mut kept);
        assert!(read_u64(&kept, 8) <= 100);
        assert_eq!(read_u64(&kept, 0), step);
        assert!(kept[16..].iter().all(|byte| *byte == 0));
    }
}

#[test]
fn four_quick_trades_fill_the_level_and_seven_slow_ones_empty_it() {
    let mut kept = [0u8; 16];
    for step in [1, 2, 3, 4] {
        after_swap(&notice(step), &mut kept);
    }
    assert_eq!(read_u64(&kept, 8), 100);
    for (k, level) in [50, 25, 12, 6, 3, 1, 0].into_iter().enumerate() {
        after_swap(&notice(24 + 20 * k as u64), &mut kept);
        assert_eq!(read_u64(&kept, 8), level);
    }
}
