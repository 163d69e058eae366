use prop_amm_strategy::fee::fee_num_for;

#[test]
fn a_balanced_quiet_pool_charges_the_base_fee() {
    assert_eq!(fee_num_for(100, 10_000, 0), 9930);
    assert_eq!(fee_num_for(0, 0, 0), 9930);
}

#[test]
fn each_tenth_of_imbalance_adds_to_the_fee() {
    assert_eq!(fee_num_for(100, 9_000, 0), 9900);
    assert_eq!(fee_num_for(1, 130, 99), 9831);
    assert_eq!(fee_num_for(100, 8_000, 50), 9850);
}

#[test]
fn the_surcharge_is_capped() {
    assert_eq!(fee_num_for(100, 5_000, 0), 9730);
    assert_eq!(fee_num_for(100, 5_000, u64::MAX), 9730);
    assert_eq!(fee_num_for(0, 7, 0), 9730);
}

#[test]
fn burst_levels_above_one_hundred_count_as_one_hundred() {
    assert_eq!(fee_num_for(100, 10_000, 50), 9910);
    assert_eq!(fee_num_for(100, 10_000, 100), 9890);
    assert_eq!(fee_num_for(100, 10_000, 101), 9890);
    assert_eq!(fee_num_for(100, 10_000, u64::MAX), 9890);
    assert_eq!(fee_num_for(100, 8_000, 100), 9830);
}

#[test]
fn an_empty_y_reserve_counts_as_balanced() {
    assert_eq!(fee_num_for(7, 0, 0), 9930);
}

#[test]
fn products_are_held_down_to_the_largest_number() {
    assert_eq!(fee_num_for(u128::MAX, u128::MAX, 0), 9930);
    assert_eq!(fee_num_for(1 << 127, u128::MAX, 100), 9890);
}

#[test]
fn the_fee_rises_with_bursts_and_imbalance() {
    let mut last = 10_000;
    for level in 0..120 {
        let now = fee_num_for(100, 9_000, level);
        assert!(now <= last);
        last = now;
    }
    assert!(fee_num_for(100, 8_000, 10) <= fee_num_for(100, 9_000, 10));
}
