use prop_amm_strategy::compute_swap;

const UNIT: u64 = 1_000_000_000;

fn request(side: u8, input: u64, reserve_x: u64, reserve_y: u64, level: u64) -> Vec<u8> {
    let mut data = vec![side];
    data.extend_from_slice(&input.to_le_bytes());
    data.extend_from_slice(&reserve_x.to_le_bytes());
    data.extend_from_slice(&reserve_y.to_le_bytes());
    let mut storage = [0u8; 1024];
    storage[8..16].copy_from_slice(&level.to_le_bytes());
    data.extend_from_slice(&storage);
    data
}

fn quote(side: u8, input: u64, reserve_x: u64, reserve_y: u64, level: u64) -> u64 {
    compute_swap(&request(side, input, reserve_x, reserve_y, level))
}

fn slope_falls(side: u8, x: u64, y: u64, a: u64, b: u64, c: u64, d: u64, tolerance: i128) -> bool {
    let f = |input: u64| quote(side, input, x, y, 0) as i128;
    let (prev_dx, dx) = ((b - a) as i128, (d - c) as i128);
    (f(b) - f(a) + tolerance) * dx >= (f(d) - f(c) - tolerance) * prev_dx
}

#[test]
fn buying_x_from_a_balanced_pool() {
    assert_eq!(quote(0, UNIT, 100 * UNIT, 10_000 * UNIT, 0), 9_929_014);
    assert_eq!(quote(0, 1_000 * UNIT, 100 * UNIT, 10_000 * UNIT, 0), 9_033_021_013);
}

#[test]
fn selling_x_to_a_balanced_pool() {
    assert_eq!(quote(1, UNIT, 100 * UNIT, 10_000 * UNIT, 0), 98_323_646_193);
}

#[test]
fn imbalance_and_bursts_lower_the_output() {
    assert_eq!(quote(0, UNIT, 100 * UNIT, 10_000 * UNIT, 100), 9_889_021);
    assert_eq!(quote(1, UNIT, 100 * UNIT, 8_000 * UNIT, 50), 78_031_390_800);
    assert_eq!(quote(0, 123_456_789, 7 * UNIT, 350 * UNIT, 3), 2_401_644);
}

#[test]
fn the_largest_amounts_do_not_overflow() {
    let m = u64::MAX;
    assert_eq!(quote(0, m, m, m, 0), 9_097_152_551_302_277_608);
    assert_eq!(quote(1, m, m, m, m), 9_097_152_551_302_277_608);
}

#[test]
fn tiny_pools_round_down() {
    assert_eq!(quote(1, 5, 1, 1_000_000, 0), 800_000);
    assert_eq!(quote(0, 1_000_000_000 * UNIT, 1, 1, 0), 0);
    assert_eq!(quote(1, 1, 1_000_000, 100_000_000, 0), 0);
    assert_eq!(quote(1, 2, 1_000_000, 100_000_000, 0), 99);
}

#[test]
fn an_empty_reserve_is_quoted_zero() {
    assert_eq!(quote(0, UNIT, 0, 10_000 * UNIT, 0), 0);
    assert_eq!(quote(1, UNIT, 100 * UNIT, 0, 0), 0);
}

#[test]
fn an_unknown_side_is_quoted_zero() {
    assert_eq!(quote(2, UNIT, 100 * UNIT, 10_000 * UNIT, 0), 0);
    assert_eq!(quote(255, UNIT, 100 * UNIT, 10_000 * UNIT, 0), 0);
}

#[test]
fn a_short_request_is_quoted_zero() {
    let data = request(0, UNIT, 100 * UNIT, 10_000 * UNIT, 0);
    assert_eq!(data.len(), 1049);
    assert_eq!(compute_swap(&data[..1048]), 0);
    assert_eq!(compute_swap(&data[..25]), 0);
    assert_eq!(compute_swap(&[]), 0);
}

#[test]
fn bytes_after_a_request_are_ignored() {
    let mut data = request(0, UNIT, 100 * UNIT, 10_000 * UNIT, 100);
    data.extend_from_slice(&[255u8; 40]);
    assert_eq!(compute_swap(&data), 9_889_021);
}

#[test]
fn the_level_alone_counts_of_the_storage() {
    let mut data = request(0, UNIT, 100 * UNIT, 10_000 * UNIT, 100);
    for k in 25..33 {
        data[k] = 255;
    }
    for k in 41..1049 {
        data[k] = 255;
    }
    assert_eq!(compute_swap(&data), 9_889_021);
}

#[test]
fn paying_more_never_buys_less() {
    for side in 0..2 {
        let mut last = 0;
        for k in 0..400 {
            let now = quote(side, k * 7_654_321, 3 * UNIT, 410 * UNIT, 30);
            assert!(now >= last);
            last = now;
        }
    }
}

#[test]
fn returns_diminish() {
    assert_eq!(quote(1, 1_000_000, 100 * UNIT, 10_000 * UNIT, 0), 99_299_013);
    assert_eq!(quote(1, 2_000_000, 100 * UNIT, 10_000 * UNIT, 0), 198_596_055);
    assert_eq!(quote(1, 3_000_000, 100 * UNIT, 10_000 * UNIT, 0), 297_891_125);
    for k in 0..300u64 {
        let a = k * 1_234_567;
        let (b, c, d) = (a + 1_000_000, a + 1_100_000, a + 2_200_000);
        assert!(slope_falls(1, 100 * UNIT, 10_000 * UNIT, a, b, c, d, 1));
        assert!(slope_falls(0, 100 * UNIT, 10_000 * UNIT, a, b, c, d, 4));
        assert!(slope_falls(1, 3, 1_000, k, k + 1, k + 2, k + 4, 335));
    }
}

#[test]
fn whole_steps_gain_at_most_one_unit_more() {
    for side in 0..2 {
        for (x, y) in [(10_000 * UNIT, 1_000_000 * UNIT), (3, 1_000), (100 * UNIT, 10_000 * UNIT)] {
            for k in 0..100u64 {
                let (a, step) = (k * 12_347, 10_000 * (1 + k % 7));
                let f = |input: u64| quote(side, input, x, y, k) as i128;
                let first = f(a + step) - f(a);
                let second = f(a + 2 * step) - f(a + step);
                assert!(second <= first + 1);
                let c = a + step + k;
                let longer = f(c + 3 * step) - f(c);
                assert!((first + 1) * 3 > longer - 1);
            }
        }
    }
}

#[test]
fn rounding_can_outweigh_the_bend_of_a_deep_pool() {
    let (x, y) = (10_000 * UNIT, 1_000_000 * UNIT);
    let (a, b, d) = (71_823_549, 72_824_586, 73_825_404);
    assert_eq!(quote(1, a, x, y, 0), 7_132_027_533);
    assert_eq!(quote(1, b, x, y, 0), 7_231_429_006);
    assert_eq!(quote(1, d, x, y, 0), 7_330_808_858);
    assert!(!slope_falls(1, x, y, a, b, b, d, 4));
    assert!(slope_falls(1, x, y, a, b, b, d, 101));
}

#[test]
fn a_trade_keeps_the_product_and_never_drains_the_pool() {
    for input in [1, 99, UNIT, 1_000 * UNIT, u64::MAX] {
        let (x, y) = (100 * UNIT, 10_000 * UNIT);
        let bought = quote(0, input, x, y, 0);
        assert!(bought < x);
        let product = (y as u128 + input as u128) * (x - bought) as u128;
        assert!(product >= x as u128 * y as u128);
        assert!(bought as u128 * y as u128 <= x as u128 * input as u128);
    }
}

#[test]
fn nothing_is_paid_for_nothing() {
    assert_eq!(quote(0, 0, 100 * UNIT, 10_000 * UNIT, 0), 0);
    assert_eq!(quote(1, 0, 100 * UNIT, 10_000 * UNIT, 0), 0);
}

#[test]
fn bursts_never_pay() {
    let mut last = u64::MAX;
    for level in 0..110 {
        let now = quote(1, UNIT, 100 * UNIT, 10_000 * UNIT, level);
        assert!(now <= last);
        last = now;
    }
}

#[test]
fn trading_back_gains_nothing() {
    let (x, y, paid) = (100 * UNIT, 10_000 * UNIT, 1_000 * UNIT);
    let bought = quote(0, paid, x, y, 0);
    let back = quote(1, bought, x - bought, y + paid, 0);
    assert_eq!(back, 984_585_366_258);
    assert!(back <= paid);
}
