//! The dynamic fee: a base fee, raised while the pool is out of balance or trades come in bursts.
use vstd::arithmetic::div_mod::{lemma_div_of0, lemma_div_pos_is_pos};
use vstd::prelude::*;
use crate::curve::{lemma_floor, lemma_floor_largest};

verus! {

/// Fees are counted in parts of this many.
pub const FEE_DENOMINATOR: u128 = 10000;

/// The fee of a balanced and quiet pool.
pub const BASE_FEE: u128 = 70;

/// What each full tenth of imbalance adds to the fee.
pub const EXTRA_PER_10PCT: u128 = 30;

/// The most that imbalance and bursts may add together.
pub const MAX_EXTRA: u128 = 200;

/// What a full burst level adds to the fee.
pub const BURST_COEFF: u128 = 40;

/// The smaller of two numbers.
pub open spec fn min(a: int, b: int) -> int {
    if a <= b {
        a
    } else {
        b
    }
}

/// `v`, held down to the largest `u128`.
pub open spec fn saturated(v: int) -> int {
    min(v, u128::MAX as int)
}

/// How far apart two numbers lie.
pub open spec fn distance(a: int, b: int) -> int {
    if a <= b {
        b - a
    } else {
        a - b
    }
}

/// How far the Y reserve lies from one hundred times the X reserve, in thousandths of the
/// Y reserve. The two products are held down to the largest `u128`.
pub open spec fn imbalance_permille(reserve_x: int, reserve_y: int) -> int {
    if reserve_y == 0 {
        0
    } else {
        saturated(1000 * distance(saturated(100 * reserve_x), reserve_y)) / reserve_y
    }
}

/// What imbalance alone adds to the fee: a step for each full tenth, up to the maximum.
pub open spec fn imbalance_extra(reserve_x: int, reserve_y: int) -> int {
    min(imbalance_permille(reserve_x, reserve_y) / 100 * EXTRA_PER_10PCT, MAX_EXTRA as int)
}

/// What the burst level adds to the fee; levels above 100 count as 100.
pub open spec fn burst_extra(burst_level: int) -> int {
    min(burst_level, 100) * BURST_COEFF / 100
}

/// What is added to the base fee.
pub open spec fn total_extra(reserve_x: int, reserve_y: int, burst_level: int) -> int {
    min(imbalance_extra(reserve_x, reserve_y) + burst_extra(burst_level), MAX_EXTRA as int)
}

/// The share of an input that is left after the fee, in parts of `FEE_DENOMINATOR`.
pub open spec fn fee_numerator(reserve_x: int, reserve_y: int, burst_level: int) -> int {
    FEE_DENOMINATOR - BASE_FEE - total_extra(reserve_x, reserve_y, burst_level)
}

/// `a * b`, or the largest `u128` where the product does not fit.
fn mul_saturating(a: u128, b: u128) -> (product: u128)
    ensures
        product == saturated(a * b),
{
    match a.checked_mul(b) {
        Some(product) => product,
        None => u128::MAX,
    }
}

/// The share of an input that is left after the fee, in parts of `FEE_DENOMINATOR`.
pub fn fee_num_for(reserve_x: u128, reserve_y: u128, burst_level: u64) -> (fee_num: u128)
    ensures
        fee_num == fee_numerator(reserve_x as int, reserve_y as int, burst_level as int),
{
    let target_y: u128 = mul_saturating(reserve_x, 100);
    let diff: u128 = if target_y > reserve_y {
        target_y - reserve_y
    } else {
        reserve_y - target_y
    };
    let imb_permille: u128 = if reserve_y == 0 {
        0
    } else {
        mul_saturating(diff, 1000) / reserve_y
    };
    let imb_extra: u128 = mul_saturating(imb_permille / 100, EXTRA_PER_10PCT).min(MAX_EXTRA);
    let burst_extra: u128 = (burst_level as u128).min(100) * BURST_COEFF / 100;
    let total_extra: u128 = (imb_extra + burst_extra).min(MAX_EXTRA);
    FEE_DENOMINATOR.saturating_sub(BASE_FEE).saturating_sub(total_extra)
}

/// Whatever the reserves and the burst level, the fee lies between the base fee and the base fee
/// with the largest surcharge.
pub proof fn law_fee_bounds(reserve_x: u128, reserve_y: u128, burst_level: u64)
    ensures
        FEE_DENOMINATOR - BASE_FEE - MAX_EXTRA <= fee_numerator(
            reserve_x as int,
            reserve_y as int,
            burst_level as int,
        ) <= FEE_DENOMINATOR - BASE_FEE,
{
    if reserve_y != 0 {
        lemma_div_pos_is_pos(
            saturated(1000 * distance(saturated(100 * reserve_x), reserve_y as int)),
            reserve_y as int,
        );
    }
}

/// A higher burst level never lowers the fee.
pub proof fn law_fee_rises_with_bursts(
    reserve_x: u128,
    reserve_y: u128,
    burst_level: u64,
    higher: u64,
)
    requires
        burst_level <= higher,
    ensures
        fee_numerator(reserve_x as int, reserve_y as int, higher as int) <= fee_numerator(
            reserve_x as int,
            reserve_y as int,
            burst_level as int,
        ),
{
}

/// A pool that is further out of balance never charges less.
pub proof fn law_fee_rises_with_imbalance(
    reserve_x: u128,
    reserve_y: u128,
    other_x: u128,
    other_y: u128,
    burst_level: u64,
)
    requires
        imbalance_permille(reserve_x as int, reserve_y as int) <= imbalance_permille(
            other_x as int,
            other_y as int,
        ),
    ensures
        fee_numerator(other_x as int, other_y as int, burst_level as int) <= fee_numerator(
            reserve_x as int,
            reserve_y as int,
            burst_level as int,
        ),
{
}

/// A pool with one hundred Y for each X and no bursts charges the base fee.
pub proof fn law_base_fee(reserve_x: u128)
    requires
        100 * reserve_x <= u128::MAX,
    ensures
        fee_numerator(reserve_x as int, 100 * reserve_x, 0) == FEE_DENOMINATOR - BASE_FEE,
{
    if reserve_x > 0 {
        lemma_div_of0(100 * reserve_x);
    }
}

/// With reserves of 64 bits nothing is held down: the imbalance is the exact one, rounded down.
pub proof fn law_imbalance_of_64_bit_reserves(reserve_x: u64, reserve_y: u64)
    requires
        reserve_y > 0,
    ensures
        imbalance_permille(reserve_x as int, reserve_y as int) == 1000 * distance(
            100 * reserve_x,
            reserve_y as int,
        ) / (reserve_y as int),
{
}

/// Each full tenth by which the Y reserve misses one hundred times the X reserve costs 30 parts
/// in 10000, and each five burst levels up to 100 cost 2 parts, rounded down; together they cost
/// at most 200, on top of 70. Hundredfold X and the thousandfold miss count as the largest `u128`
/// where they exceed it.
pub proof fn law_fee(reserve_x: u128, reserve_y: u128, burst_level: u64, tenths: int)
    requires
        reserve_y > 0,
        ({
            let target = if 100 * reserve_x <= u128::MAX {
                100 * reserve_x
            } else {
                u128::MAX as int
            };
            let miss = if target >= reserve_y {
                target - reserve_y
            } else {
                reserve_y - target
            };
            let thousandfold = if 1000 * miss <= u128::MAX {
                1000 * miss
            } else {
                u128::MAX as int
            };
            tenths * (100 * reserve_y) <= thousandfold < (tenths + 1) * (100 * reserve_y)
        }),
    ensures
        ({
            let counted = if burst_level < 100 {
                burst_level as int
            } else {
                100
            };
            let surcharge = 30 * tenths + 2 * counted / 5;
            fee_numerator(reserve_x as int, reserve_y as int, burst_level as int) == if surcharge
                < 200 {
                9930 - surcharge
            } else {
                9730
            }
        }),
{
    let y = reserve_y as int;
    let full = saturated(1000 * distance(saturated(100 * reserve_x), y));
    let p = full / y;
    lemma_floor(full, y);
    assert((100 * tenths) * y == tenths * (100 * y) && (100 * (tenths + 1)) * y == (tenths + 1) * (
    100 * y)) by (nonlinear_arith);
    lemma_floor_largest(100 * tenths, full, y);
    assert(p < 100 * (tenths + 1)) by (nonlinear_arith)
        requires
            p * y <= full,
            full < (100 * (tenths + 1)) * y,
            0 < y,
    ;
    assert(0 <= tenths) by (nonlinear_arith)
        requires
            0 <= full,
            full < (tenths + 1) * (100 * y),
            0 < y,
    ;
}

/// With reserves of 64 bits a full tenth is a tenth of the Y reserve exactly: each costs 30 parts
/// in 10000, and each five burst levels up to 100 cost 2 parts, rounded down; together they cost
/// at most 200, on top of 70.
pub proof fn law_fee_of_64_bit_reserves(
    reserve_x: u64,
    reserve_y: u64,
    burst_level: u64,
    tenths: int,
)
    requires
        reserve_y > 0,
        ({
            let miss = if 100 * reserve_x >= reserve_y {
                100 * reserve_x - reserve_y
            } else {
                reserve_y - 100 * reserve_x
            };
            tenths * reserve_y <= 10 * miss < (tenths + 1) * reserve_y
        }),
    ensures
        ({
            let counted = if burst_level < 100 {
                burst_level as int
            } else {
                100
            };
            let surcharge = 30 * tenths + 2 * counted / 5;
            fee_numerator(reserve_x as int, reserve_y as int, burst_level as int) == if surcharge
                < 200 {
                9930 - surcharge
            } else {
                9730
            }
        }),
{
    let y = reserve_y as int;
    assert(tenths * (100 * y) == 100 * (tenths * y) && (tenths + 1) * (100 * y) == 100 * ((tenths
        + 1) * y)) by (nonlinear_arith);
    law_fee(reserve_x as u128, reserve_y as u128, burst_level, tenths);
}

/// Without a Y reserve bursts alone raise the fee: each five levels up to 100 cost 2 parts in
/// 10000, rounded down, on top of 70.
pub proof fn law_fee_without_y(reserve_x: u128, burst_level: u64)
    ensures
        fee_numerator(reserve_x as int, 0, burst_level as int) == 9930 - 2 * (if burst_level < 100 {
            burst_level as int
        } else {
            100
        }) / 5,
{
}

} // verus!
