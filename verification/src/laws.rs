//! What holds of every quote.
use vstd::arithmetic::div_mod::{lemma_div_of0, lemma_div_pos_is_pos};
use vstd::prelude::*;
use crate::burst::level;
use crate::bytes::{law_read_back, lemma_le_value_local, lemma_u64_at_bound, le_value, with_u64};
use crate::curve::{
    bend_outweighs, curve_output, lemma_curve_below_reserve, lemma_curve_monotone, lemma_floor,
    lemma_long_segments_outweigh, lemma_net_input, lemma_net_slope_falls, lemma_output_is_rest,
    lemma_slack_outweighs, lemma_slope_falls, lemma_tolerance_grows, lemma_whole_step, net_input, rounding_slack, scaled_reserve, slope_falls,
};
use crate::fee::{
    fee_numerator, law_fee_bounds, law_fee_of_64_bit_reserves, law_fee_rises_with_bursts,
    FEE_DENOMINATOR,
};
use crate::swap::{quote, swap_output, SWAP_REQUEST_SIZE};

verus! {

/// The shortest segment between sampled inputs that counts for the shape of the curve.
pub const SHAPE_SEGMENT: u64 = 1_000_000;

/// How far the output gained over a segment may be off for the shape of the curve.
pub const SHAPE_TOLERANCE: u64 = 4;

/// An input reserve, with what is added to it, up to which the curve keeps its shape at any
/// price.
pub const SHAPE_RESERVE: u64 = 940_000_000_000;

/// The reserve that a trade on `side` adds to.
pub open spec fn reserve_in(side: u8, reserve_x: int, reserve_y: int) -> int {
    if side == 0 {
        reserve_y
    } else {
        reserve_x
    }
}

/// The reserve that a trade on `side` draws from.
pub open spec fn reserve_out(side: u8, reserve_x: int, reserve_y: int) -> int {
    if side == 0 {
        reserve_x
    } else {
        reserve_y
    }
}

/// A request is quoted by its fields: one whose input amount is replaced is quoted as the same
/// request with that amount.
pub proof fn law_quote_by_input(data: Seq<u8>, input: u64)
    requires
        data.len() >= SWAP_REQUEST_SIZE,
    ensures
        quote(with_u64(data, 1, input as nat)) == swap_output(
            data[0],
            input as int,
            le_value(data, 9, 8) as int,
            le_value(data, 17, 8) as int,
            le_value(data, 33, 8) as int,
        ),
{
    let replaced = with_u64(data, 1, input as nat);
    law_read_back(data, 1, input);
    lemma_le_value_local(replaced, data, 9, 8);
    lemma_le_value_local(replaced, data, 17, 8);
    lemma_le_value_local(replaced, data, 33, 8);
}

/// The burst level that a quote goes by is the one that the detector keeps in the storage that
/// the request carries.
pub proof fn law_quote_reads_level(data: Seq<u8>)
    requires
        data.len() >= SWAP_REQUEST_SIZE,
    ensures
        quote(data) == swap_output(
            data[0],
            le_value(data, 1, 8) as int,
            le_value(data, 9, 8) as int,
            le_value(data, 17, 8) as int,
            level(data.subrange(25, SWAP_REQUEST_SIZE as int)) as int,
        ),
{
    reveal_with_fuel(le_value, 9);
}

/// Of two requests that differ in the input amount alone, the one that pays more is never quoted
/// less.
pub proof fn law_monotone_requests(data: Seq<u8>, input: u64, more: u64)
    requires
        input <= more,
    ensures
        quote(with_u64(data, 1, input as nat)) <= quote(with_u64(data, 1, more as nat)),
{
    if data.len() >= SWAP_REQUEST_SIZE {
        law_quote_by_input(data, input);
        law_quote_by_input(data, more);
        lemma_u64_at_bound(data, 9);
        lemma_u64_at_bound(data, 17);
        lemma_u64_at_bound(data, 33);
        law_monotone(
            data[0],
            le_value(data, 9, 8) as u64,
            le_value(data, 17, 8) as u64,
            le_value(data, 33, 8) as u64,
            input,
            more,
        );
    }
}

/// Paying more never buys less.
pub proof fn law_monotone(
    side: u8,
    reserve_x: u64,
    reserve_y: u64,
    burst_level: u64,
    input: u64,
    more: u64,
)
    requires
        input <= more,
    ensures
        swap_output(
            side,
            input as int,
            reserve_x as int,
            reserve_y as int,
            burst_level as int,
        ) <= swap_output(
            side,
            more as int,
            reserve_x as int,
            reserve_y as int,
            burst_level as int,
        ),
{
    let fee_num = fee_numerator(reserve_x as int, reserve_y as int, burst_level as int);
    law_fee_bounds(reserve_x as u128, reserve_y as u128, burst_level);
    lemma_net_input(input as int, fee_num, more as int, fee_num);
    if reserve_x > 0 && reserve_y > 0 {
        lemma_curve_monotone(
            reserve_in(side, reserve_x as int, reserve_y as int),
            reserve_out(side, reserve_x as int, reserve_y as int),
            net_input(input as int, fee_num),
            net_input(more as int, fee_num),
        );
    }
}

/// Concavity: of two segments of the curve the later one has no steeper slope, up to a tolerance
/// that outweighs rounding together with the bend of the curve.
pub proof fn law_concave(
    side: u8,
    reserve_x: u64,
    reserve_y: u64,
    burst_level: u64,
    a: u64,
    b: u64,
    c: u64,
    d: u64,
    tolerance: nat,
)
    requires
        a <= b <= c <= d,
        bend_outweighs(
            reserve_in(side, reserve_x as int, reserve_y as int),
            reserve_out(side, reserve_x as int, reserve_y as int),
            fee_numerator(reserve_x as int, reserve_y as int, burst_level as int),
            a as int,
            b as int,
            c as int,
            d as int,
            tolerance as int,
        ),
    ensures
        ({
            let f = |input: u64|
                swap_output(
                    side,
                    input as int,
                    reserve_x as int,
                    reserve_y as int,
                    burst_level as int,
                );
            slope_falls(b - a, f(b) - f(a), d - c, f(d) - f(c), tolerance as int)
        }),
{
    let i = reserve_in(side, reserve_x as int, reserve_y as int);
    let o = reserve_out(side, reserve_x as int, reserve_y as int);
    let fee_num = fee_numerator(reserve_x as int, reserve_y as int, burst_level as int);
    let t = tolerance as int;
    law_fee_bounds(reserve_x as u128, reserve_y as u128, burst_level);
    if reserve_x > 0 && reserve_y > 0 && side <= 1 {
        lemma_slope_falls(i, o, fee_num, a as int, b as int, c as int, d as int, t);
    } else {
        lemma_flat(b - a, d - c, t);
    }
}

/// A flat curve shows diminishing returns.
proof fn lemma_flat(prev_dx: int, dx: int, tolerance: int)
    requires
        0 <= prev_dx,
        0 <= dx,
        0 <= tolerance,
    ensures
        slope_falls(prev_dx, 0, dx, 0, tolerance),
{
    assert(tolerance * dx >= (-tolerance) * prev_dx) by (nonlinear_arith)
        requires
            0 <= prev_dx,
            0 <= dx,
            0 <= tolerance,
    ;
}

/// Diminishing returns for every pool and any two segments, up to the slack that rounding needs.
pub proof fn law_diminishing_returns(
    side: u8,
    reserve_x: u64,
    reserve_y: u64,
    burst_level: u64,
    a: u64,
    b: u64,
    c: u64,
    d: u64,
)
    requires
        a <= b <= c <= d,
    ensures
        ({
            let f = |input: u64|
                swap_output(
                    side,
                    input as int,
                    reserve_x as int,
                    reserve_y as int,
                    burst_level as int,
                );
            slope_falls(
                b - a,
                f(b) - f(a),
                d - c,
                f(d) - f(c),
                rounding_slack(
                    reserve_in(side, reserve_x as int, reserve_y as int),
                    reserve_out(side, reserve_x as int, reserve_y as int),
                ),
            )
        }),
{
    let i = reserve_in(side, reserve_x as int, reserve_y as int);
    let o = reserve_out(side, reserve_x as int, reserve_y as int);
    let fee_num = fee_numerator(reserve_x as int, reserve_y as int, burst_level as int);
    let t = rounding_slack(i, o);
    law_fee_bounds(reserve_x as u128, reserve_y as u128, burst_level);
    if i > 0 {
        lemma_div_pos_is_pos(o + i - 1, i);
        lemma_slack_outweighs(i, o, fee_num, a as int, b as int, c as int, d as int);
        law_concave(side, reserve_x, reserve_y, burst_level, a, b, c, d, t as nat);
    } else {
        lemma_flat(b - a, d - c, t);
    }
}

/// Diminishing returns up to a single unit of output, for segments that are long for the pool:
/// their lengths after the fee multiply to at least the input reserve at the end of the second.
pub proof fn law_diminishing_returns_of_long_segments(
    side: u8,
    reserve_x: u64,
    reserve_y: u64,
    burst_level: u64,
    a: u64,
    b: u64,
    c: u64,
    d: u64,
)
    requires
        a < b <= c < d,
        ({
            let fee_num = fee_numerator(reserve_x as int, reserve_y as int, burst_level as int);
            (fee_num * (b - a)) * (fee_num * (d - c)) >= FEE_DENOMINATOR * scaled_reserve(
                reserve_in(side, reserve_x as int, reserve_y as int),
                d as int,
                fee_num,
            )
        }),
    ensures
        ({
            let f = |input: u64|
                swap_output(
                    side,
                    input as int,
                    reserve_x as int,
                    reserve_y as int,
                    burst_level as int,
                );
            slope_falls(b - a, f(b) - f(a), d - c, f(d) - f(c), 1)
        }),
{
    let i = reserve_in(side, reserve_x as int, reserve_y as int);
    let o = reserve_out(side, reserve_x as int, reserve_y as int);
    let fee_num = fee_numerator(reserve_x as int, reserve_y as int, burst_level as int);
    law_fee_bounds(reserve_x as u128, reserve_y as u128, burst_level);
    if i > 0 {
        lemma_long_segments_outweigh(i, o, fee_num, a as int, b as int, c as int, d as int);
        law_concave(side, reserve_x, reserve_y, burst_level, a, b, c, d, 1);
    } else {
        lemma_flat(b - a, d - c, 1);
    }
}

/// Diminishing returns in every pool for segments whose lengths are whole multiples of
/// `FEE_DENOMINATOR`, wherever they start: with the earlier gain raised and the later one lowered
/// by one unit of output, the slope falls.
pub proof fn law_diminishing_returns_of_whole_segments(
    side: u8,
    reserve_x: u64,
    reserve_y: u64,
    burst_level: u64,
    a: u64,
    b: u64,
    c: u64,
    d: u64,
)
    requires
        a <= b <= c <= d,
        a < b || c < d,
        (b - a) % (FEE_DENOMINATOR as int) == 0,
        (d - c) % (FEE_DENOMINATOR as int) == 0,
    ensures
        ({
            let f = |input: u64|
                swap_output(
                    side,
                    input as int,
                    reserve_x as int,
                    reserve_y as int,
                    burst_level as int,
                );
            (f(b) - f(a) + 1) * (d - c) > (f(d) - f(c) - 1) * (b - a)
        }),
{
    let i = reserve_in(side, reserve_x as int, reserve_y as int);
    let o = reserve_out(side, reserve_x as int, reserve_y as int);
    let fee_num = fee_numerator(reserve_x as int, reserve_y as int, burst_level as int);
    let f = |input: u64|
        swap_output(side, input as int, reserve_x as int, reserve_y as int, burst_level as int);
    let (u, v) = (b - a, d - c);
    let (du, dv) = (f(b) - f(a) + 1, f(d) - f(c) - 1);
    if reserve_x > 0 && reserve_y > 0 && side <= 1 {
        let na = net_input(a as int, fee_num);
        let nb = net_input(b as int, fee_num);
        let nc = net_input(c as int, fee_num);
        let nd = net_input(d as int, fee_num);
        let (nu, nv) = (nb - na, nd - nc);
        law_fee_bounds(reserve_x as u128, reserve_y as u128, burst_level);
        lemma_net_input(a as int, fee_num, b as int, fee_num);
        lemma_net_input(b as int, fee_num, c as int, fee_num);
        lemma_net_input(c as int, fee_num, d as int, fee_num);
        lemma_whole_step(a as int, u, fee_num);
        lemma_whole_step(c as int, v, fee_num);
        assert(0 < nu || 0 < nv) by (nonlinear_arith)
            requires
                10000 * nu == fee_num * u,
                10000 * nv == fee_num * v,
                0 < fee_num,
                0 < u || 0 < v,
        ;
        lemma_net_slope_falls(i, o, na, nb, nc, nd);
        assert((du * v) * fee_num == 10000 * (du * nv)) by (nonlinear_arith)
            requires
                10000 * nv == fee_num * v,
        ;
        assert((dv * u) * fee_num == 10000 * (dv * nu)) by (nonlinear_arith)
            requires
                10000 * nu == fee_num * u,
        ;
        assert(du * v > dv * u) by (nonlinear_arith)
            requires
                (du * v) * fee_num > (dv * u) * fee_num,
                0 < fee_num,
        ;
    } else {
        assert(1 * v > (-1) * u);
    }
}

/// Diminishing returns in every pool for two like steps of a whole multiple of
/// `FEE_DENOMINATOR`, wherever they start: the second gains at most one unit more than the first.
pub proof fn law_diminishing_returns_of_whole_steps(
    side: u8,
    reserve_x: u64,
    reserve_y: u64,
    burst_level: u64,
    a: u64,
    step: u64,
)
    requires
        step as int % (FEE_DENOMINATOR as int) == 0,
        a + 2 * step <= u64::MAX,
    ensures
        ({
            let f = |input: int|
                swap_output(
                    side,
                    input,
                    reserve_x as int,
                    reserve_y as int,
                    burst_level as int,
                );
            f(a + 2 * step) - f(a + step) <= f(a + step) - f(a as int) + 1
        }),
{
    let f = |input: int|
        swap_output(side, input, reserve_x as int, reserve_y as int, burst_level as int);
    let first = f(a + step) - f(a as int);
    let second = f(a + 2 * step) - f(a + step);
    if step > 0 {
        let b = (a + step) as u64;
        let d = (a + 2 * step) as u64;
        law_diminishing_returns_of_whole_segments(
            side,
            reserve_x,
            reserve_y,
            burst_level,
            a,
            b,
            b,
            d,
        );
        assert(second - 1 < first + 1) by (nonlinear_arith)
            requires
                (first + 1) * step > (second - 1) * step,
                0 < step,
        ;
    }
}

/// The shape that sampled quotes are held to: segments of at least `SHAPE_SEGMENT` show
/// diminishing returns up to `SHAPE_TOLERANCE`. It holds wherever the reserve drawn from is at
/// most three times the other, and in every pool whose input reserve stays within
/// `SHAPE_RESERVE`.
pub proof fn law_shape(
    side: u8,
    reserve_x: u64,
    reserve_y: u64,
    burst_level: u64,
    a: u64,
    b: u64,
    c: u64,
    d: u64,
)
    requires
        a < b <= c < d,
        b - a >= SHAPE_SEGMENT,
        d - c >= SHAPE_SEGMENT,
        ({
            let i = reserve_in(side, reserve_x as int, reserve_y as int);
            let o = reserve_out(side, reserve_x as int, reserve_y as int);
            o <= 3 * i || i + d <= SHAPE_RESERVE
        }),
    ensures
        ({
            let f = |input: u64|
                swap_output(
                    side,
                    input as int,
                    reserve_x as int,
                    reserve_y as int,
                    burst_level as int,
                );
            slope_falls(b - a, f(b) - f(a), d - c, f(d) - f(c), SHAPE_TOLERANCE as int)
        }),
{
    let i = reserve_in(side, reserve_x as int, reserve_y as int);
    let o = reserve_out(side, reserve_x as int, reserve_y as int);
    let f = |input: u64|
        swap_output(side, input as int, reserve_x as int, reserve_y as int, burst_level as int);
    let t = if o <= 3 * i {
        rounding_slack(i, o)
    } else {
        1
    };
    if o <= 3 * i {
        law_diminishing_returns(side, reserve_x, reserve_y, burst_level, a, b, c, d);
        if i > 0 {
            lemma_floor(o + i - 1, i);
            let extra = (o + i - 1) / i;
            assert(extra <= 3) by (nonlinear_arith)
                requires
                    extra * i <= o + i - 1,
                    o <= 3 * i,
                    0 < i,
            ;
        }
    } else {
        let fee_num = fee_numerator(reserve_x as int, reserve_y as int, burst_level as int);
        let fu = fee_num * (b - a);
        let fv = fee_num * (d - c);
        law_fee_bounds(reserve_x as u128, reserve_y as u128, burst_level);
        assert(fu >= 9_730_000_000 && fv >= 9_730_000_000) by (nonlinear_arith)
            requires
                fu == fee_num * (b - a),
                fv == fee_num * (d - c),
                fee_num >= 9730,
                b - a >= 1_000_000,
                d - c >= 1_000_000,
        ;
        assert(fu * fv >= 9_730_000_000 * 9_730_000_000) by (nonlinear_arith)
            requires
                fu >= 9_730_000_000,
                fv >= 9_730_000_000,
        ;
        assert(fee_num * d <= FEE_DENOMINATOR * d) by (nonlinear_arith)
            requires
                fee_num <= FEE_DENOMINATOR,
                0 <= d,
        ;
        law_diminishing_returns_of_long_segments(
            side,
            reserve_x,
            reserve_y,
            burst_level,
            a,
            b,
            c,
            d,
        );
    }
    lemma_tolerance_grows(b - a, f(b) - f(a), d - c, f(d) - f(c), t, SHAPE_TOLERANCE as int);
}

/// Trading back at once what was bought never returns more than was paid, whatever the fee of
/// either trade.
pub proof fn law_no_gain_from_trading_back(
    side: u8,
    reserve_x: u64,
    reserve_y: u64,
    burst_level: u64,
    later_level: u64,
    input: u64,
)
    requires
        side <= 1,
        reserve_x > 0,
        reserve_y > 0,
    ensures
        ({
            let bought = swap_output(
                side,
                input as int,
                reserve_x as int,
                reserve_y as int,
                burst_level as int,
            );
            if side == 0 {
                swap_output(1, bought, reserve_x - bought, reserve_y + input, later_level as int)
                    <= input
            } else {
                swap_output(0, bought, reserve_x + input, reserve_y - bought, later_level as int)
                    <= input
            }
        }),
{
    let i = reserve_in(side, reserve_x as int, reserve_y as int);
    let o = reserve_out(side, reserve_x as int, reserve_y as int);
    let x = input as int;
    let bought = swap_output(side, x, reserve_x as int, reserve_y as int, burst_level as int);
    law_never_drains(side, reserve_x, reserve_y, burst_level, input);
    law_product_kept(side, reserve_x, reserve_y, burst_level, input);
    let next_x = if side == 0 {
        reserve_x - bought
    } else {
        reserve_x + input
    };
    let next_y = if side == 0 {
        reserve_y + input
    } else {
        reserve_y - bought
    };
    let fee_num = fee_numerator(next_x, next_y, later_level as int);
    law_fee_bounds(next_x as u128, next_y as u128, later_level);
    let net = net_input(bought, fee_num);
    lemma_net_input(bought, fee_num, bought, fee_num);
    let back = curve_output(o - bought, i + x, net);
    lemma_curve_monotone(o - bought, i + x, net, bought);
    let most = curve_output(o - bought, i + x, bought);
    lemma_floor((i + x) * bought, o);
    assert(most <= x) by (nonlinear_arith)
        requires
            most * o <= (i + x) * bought,
            (i + x) * (o - bought) >= i * o,
            0 < o,
    ;
}

/// The output is less than the reserve that it is drawn from: no trade empties a pool.
pub proof fn law_never_drains(
    side: u8,
    reserve_x: u64,
    reserve_y: u64,
    burst_level: u64,
    input: u64,
)
    requires
        reserve_x > 0,
        reserve_y > 0,
    ensures
        0 <= swap_output(
            side,
            input as int,
            reserve_x as int,
            reserve_y as int,
            burst_level as int,
        ) < reserve_out(side, reserve_x as int, reserve_y as int),
{
    let i = reserve_in(side, reserve_x as int, reserve_y as int);
    let o = reserve_out(side, reserve_x as int, reserve_y as int);
    let fee_num = fee_numerator(reserve_x as int, reserve_y as int, burst_level as int);
    let net = net_input(input as int, fee_num);
    law_fee_bounds(reserve_x as u128, reserve_y as u128, burst_level);
    lemma_net_input(input as int, fee_num, input as int, fee_num);
    lemma_curve_monotone(i, o, net, net);
    lemma_curve_below_reserve(i, o, net);
}

/// A trade never shrinks the product of the reserves, and never pays more than the price at which
/// the reserves stand.
pub proof fn law_product_kept(
    side: u8,
    reserve_x: u64,
    reserve_y: u64,
    burst_level: u64,
    input: u64,
)
    ensures
        ({
            let i = reserve_in(side, reserve_x as int, reserve_y as int);
            let o = reserve_out(side, reserve_x as int, reserve_y as int);
            let output = swap_output(
                side,
                input as int,
                reserve_x as int,
                reserve_y as int,
                burst_level as int,
            );
            &&& (i + input) * (o - output) >= i * o
            &&& output * i <= o * input
        }),
{
    let i = reserve_in(side, reserve_x as int, reserve_y as int);
    let o = reserve_out(side, reserve_x as int, reserve_y as int);
    let x = input as int;
    let fee_num = fee_numerator(reserve_x as int, reserve_y as int, burst_level as int);
    let net = net_input(x, fee_num);
    let output = swap_output(side, x, reserve_x as int, reserve_y as int, burst_level as int);
    law_fee_bounds(reserve_x as u128, reserve_y as u128, burst_level);
    lemma_net_input(x, fee_num, x, fee_num);
    assert(output * (i + net) <= o * net && 0 <= output <= o) by {
        if reserve_x > 0 && reserve_y > 0 && side <= 1 {
            lemma_curve_monotone(i, o, net, net);
            lemma_output_is_rest(i, o, net);
        } else {
            assert(0 * (i + net) <= o * net) by (nonlinear_arith)
                requires
                    0 <= o,
                    0 <= net,
            ;
        }
    }
    assert((i + x) * (o - output) >= i * o && output * i <= o * x) by (nonlinear_arith)
        requires
            output * (i + net) <= o * net,
            0 <= output <= o,
            0 <= net <= x,
            0 <= i,
    ;
}

/// Nothing is paid for nothing.
pub proof fn law_nothing_for_nothing(
    side: u8,
    reserve_x: u64,
    reserve_y: u64,
    burst_level: u64,
)
    ensures
        swap_output(side, 0, reserve_x as int, reserve_y as int, burst_level as int) == 0,
{
    let i = reserve_in(side, reserve_x as int, reserve_y as int);
    let o = reserve_out(side, reserve_x as int, reserve_y as int);
    let fee_num = fee_numerator(reserve_x as int, reserve_y as int, burst_level as int);
    assert(0 * fee_num == 0 && o * 0 == 0) by (nonlinear_arith);
    if i > 0 {
        lemma_div_of0(i);
    }
}

/// While trades come in bursts a trade never pays more.
pub proof fn law_bursts_never_pay(
    side: u8,
    reserve_x: u64,
    reserve_y: u64,
    burst_level: u64,
    higher: u64,
    input: u64,
)
    requires
        burst_level <= higher,
    ensures
        swap_output(
            side,
            input as int,
            reserve_x as int,
            reserve_y as int,
            higher as int,
        ) <= swap_output(
            side,
            input as int,
            reserve_x as int,
            reserve_y as int,
            burst_level as int,
        ),
{
    let fee_num = fee_numerator(reserve_x as int, reserve_y as int, burst_level as int);
    let less_num = fee_numerator(reserve_x as int, reserve_y as int, higher as int);
    law_fee_bounds(reserve_x as u128, reserve_y as u128, burst_level);
    law_fee_bounds(reserve_x as u128, reserve_y as u128, higher);
    law_fee_rises_with_bursts(reserve_x as u128, reserve_y as u128, burst_level, higher);
    lemma_net_input(input as int, less_num, input as int, fee_num);
    if reserve_x > 0 && reserve_y > 0 {
        lemma_curve_monotone(
            reserve_in(side, reserve_x as int, reserve_y as int),
            reserve_out(side, reserve_x as int, reserve_y as int),
            net_input(input as int, less_num),
            net_input(input as int, fee_num),
        );
    }
}

/// What a request is quoted. With `tenths` the full tenths by which the Y reserve misses one
/// hundred times the X reserve, the fee takes 70 parts in 10000, 30 more for each of them and 2
/// more for each five burst levels up to 100, rounded down, but no more than 270. With `net` what
/// that leaves of the input, rounded down, the quote is the largest amount that the pool can pay
/// for `net` without shrinking the product of its reserves: X for Y on side 0, Y for X on side 1.
pub proof fn law_quote_is_largest(data: Seq<u8>, tenths: int, net: int)
    requires
        data.len() >= 1049,
        data[0] <= 1,
        ({
            let input = le_value(data, 1, 8) as int;
            let x = le_value(data, 9, 8) as int;
            let y = le_value(data, 17, 8) as int;
            let level = le_value(data, 33, 8) as int;
            let miss = if 100 * x >= y {
                100 * x - y
            } else {
                y - 100 * x
            };
            let surcharge = 30 * tenths + 2 * (if level < 100 {
                level
            } else {
                100
            }) / 5;
            let left = if surcharge < 200 {
                9930 - surcharge
            } else {
                9730
            };
            &&& 0 < x
            &&& 0 < y
            &&& tenths * y <= 10 * miss < (tenths + 1) * y
            &&& 10000 * net <= input * left < 10000 * (net + 1)
        }),
    ensures
        ({
            let x = le_value(data, 9, 8) as int;
            let y = le_value(data, 17, 8) as int;
            let paid = quote(data);
            &&& 0 <= paid
            &&& data[0] == 0 ==> paid < x && (y + net) * (x - paid) >= x * y && (y + net) * (x
                - paid - 1) < x * y
            &&& data[0] == 1 ==> paid < y && (x + net) * (y - paid) >= x * y && (x + net) * (y
                - paid - 1) < x * y
        }),
{
    let input = le_value(data, 1, 8) as int;
    let x = le_value(data, 9, 8) as int;
    let y = le_value(data, 17, 8) as int;
    let level = le_value(data, 33, 8) as int;
    lemma_u64_at_bound(data, 9);
    lemma_u64_at_bound(data, 17);
    lemma_u64_at_bound(data, 33);
    law_fee_of_64_bit_reserves(x as u64, y as u64, level as u64, tenths);
    let fee_num = fee_numerator(x, y, level);
    law_fee_bounds(x as u128, y as u128, level as u64);
    lemma_net_input(input, fee_num, input, fee_num);
    assert(net == net_input(input, fee_num));
    if data[0] == 0 {
        lemma_largest(y, x, net);
    } else {
        lemma_largest(x, y, net);
    }
    assert(x * y == y * x) by (nonlinear_arith);
}

/// The output on the curve is the largest that keeps the product.
proof fn lemma_largest(i: int, o: int, net: int)
    requires
        0 < i,
        0 < o,
        0 <= net,
    ensures
        0 <= curve_output(i, o, net) < o,
        (i + net) * (o - curve_output(i, o, net)) >= i * o,
        (i + net) * (o - curve_output(i, o, net) - 1) < i * o,
{
    let q = curve_output(i, o, net);
    lemma_curve_monotone(i, o, net, net);
    lemma_curve_below_reserve(i, o, net);
    lemma_floor(o * net, i + net);
    assert((i + net) * (o - q) >= i * o && (i + net) * (o - q - 1) < i * o) by (nonlinear_arith)
        requires
            q * (i + net) <= o * net,
            o * net < (q + 1) * (i + net),
    ;
}

/// A request of under 1049 bytes, one on a side other than 0 and 1, and one to a pool with an
/// empty reserve are quoted zero.
pub proof fn law_quoted_zero(data: Seq<u8>)
    requires
        data.len() < 1049 || data[0] > 1 || le_value(data, 9, 8) == 0 || le_value(data, 17, 8) == 0,
    ensures
        quote(data) == 0,
{
}

} // verus!
