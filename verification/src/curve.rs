//! The constant-product curve with rounding, over mathematical integers.
use vstd::arithmetic::div_mod::*;
use vstd::prelude::*;
use crate::fee::FEE_DENOMINATOR;

verus! {

/// What is left of `input` after the fee, rounded down.
pub open spec fn net_input(input: int, fee_num: int) -> int {
    input * fee_num / (FEE_DENOMINATOR as int)
}

/// What a pool of `reserve_in` and `reserve_out` pays for `net` more of the first token, so that
/// the product of its reserves does not shrink: the exact amount, rounded down.
pub open spec fn curve_output(reserve_in: int, reserve_out: int, net: int) -> int {
    reserve_out * net / (reserve_in + net)
}

/// Keeping the product means keeping `reserve_in * reserve_out / (reserve_in + net)` of the second
/// token, rounded up; the rest is what is paid.
pub proof fn lemma_output_is_rest(reserve_in: int, reserve_out: int, net: int)
    requires
        0 < reserve_in,
        0 <= reserve_out,
        0 <= net,
    ensures
        (reserve_in * reserve_out + (reserve_in + net) - 1) / (reserve_in + net) == reserve_out
            - curve_output(reserve_in, reserve_out, net),
        0 <= curve_output(reserve_in, reserve_out, net) <= reserve_out,
{
    let n = reserve_in + net;
    let q = curve_output(reserve_in, reserve_out, net);
    let r = (reserve_out * net) % n;
    lemma_fundamental_div_mod(reserve_out * net, n);
    assert(reserve_in * reserve_out + n - 1 == (reserve_out - q) * n + (n - 1 - r))
        by (nonlinear_arith)
        requires
            n == reserve_in + net,
            reserve_out * net == n * q + r,
    ;
    lemma_fundamental_div_mod_converse(
        reserve_in * reserve_out + n - 1,
        n,
        reserve_out - q,
        n - 1 - r,
    );
    assert(0 <= reserve_out * net) by (nonlinear_arith)
        requires
            0 <= reserve_out,
            0 <= net,
    ;
    lemma_div_pos_is_pos(reserve_out * net, n);
    assert(0 <= reserve_in * reserve_out) by (nonlinear_arith)
        requires
            0 <= reserve_out,
            0 < reserve_in,
    ;
    lemma_div_pos_is_pos(reserve_in * reserve_out + n - 1, n);
}

/// A quotient rounded down lies less than one below the exact one.
pub proof fn lemma_floor(a: int, d: int)
    requires
        0 < d,
    ensures
        (a / d) * d <= a < (a / d + 1) * d,
{
    lemma_fundamental_div_mod(a, d);
    assert((a / d) * d == d * (a / d) && (a / d + 1) * d == d * (a / d) + d) by (nonlinear_arith);
}

/// A quotient rounded down is the largest integer that does not exceed the exact one.
pub proof fn lemma_floor_largest(q: int, a: int, d: int)
    requires
        0 < d,
        q * d <= a,
    ensures
        q <= a / d,
{
    lemma_floor(a, d);
    assert(q <= a / d) by (nonlinear_arith)
        requires
            0 < d,
            q * d <= a,
            a < (a / d + 1) * d,
    ;
}

/// The net input takes nothing that was not paid, and grows with the input and with the share
/// that the fee leaves.
pub proof fn lemma_net_input(input: int, fee_num: int, more: int, more_num: int)
    requires
        0 <= input <= more,
        0 <= fee_num <= more_num <= FEE_DENOMINATOR,
    ensures
        0 <= net_input(input, fee_num) <= input,
        net_input(input, fee_num) <= net_input(more, more_num),
{
    assert(0 <= input * fee_num <= input * FEE_DENOMINATOR) by (nonlinear_arith)
        requires
            0 <= input,
            0 <= fee_num <= FEE_DENOMINATOR,
    ;
    assert(input * fee_num <= more * more_num) by (nonlinear_arith)
        requires
            0 <= input <= more,
            0 <= fee_num <= more_num,
    ;
}

/// The output leaves at least the exact share in the pool, and more net input never buys less.
pub proof fn lemma_curve_monotone(reserve_in: int, reserve_out: int, net: int, more: int)
    requires
        0 < reserve_in,
        0 <= reserve_out,
        0 <= net <= more,
    ensures
        curve_output(reserve_in, reserve_out, net) * (reserve_in + net) <= reserve_out * net,
        0 <= curve_output(reserve_in, reserve_out, net) <= curve_output(
            reserve_in,
            reserve_out,
            more,
        ),
{
    let q = curve_output(reserve_in, reserve_out, net);
    lemma_floor(reserve_out * net, reserve_in + net);
    lemma_output_is_rest(reserve_in, reserve_out, net);
    assert(q * (reserve_in + more) <= reserve_out * more) by (nonlinear_arith)
        requires
            q * (reserve_in + net) <= reserve_out * net,
            q <= reserve_out,
            net <= more,
    ;
    lemma_floor_largest(q, reserve_out * more, reserve_in + more);
}

/// A pool never pays out the whole of a reserve.
pub proof fn lemma_curve_below_reserve(reserve_in: int, reserve_out: int, net: int)
    requires
        0 < reserve_in,
        0 < reserve_out,
        0 <= net,
    ensures
        curve_output(reserve_in, reserve_out, net) < reserve_out,
{
    let q = curve_output(reserve_in, reserve_out, net);
    lemma_curve_monotone(reserve_in, reserve_out, net, net);
    assert(q < reserve_out) by (nonlinear_arith)
        requires
            q * (reserve_in + net) <= reserve_out * net,
            0 < reserve_in,
            0 < reserve_out,
            0 <= net,
    ;
}

/// The input reserve plus the input after the fee, unrounded, in parts of `FEE_DENOMINATOR`.
pub open spec fn scaled_reserve(reserve_in: int, input: int, fee_num: int) -> int {
    FEE_DENOMINATOR * reserve_in + fee_num * input
}

/// The output for `input` under a given fee.
pub open spec fn output_for(reserve_in: int, reserve_out: int, input: int, fee_num: int) -> int {
    curve_output(reserve_in, reserve_out, net_input(input, fee_num))
}

/// How far the two roundings take the output from the unrounded curve
/// `reserve_out * fee_num * input / scaled_reserve`: it is never above it, and with `n` the
/// rounded new input reserve less than `1 + reserve_in * reserve_out * FEE_DENOMINATOR / (n *
/// scaled_reserve)` below it.
pub proof fn lemma_output_bounds(reserve_in: int, reserve_out: int, input: int, fee_num: int)
    requires
        0 < reserve_in,
        0 <= reserve_out,
        0 <= input,
        0 <= fee_num <= FEE_DENOMINATOR,
    ensures
        ({
            let q = output_for(reserve_in, reserve_out, input, fee_num);
            let n = reserve_in + net_input(input, fee_num);
            let s = scaled_reserve(reserve_in, input, fee_num);
            &&& 0 <= q
            &&& reserve_in <= n
            &&& FEE_DENOMINATOR * n <= s < FEE_DENOMINATOR * n + FEE_DENOMINATOR
            &&& q * s <= reserve_out * fee_num * input
            &&& (q + 1) * (n * s) >= reserve_out * fee_num * input * n - reserve_in * reserve_out
                * FEE_DENOMINATOR
        }),
{
    let d = FEE_DENOMINATOR as int;
    let net = net_input(input, fee_num);
    let q = output_for(reserve_in, reserve_out, input, fee_num);
    let n = reserve_in + net;
    let s = scaled_reserve(reserve_in, input, fee_num);
    let paid = fee_num * input;
    lemma_net_input(input, fee_num, input, fee_num);
    lemma_curve_monotone(reserve_in, reserve_out, net, net);
    lemma_floor(reserve_out * net, n);
    assert(paid == input * fee_num) by (nonlinear_arith)
        requires
            paid == fee_num * input,
    ;
    assert(d * net <= paid < d * net + d);
    assert(reserve_out * fee_num * input == reserve_out * paid) by (nonlinear_arith)
        requires
            paid == fee_num * input,
    ;
    // paid * n - net * s == reserve_in * (paid - d * net)
    let rho = paid - d * net;
    assert(net * s == paid * n - reserve_in * rho) by (nonlinear_arith)
        requires
            s == d * reserve_in + paid,
            n == reserve_in + net,
            rho == paid - d * net,
    ;
    assert(q * s <= reserve_out * paid) by {
        assert(net * s <= paid * n) by (nonlinear_arith)
            requires
                net * s == paid * n - reserve_in * rho,
                0 <= rho,
                0 < reserve_in,
        ;
        assert((q * s) * n <= (reserve_out * paid) * n) by (nonlinear_arith)
            requires
                q * n <= reserve_out * net,
                net * s <= paid * n,
                0 <= s,
                0 <= reserve_out,
        ;
        assert(q * s <= reserve_out * paid) by (nonlinear_arith)
            requires
                (q * s) * n <= (reserve_out * paid) * n,
                0 < n,
        ;
    }
    assert((q + 1) * (n * s) >= reserve_out * paid * n - reserve_in * reserve_out * d) by {
        assert((q + 1) * (n * s) >= reserve_out * (net * s)) by (nonlinear_arith)
            requires
                reserve_out * net < (q + 1) * n,
                0 <= s,
        ;
        assert(reserve_out * (net * s) == reserve_out * paid * n - reserve_in * reserve_out * rho)
            by (nonlinear_arith)
            requires
                net * s == paid * n - reserve_in * rho,
        ;
        assert(reserve_in * reserve_out * rho <= reserve_in * reserve_out * d) by (nonlinear_arith)
            requires
                0 <= rho <= d,
                0 < reserve_in,
                0 <= reserve_out,
        ;
    }
}

/// Whether two segments of a curve, `dx` after `prev_dx`, show diminishing returns up to a
/// tolerance: with `prev_dy` raised and `dy` lowered by it, the slope does not rise.
pub open spec fn slope_falls(prev_dx: int, prev_dy: int, dx: int, dy: int, tolerance: int) -> bool {
    (prev_dy + tolerance) * dx >= (dy - tolerance) * prev_dx
}

/// What holds up to a tolerance holds up to a larger one.
pub proof fn lemma_tolerance_grows(
    prev_dx: int,
    prev_dy: int,
    dx: int,
    dy: int,
    tolerance: int,
    larger: int,
)
    requires
        slope_falls(prev_dx, prev_dy, dx, dy, tolerance),
        0 <= prev_dx,
        0 <= dx,
        tolerance <= larger,
    ensures
        slope_falls(prev_dx, prev_dy, dx, dy, larger),
{
    assert((prev_dy + larger) * dx >= (dy - larger) * prev_dx) by (nonlinear_arith)
        requires
            (prev_dy + tolerance) * dx >= (dy - tolerance) * prev_dx,
            0 <= prev_dx,
            0 <= dx,
            tolerance <= larger,
    ;
}

/// A tolerance that covers all rounding: one unit of output for rounding the output, and the
/// price of one unit of input, rounded up, for rounding the net input.
pub open spec fn rounding_slack(reserve_in: int, reserve_out: int) -> int {
    if reserve_in == 0 {
        1
    } else {
        1 + (reserve_out + reserve_in - 1) / reserve_in
    }
}

/// Whether the bend of the curve from `a` to `d`, together with a tolerance, outweighs what
/// rounding can do to the segments from `a` to `b` and from `c` to `d`. With `n` the rounded
/// input reserve at `b`, and `s(x)` the unrounded one at `x`, rounding shows at most
/// `reserve_in * reserve_out / (n * s(b))` for each unit of length, the bend makes up for
/// the share `n * (b - a) * (d - c) / (s(a) * s(d))` of it, lengths after the fee, and each unit
/// of tolerance beyond the first for one unit.
pub open spec fn bend_outweighs(
    reserve_in: int,
    reserve_out: int,
    fee_num: int,
    a: int,
    b: int,
    c: int,
    d: int,
    tolerance: int,
) -> bool {
    let n = reserve_in + net_input(b, fee_num);
    let ends = scaled_reserve(reserve_in, a, fee_num) * scaled_reserve(reserve_in, d, fee_num);
    let bend = n * ((fee_num * (b - a)) * (fee_num * (d - c)));
    (reserve_in * reserve_out * FEE_DENOMINATOR) * (ends - bend) <= (tolerance - 1) * ((n
        * scaled_reserve(reserve_in, b, fee_num)) * ends)
}

/// Diminishing returns up to a tolerance, wherever tolerance and bend outweigh rounding.
pub proof fn lemma_slope_falls(
    reserve_in: int,
    reserve_out: int,
    fee_num: int,
    a: int,
    b: int,
    c: int,
    d: int,
    tolerance: int,
)
    requires
        0 < reserve_in,
        0 <= reserve_out,
        0 <= fee_num <= FEE_DENOMINATOR,
        0 <= a <= b <= c <= d,
        bend_outweighs(reserve_in, reserve_out, fee_num, a, b, c, d, tolerance),
    ensures
        slope_falls(
            b - a,
            output_for(reserve_in, reserve_out, b, fee_num) - output_for(
                reserve_in,
                reserve_out,
                a,
                fee_num,
            ),
            d - c,
            output_for(reserve_in, reserve_out, d, fee_num) - output_for(
                reserve_in,
                reserve_out,
                c,
                fee_num,
            ),
            tolerance,
        ),
{
    let den = FEE_DENOMINATOR as int;
    let qa = output_for(reserve_in, reserve_out, a, fee_num);
    let qb = output_for(reserve_in, reserve_out, b, fee_num);
    let qc = output_for(reserve_in, reserve_out, c, fee_num);
    let qd = output_for(reserve_in, reserve_out, d, fee_num);
    let sa = scaled_reserve(reserve_in, a, fee_num);
    let sb = scaled_reserve(reserve_in, b, fee_num);
    let sc = scaled_reserve(reserve_in, c, fee_num);
    let sd = scaled_reserve(reserve_in, d, fee_num);
    let nb = reserve_in + net_input(b, fee_num);
    let nc = reserve_in + net_input(c, fee_num);
    let fu = fee_num * (b - a);
    let fv = fee_num * (d - c);
    let rf = reserve_out * fee_num;
    let k = reserve_in * reserve_out * den;
    lemma_output_bounds(reserve_in, reserve_out, a, fee_num);
    lemma_output_bounds(reserve_in, reserve_out, b, fee_num);
    lemma_output_bounds(reserve_in, reserve_out, c, fee_num);
    lemma_output_bounds(reserve_in, reserve_out, d, fee_num);
    lemma_scaled_order(reserve_in, fee_num, a, b);
    lemma_scaled_order(reserve_in, fee_num, b, c);
    lemma_scaled_order(reserve_in, fee_num, c, d);
    lemma_scaled_order(reserve_in, fee_num, a, d);
    lemma_net_input(b, fee_num, c, fee_num);
    assert(0 <= k) by (nonlinear_arith)
        requires
            0 < reserve_in,
            0 <= reserve_out,
            0 < den,
            k == reserve_in * reserve_out * den,
    ;
    assert(0 <= fv) by (nonlinear_arith)
        requires
            fv == fee_num * (d - c),
            0 <= fee_num,
            c <= d,
    ;
    // The first segment gains at least k * (nb * fu - sa) / (nb * sb * sa) - 1.
    assert((qb + 1 - qa) * (nb * sb * sa) >= k * (nb * fu - sa)) by {
        lemma_cross(reserve_in, reserve_out, fee_num, nb, a, b);
        assert((qb + 1) * (nb * sb) * sa >= (rf * b * nb - k) * sa) by (nonlinear_arith)
            requires
                (qb + 1) * (nb * sb) >= rf * b * nb - k,
                0 < sa,
        ;
        assert(qa * sa * (nb * sb) <= rf * a * (nb * sb)) by (nonlinear_arith)
            requires
                qa * sa <= rf * a,
                0 < nb,
                0 < sb,
        ;
        assert((qb + 1 - qa) * (nb * sb * sa) == (qb + 1) * (nb * sb) * sa - qa * sa * (nb * sb))
            by (nonlinear_arith);
        assert((rf * b * nb - k) * sa == rf * b * nb * sa - k * sa) by (nonlinear_arith);
        assert(k * (nb * fu - sa) == k * (nb * fu) - k * sa) by (nonlinear_arith);
    }
    // The second gains at most k * (nc * fv + sd) / (nc * sc * sd) + 1.
    let dv = qd - (qc + 1);
    assert((dv * sd) * (nc * sc) <= k * (nc * fv + sd)) by {
        lemma_cross(reserve_in, reserve_out, fee_num, nc, c, d);
        assert(rf * d * (nc * sc) == rf * d * nc * sc && rf * c * nc * sd == rf * c * (nc * sd))
            by (nonlinear_arith);
        assert((qc + 1) * (nc * sc) * sd >= (rf * c * nc - k) * sd) by (nonlinear_arith)
            requires
                (qc + 1) * (nc * sc) >= rf * c * nc - k,
                0 < sd,
        ;
        assert(qd * sd * (nc * sc) <= rf * d * (nc * sc)) by (nonlinear_arith)
            requires
                qd * sd <= rf * d,
                0 < nc,
                0 < sc,
        ;
        assert((dv * sd) * (nc * sc) == qd * sd * (nc * sc) - (qc + 1) * (nc * sc) * sd)
            by (nonlinear_arith)
            requires
                dv == qd - (qc + 1),
        ;
        assert((rf * c * nc - k) * sd == rf * c * nc * sd - k * sd) by (nonlinear_arith);
        assert(k * (nc * fv + sd) == k * (nc * fv) + k * sd) by (nonlinear_arith);
    }
    lemma_bound_at_smaller(dv * sd, nc, sc, nb, sb, k, fv, sd);
    assert(sd - sa >= fee_num * ((b - a) + (d - c))) by (nonlinear_arith)
        requires
            sd - sa == fee_num * (d - a),
            b <= c,
            0 <= fee_num,
    ;
    lemma_bend(b - a, d - c, fee_num, qb + 1 - qa, dv, nb, sb, sa, sd, k, tolerance - 1);
}

/// The rounding slack outweighs rounding for any two segments.
pub proof fn lemma_slack_outweighs(
    reserve_in: int,
    reserve_out: int,
    fee_num: int,
    a: int,
    b: int,
    c: int,
    d: int,
)
    requires
        0 < reserve_in,
        0 <= reserve_out,
        0 <= fee_num <= FEE_DENOMINATOR,
        0 <= a <= b <= c <= d,
    ensures
        bend_outweighs(
            reserve_in,
            reserve_out,
            fee_num,
            a,
            b,
            c,
            d,
            rounding_slack(reserve_in, reserve_out),
        ),
{
    let den = FEE_DENOMINATOR as int;
    let sa = scaled_reserve(reserve_in, a, fee_num);
    let s = scaled_reserve(reserve_in, b, fee_num);
    let sd = scaled_reserve(reserve_in, d, fee_num);
    let n = reserve_in + net_input(b, fee_num);
    let ends = sa * sd;
    let fu = fee_num * (b - a);
    let fv = fee_num * (d - c);
    let bend = n * (fu * fv);
    let k = reserve_in * reserve_out * den;
    let extra = (reserve_out + reserve_in - 1) / reserve_in;
    lemma_output_bounds(reserve_in, reserve_out, b, fee_num);
    lemma_scaled_order(reserve_in, fee_num, a, d);
    lemma_floor(reserve_out + reserve_in - 1, reserve_in);
    assert(extra * reserve_in >= reserve_out) by (nonlinear_arith)
        requires
            reserve_out + reserve_in - 1 < (extra + 1) * reserve_in,
    ;
    assert(0 <= extra) by (nonlinear_arith)
        requires
            extra * reserve_in >= reserve_out,
            0 <= reserve_out,
            0 < reserve_in,
    ;
    assert(extra * (n * s) >= k) by {
        assert(n * s >= n * (den * reserve_in)) by (nonlinear_arith)
            requires
                s >= den * n,
                n >= reserve_in,
                reserve_in > 0,
                den > 0,
        ;
        assert(extra * (n * s) >= extra * (n * (den * reserve_in))) by (nonlinear_arith)
            requires
                n * s >= n * (den * reserve_in),
                0 <= extra,
        ;
        assert(extra * (n * (den * reserve_in)) == (n * den) * (extra * reserve_in))
            by (nonlinear_arith);
        assert((n * den) * (extra * reserve_in) >= (n * den) * reserve_out) by (nonlinear_arith)
            requires
                extra * reserve_in >= reserve_out,
                n > 0,
                den > 0,
        ;
        assert((n * den) * reserve_out >= reserve_in * reserve_out * den) by (nonlinear_arith)
            requires
                n >= reserve_in,
                den > 0,
                reserve_out >= 0,
        ;
    }
    assert(0 < ends) by (nonlinear_arith)
        requires
            0 < sa,
            0 < sd,
            ends == sa * sd,
    ;
    assert(0 <= fu && 0 <= fv) by (nonlinear_arith)
        requires
            fu == fee_num * (b - a),
            fv == fee_num * (d - c),
            0 <= fee_num,
            a <= b,
            c <= d,
    ;
    assert(0 <= bend) by (nonlinear_arith)
        requires
            0 < n,
            0 <= fu,
            0 <= fv,
            bend == n * (fu * fv),
    ;
    assert(0 <= k) by (nonlinear_arith)
        requires
            0 < reserve_in,
            0 <= reserve_out,
            0 < den,
            k == reserve_in * reserve_out * den,
    ;
    let ns = n * s;
    assert(k * (ends - bend) <= extra * (ns * ends)) by (nonlinear_arith)
        requires
            extra * ns >= k,
            0 < ends,
            0 <= bend,
            0 <= k,
    {
        assert(k * (ends - bend) <= k * ends) by (nonlinear_arith)
            requires
                0 <= k,
                0 <= bend,
        ;
        assert(k * ends <= (extra * ns) * ends) by (nonlinear_arith)
            requires
                extra * ns >= k,
                0 < ends,
        ;
        assert((extra * ns) * ends == extra * (ns * ends)) by (nonlinear_arith);
    }
}

/// The bend alone outweighs rounding where the lengths of the segments after the fee multiply to
/// at least the input reserve at the end.
pub proof fn lemma_long_segments_outweigh(
    reserve_in: int,
    reserve_out: int,
    fee_num: int,
    a: int,
    b: int,
    c: int,
    d: int,
)
    requires
        0 < reserve_in,
        0 <= reserve_out,
        0 <= fee_num <= FEE_DENOMINATOR,
        0 <= a <= b <= c <= d,
        (fee_num * (b - a)) * (fee_num * (d - c)) >= FEE_DENOMINATOR * scaled_reserve(
            reserve_in,
            d,
            fee_num,
        ),
    ensures
        bend_outweighs(reserve_in, reserve_out, fee_num, a, b, c, d, 1),
{
    let den = FEE_DENOMINATOR as int;
    let sa = scaled_reserve(reserve_in, a, fee_num);
    let sb = scaled_reserve(reserve_in, b, fee_num);
    let sc = scaled_reserve(reserve_in, c, fee_num);
    let sd = scaled_reserve(reserve_in, d, fee_num);
    let n = reserve_in + net_input(b, fee_num);
    let fu = fee_num * (b - a);
    let fv = fee_num * (d - c);
    let k = reserve_in * reserve_out * den;
    lemma_output_bounds(reserve_in, reserve_out, b, fee_num);
    lemma_scaled_order(reserve_in, fee_num, a, b);
    lemma_scaled_order(reserve_in, fee_num, b, c);
    lemma_scaled_order(reserve_in, fee_num, c, d);
    assert(fu >= den) by (nonlinear_arith)
        requires
            fu * fv >= den * sd,
            0 <= fv <= sd,
            0 < sd,
            0 < den,
    {
        assert(0 < den * sd) by (nonlinear_arith)
            requires
                0 < den,
                0 < sd,
        ;
        assert(0 < fv) by (nonlinear_arith)
            requires
                0 < fu * fv,
                0 <= fv,
        ;
        assert(den * sd >= den * fv) by (nonlinear_arith)
            requires
                sd >= fv,
                0 < den,
        ;
        assert(fu >= den) by (nonlinear_arith)
            requires
                fu * fv >= den * fv,
                0 < fv,
        ;
    }
    assert(n * (fu * fv) >= sa * sd) by (nonlinear_arith)
        requires
            fu * fv >= den * sd,
            den * n >= sa,
            0 < n,
            0 < sd,
    ;
    let gap = sa * sd - n * (fu * fv);
    assert(k * gap <= 0) by (nonlinear_arith)
        requires
            k == reserve_in * reserve_out * den,
            0 < reserve_in,
            0 <= reserve_out,
            0 < den,
            gap <= 0,
    {
        assert(0 <= reserve_in * reserve_out * den) by (nonlinear_arith)
            requires
                0 < reserve_in,
                0 <= reserve_out,
                0 < den,
        ;
        assert(k * gap <= 0) by (nonlinear_arith)
            requires
                0 <= k,
                gap <= 0,
        ;
    }
}

/// Steps of whole multiples of `FEE_DENOMINATOR` are not rounded: what is left of them after the
/// fee adds to the net input exactly.
pub proof fn lemma_whole_step(input: int, step: int, fee_num: int)
    requires
        step % (FEE_DENOMINATOR as int) == 0,
    ensures
        FEE_DENOMINATOR * (net_input(input + step, fee_num) - net_input(input, fee_num)) == fee_num
            * step,
{
    let steps = step / (FEE_DENOMINATOR as int);
    let added = steps * fee_num;
    assert((input + step) * fee_num == input * fee_num + 10000 * added && fee_num * step == 10000
        * added) by (nonlinear_arith)
        requires
            step == 10000 * steps,
            added == steps * fee_num,
    ;
}

/// Diminishing returns between net inputs, where the output alone is rounded: with the earlier
/// gain raised and the later one lowered by one, the slope falls.
pub proof fn lemma_net_slope_falls(
    reserve_in: int,
    reserve_out: int,
    a: int,
    b: int,
    c: int,
    d: int,
)
    requires
        0 < reserve_in,
        0 <= reserve_out,
        0 <= a <= b <= c <= d,
        a < b || c < d,
    ensures
        (curve_output(reserve_in, reserve_out, b) - curve_output(reserve_in, reserve_out, a) + 1)
            * (d - c) > (curve_output(reserve_in, reserve_out, d) - curve_output(
            reserve_in,
            reserve_out,
            c,
        ) - 1) * (b - a),
{
    let (na, nb, nc, nd) = (reserve_in + a, reserve_in + b, reserve_in + c, reserve_in + d);
    let qa = curve_output(reserve_in, reserve_out, a);
    let qb = curve_output(reserve_in, reserve_out, b);
    let qc = curve_output(reserve_in, reserve_out, c);
    let qd = curve_output(reserve_in, reserve_out, d);
    let (u, v) = (b - a, d - c);
    let (du, dv) = (qb + 1 - qa, qd - (qc + 1));
    let k = reserve_out * reserve_in;
    lemma_floor(reserve_out * a, na);
    lemma_floor(reserve_out * b, nb);
    lemma_floor(reserve_out * c, nc);
    lemma_floor(reserve_out * d, nd);
    lemma_gain_above(reserve_in, reserve_out, a, b, qa, qb + 1);
    lemma_gain_below(reserve_in, reserve_out, c, d, qc + 1, qd);
    assert(0 <= k) by (nonlinear_arith)
        requires
            0 < reserve_in,
            0 <= reserve_out,
            k == reserve_out * reserve_in,
    ;
    let m = na * nb;
    let more = nc * nd;
    assert(0 < m <= more) by (nonlinear_arith)
        requires
            0 < na <= nc,
            0 < nb <= nd,
            m == na * nb,
            more == nc * nd,
    ;
    assert(0 <= k * u && 0 <= k * v) by (nonlinear_arith)
        requires
            0 <= k,
            0 <= u,
            0 <= v,
    ;
    assert(0 < du) by (nonlinear_arith)
        requires
            du * m > k * u,
            0 <= k * u,
            0 < m,
    ;
    if v == 0 {
        assert(dv < 0) by (nonlinear_arith)
            requires
                dv * more < k * v,
                v == 0,
                0 < more,
        ;
        assert(dv * u < 0) by (nonlinear_arith)
            requires
                dv < 0,
                0 < u,
        ;
        assert(du * v == 0) by (nonlinear_arith)
            requires
                v == 0,
        ;
    } else if dv <= 0 {
        assert(du * v > 0 >= dv * u) by (nonlinear_arith)
            requires
                0 < du,
                0 < v,
                dv <= 0,
                0 <= u,
        ;
    } else {
        assert(dv * m <= k * v) by (nonlinear_arith)
            requires
                dv * more < k * v,
                0 < dv,
                m <= more,
        ;
        assert((dv * u) * m <= (k * v) * u) by (nonlinear_arith)
            requires
                dv * m <= k * v,
                0 <= u,
        ;
        assert((du * v) * m > (k * u) * v) by (nonlinear_arith)
            requires
                du * m > k * u,
                0 < v,
        ;
        assert((k * v) * u == (k * u) * v) by (nonlinear_arith);
        assert(dv * u < du * v) by (nonlinear_arith)
            requires
                (dv * u) * m < (du * v) * m,
                0 < m,
        ;
    }
}

/// What a segment between net inputs gains at least, from the curve or below it to above it.
proof fn lemma_gain_above(reserve_in: int, reserve_out: int, x: int, y: int, qx: int, qy: int)
    requires
        0 < reserve_in,
        0 <= x <= y,
        qx * (reserve_in + x) <= reserve_out * x,
        reserve_out * y < qy * (reserve_in + y),
    ensures
        (qy - qx) * ((reserve_in + x) * (reserve_in + y)) > (reserve_out * reserve_in) * (y - x),
{
    let nx = reserve_in + x;
    let ny = reserve_in + y;
    assert((qy - qx) * (nx * ny) == (qy * ny) * nx - (qx * nx) * ny) by (nonlinear_arith);
    assert((qy * ny) * nx > (reserve_out * y) * nx) by (nonlinear_arith)
        requires
            reserve_out * y < qy * ny,
            0 < nx,
    ;
    assert((qx * nx) * ny <= (reserve_out * x) * ny) by (nonlinear_arith)
        requires
            qx * nx <= reserve_out * x,
            0 < ny,
    ;
    assert((reserve_out * y) * nx - (reserve_out * x) * ny == (reserve_out * reserve_in) * (y - x))
        by (nonlinear_arith)
        requires
            nx == reserve_in + x,
            ny == reserve_in + y,
    ;
}

/// What a segment between net inputs gains at most, from above the curve to the curve or below.
proof fn lemma_gain_below(reserve_in: int, reserve_out: int, x: int, y: int, qx: int, qy: int)
    requires
        0 < reserve_in,
        0 <= x <= y,
        reserve_out * x < qx * (reserve_in + x),
        qy * (reserve_in + y) <= reserve_out * y,
    ensures
        (qy - qx) * ((reserve_in + x) * (reserve_in + y)) < (reserve_out * reserve_in) * (y - x),
{
    let nx = reserve_in + x;
    let ny = reserve_in + y;
    assert((qy - qx) * (nx * ny) == (qy * ny) * nx - (qx * nx) * ny) by (nonlinear_arith);
    assert((qy * ny) * nx <= (reserve_out * y) * nx) by (nonlinear_arith)
        requires
            qy * ny <= reserve_out * y,
            0 < nx,
    ;
    assert((qx * nx) * ny > (reserve_out * x) * ny) by (nonlinear_arith)
        requires
            reserve_out * x < qx * nx,
            0 < ny,
    ;
    assert((reserve_out * y) * nx - (reserve_out * x) * ny == (reserve_out * reserve_in) * (y - x))
        by (nonlinear_arith)
        requires
            nx == reserve_in + x,
            ny == reserve_in + y,
    ;
}

/// The scaled reserve is positive and grows with the input.
proof fn lemma_scaled_order(reserve_in: int, fee_num: int, x: int, y: int)
    requires
        0 < reserve_in,
        0 <= fee_num,
        0 <= x <= y,
    ensures
        0 < scaled_reserve(reserve_in, x, fee_num) <= scaled_reserve(reserve_in, y, fee_num),
        scaled_reserve(reserve_in, y, fee_num) - scaled_reserve(reserve_in, x, fee_num) == fee_num
            * (y - x),
{
    assert(0 <= fee_num * x <= fee_num * y && fee_num * y - fee_num * x == fee_num * (y - x))
        by (nonlinear_arith)
        requires
            0 <= fee_num,
            0 <= x <= y,
    ;
}

/// The unrounded curve at `y` less the curve at `x`, brought to one denominator.
proof fn lemma_cross(reserve_in: int, reserve_out: int, fee_num: int, n: int, x: int, y: int)
    ensures
        reserve_out * fee_num * y * n * scaled_reserve(reserve_in, x, fee_num) - reserve_out
            * fee_num * x * (n * scaled_reserve(reserve_in, y, fee_num)) == reserve_in * reserve_out
            * FEE_DENOMINATOR * (n * (fee_num * (y - x))),
{
    let den = FEE_DENOMINATOR as int;
    let base = den * reserve_in;
    let sx = base + fee_num * x;
    let sy = base + fee_num * y;
    let rfn = reserve_out * fee_num * n;
    assert(y * sx - x * sy == base * (y - x)) by (nonlinear_arith)
        requires
            sx == base + fee_num * x,
            sy == base + fee_num * y,
    ;
    assert(reserve_out * fee_num * y * n * sx == rfn * (y * sx)) by (nonlinear_arith)
        requires
            rfn == reserve_out * fee_num * n,
    ;
    assert(reserve_out * fee_num * x * (n * sy) == rfn * (x * sy)) by (nonlinear_arith)
        requires
            rfn == reserve_out * fee_num * n,
    ;
    assert(rfn * (y * sx) - rfn * (x * sy) == rfn * (y * sx - x * sy)) by (nonlinear_arith);
    let gap = y - x;
    assert((reserve_out * fee_num * n) * ((den * reserve_in) * gap) == reserve_in * reserve_out
        * den * (n * (fee_num * gap))) by (nonlinear_arith);
}

/// A bound of the form `k * (p * s + w) / (p * r)` only grows when `p` and `r` shrink.
proof fn lemma_bound_at_smaller(
    x: int,
    p: int,
    r: int,
    small_p: int,
    small_r: int,
    k: int,
    s: int,
    w: int,
)
    requires
        0 < small_p <= p,
        0 < small_r <= r,
        0 <= k,
        0 <= s,
        0 <= w,
        x * (p * r) <= k * (p * s + w),
    ensures
        x * (small_p * small_r) <= k * (small_p * s + w),
{
    let pr = p * r;
    let small = small_p * small_r;
    assert(0 < small <= pr) by (nonlinear_arith)
        requires
            0 < small_p <= p,
            0 < small_r <= r,
            pr == p * r,
            small == small_p * small_r,
    ;
    assert(0 <= k * (small_p * s + w)) by (nonlinear_arith)
        requires
            0 <= k,
            0 <= s,
            0 <= w,
            0 < small_p,
    ;
    if x <= 0 {
        assert(x * small <= 0) by (nonlinear_arith)
            requires
                x <= 0,
                0 < small,
        ;
    } else {
        assert((p * s + w) * small <= (small_p * s + w) * pr) by {
            assert((p * s) * small <= (small_p * s) * pr) by (nonlinear_arith)
                requires
                    small == small_p * small_r,
                    pr == p * r,
                    0 < small_p,
                    0 < p,
                    0 < small_r <= r,
                    0 <= s,
            {
                assert((p * s) * (small_p * small_r) == (p * s * small_p) * small_r)
                    by (nonlinear_arith);
                assert((small_p * s) * (p * r) == (p * s * small_p) * r) by (nonlinear_arith);
                assert(0 <= p * s * small_p) by (nonlinear_arith)
                    requires
                        0 < p,
                        0 <= s,
                        0 < small_p,
                ;
                assert((p * s * small_p) * small_r <= (p * s * small_p) * r) by (nonlinear_arith)
                    requires
                        0 <= p * s * small_p,
                        small_r <= r,
                ;
            }
            assert(w * small <= w * pr) by (nonlinear_arith)
                requires
                    0 <= w,
                    small <= pr,
            ;
            assert((p * s + w) * small == (p * s) * small + w * small) by (nonlinear_arith);
            assert((small_p * s + w) * pr == (small_p * s) * pr + w * pr) by (nonlinear_arith);
        }
        let big = p * s + w;
        let want = small_p * s + w;
        assert((x * small) * pr <= (k * want) * pr) by (nonlinear_arith)
            requires
                x * pr <= k * big,
                big * small <= want * pr,
                0 < small,
                0 <= k,
        {
            assert((x * pr) * small <= (k * big) * small) by (nonlinear_arith)
                requires
                    x * pr <= k * big,
                    0 < small,
            ;
            assert((k * big) * small == k * (big * small)) by (nonlinear_arith);
            assert(k * (big * small) <= k * (want * pr)) by (nonlinear_arith)
                requires
                    big * small <= want * pr,
                    0 <= k,
            ;
            assert((x * pr) * small == (x * small) * pr) by (nonlinear_arith);
            assert(k * (want * pr) == (k * want) * pr) by (nonlinear_arith);
        }
        assert(x * small <= k * want) by (nonlinear_arith)
            requires
                (x * small) * pr <= (k * want) * pr,
                0 < pr,
        ;
    }
}

/// Compares the gains of segments of lengths `u` and `v`, from a lower bound on `du`, an upper
/// bound on `dv`, and the room that the bend and `extra` leave between them.
proof fn lemma_bend(
    u: int,
    v: int,
    f: int,
    du: int,
    dv: int,
    n: int,
    s: int,
    start: int,
    end: int,
    k: int,
    extra: int,
)
    requires
        0 <= u,
        0 <= v,
        0 <= f,
        0 < n,
        0 < s,
        0 < start,
        0 < end,
        0 <= k,
        end - start >= f * (u + v),
        du * (n * s * start) >= k * (n * (f * u) - start),
        (dv * end) * (n * s) <= k * (n * (f * v) + end),
        k * (start * end - n * ((f * u) * (f * v))) <= extra * ((n * s) * (start * end)),
    ensures
        (du + extra) * v >= (dv - extra) * u,
{
    let p = (n * s) * (start * end);
    let ends = start * end;
    let low = n * (f * u) - start;
    let high = n * (f * v) + end;
    let bend = n * ((f * u) * (f * v));
    assert(0 < p) by (nonlinear_arith)
        requires
            0 < n,
            0 < s,
            0 < start,
            0 < end,
            p == (n * s) * (start * end),
    ;
    let ev = end * v;
    let su = start * u;
    assert(0 <= ev && 0 <= su) by (nonlinear_arith)
        requires
            0 < end,
            0 <= v,
            0 < start,
            0 <= u,
            ev == end * v,
            su == start * u,
    ;
    assert((du * v) * p >= (k * low) * ev) by {
        assert((du * v) * p == (du * (n * s * start)) * ev) by (nonlinear_arith)
            requires
                p == (n * s) * (start * end),
                ev == end * v,
        ;
        assert((du * (n * s * start)) * ev >= (k * low) * ev) by (nonlinear_arith)
            requires
                du * (n * s * start) >= k * low,
                0 <= ev,
        ;
    }
    assert((dv * u) * p <= (k * high) * su) by {
        assert((dv * u) * p == ((dv * end) * (n * s)) * su) by (nonlinear_arith)
            requires
                p == (n * s) * (start * end),
                su == start * u,
        ;
        assert(((dv * end) * (n * s)) * su <= (k * high) * su) by (nonlinear_arith)
            requires
                (dv * end) * (n * s) <= k * high,
                0 <= su,
        ;
    }
    assert(low * ev - high * su >= (bend - ends) * (u + v)) by {
        let g = n * (f * (u * v));
        let rise = n * (f * u);
        let later_rise = n * (f * v);
        assert(low * ev == g * end - ends * v) by {
            assert((rise - start) * ev == rise * ev - start * ev) by (nonlinear_arith);
            assert((n * (f * u)) * (end * v) == (n * (f * (u * v))) * end) by (nonlinear_arith);
            assert(start * (end * v) == (start * end) * v) by (nonlinear_arith);
        }
        assert(high * su == g * start + ends * u) by {
            assert((later_rise + end) * su == later_rise * su + end * su) by (nonlinear_arith);
            assert((n * (f * v)) * (start * u) == (n * (f * (u * v))) * start)
                by (nonlinear_arith);
            assert(end * (start * u) == (start * end) * u) by (nonlinear_arith);
        }
        assert(0 <= g) by (nonlinear_arith)
            requires
                0 < n,
                0 <= f,
                0 <= u,
                0 <= v,
                g == n * (f * (u * v)),
        {
            assert(0 <= u * v) by (nonlinear_arith)
                requires
                    0 <= u,
                    0 <= v,
            ;
            assert(0 <= f * (u * v)) by (nonlinear_arith)
                requires
                    0 <= f,
                    0 <= u * v,
            ;
            assert(0 <= n * (f * (u * v))) by (nonlinear_arith)
                requires
                    0 < n,
                    0 <= f * (u * v),
            ;
        }
        assert(g * end - g * start >= g * (f * (u + v))) by (nonlinear_arith)
            requires
                end - start >= f * (u + v),
                0 <= g,
        ;
        assert((n * (f * (u * v))) * (f * (u + v)) == (n * ((f * u) * (f * v))) * (u + v))
            by (nonlinear_arith);
        assert((bend - ends) * (u + v) == bend * (u + v) - ends * v - ends * u)
            by (nonlinear_arith);
    }
    let both = u + v;
    let gap = ends - bend;
    assert((k * low) * ev - (k * high) * su >= -(extra * p) * both) by {
        assert((k * low) * ev - (k * high) * su == k * (low * ev - high * su))
            by (nonlinear_arith);
        let rest = low * ev - high * su;
        assert(rest >= -(gap * both)) by {
            assert((bend - ends) * both == -(gap * both)) by (nonlinear_arith)
                requires
                    gap == ends - bend,
            ;
        }
        assert(k * rest >= k * -(gap * both)) by (nonlinear_arith)
            requires
                rest >= -(gap * both),
                0 <= k,
        ;
        assert(k * -(gap * both) == -((k * gap) * both)) by (nonlinear_arith);
        assert((k * gap) * both <= (extra * p) * both) by (nonlinear_arith)
            requires
                k * gap <= extra * p,
                0 <= both,
        ;
        assert(-(extra * p) * both == -((extra * p) * both)) by (nonlinear_arith);
    }
    assert((du * v - dv * u + extra * both) * p >= 0) by {
        assert((du * v - dv * u + extra * both) * p == (du * v) * p - (dv * u) * p + (extra * p)
            * both) by (nonlinear_arith);
        assert(-(extra * p) * both == -((extra * p) * both)) by (nonlinear_arith);
    }
    assert(du * v - dv * u + extra * both >= 0) by (nonlinear_arith)
        requires
            (du * v - dv * u + extra * both) * p >= 0,
            0 < p,
    ;
    assert((du + extra) * v - (dv - extra) * u == du * v - dv * u + extra * both)
        by (nonlinear_arith)
        requires
            both == u + v,
    ;
}

} // verus!
