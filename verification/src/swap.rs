//! The swap quote: how much of one reserve a trade of a given size receives.
//!
//! The output curve is a convex combination of the constant-product curve
//! `r_out·Δ/(r_in+Δ)` and the power-3 curve `r_out·Δ·(Δ+2·r_in)/(2·(r_in+Δ)²)`,
//! weighted by a blend weight in basis points kept in storage, after a fee
//! in basis points is taken from the input.
use crate::layout::{
    clamp_u16, read_i16, read_u16, read_u32, get_le, signed16, BLEND_AT, FEE_AT, SKEW_AT, STORAGE_SIZE, TRADE_COUNT_AT,
};
use vstd::arithmetic::div_mod::*;
use vstd::arithmetic::mul::*;
use vstd::prelude::*;

verus! {

/// Fee charged before any fee has been learned.
pub const COLD_START_FEE_BPS: u16 = 40;

/// Bounds of the fee, in basis points.
pub const MIN_FEE_BPS: u16 = 30;

pub const MAX_FEE_BPS: u16 = 80;

/// Blend weight of the pure power-3 curve; 0 is the pure constant-product curve.
pub const FULL_BLEND: u16 = 10000;

/// Length of the swap request header that precedes the storage: side, input
/// amount and the two reserves.
pub const SWAP_HEADER_LEN: usize = 25;

/// A non-negative value limited to `u128::MAX`, as saturating `u128` arithmetic gives it.
pub open spec fn sat(x: int) -> nat {
    if x > u128::MAX { u128::MAX as nat } else if x < 0 { 0 } else { x as nat }
}

pub open spec fn clamp_int(v: int, lo: int, hi: int) -> int {
    if v < lo { lo } else if v > hi { hi } else { v }
}

/// The fee before the directional skew: the cold-start fee until a trade has been
/// seen and a fee stored, then the stored fee limited to the fee bounds.
pub open spec fn base_fee(trade_count: nat, stored_fee: nat) -> int {
    if trade_count == 0 || stored_fee == 0 {
        COLD_START_FEE_BPS as int
    } else {
        clamp_int(stored_fee as int, MIN_FEE_BPS as int, MAX_FEE_BPS as int)
    }
}

/// The fee that a trade pays: the skew is added for side 0 and subtracted for the
/// other side, and the result is limited to the fee bounds.
pub open spec fn effective_fee(base: int, skew: int, side: nat) -> int {
    clamp_int(
        base + (if side == 0 { skew } else { -skew }),
        MIN_FEE_BPS as int,
        MAX_FEE_BPS as int,
    )
}

/// The blend weight in effect: full power-3 at cold start or above the full weight.
pub open spec fn blend_weight(trade_count: nat, raw: nat) -> nat {
    if trade_count == 0 && raw == 0 {
        FULL_BLEND as nat
    } else if raw > FULL_BLEND {
        FULL_BLEND as nat
    } else {
        raw
    }
}

/// The input that remains after the fee, rounded down.
pub open spec fn net_input(input: nat, fee: int) -> nat {
    (input * (10000 - fee) / 10000) as nat
}

/// Constant-product output for `net` of input, rounded down.
pub open spec fn cfmm_out(r_out: nat, r_in: nat, net: nat) -> nat {
    sat(r_out * (net as int)) / sat(r_in + (net as int))
}

/// Power-3 output for `net` of input, rounded down, in saturating arithmetic.
pub open spec fn power3_out(r_out: nat, r_in: nat, net: nat) -> nat {
    let sum = sat(r_in + (net as int));
    sat(sat(r_out * (net as int)) * (sat(net + (sat(r_in * 2int) as int)) as int)) / sat(
        2 * (sat(sum * (sum as int)) as int),
    )
}

/// The blended output: pure power-3 at full weight, pure constant-product at 0,
/// otherwise the weighted mean of the two, rounded down.
pub open spec fn blended_out(r_out: nat, r_in: nat, net: nat, w: nat) -> nat {
    if w >= FULL_BLEND {
        power3_out(r_out, r_in, net)
    } else if w == 0 {
        cfmm_out(r_out, r_in, net)
    } else {
        ((sat(w * (power3_out(r_out, r_in, net) as int)) + sat((FULL_BLEND - w) * cfmm_out(
            r_out,
            r_in,
            net,
        ))) / 10000) as nat
    }
}

/// What a trade of `input` on `side` receives, with the given fee and blend weight:
/// side 0 pays in the Y reserve and receives X, side 1 pays in X and receives Y;
/// any other side, or an input that the fee leaves at 0, receives nothing. The output
/// never exceeds the reserve it is paid from.
pub open spec fn curve_output(side: nat, input: nat, rx: nat, ry: nat, fee: int, w: nat) -> nat {
    let net = net_input(input, fee);
    if side > 1 || net == 0 {
        0
    } else {
        paid_out(side, rx, ry, net, w)
    }
}

/// The reserve that `side` is paid from, and the one it pays into.
pub open spec fn reserve_out(side: nat, rx: nat, ry: nat) -> nat {
    if side == 0 { rx } else { ry }
}

pub open spec fn reserve_in(side: nat, rx: nat, ry: nat) -> nat {
    if side == 0 { ry } else { rx }
}

/// What `net` of input after the fee receives on side 0 or 1: the blended output,
/// at most the reserve it is paid from.
pub open spec fn paid_out(side: nat, rx: nat, ry: nat, net: nat, w: nat) -> nat {
    let r_out = reserve_out(side, rx, ry);
    let out = blended_out(r_out, reserve_in(side, rx, ry), net, w);
    if out < r_out { out } else { r_out }
}

/// The quote for a trade, with fee, skew and blend weight read from `storage`.
pub open spec fn quote(side: nat, input: nat, rx: nat, ry: nat, storage: Seq<u8>) -> nat {
    if rx == 0 || ry == 0 || input == 0 {
        0
    } else {
        let trade_count = get_le(storage, TRADE_COUNT_AT as int, 4);
        let fee = effective_fee(
            base_fee(trade_count, get_le(storage, FEE_AT as int, 2)),
            signed16(get_le(storage, SKEW_AT as int, 2)),
            side,
        );
        let w = blend_weight(trade_count, get_le(storage, BLEND_AT as int, 2));
        curve_output(side, input, rx, ry, fee, w)
    }
}

/// Length of a complete swap request: the header and the storage.
pub open spec fn swap_request_len() -> nat {
    (SWAP_HEADER_LEN + STORAGE_SIZE) as nat
}

/// The quote for a swap request: the side byte, the little-endian input amount and
/// reserves, then the storage. A request too short to hold all of it is quoted 0.
pub open spec fn swap_quote(data: Seq<u8>) -> nat {
    if data.len() < swap_request_len() {
        0
    } else {
        quote(
            data[0] as nat,
            get_le(data, 1, 8),
            get_le(data, 9, 8),
            get_le(data, 17, 8),
            data.subrange(SWAP_HEADER_LEN as int, data.len() as int),
        )
    }
}

/// Decodes a swap request with `wincode::deserialize`, as the tuple
/// `(u8, u64, u64, u64, [u8; 1024])`: the side, the input amount, the two reserves
/// and the storage, fixed-width little-endian in that order (wincode's default
/// configuration). Claimed: decoding succeeds exactly when the request holds the
/// 1049 bytes that the tuple takes (trailing bytes are allowed), and the integers
/// are the little-endian values of bytes 1..9, 9..17 and 17..25.
#[verifier::external_body]
fn decode_swap_request(data: &[u8]) -> (r: Option<(u8, u64, u64, u64)>)
    ensures
        r is Some <==> data@.len() >= swap_request_len(),
        r matches Some(f) ==> {
            &&& f.0 == data@[0]
            &&& f.1 == get_le(data@, 1, 8)
            &&& f.2 == get_le(data@, 9, 8)
            &&& f.3 == get_le(data@, 17, 8)
        },
{
    match wincode::deserialize::<(u8, u64, u64, u64, [u8; STORAGE_SIZE])>(data) {
        Ok((side, input_amount, reserve_x, reserve_y, _storage)) => Some(
            (side, input_amount, reserve_x, reserve_y),
        ),
        Err(_) => None,
    }
}

/// `a * b`, or `u128::MAX` where it overflows.
fn sat_mul(a: u128, b: u128) -> (r: u128)
    ensures
        r == sat(a * b),
{
    match a.checked_mul(b) {
        Some(p) => p,
        None => u128::MAX,
    }
}

/// The power-3 output never exceeds the reserve it is paid from.
proof fn lemma_power3_bounded(r_out: nat, r_in: nat, net: nat)
    requires
        1 <= r_out <= u64::MAX,
        r_in <= u64::MAX,
        1 <= net <= u64::MAX,
    ensures
        power3_out(r_out, r_in, net) <= r_out,
{
    let sum = r_in + net;
    let a = r_out * net;
    assert(a <= u64::MAX * u64::MAX) by (nonlinear_arith)
        requires a == r_out * net, r_out <= u64::MAX, net <= u64::MAX;
    assert(sat(r_in + (net as int)) == sum);
    assert(sat(r_in * 2int) == r_in * 2);
    assert(sat(net + (sat(r_in * 2int) as int)) == net + 2 * r_in);
    assert(sat(r_out * (net as int)) == a);
    let num = sat(a * ((net + 2 * r_in) as int));
    let den = sat(2 * (sat(sum * (sum as int)) as int));
    assert(sum * sum >= 1) by (nonlinear_arith)
        requires sum >= 1;
    if den == u128::MAX {
        lemma_div_is_ordered(num as int, u128::MAX as int, u128::MAX as int);
        lemma_div_basics(u128::MAX as int);
    } else {
        assert(sat(sum * (sum as int)) == sum * sum);
        assert(den == 2 * (sum * sum));
        assert(a * (net + 2 * r_in) <= r_out * den) by (nonlinear_arith)
            requires
                a == r_out * net,
                sum == r_in + net,
                den == 2 * (sum * sum),
                r_out >= 0,
                r_in >= 0,
                net >= 0,
        ;
        assert(num <= r_out * den);
        lemma_div_is_ordered(num as int, (r_out * den) as int, den as int);
        lemma_div_by_multiple(r_out as int, den as int);
    }
}

/// The constant-product output never exceeds the reserve it is paid from.
proof fn lemma_cfmm_bounded(r_out: nat, r_in: nat, net: nat)
    requires
        r_out <= u64::MAX,
        r_in <= u64::MAX,
        1 <= net <= u64::MAX,
    ensures
        cfmm_out(r_out, r_in, net) <= r_out,
{
    let sum = r_in + net;
    assert(r_out * net <= u64::MAX * u64::MAX) by (nonlinear_arith)
        requires r_out <= u64::MAX, net <= u64::MAX;
    assert(r_out * net <= r_out * sum) by (nonlinear_arith)
        requires sum >= net, r_out >= 0;
    lemma_div_is_ordered((r_out * net) as int, (r_out * sum) as int, sum as int);
    lemma_div_by_multiple(r_out as int, sum as int);
}

/// The blended output for `net` of input, paid from the reserve `r_out` against
/// the reserve `r_in`, with blend weight `w_p3` (0 = constant-product,
/// 10000 = power-3).
pub fn blended_output(r_out: u128, r_in: u128, net: u128, w_p3: u128) -> (out: u128)
    requires
        1 <= r_out <= u64::MAX,
        r_in <= u64::MAX,
        1 <= net <= u64::MAX,
        w_p3 <= FULL_BLEND,
    ensures
        out == blended_out(r_out as nat, r_in as nat, net as nat, w_p3 as nat),
{
    let sum = r_in.saturating_add(net);
    proof {
        assert(sum * sum >= 1) by (nonlinear_arith)
            requires sum >= 1;
    }
    if w_p3 >= 10000 {
        let sum_sq = sat_mul(sum, sum);
        let n2r = net.saturating_add(sat_mul(r_in, 2));
        sat_mul(sat_mul(r_out, net), n2r) / sat_mul(2, sum_sq)
    } else if w_p3 == 0 {
        sat_mul(r_out, net) / sum
    } else {
        let out_cfmm = sat_mul(r_out, net) / sum;
        let sum_sq = sat_mul(sum, sum);
        let n2r = net.saturating_add(sat_mul(r_in, 2));
        let out_p3 = sat_mul(sat_mul(r_out, net), n2r) / sat_mul(2, sum_sq);
        proof {
            lemma_power3_bounded(r_out as nat, r_in as nat, net as nat);
            lemma_cfmm_bounded(r_out as nat, r_in as nat, net as nat);
        }
        let w_cfmm = 10000u128 - w_p3;
        let a = sat_mul(w_p3, out_p3);
        let b = sat_mul(w_cfmm, out_cfmm);
        proof {
            assert(w_p3 * out_p3 <= 10000 * u64::MAX) by (nonlinear_arith)
                requires w_p3 <= 10000, out_p3 <= u64::MAX;
            assert(w_cfmm * out_cfmm <= 10000 * u64::MAX) by (nonlinear_arith)
                requires w_cfmm <= 10000, out_cfmm <= u64::MAX;
        }
        (a + b) / 10000
    }
}

/// The quote for a trade of `input_amount` on `side` against the reserves, with fee,
/// skew and blend weight read from `storage`.
pub fn quote_swap(side: u8, input_amount: u64, reserve_x: u64, reserve_y: u64, storage: &[u8]) -> (out: u64)
    ensures
        out == quote(side as nat, input_amount as nat, reserve_x as nat, reserve_y as nat, storage@),
{
    if reserve_x == 0 || reserve_y == 0 || input_amount == 0 {
        return 0;
    }
    let trade_count = read_u32(storage, TRADE_COUNT_AT);
    let stored_fee_bps = read_u16(storage, FEE_AT);
    let skew_raw = read_i16(storage, SKEW_AT);

    let base_fee_bps: u16 = if trade_count == 0 || stored_fee_bps == 0 {
        COLD_START_FEE_BPS
    } else {
        clamp_u16(stored_fee_bps, MIN_FEE_BPS, MAX_FEE_BPS)
    };

    // Positive skew makes side 0 pay more and side 1 pay less.
    let skew_sign: i32 = if side == 0 { 1 } else { -1 };
    proof {
        assert(skew_raw * skew_sign == if side == 0 { skew_raw as int } else { -skew_raw }) by (nonlinear_arith)
            requires skew_sign == if side == 0 { 1int } else { -1int };
    }
    let skewed: i32 = base_fee_bps as i32 + skew_raw as i32 * skew_sign;
    let effective_fee: u16 = if skewed < MIN_FEE_BPS as i32 {
        MIN_FEE_BPS
    } else if skewed > MAX_FEE_BPS as i32 {
        MAX_FEE_BPS
    } else {
        skewed as u16
    };

    let w_p3_raw = read_u16(storage, BLEND_AT);
    let w_p3: u128 = if trade_count == 0 && w_p3_raw == 0 {
        FULL_BLEND as u128
    } else if w_p3_raw > FULL_BLEND {
        FULL_BLEND as u128
    } else {
        w_p3_raw as u128
    };

    let input = input_amount as u128;
    let rx = reserve_x as u128;
    let ry = reserve_y as u128;

    let fee_num = 10000u128.saturating_sub(effective_fee as u128);
    proof {
        assert(input * fee_num <= u64::MAX * 10000) by (nonlinear_arith)
            requires input <= u64::MAX, fee_num <= 10000;
    }
    let net = sat_mul(input, fee_num) / 10000;
    if side > 1 || net == 0 {
        return 0;
    }
    proof {
        assert(net <= input) by (nonlinear_arith)
            requires net == input * fee_num / 10000, fee_num <= 10000, input >= 0;
    }
    let (r_out, r_in) = if side == 0 { (rx, ry) } else { (ry, rx) };
    let output = blended_output(r_out, r_in, net, w_p3);
    if output < r_out {
        output as u64
    } else {
        r_out as u64
    }
}

/// Quotes a swap request: the side byte, the little-endian input amount and
/// reserves, then the strategy's storage. A request that does not decode is quoted 0.
pub fn compute_swap(data: &[u8]) -> (out: u64)
    ensures
        out == swap_quote(data@),
{
    let (side, input_amount, reserve_x, reserve_y) = match decode_swap_request(data) {
        Some(fields) => fields,
        None => return 0,
    };
    let (_header, storage) = data.split_at(SWAP_HEADER_LEN);
    quote_swap(side, input_amount, reserve_x, reserve_y, storage)
}

/// Where the power-3 curve is computed without saturation: its numerator and
/// denominator for `net` of input fit in `u128`.
pub open spec fn power3_exact(r_out: nat, r_in: nat, net: nat) -> bool {
    &&& r_out * net * (net + 2 * r_in) <= u128::MAX
    &&& 2 * ((r_in + net) * (r_in + net)) <= u128::MAX
}

/// Floor division respects the order of the quotients it rounds.
proof fn lemma_floor_div_ordered(a1: nat, b1: nat, a2: nat, b2: nat)
    requires
        b1 > 0,
        b2 > 0,
        a1 * b2 <= a2 * b1,
    ensures
        a1 / b1 <= a2 / b2,
{
    let q1 = a1 / b1;
    lemma_fundamental_div_mod(a1 as int, b1 as int);
    assert(q1 * b1 <= a1);
    assert(q1 * b2 <= a2) by (nonlinear_arith)
        requires
            q1 * b1 <= a1,
            a1 * b2 <= a2 * b1,
            b1 > 0,
            b2 > 0,
            q1 >= 0,
    ;
    lemma_div_is_ordered((q1 * b2) as int, a2 as int, b2 as int);
    lemma_div_by_multiple(q1 as int, b2 as int);
}

/// The constant-product output does not decrease with the input.
proof fn lemma_cfmm_monotone(r_out: nat, r_in: nat, n1: nat, n2: nat)
    requires
        r_out <= u64::MAX,
        r_in <= u64::MAX,
        1 <= n1 <= n2 <= u64::MAX,
    ensures
        cfmm_out(r_out, r_in, n1) <= cfmm_out(r_out, r_in, n2),
{
    assert(r_out * n2 <= u64::MAX * u64::MAX) by (nonlinear_arith)
        requires r_out <= u64::MAX, n2 <= u64::MAX;
    assert(r_out * n1 <= r_out * n2) by (nonlinear_arith)
        requires n1 <= n2;
    assert((r_out * n1) * (r_in + n2) <= (r_out * n2) * (r_in + n1)) by (nonlinear_arith)
        requires n1 <= n2;
    lemma_floor_div_ordered(r_out * n1, r_in + n1, r_out * n2, r_in + n2);
}

/// Where it is computed exactly, the power-3 output is the plain quotient.
proof fn lemma_power3_exact_value(r_out: nat, r_in: nat, n: nat)
    requires
        n >= 1,
        power3_exact(r_out, r_in, n),
    ensures
        power3_out(r_out, r_in, n) == (r_out * n * (n + 2 * r_in)) / (2 * ((r_in + n) * (r_in + n))),
{
    let sum = r_in + n;
    assert(sum <= sum * sum) by (nonlinear_arith)
        requires sum >= 1;
    assert(r_out * n <= r_out * n * (n + 2 * r_in)) by (nonlinear_arith)
        requires n >= 1;
    assert(sat(r_in + (n as int)) == sum);
    assert(sat(r_in * 2int) == r_in * 2);
    assert(sat(n + (sat(r_in * 2int) as int)) == n + 2 * r_in);
    assert(sat(r_out * (n as int)) == r_out * n);
    assert(sat(sum * (sum as int)) == sum * sum);
}

/// Where it is computed exactly, the power-3 output does not decrease with the input.
proof fn lemma_power3_monotone(r_out: nat, r_in: nat, n1: nat, n2: nat)
    requires
        1 <= n1 <= n2,
        power3_exact(r_out, r_in, n2),
    ensures
        power3_exact(r_out, r_in, n1),
        power3_out(r_out, r_in, n1) == (r_out * n1 * (n1 + 2 * r_in)) / (2 * ((r_in + n1) * (r_in + n1))),
        power3_out(r_out, r_in, n2) == (r_out * n2 * (n2 + 2 * r_in)) / (2 * ((r_in + n2) * (r_in + n2))),
        power3_out(r_out, r_in, n1) <= power3_out(r_out, r_in, n2),
{
    let a = (r_in + n1) * (r_in + n1);
    let b = (r_in + n2) * (r_in + n2);
    assert(a <= b && a >= 1) by (nonlinear_arith)
        requires a == (r_in + n1) * (r_in + n1), b == (r_in + n2) * (r_in + n2), 1 <= n1 <= n2;
    assert(r_out * n1 <= r_out * n2) by (nonlinear_arith)
        requires n1 <= n2;
    assert(r_out * n1 * (n1 + 2 * r_in) <= r_out * n2 * (n2 + 2 * r_in)) by (nonlinear_arith)
        requires n1 <= n2, r_out * n1 <= r_out * n2;
    assert(r_out * n2 <= r_out * n2 * (n2 + 2 * r_in)) by (nonlinear_arith)
        requires n2 >= 1;
    assert(r_out * n1 <= r_out * n1 * (n1 + 2 * r_in)) by (nonlinear_arith)
        requires n1 >= 1;
    assert(power3_exact(r_out, r_in, n1));
    lemma_power3_exact_value(r_out, r_in, n1);
    lemma_power3_exact_value(r_out, r_in, n2);
    let p1 = r_out * n1 * (n1 + 2 * r_in);
    let p2 = r_out * n2 * (n2 + 2 * r_in);
    assert(p1 == r_out * (n1 * (n1 + 2 * r_in))) by (nonlinear_arith)
        requires p1 == r_out * n1 * (n1 + 2 * r_in);
    assert(p2 == r_out * (n2 * (n2 + 2 * r_in))) by (nonlinear_arith)
        requires p2 == r_out * n2 * (n2 + 2 * r_in);
    assert(n1 * (n1 + 2 * r_in) == a - r_in * r_in) by (nonlinear_arith)
        requires a == (r_in + n1) * (r_in + n1);
    assert(n2 * (n2 + 2 * r_in) == b - r_in * r_in) by (nonlinear_arith)
        requires b == (r_in + n2) * (r_in + n2);
    assert(p1 * (2 * b) <= p2 * (2 * a)) by (nonlinear_arith)
        requires
            p1 == r_out * (n1 * (n1 + 2 * r_in)),
            p2 == r_out * (n2 * (n2 + 2 * r_in)),
            a == (r_in + n1) * (r_in + n1),
            b == (r_in + n2) * (r_in + n2),
            n1 * (n1 + 2 * r_in) == a - r_in * r_in,
            n2 * (n2 + 2 * r_in) == b - r_in * r_in,
            a <= b,
            r_in * r_in >= 0,
            r_out >= 0,
    {
        assert((a - r_in * r_in) * b <= (b - r_in * r_in) * a) by (nonlinear_arith)
            requires a <= b, r_in * r_in >= 0;
    }
    lemma_floor_div_ordered(p1, 2 * a, p2, 2 * b);
}

/// Where it is computed exactly, the paid output does not decrease with the input
/// left after the fee.
proof fn lemma_paid_out_monotone(side: nat, rx: nat, ry: nat, n1: nat, n2: nat, w: nat)
    requires
        side <= 1,
        1 <= rx <= u64::MAX,
        1 <= ry <= u64::MAX,
        1 <= n1 <= n2 <= u64::MAX,
        power3_exact(reserve_out(side, rx, ry), reserve_in(side, rx, ry), n2),
    ensures
        paid_out(side, rx, ry, n1, w) <= paid_out(side, rx, ry, n2, w),
{
    let r_out = reserve_out(side, rx, ry);
    let r_in = reserve_in(side, rx, ry);
    lemma_cfmm_monotone(r_out, r_in, n1, n2);
    lemma_power3_monotone(r_out, r_in, n1, n2);
    lemma_cfmm_bounded(r_out, r_in, n2);
    lemma_cfmm_bounded(r_out, r_in, n1);
    lemma_power3_bounded(r_out, r_in, n1);
    lemma_power3_bounded(r_out, r_in, n2);
    if 0 < w < FULL_BLEND {
        let c1 = cfmm_out(r_out, r_in, n1);
        let c2 = cfmm_out(r_out, r_in, n2);
        let p1 = power3_out(r_out, r_in, n1);
        let p2 = power3_out(r_out, r_in, n2);
        let v = (FULL_BLEND - w) as nat;
        assert(w * p1 <= w * p2 && w * p2 <= 10000 * u64::MAX) by (nonlinear_arith)
            requires p1 <= p2, p2 <= u64::MAX, w <= 10000;
        assert(v * c1 <= v * c2 && v * c2 <= 10000 * u64::MAX) by (nonlinear_arith)
            requires c1 <= c2, c2 <= u64::MAX, v <= 10000;
        lemma_div_is_ordered((w * p1 + v * c1) as int, (w * p2 + v * c2) as int, 10000);
    }
}

/// The fee that a quote charges, from what `storage` holds.
pub open spec fn quote_fee(side: nat, storage: Seq<u8>) -> int {
    effective_fee(
        base_fee(get_le(storage, TRADE_COUNT_AT as int, 4), get_le(storage, FEE_AT as int, 2)),
        signed16(get_le(storage, SKEW_AT as int, 2)),
        side,
    )
}

/// The blend weight that a quote uses, from what `storage` holds.
pub open spec fn quote_weight(storage: Seq<u8>) -> nat {
    blend_weight(get_le(storage, TRADE_COUNT_AT as int, 4), get_le(storage, BLEND_AT as int, 2))
}

/// A larger fee leaves less of the input, and never more than the input.
proof fn lemma_net_input_ordered(input1: nat, input2: nat, fee1: int, fee2: int)
    requires
        input1 <= input2,
        0 <= fee2 <= fee1 <= 10000,
    ensures
        net_input(input1, fee1) <= net_input(input2, fee2),
        net_input(input2, fee2) <= input2,
{
    let k1 = (10000 - fee1) as nat;
    let k2 = (10000 - fee2) as nat;
    assert(input1 * k1 <= input2 * k2) by (nonlinear_arith)
        requires input1 <= input2, k1 <= k2;
    lemma_div_is_ordered((input1 * k1) as int, (input2 * k2) as int, 10000);
    assert(input2 * k2 / 10000 <= input2) by (nonlinear_arith)
        requires k2 <= 10000;
}

/// Where the power-3 curve is computed exactly, a larger trade on the same side, with
/// the same reserves and the same storage, is quoted at least as much as a smaller one.
pub proof fn lemma_quote_monotone(
    side: nat,
    input1: nat,
    input2: nat,
    rx: nat,
    ry: nat,
    storage: Seq<u8>,
)
    requires
        input1 <= input2 <= u64::MAX,
        rx <= u64::MAX,
        ry <= u64::MAX,
        power3_exact(
            reserve_out(side, rx, ry),
            reserve_in(side, rx, ry),
            net_input(input2, quote_fee(side, storage)),
        ),
    ensures
        quote(side, input1, rx, ry, storage) <= quote(side, input2, rx, ry, storage),
{
    let fee = quote_fee(side, storage);
    lemma_net_input_ordered(input1, input2, fee, fee);
    let n1 = net_input(input1, fee);
    let n2 = net_input(input2, fee);
    if !(rx == 0 || ry == 0 || input1 == 0 || side > 1 || n1 == 0) {
        lemma_paid_out_monotone(side, rx, ry, n1, n2, quote_weight(storage));
    }
}

/// Where the power-3 curve is computed exactly, a higher stored fee never gives a
/// trade more: two storages that differ only in the stored fee, after a trade has
/// been seen, quote the one with the higher fee at most as much.
pub proof fn lemma_quote_monotone_in_fee(
    side: nat,
    input: nat,
    rx: nat,
    ry: nat,
    s1: Seq<u8>,
    s2: Seq<u8>,
)
    requires
        input <= u64::MAX,
        rx <= u64::MAX,
        ry <= u64::MAX,
        get_le(s1, TRADE_COUNT_AT as int, 4) == get_le(s2, TRADE_COUNT_AT as int, 4),
        get_le(s1, TRADE_COUNT_AT as int, 4) > 0,
        get_le(s1, SKEW_AT as int, 2) == get_le(s2, SKEW_AT as int, 2),
        get_le(s1, BLEND_AT as int, 2) == get_le(s2, BLEND_AT as int, 2),
        1 <= get_le(s1, FEE_AT as int, 2) <= get_le(s2, FEE_AT as int, 2),
        power3_exact(
            reserve_out(side, rx, ry),
            reserve_in(side, rx, ry),
            net_input(input, quote_fee(side, s1)),
        ),
    ensures
        quote(side, input, rx, ry, s2) <= quote(side, input, rx, ry, s1),
{
    let fee1 = quote_fee(side, s1);
    let fee2 = quote_fee(side, s2);
    assert(fee1 <= fee2);
    lemma_net_input_ordered(input, input, fee2, fee1);
    let n1 = net_input(input, fee1);
    let n2 = net_input(input, fee2);
    if !(rx == 0 || ry == 0 || input == 0 || side > 1 || n2 == 0) {
        lemma_paid_out_monotone(side, rx, ry, n2, n1, quote_weight(s1));
    }
}

/// Where it is computed exactly, the power-3 output is at most the constant-product
/// output, and every blend lies between the two.
proof fn lemma_blended_between(r_out: nat, r_in: nat, n: nat, w: nat)
    requires
        1 <= r_out <= u64::MAX,
        r_in <= u64::MAX,
        1 <= n <= u64::MAX,
        power3_exact(r_out, r_in, n),
    ensures
        power3_out(r_out, r_in, n) <= cfmm_out(r_out, r_in, n),
        power3_out(r_out, r_in, n) <= blended_out(r_out, r_in, n, w) <= cfmm_out(r_out, r_in, n)
            || w >= FULL_BLEND,
        w >= FULL_BLEND ==> blended_out(r_out, r_in, n, w) == power3_out(r_out, r_in, n),
        w == 0 ==> blended_out(r_out, r_in, n, w) == cfmm_out(r_out, r_in, n),
{
    lemma_power3_exact_value(r_out, r_in, n);
    lemma_power3_bounded(r_out, r_in, n);
    lemma_cfmm_bounded(r_out, r_in, n);
    let sum = r_in + n;
    assert(r_out * n <= u64::MAX * u64::MAX) by (nonlinear_arith)
        requires r_out <= u64::MAX, n <= u64::MAX;
    assert(sat(r_out * (n as int)) == r_out * n);
    assert(sat(r_in + (n as int)) == sum);
    let a1 = r_out * n * (n + 2 * r_in);
    let b1 = 2 * (sum * sum);
    assert(a1 * sum <= (r_out * n) * b1 && b1 > 0 && sum > 0) by (nonlinear_arith)
        requires a1 == r_out * n * (n + 2 * r_in), b1 == 2 * (sum * sum), sum == r_in + n, n >= 1;
    lemma_floor_div_ordered(a1, b1, r_out * n, sum);
    let p = power3_out(r_out, r_in, n);
    let c = cfmm_out(r_out, r_in, n);
    if 0 < w < FULL_BLEND {
        let v = (FULL_BLEND - w) as nat;
        assert(w * p <= 10000 * u64::MAX && v * c <= 10000 * u64::MAX) by (nonlinear_arith)
            requires p <= u64::MAX, c <= u64::MAX, w <= 10000, v <= 10000;
        assert(10000 * p <= w * p + v * c <= 10000 * c) by (nonlinear_arith)
            requires p <= c, v == 10000 - w, w >= 0, v >= 0;
        lemma_div_is_ordered((10000 * p) as int, (w * p + v * c) as int, 10000);
        lemma_div_is_ordered((w * p + v * c) as int, (10000 * c) as int, 10000);
        lemma_div_by_multiple(p as int, 10000);
        lemma_div_by_multiple(c as int, 10000);
    }
}

/// Where the power-3 curve is computed exactly, the blended quote lies between the
/// pure power-3 quote and the pure constant-product quote: three storages that differ
/// only in the stored blend weight (full, `w`, and 0), after a trade has been seen,
/// quote in that order.
pub proof fn lemma_quote_blend_between(
    side: nat,
    input: nat,
    rx: nat,
    ry: nat,
    s_power3: Seq<u8>,
    s_blend: Seq<u8>,
    s_cfmm: Seq<u8>,
)
    requires
        input <= u64::MAX,
        rx <= u64::MAX,
        ry <= u64::MAX,
        get_le(s_power3, TRADE_COUNT_AT as int, 4) > 0,
        get_le(s_blend, TRADE_COUNT_AT as int, 4) == get_le(s_power3, TRADE_COUNT_AT as int, 4),
        get_le(s_cfmm, TRADE_COUNT_AT as int, 4) == get_le(s_power3, TRADE_COUNT_AT as int, 4),
        get_le(s_blend, FEE_AT as int, 2) == get_le(s_power3, FEE_AT as int, 2),
        get_le(s_cfmm, FEE_AT as int, 2) == get_le(s_power3, FEE_AT as int, 2),
        get_le(s_blend, SKEW_AT as int, 2) == get_le(s_power3, SKEW_AT as int, 2),
        get_le(s_cfmm, SKEW_AT as int, 2) == get_le(s_power3, SKEW_AT as int, 2),
        get_le(s_power3, BLEND_AT as int, 2) == FULL_BLEND,
        get_le(s_cfmm, BLEND_AT as int, 2) == 0,
        power3_exact(
            reserve_out(side, rx, ry),
            reserve_in(side, rx, ry),
            net_input(input, quote_fee(side, s_power3)),
        ),
    ensures
        quote(side, input, rx, ry, s_power3) <= quote(side, input, rx, ry, s_blend),
        quote(side, input, rx, ry, s_blend) <= quote(side, input, rx, ry, s_cfmm),
{
    let fee = quote_fee(side, s_power3);
    let n = net_input(input, fee);
    lemma_net_input_ordered(input, input, fee, fee);
    if !(rx == 0 || ry == 0 || input == 0 || side > 1 || n == 0) {
        let r_out = reserve_out(side, rx, ry);
        let r_in = reserve_in(side, rx, ry);
        lemma_blended_between(r_out, r_in, n, quote_weight(s_blend));
        lemma_blended_between(r_out, r_in, n, FULL_BLEND as nat);
        lemma_blended_between(r_out, r_in, n, 0);
    }
}

/// After a trade has been seen, a quote charges the stored fee shifted by the stored
/// skew (added on side 0, subtracted on side 1) wherever that stays within the fee
/// bounds, and blends at the stored weight wherever it is at most the full weight:
/// it pays what the curve gives for the input left after that fee.
pub proof fn lemma_quote_uses_stored_parameters(
    side: nat,
    input: nat,
    rx: nat,
    ry: nat,
    storage: Seq<u8>,
)
    requires
        side <= 1,
        input >= 1,
        rx >= 1,
        ry >= 1,
        get_le(storage, TRADE_COUNT_AT as int, 4) > 0,
        MIN_FEE_BPS <= get_le(storage, FEE_AT as int, 2) <= MAX_FEE_BPS,
        MIN_FEE_BPS <= get_le(storage, FEE_AT as int, 2) + (if side == 0 {
            signed16(get_le(storage, SKEW_AT as int, 2))
        } else {
            -signed16(get_le(storage, SKEW_AT as int, 2))
        }) <= MAX_FEE_BPS,
        get_le(storage, BLEND_AT as int, 2) <= FULL_BLEND,
    ensures
        ({
            let skew = signed16(get_le(storage, SKEW_AT as int, 2));
            let fee = get_le(storage, FEE_AT as int, 2) + (if side == 0 { skew } else { -skew });
            let w = get_le(storage, BLEND_AT as int, 2);
            let net = (input * (10000 - fee) / 10000) as nat;
            &&& quote_fee(side, storage) == fee
            &&& quote_weight(storage) == w
            &&& quote(side, input, rx, ry, storage) == if net == 0 {
                0
            } else {
                paid_out(side, rx, ry, net, w)
            }
        }),
{
}

/// Where no fee has been learned, before the first trade or with no stored fee, a
/// quote charges the cold-start fee of 40 bps shifted by the skew; a stored fee
/// outside the fee bounds is charged as the nearest bound. Before the first trade, a
/// zero blend weight is quoted as pure power-3.
pub proof fn lemma_quote_fee_fallbacks(side: nat, storage: Seq<u8>)
    requires
        side <= 1,
    ensures
        ({
            let tc = get_le(storage, TRADE_COUNT_AT as int, 4);
            let f = get_le(storage, FEE_AT as int, 2);
            let skew = signed16(get_le(storage, SKEW_AT as int, 2));
            let shift = if side == 0 { skew } else { -skew };
            let raw = get_le(storage, BLEND_AT as int, 2);
            &&& (tc == 0 || f == 0) && 30 <= 40 + shift <= 80 ==> quote_fee(side, storage) == 40
                + shift
            &&& tc > 0 && f > 80 && 30 <= 80 + shift <= 80 ==> quote_fee(side, storage) == 80 + shift
            &&& tc > 0 && 1 <= f < 30 && 30 <= 30 + shift <= 80 ==> quote_fee(side, storage) == 30
                + shift
            &&& 30 <= quote_fee(side, storage) <= 80
            &&& tc == 0 && raw == 0 ==> quote_weight(storage) == 10000
            &&& raw > 10000 ==> quote_weight(storage) == 10000
            &&& 1 <= raw <= 10000 ==> quote_weight(storage) == raw
        }),
{
}

/// The constant-product output in exact arithmetic, rounded down.
pub open spec fn cfmm_plain(r_out: nat, r_in: nat, net: nat) -> nat {
    r_out * net / (r_in + net)
}

/// The power-3 output `r_out·Δ·(Δ+2·r_in)/(2·(r_in+Δ)²)` in exact arithmetic, rounded down.
pub open spec fn power3_plain(r_out: nat, r_in: nat, net: nat) -> nat {
    r_out * net * (net + 2 * r_in) / (2 * ((r_in + net) * (r_in + net)))
}

/// The blend of the two in exact arithmetic, rounded down.
pub open spec fn blended_plain(r_out: nat, r_in: nat, net: nat, w: nat) -> nat {
    if w >= FULL_BLEND {
        power3_plain(r_out, r_in, net)
    } else if w == 0 {
        cfmm_plain(r_out, r_in, net)
    } else {
        ((w * power3_plain(r_out, r_in, net) + (FULL_BLEND - w) * cfmm_plain(r_out, r_in, net))
            / 10000) as nat
    }
}

/// Where the power-3 curve is computed exactly, no step of the quote saturates: a
/// trade of `input` on side 0 or 1 receives the plain blended formula, at most the
/// reserve it is paid from.
pub proof fn lemma_quote_plain_formula(side: nat, input: nat, rx: nat, ry: nat, storage: Seq<u8>)
    requires
        side <= 1,
        1 <= input <= u64::MAX,
        1 <= rx <= u64::MAX,
        1 <= ry <= u64::MAX,
        net_input(input, quote_fee(side, storage)) >= 1,
        power3_exact(
            reserve_out(side, rx, ry),
            reserve_in(side, rx, ry),
            net_input(input, quote_fee(side, storage)),
        ),
    ensures
        ({
            let r_out = reserve_out(side, rx, ry);
            let out = blended_plain(
                r_out,
                reserve_in(side, rx, ry),
                net_input(input, quote_fee(side, storage)),
                quote_weight(storage),
            );
            quote(side, input, rx, ry, storage) == if out < r_out { out } else { r_out }
        }),
{
    let fee = quote_fee(side, storage);
    let n = net_input(input, fee);
    let r_out = reserve_out(side, rx, ry);
    let r_in = reserve_in(side, rx, ry);
    let w = quote_weight(storage);
    lemma_net_input_ordered(input, input, fee, fee);
    lemma_power3_exact_value(r_out, r_in, n);
    lemma_power3_bounded(r_out, r_in, n);
    lemma_cfmm_bounded(r_out, r_in, n);
    assert(r_out * n <= u64::MAX * u64::MAX) by (nonlinear_arith)
        requires r_out <= u64::MAX, n <= u64::MAX;
    assert(sat(r_out * (n as int)) == r_out * n);
    assert(sat(r_in + (n as int)) == r_in + n);
    let p = power3_out(r_out, r_in, n);
    let c = cfmm_out(r_out, r_in, n);
    assert(w * p <= 10000 * u64::MAX) by (nonlinear_arith)
        requires p <= u64::MAX, w <= 10000;
    if w < FULL_BLEND {
        let v = (FULL_BLEND - w) as nat;
        assert(v * c <= 10000 * u64::MAX) by (nonlinear_arith)
            requires c <= u64::MAX, v <= 10000;
    }
}

/// Every quote charges a fee within the fee bounds, whatever the storage holds, and
/// blends with a weight no larger than the full power-3 weight.
pub proof fn lemma_quote_fee_in_bounds(trade_count: nat, stored_fee: nat, skew: int, side: nat, raw_blend: nat)
    ensures
        MIN_FEE_BPS <= effective_fee(base_fee(trade_count, stored_fee), skew, side) <= MAX_FEE_BPS,
        blend_weight(trade_count, raw_blend) <= FULL_BLEND,
{
}

/// A trade is never paid more than the reserve it is paid from.
pub proof fn lemma_quote_within_reserve(side: nat, input: nat, rx: nat, ry: nat, storage: Seq<u8>)
    ensures
        quote(side, input, rx, ry, storage) <= if side == 0 { rx } else { ry },
{
}

} // verus!
