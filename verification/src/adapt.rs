//! The adaptation after each trade: classification of the trade, flow counters,
//! volatility sample count, fee, blend weight, directional skew, and the state
//! written back to storage.
//!
//! The volatility estimate itself (the log price, the EWMA of squared log returns,
//! and the maps from σ to a fee and to a blend weight) is floating-point work that
//! the caller does; it hands the results in as a `VolatilityUpdate`. Floating-point
//! values are carried here as their IEEE-754 bit patterns.
use crate::layout::{
    all_zero, lemma_get_le_zero,
    lemma_get_put, pow256, lemma_get_le_bound, lemma_pow256_values, get_le, put_le, read_i16, read_u16, read_u32, read_u64, signed16, unsigned16, write_i16,
    write_u16, write_u32, write_u64, BLEND_AT, FEE_AT, FLOW_SHARE_AT, LAST_STEP_AT, LOG_PRICE_AT,
    RETAIL_COUNT_AT, SAMPLE_COUNT_AT, SIGMA_SQ_AT, SKEW_AT, TRADE_COUNT_AT, WINDOW_COUNT_AT,
};
use crate::swap::{clamp_int, COLD_START_FEE_BPS, FULL_BLEND, MAX_FEE_BPS, MIN_FEE_BPS};
use vstd::arithmetic::div_mod::lemma_small_mod;
use vstd::prelude::*;

verus! {

/// Length of a trade report: tag, side, input, output, the two post-trade reserves
/// and the step, the integers little-endian.
pub const AFTER_SWAP_HEADER_LEN: usize = 42;

/// Volatility samples needed before σ drives the fee and the curve.
pub const VOL_WINDOW_MIN: u32 = 10;

/// Trades per flow-share window.
pub const FEE_UPDATE_INTERVAL: u32 = 10;

/// Fee skew applied after an arbitrage trade, in basis points.
pub const SKEW_BPS: i16 = 8;

/// What the floating-point volatility model says of one σ² estimate.
#[derive(Clone, Copy)]
pub struct SigmaReading {
    /// σ² is finite and positive.
    pub usable: bool,
    /// The fee that σ maps to, in basis points.
    pub fee_bps: u16,
    /// The blend weight that σ maps to (0 = constant-product, 10000 = power-3).
    pub blend_weight: u16,
}

/// A squared log return observed on this trade, folded into σ² two ways.
#[derive(Clone, Copy)]
pub struct ReturnSample {
    /// σ² set to the squared log return (the first sample).
    pub first_bits: u64,
    pub first: SigmaReading,
    /// σ² as the exponentially weighted mean of the stored σ² and the squared return.
    pub smoothed_bits: u64,
    pub smoothed: SigmaReading,
}

/// The results of the floating-point volatility model for one trade.
#[derive(Clone, Copy)]
pub struct VolatilityUpdate {
    /// ln(reserve_y / reserve_x) after the trade, 0.0 when a reserve is 0.
    pub log_price_bits: u64,
    pub log_price_finite: bool,
    /// Reading of the stored σ², for when no sample is taken.
    pub kept: SigmaReading,
    /// Present when the stored log price is non-zero and finite and the log return
    /// since it is finite.
    pub sample: Option<ReturnSample>,
    /// The flow-share EWMA after folding in this window's retail share.
    pub flow_share_bits: u64,
    /// That EWMA is above 0.55.
    pub flow_share_above_high: bool,
    /// That EWMA is above 0.45.
    pub flow_share_above_low: bool,
}

/// What the volatility model reads of a trade and of the stored state.
#[derive(Clone, Copy)]
pub struct TradeObservation {
    pub reserve_x: u64,
    pub reserve_y: u64,
    pub is_likely_arb: bool,
    pub sample_count: u32,
    pub sigma_sq_bits: u64,
    pub last_log_price_bits: u64,
    pub flow_share_bits: u64,
    /// Retail trades in the current window, this trade included.
    pub retail_count: u32,
    /// Trades in the current window, this trade included.
    pub window_trade_count: u32,
}

/// The fields of the strategy's stored state.
pub ghost struct StrategyState {
    pub trade_count: nat,
    pub retail_count: nat,
    pub sigma_sq_bits: nat,
    pub sample_count: nat,
    pub last_step: nat,
    pub fee_bps: nat,
    pub log_price_bits: nat,
    pub window_trade_count: nat,
    pub skew: int,
    pub flow_share_bits: nat,
    pub blend_weight: nat,
}

/// The state as stored in `s`; a field that does not fit reads as 0.
pub open spec fn decode_state(s: Seq<u8>) -> StrategyState {
    StrategyState {
        trade_count: get_le(s, TRADE_COUNT_AT as int, 4),
        retail_count: get_le(s, RETAIL_COUNT_AT as int, 4),
        sigma_sq_bits: get_le(s, SIGMA_SQ_AT as int, 8),
        sample_count: get_le(s, SAMPLE_COUNT_AT as int, 4),
        last_step: get_le(s, LAST_STEP_AT as int, 8),
        fee_bps: get_le(s, FEE_AT as int, 2),
        log_price_bits: get_le(s, LOG_PRICE_AT as int, 8),
        window_trade_count: get_le(s, WINDOW_COUNT_AT as int, 4),
        skew: signed16(get_le(s, SKEW_AT as int, 2)),
        flow_share_bits: get_le(s, FLOW_SHARE_AT as int, 8),
        blend_weight: get_le(s, BLEND_AT as int, 2),
    }
}

/// `s` with every field of `st` stored; a field that does not fit is left out.
pub open spec fn store_state(s: Seq<u8>, st: StrategyState) -> Seq<u8> {
    let s = put_le(s, TRADE_COUNT_AT as int, 4, st.trade_count);
    let s = put_le(s, RETAIL_COUNT_AT as int, 4, st.retail_count);
    let s = put_le(s, SIGMA_SQ_AT as int, 8, st.sigma_sq_bits);
    let s = put_le(s, SAMPLE_COUNT_AT as int, 4, st.sample_count);
    let s = put_le(s, LAST_STEP_AT as int, 8, st.last_step);
    let s = put_le(s, FEE_AT as int, 2, st.fee_bps);
    let s = put_le(s, LOG_PRICE_AT as int, 8, st.log_price_bits);
    let s = put_le(s, WINDOW_COUNT_AT as int, 4, st.window_trade_count);
    let s = put_le(s, SKEW_AT as int, 2, unsigned16(st.skew));
    let s = put_le(s, FLOW_SHARE_AT as int, 8, st.flow_share_bits);
    put_le(s, BLEND_AT as int, 2, st.blend_weight)
}

/// Bytes that hold every field of the state.
pub const STATE_LEN: usize = 58;

/// Field values that their stored widths can hold.
pub open spec fn state_in_range(st: StrategyState) -> bool {
    &&& st.trade_count <= u32::MAX
    &&& st.retail_count <= u32::MAX
    &&& st.sample_count <= u32::MAX
    &&& st.window_trade_count <= u32::MAX
    &&& st.sigma_sq_bits <= u64::MAX
    &&& st.last_step <= u64::MAX
    &&& st.log_price_bits <= u64::MAX
    &&& st.flow_share_bits <= u64::MAX
    &&& st.fee_bps <= u16::MAX
    &&& i16::MIN <= st.skew <= i16::MAX
    &&& st.blend_weight <= u16::MAX
}

/// Reading back a stored state gives the state that was stored, in a buffer that
/// holds every field.
pub proof fn lemma_store_then_decode(s: Seq<u8>, st: StrategyState)
    requires
        s.len() >= STATE_LEN,
        state_in_range(st),
    ensures
        store_state(s, st).len() == s.len(),
        decode_state(store_state(s, st)) == st,
{
    lemma_pow256_values();
    let s1 = put_le(s, TRADE_COUNT_AT as int, 4, st.trade_count);
    let s2 = put_le(s1, RETAIL_COUNT_AT as int, 4, st.retail_count);
    let s3 = put_le(s2, SIGMA_SQ_AT as int, 8, st.sigma_sq_bits);
    let s4 = put_le(s3, SAMPLE_COUNT_AT as int, 4, st.sample_count);
    let s5 = put_le(s4, LAST_STEP_AT as int, 8, st.last_step);
    let s6 = put_le(s5, FEE_AT as int, 2, st.fee_bps);
    let s7 = put_le(s6, LOG_PRICE_AT as int, 8, st.log_price_bits);
    let s8 = put_le(s7, WINDOW_COUNT_AT as int, 4, st.window_trade_count);
    let s9 = put_le(s8, SKEW_AT as int, 2, unsigned16(st.skew));
    let s10 = put_le(s9, FLOW_SHARE_AT as int, 8, st.flow_share_bits);
    let s11 = put_le(s10, BLEND_AT as int, 2, st.blend_weight);
    lemma_get_put(s, TRADE_COUNT_AT as int, 4, st.trade_count);
    lemma_get_put(s1, RETAIL_COUNT_AT as int, 4, st.retail_count);
    lemma_get_put(s2, SIGMA_SQ_AT as int, 8, st.sigma_sq_bits);
    lemma_get_put(s3, SAMPLE_COUNT_AT as int, 4, st.sample_count);
    lemma_get_put(s4, LAST_STEP_AT as int, 8, st.last_step);
    lemma_get_put(s5, FEE_AT as int, 2, st.fee_bps);
    lemma_get_put(s6, LOG_PRICE_AT as int, 8, st.log_price_bits);
    lemma_get_put(s7, WINDOW_COUNT_AT as int, 4, st.window_trade_count);
    lemma_get_put(s8, SKEW_AT as int, 2, unsigned16(st.skew));
    lemma_get_put(s9, FLOW_SHARE_AT as int, 8, st.flow_share_bits);
    lemma_get_put(s10, BLEND_AT as int, 2, st.blend_weight);
    lemma_small_mod(st.trade_count, pow256(4));
    lemma_small_mod(st.retail_count, pow256(4));
    lemma_small_mod(st.sample_count, pow256(4));
    lemma_small_mod(st.window_trade_count, pow256(4));
    lemma_small_mod(st.sigma_sq_bits, pow256(8));
    lemma_small_mod(st.last_step, pow256(8));
    lemma_small_mod(st.log_price_bits, pow256(8));
    lemma_small_mod(st.flow_share_bits, pow256(8));
    lemma_small_mod(st.fee_bps, pow256(2));
    lemma_small_mod(unsigned16(st.skew), pow256(2));
    lemma_small_mod(st.blend_weight, pow256(2));
    assert(decode_state(s11) == st);
}

/// `v + 1`, saturating at `u32::MAX`.
pub open spec fn inc32(v: nat) -> nat {
    if v + 1 > u32::MAX { u32::MAX as nat } else { v + 1 }
}

/// A trade at a new step, after the first trade, is taken for an arbitrage.
pub open spec fn likely_arb(step: nat, last_step: nat, trade_count: nat) -> bool {
    step > last_step && trade_count > 0
}

/// Fee added when a flow-share window closes, from the smoothed (EWMA) retail flow
/// share after this window: 3 above 0.55, 1 above 0.45, else 0.
pub open spec fn flow_adjustment(u: VolatilityUpdate) -> int {
    if u.flow_share_above_high {
        3
    } else if u.flow_share_above_low {
        1
    } else {
        0
    }
}

/// The trade report fields: side, post-trade reserves and step.
pub open spec fn report_side(data: Seq<u8>) -> nat {
    data[1] as nat
}

pub open spec fn report_reserve_x(data: Seq<u8>) -> nat {
    get_le(data, 18, 8)
}

pub open spec fn report_reserve_y(data: Seq<u8>) -> nat {
    get_le(data, 26, 8)
}

pub open spec fn report_step(data: Seq<u8>) -> nat {
    get_le(data, 34, 8)
}

/// Whether the reported trade is taken for an arbitrage, given the stored state.
pub open spec fn report_is_arb(data: Seq<u8>, old: StrategyState) -> bool {
    likely_arb(report_step(data), old.last_step, old.trade_count)
}

/// What the volatility model is shown of a trade report and the stored state.
pub open spec fn observation(data: Seq<u8>, s: Seq<u8>) -> TradeObservation {
    let old = decode_state(s);
    let arb = report_is_arb(data, old);
    TradeObservation {
        reserve_x: report_reserve_x(data) as u64,
        reserve_y: report_reserve_y(data) as u64,
        is_likely_arb: arb,
        sample_count: old.sample_count as u32,
        sigma_sq_bits: old.sigma_sq_bits as u64,
        last_log_price_bits: old.log_price_bits as u64,
        flow_share_bits: old.flow_share_bits as u64,
        retail_count: (if !arb || old.trade_count == 0 {
            inc32(old.retail_count)
        } else {
            old.retail_count
        }) as u32,
        window_trade_count: inc32(old.window_trade_count) as u32,
    }
}

/// Whether a volatility sample is taken on this trade.
pub open spec fn takes_sample(obs: TradeObservation, u: VolatilityUpdate) -> bool {
    obs.is_likely_arb && u.sample is Some
}

/// σ² after this trade, as bits, and its reading.
pub open spec fn next_sigma(obs: TradeObservation, u: VolatilityUpdate) -> (nat, SigmaReading) {
    if takes_sample(obs, u) {
        let smp = u.sample->0;
        if obs.sample_count == 0 {
            (smp.first_bits as nat, smp.first)
        } else {
            (smp.smoothed_bits as nat, smp.smoothed)
        }
    } else {
        (obs.sigma_sq_bits as nat, u.kept)
    }
}

/// The state after the reported trade, for a report that holds all its fields.
pub open spec fn next_state(data: Seq<u8>, s: Seq<u8>, u: VolatilityUpdate) -> StrategyState {
    let old = decode_state(s);
    let obs = observation(data, s);
    let arb = obs.is_likely_arb;
    let samples = if takes_sample(obs, u) { inc32(old.sample_count) } else { old.sample_count };
    let (sigma_bits, reading) = next_sigma(obs, u);
    let retail = obs.retail_count as nat;
    let window = obs.window_trade_count as nat;
    let ready = samples >= VOL_WINDOW_MIN && reading.usable;
    let closes = window >= FEE_UPDATE_INTERVAL;
    let resets = if ready { closes } else { old.fee_bps != 0 && closes };
    StrategyState {
        trade_count: inc32(old.trade_count),
        retail_count: if resets { 0 } else { retail },
        sigma_sq_bits: sigma_bits,
        sample_count: samples,
        last_step: report_step(data),
        fee_bps: if ready {
            clamp_int(
                reading.fee_bps + (if closes { flow_adjustment(u) } else { 0 }),
                MIN_FEE_BPS as int,
                MAX_FEE_BPS as int,
            ) as nat
        } else if old.fee_bps == 0 {
            COLD_START_FEE_BPS as nat
        } else {
            old.fee_bps
        },
        log_price_bits: if (arb || old.trade_count == 0) && u.log_price_finite {
            u.log_price_bits as nat
        } else {
            old.log_price_bits
        },
        window_trade_count: if resets { 0 } else { window },
        skew: if arb {
            if report_side(data) == 0 { SKEW_BPS as int } else { -SKEW_BPS }
        } else {
            old.skew
        },
        flow_share_bits: if ready && closes { u.flow_share_bits as nat } else { old.flow_share_bits },
        blend_weight: if ready { reading.blend_weight as nat } else { FULL_BLEND as nat },
    }
}

/// The storage after a trade report: unchanged for a report shorter than its
/// header, otherwise with the next state stored.
pub open spec fn after_swap_storage(data: Seq<u8>, s: Seq<u8>, u: VolatilityUpdate) -> Seq<u8> {
    if data.len() < AFTER_SWAP_HEADER_LEN {
        s
    } else {
        store_state(s, next_state(data, s, u))
    }
}

/// Every stored field is within the range of its width.
proof fn lemma_state_fields_bounded(s: Seq<u8>)
    ensures
        decode_state(s).trade_count <= u32::MAX,
        decode_state(s).retail_count <= u32::MAX,
        decode_state(s).sample_count <= u32::MAX,
        decode_state(s).window_trade_count <= u32::MAX,
        decode_state(s).sigma_sq_bits <= u64::MAX,
        decode_state(s).last_step <= u64::MAX,
        decode_state(s).log_price_bits <= u64::MAX,
        decode_state(s).flow_share_bits <= u64::MAX,
        decode_state(s).fee_bps <= u16::MAX,
        get_le(s, SKEW_AT as int, 2) <= u16::MAX,
        decode_state(s).blend_weight <= u16::MAX,
{
    lemma_pow256_values();
    lemma_get_le_bound(s, TRADE_COUNT_AT as int, 4);
    lemma_get_le_bound(s, RETAIL_COUNT_AT as int, 4);
    lemma_get_le_bound(s, SAMPLE_COUNT_AT as int, 4);
    lemma_get_le_bound(s, WINDOW_COUNT_AT as int, 4);
    lemma_get_le_bound(s, SIGMA_SQ_AT as int, 8);
    lemma_get_le_bound(s, LAST_STEP_AT as int, 8);
    lemma_get_le_bound(s, LOG_PRICE_AT as int, 8);
    lemma_get_le_bound(s, FLOW_SHARE_AT as int, 8);
    lemma_get_le_bound(s, FEE_AT as int, 2);
    lemma_get_le_bound(s, SKEW_AT as int, 2);
    lemma_get_le_bound(s, BLEND_AT as int, 2);
}

/// The next state holds only values that their stored widths can hold.
proof fn lemma_next_state_in_range(data: Seq<u8>, s: Seq<u8>, u: VolatilityUpdate)
    requires
        data.len() >= AFTER_SWAP_HEADER_LEN,
    ensures
        state_in_range(next_state(data, s, u)),
{
    lemma_state_fields_bounded(s);
    lemma_pow256_values();
    lemma_get_le_bound(data, 34, 8);
}

/// After a trade report, reading the storage back gives the next state, in a
/// storage that holds every field.
pub proof fn lemma_after_swap_reads_back(data: Seq<u8>, s: Seq<u8>, u: VolatilityUpdate)
    requires
        data.len() >= AFTER_SWAP_HEADER_LEN,
        s.len() >= STATE_LEN,
    ensures
        after_swap_storage(data, s, u).len() == s.len(),
        decode_state(after_swap_storage(data, s, u)) == next_state(data, s, u),
{
    lemma_next_state_in_range(data, s, u);
    lemma_store_then_decode(s, next_state(data, s, u));
}

/// Every trade report is counted and its step recorded; the stored fee either stays
/// what it was or lands within the fee bounds; the blend weight falls back to the
/// pure power-3 curve until the volatility estimate is ready; after an arbitrage the
/// skew penalizes the arbitrage's direction; at most one volatility sample is taken.
pub proof fn lemma_after_swap_bookkeeping(data: Seq<u8>, s: Seq<u8>, u: VolatilityUpdate)
    requires
        data.len() >= AFTER_SWAP_HEADER_LEN,
        s.len() >= STATE_LEN,
    ensures
        ({
            let old = decode_state(s);
            let new = decode_state(after_swap_storage(data, s, u));
            &&& new.trade_count == inc32(old.trade_count)
            &&& new.last_step == report_step(data)
            &&& (MIN_FEE_BPS <= new.fee_bps <= MAX_FEE_BPS || new.fee_bps == old.fee_bps)
            &&& (old.fee_bps == 0 || MIN_FEE_BPS <= old.fee_bps <= MAX_FEE_BPS) ==> MIN_FEE_BPS
                <= new.fee_bps <= MAX_FEE_BPS
            &&& (new.sample_count < VOL_WINDOW_MIN ==> new.blend_weight == FULL_BLEND)
            &&& report_is_arb(data, old) ==> new.skew == (if report_side(data) == 0 {
                SKEW_BPS as int
            } else {
                -SKEW_BPS
            })
            &&& (new.sample_count == old.sample_count || new.sample_count == old.sample_count + 1)
        }),
{
    lemma_after_swap_reads_back(data, s, u);
    lemma_state_fields_bounded(s);
}

/// How a trade report sets the stored fee. Once the volatility estimate is ready (at
/// least `VOL_WINDOW_MIN` samples, this trade's included, and the σ² in effect read
/// as usable) the fee is the σ baseline of that reading, limited to the fee bounds,
/// on arbitrage and retail trades alike; when the trade closes a flow-share window
/// the smoothed share's tier (3 above 0.55, 1 above 0.45) is added first, and both
/// window counters restart. Before that, the fee stays as stored, or becomes the
/// cold-start fee if none is stored.
pub proof fn lemma_after_swap_fee(data: Seq<u8>, s: Seq<u8>, u: VolatilityUpdate)
    requires
        data.len() >= AFTER_SWAP_HEADER_LEN,
        s.len() >= STATE_LEN,
    ensures
        ({
            let old = decode_state(s);
            let new = decode_state(after_swap_storage(data, s, u));
            let arb = report_step(data) > old.last_step && old.trade_count > 0;
            let reading = if arb && u.sample is Some {
                if old.sample_count == 0 {
                    u.sample->0.first
                } else {
                    u.sample->0.smoothed
                }
            } else {
                u.kept
            };
            let ready = new.sample_count >= 10 && reading.usable;
            let closes = old.window_trade_count + 1 >= 10;
            let tier: int = if u.flow_share_above_high {
                3
            } else if u.flow_share_above_low {
                1
            } else {
                0
            };
            let base = reading.fee_bps + (if closes { tier } else { 0 });
            &&& ready ==> new.fee_bps == (if base < 30 {
                30
            } else if base > 80 {
                80
            } else {
                base
            })
            &&& ready && closes ==> new.window_trade_count == 0 && new.retail_count == 0
            &&& ready && !closes ==> new.window_trade_count == old.window_trade_count + 1
            &&& !ready && old.fee_bps == 0 ==> new.fee_bps == 40
            &&& !ready && old.fee_bps != 0 ==> new.fee_bps == old.fee_bps
        }),
{
    lemma_after_swap_reads_back(data, s, u);
    lemma_state_fields_bounded(s);
}

/// How a trade report moves the volatility state and the curve. A trade at a new step
/// after the first trade is an arbitrage; only an arbitrage with an observed return
/// takes a sample, which sets σ² to the squared return for the first sample and to
/// its smoothed value after that; otherwise σ² and the sample count stay. The stored
/// log price follows the trade after an arbitrage or on the first trade, where the
/// model's log price is finite. The blend weight is the σ reading's once the estimate
/// is ready, pure power-3 before. A retail trade is counted in the window's retail
/// count and an arbitrage is not, unless the window restarts.
pub proof fn lemma_after_swap_volatility(data: Seq<u8>, s: Seq<u8>, u: VolatilityUpdate)
    requires
        data.len() >= AFTER_SWAP_HEADER_LEN,
        s.len() >= STATE_LEN,
    ensures
        ({
            let old = decode_state(s);
            let new = decode_state(after_swap_storage(data, s, u));
            let arb = report_step(data) > old.last_step && old.trade_count > 0;
            let sampled = arb && u.sample is Some;
            let reading = if sampled {
                if old.sample_count == 0 {
                    u.sample->0.first
                } else {
                    u.sample->0.smoothed
                }
            } else {
                u.kept
            };
            let ready = new.sample_count >= 10 && reading.usable;
            &&& sampled && old.sample_count < u32::MAX ==> new.sample_count == old.sample_count + 1
            &&& !sampled ==> new.sample_count == old.sample_count
            &&& sampled && old.sample_count == 0 ==> new.sigma_sq_bits == u.sample->0.first_bits
            &&& sampled && old.sample_count > 0 ==> new.sigma_sq_bits == u.sample->0.smoothed_bits
            &&& !sampled ==> new.sigma_sq_bits == old.sigma_sq_bits
            &&& (arb || old.trade_count == 0) && u.log_price_finite ==> new.log_price_bits
                == u.log_price_bits
            &&& !((arb || old.trade_count == 0) && u.log_price_finite) ==> new.log_price_bits
                == old.log_price_bits
            &&& ready ==> new.blend_weight == reading.blend_weight
            &&& !ready ==> new.blend_weight == 10000
            &&& !arb ==> new.skew == old.skew
            &&& new.window_trade_count != 0 && !arb && old.retail_count < u32::MAX
                ==> new.retail_count == old.retail_count + 1
            &&& new.window_trade_count != 0 && arb ==> new.retail_count == old.retail_count
        }),
{
    lemma_after_swap_reads_back(data, s, u);
    lemma_state_fields_bounded(s);
}

/// The volatility model's blend weights are at most the full power-3 weight.
pub open spec fn readings_in_range(u: VolatilityUpdate) -> bool {
    &&& u.kept.blend_weight <= FULL_BLEND
    &&& u.sample matches Some(smp) ==> smp.first.blend_weight <= FULL_BLEND
        && smp.smoothed.blend_weight <= FULL_BLEND
}

/// What holds of the stored state once a trade has been reported: the fee is within
/// its bounds, the blend weight at most the full weight, the skew 0 or ±8, the
/// retail count at most the window count, which is below the window length, and the
/// sample count at most the trade count.
pub open spec fn state_invariant(st: StrategyState) -> bool {
    &&& MIN_FEE_BPS <= st.fee_bps <= MAX_FEE_BPS
    &&& st.blend_weight <= FULL_BLEND
    &&& (st.skew == 0 || st.skew == SKEW_BPS || st.skew == -SKEW_BPS)
    &&& st.retail_count <= st.window_trade_count < FEE_UPDATE_INTERVAL
    &&& st.sample_count <= st.trade_count
}

/// The first trade report into a zeroed storage establishes the invariant.
pub proof fn lemma_first_report_establishes_invariant(
    data: Seq<u8>,
    s: Seq<u8>,
    u: VolatilityUpdate,
)
    requires
        data.len() >= AFTER_SWAP_HEADER_LEN,
        s.len() >= STATE_LEN,
        all_zero(s),
    ensures
        state_invariant(decode_state(after_swap_storage(data, s, u))),
{
    lemma_get_le_zero(s, TRADE_COUNT_AT as int, 4);
    lemma_get_le_zero(s, RETAIL_COUNT_AT as int, 4);
    lemma_get_le_zero(s, SAMPLE_COUNT_AT as int, 4);
    lemma_get_le_zero(s, WINDOW_COUNT_AT as int, 4);
    lemma_get_le_zero(s, FEE_AT as int, 2);
    lemma_get_le_zero(s, SKEW_AT as int, 2);
    lemma_after_swap_reads_back(data, s, u);
}

/// Every trade report keeps the invariant, given blend weights in range from the
/// volatility model.
pub proof fn lemma_after_swap_keeps_invariant(data: Seq<u8>, s: Seq<u8>, u: VolatilityUpdate)
    requires
        s.len() >= STATE_LEN,
        state_invariant(decode_state(s)),
        readings_in_range(u),
    ensures
        state_invariant(decode_state(after_swap_storage(data, s, u))),
{
    if data.len() >= AFTER_SWAP_HEADER_LEN {
        lemma_after_swap_reads_back(data, s, u);
        lemma_state_fields_bounded(s);
    }
}

/// The storage after a run of trade reports, each with its volatility update.
pub open spec fn run(s: Seq<u8>, reports: Seq<Seq<u8>>, updates: Seq<VolatilityUpdate>) -> Seq<u8>
    decreases reports.len(),
{
    if reports.len() == 0 || updates.len() == 0 {
        s
    } else {
        run(
            after_swap_storage(reports[0], s, updates[0]),
            reports.drop_first(),
            updates.drop_first(),
        )
    }
}

/// From a zeroed storage, after any run of reports of which at least one holds its
/// header, the invariant holds: the fee stays within [30, 80], the blend weight at
/// most 10000, the skew 0 or ±8, the retail count at most the window count, which
/// stays below 10, and the sample count at most the trade count.
pub proof fn lemma_run_keeps_invariant(
    s: Seq<u8>,
    reports: Seq<Seq<u8>>,
    updates: Seq<VolatilityUpdate>,
)
    requires
        s.len() >= STATE_LEN,
        all_zero(s),
        reports.len() == updates.len(),
        exists|i: int| 0 <= i < reports.len() && #[trigger] reports[i].len() >= AFTER_SWAP_HEADER_LEN,
        forall|i: int| 0 <= i < updates.len() ==> readings_in_range(#[trigger] updates[i]),
    ensures
        state_invariant(decode_state(run(s, reports, updates))),
{
    lemma_run_from(s, reports, updates);
}

proof fn lemma_run_from(s: Seq<u8>, reports: Seq<Seq<u8>>, updates: Seq<VolatilityUpdate>)
    requires
        s.len() >= STATE_LEN,
        all_zero(s) || state_invariant(decode_state(s)),
        reports.len() == updates.len(),
        forall|i: int| 0 <= i < updates.len() ==> readings_in_range(#[trigger] updates[i]),
    ensures
        (state_invariant(decode_state(s)) || exists|i: int|
            0 <= i < reports.len() && #[trigger] reports[i].len() >= AFTER_SWAP_HEADER_LEN)
            ==> state_invariant(decode_state(run(s, reports, updates))),
    decreases reports.len(),
{
    if reports.len() > 0 {
        let r0 = reports[0];
        let u0 = updates[0];
        assert(readings_in_range(updates[0]));
        let s1 = after_swap_storage(r0, s, u0);
        if r0.len() >= AFTER_SWAP_HEADER_LEN {
            lemma_after_swap_reads_back(r0, s, u0);
            if state_invariant(decode_state(s)) {
                lemma_after_swap_keeps_invariant(r0, s, u0);
            } else {
                lemma_first_report_establishes_invariant(r0, s, u0);
            }
        }
        let rest = reports.drop_first();
        let urest = updates.drop_first();
        assert forall|i: int| 0 <= i < urest.len() implies readings_in_range(#[trigger] urest[i]) by {
            assert(urest[i] == updates[i + 1]);
        }
        lemma_run_from(s1, rest, urest);
        if exists|i: int| 0 <= i < reports.len() && #[trigger] reports[i].len() >= AFTER_SWAP_HEADER_LEN {
            let i = choose|i: int| 0 <= i < reports.len() && #[trigger] reports[i].len() >= AFTER_SWAP_HEADER_LEN;
            if i > 0 {
                assert(rest[i - 1].len() >= AFTER_SWAP_HEADER_LEN);
            }
        }
    }
}

/// A report repeated right after itself is a retail trade: its step is no longer new,
/// so σ², the sample count, the step, the log price and the skew stay as the first
/// report left them, and the trade is counted. Where the second update reads the
/// stored σ² as the first call read the σ² it stored, the blend weight stays too.
pub proof fn lemma_repeated_report_is_retail(
    data: Seq<u8>,
    s: Seq<u8>,
    u1: VolatilityUpdate,
    u2: VolatilityUpdate,
)
    requires
        data.len() >= AFTER_SWAP_HEADER_LEN,
        s.len() >= STATE_LEN,
    ensures
        ({
            let s1 = after_swap_storage(data, s, u1);
            let a = decode_state(s1);
            let b = decode_state(after_swap_storage(data, s1, u2));
            &&& !report_is_arb(data, a)
            &&& b.sigma_sq_bits == a.sigma_sq_bits
            &&& b.sample_count == a.sample_count
            &&& b.last_step == a.last_step
            &&& b.log_price_bits == a.log_price_bits
            &&& b.skew == a.skew
            &&& b.trade_count == inc32(a.trade_count)
            &&& u2.kept == next_sigma(observation(data, s), u1).1 ==> b.blend_weight
                == a.blend_weight
        }),
{
    let s1 = after_swap_storage(data, s, u1);
    lemma_after_swap_reads_back(data, s, u1);
    lemma_after_swap_reads_back(data, s1, u2);
}

/// `v + 1`, saturating at `u32::MAX`.
fn saturating_inc(v: u32) -> (r: u32)
    ensures
        r == inc32(v as nat),
{
    v.saturating_add(1)
}

/// Shows the volatility model what it needs of a trade report and the stored state;
/// `None` for a report shorter than its header.
pub fn observe_trade(data: &[u8], storage: &[u8]) -> (r: Option<TradeObservation>)
    ensures
        r is Some <==> data@.len() >= AFTER_SWAP_HEADER_LEN,
        r matches Some(obs) ==> obs == observation(data@, storage@),
{
    if data.len() < AFTER_SWAP_HEADER_LEN {
        return None;
    }
    let reserve_x = read_u64(data, 18);
    let reserve_y = read_u64(data, 26);
    let step = read_u64(data, 34);
    let trade_count = read_u32(storage, TRADE_COUNT_AT);
    let mut retail_count = read_u32(storage, RETAIL_COUNT_AT);
    let last_step = read_u64(storage, LAST_STEP_AT);
    let is_likely_arb = step > last_step && trade_count > 0;
    if !is_likely_arb || trade_count == 0 {
        retail_count = saturating_inc(retail_count);
    }
    let window_trade_count = saturating_inc(read_u32(storage, WINDOW_COUNT_AT));
    Some(
        TradeObservation {
            reserve_x,
            reserve_y,
            is_likely_arb,
            sample_count: read_u32(storage, SAMPLE_COUNT_AT),
            sigma_sq_bits: read_u64(storage, SIGMA_SQ_AT),
            last_log_price_bits: read_u64(storage, LOG_PRICE_AT),
            flow_share_bits: read_u64(storage, FLOW_SHARE_AT),
            retail_count,
            window_trade_count,
        },
    )
}

/// Updates the stored state after a trade: counts the trade, takes a volatility
/// sample after an arbitrage, updates fee, blend weight and skew, and stores them.
/// The floating-point results for this trade come in as `update`. A report shorter
/// than its header leaves the storage unchanged.
pub fn after_swap(data: &[u8], storage: &mut [u8], update: &VolatilityUpdate)
    ensures
        final(storage)@ == after_swap_storage(data@, old(storage)@, *update),
{
    let obs = match observe_trade(data, storage) {
        Some(obs) => obs,
        None => return,
    };
    let ghost s0 = storage@;
    let trade_count = read_u32(storage, TRADE_COUNT_AT);
    let current_fee_bps = read_u16(storage, FEE_AT);
    let step = read_u64(data, 34);
    let trade_side = data[1];
    let is_likely_arb = obs.is_likely_arb;
    let mut retail_count = obs.retail_count;
    let mut window_trade_count = obs.window_trade_count;
    let mut n_samples = obs.sample_count;

    // A sample is taken on an arbitrage trade when the model observed a return.
    let mut sigma_sq_bits = obs.sigma_sq_bits;
    let mut reading = update.kept;
    if is_likely_arb {
        if let Some(sample) = update.sample {
            if n_samples == 0 {
                sigma_sq_bits = sample.first_bits;
                reading = sample.first;
            } else {
                sigma_sq_bits = sample.smoothed_bits;
                reading = sample.smoothed;
            }
            n_samples = saturating_inc(n_samples);
        }
    }

    let mut flow_share_bits = obs.flow_share_bits;
    let vol_ready = n_samples >= VOL_WINDOW_MIN && reading.usable;

    let new_fee_bps: u16 = if vol_ready {
        // When a window closes, the smoothed flow share adds its tier to the fee.
        let adj: i32 = if window_trade_count >= FEE_UPDATE_INTERVAL {
            flow_share_bits = update.flow_share_bits;
            window_trade_count = 0;
            retail_count = 0;
            if update.flow_share_above_high {
                3
            } else if update.flow_share_above_low {
                1
            } else {
                0
            }
        } else {
            0
        };
        let adjusted = reading.fee_bps as i32 + adj;
        if adjusted < MIN_FEE_BPS as i32 {
            MIN_FEE_BPS
        } else if adjusted > MAX_FEE_BPS as i32 {
            MAX_FEE_BPS
        } else {
            adjusted as u16
        }
    } else if current_fee_bps == 0 {
        COLD_START_FEE_BPS
    } else {
        // Warm-up: keep the fee, still close the window.
        if window_trade_count >= FEE_UPDATE_INTERVAL {
            window_trade_count = 0;
            retail_count = 0;
        }
        current_fee_bps
    };

    let new_w_p3: u16 = if vol_ready {
        reading.blend_weight
    } else {
        FULL_BLEND
    };

    // After an arbitrage, the next trade in the same direction pays more.
    let new_skew: i16 = if is_likely_arb {
        if trade_side == 0 {
            SKEW_BPS
        } else {
            -SKEW_BPS
        }
    } else {
        read_i16(storage, SKEW_AT)
    };

    let new_log_price_bits = if is_likely_arb && update.log_price_finite {
        update.log_price_bits
    } else if trade_count == 0 && update.log_price_finite {
        update.log_price_bits
    } else {
        obs.last_log_price_bits
    };

    proof {
        lemma_state_fields_bounded(s0);
    }
    write_u32(storage, TRADE_COUNT_AT, saturating_inc(trade_count));
    write_u32(storage, RETAIL_COUNT_AT, retail_count);
    write_u64(storage, SIGMA_SQ_AT, sigma_sq_bits);
    write_u32(storage, SAMPLE_COUNT_AT, n_samples);
    write_u64(storage, LAST_STEP_AT, step);
    write_u16(storage, FEE_AT, new_fee_bps);
    write_u64(storage, LOG_PRICE_AT, new_log_price_bits);
    write_u32(storage, WINDOW_COUNT_AT, window_trade_count);
    write_i16(storage, SKEW_AT, new_skew);
    write_u64(storage, FLOW_SHARE_AT, flow_share_bits);
    write_u16(storage, BLEND_AT, new_w_p3);
}

} // verus!
