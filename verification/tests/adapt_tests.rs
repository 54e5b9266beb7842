use prop_amm_starter::adapt::{
    after_swap, observe_trade, ReturnSample, SigmaReading, VolatilityUpdate,
};
use prop_amm_starter::layout::{read_i16, read_u16, read_u32, read_u64};

fn report(side: u8, reserve_x: u64, reserve_y: u64, step: u64) -> Vec<u8> {
    let mut d = vec![2u8, side];
    d.extend_from_slice(&500u64.to_le_bytes());
    d.extend_from_slice(&400u64.to_le_bytes());
    d.extend_from_slice(&reserve_x.to_le_bytes());
    d.extend_from_slice(&reserve_y.to_le_bytes());
    d.extend_from_slice(&step.to_le_bytes());
    d
}

fn reading(usable: bool, fee_bps: u16, blend_weight: u16) -> SigmaReading {
    SigmaReading { usable, fee_bps, blend_weight }
}

fn update(log_price: f64, sample: Option<ReturnSample>) -> VolatilityUpdate {
    flow_update(log_price, sample, 0.6)
}

/// An update whose smoothed flow share is `ewma`.
fn flow_update(log_price: f64, sample: Option<ReturnSample>, ewma: f64) -> VolatilityUpdate {
    VolatilityUpdate {
        log_price_bits: log_price.to_bits(),
        log_price_finite: log_price.is_finite(),
        kept: reading(true, 70, 6000),
        sample,
        flow_share_bits: ewma.to_bits(),
        flow_share_above_high: ewma > 0.55,
        flow_share_above_low: ewma > 0.45,
    }
}

fn sample() -> ReturnSample {
    ReturnSample {
        first_bits: 1.0e-5f64.to_bits(),
        first: reading(true, 35, 1000),
        smoothed_bits: 2.5e-5f64.to_bits(),
        smoothed: reading(true, 55, 4000),
    }
}

#[allow(clippy::too_many_arguments)]
fn state(
    trade_count: u32,
    retail: u32,
    samples: u32,
    last_step: u64,
    fee: u16,
    log_price: f64,
    window: u32,
    skew: i16,
) -> Vec<u8> {
    let mut st = vec![0u8; 1024];
    st[0..4].copy_from_slice(&trade_count.to_le_bytes());
    st[4..8].copy_from_slice(&retail.to_le_bytes());
    st[8..16].copy_from_slice(&3.0e-5f64.to_bits().to_le_bytes());
    st[16..20].copy_from_slice(&samples.to_le_bytes());
    st[24..32].copy_from_slice(&last_step.to_le_bytes());
    st[32..34].copy_from_slice(&fee.to_le_bytes());
    st[34..42].copy_from_slice(&log_price.to_bits().to_le_bytes());
    st[42..46].copy_from_slice(&window.to_le_bytes());
    st[46..48].copy_from_slice(&skew.to_le_bytes());
    st[48..56].copy_from_slice(&0.4f64.to_bits().to_le_bytes());
    st
}

#[test]
fn first_trade_starts_cold() {
    let mut st = vec![0u8; 1024];
    let lp = 2.0f64.ln();
    after_swap(&report(0, 1000, 2000, 5), &mut st, &update(lp, None));
    assert_eq!(read_u32(&st, 0), 1);
    assert_eq!(read_u32(&st, 4), 1);
    assert_eq!(read_u64(&st, 8), 0);
    assert_eq!(read_u32(&st, 16), 0);
    assert_eq!(read_u64(&st, 24), 5);
    assert_eq!(read_u16(&st, 32), 40);
    assert_eq!(read_u64(&st, 34), lp.to_bits());
    assert_eq!(read_u32(&st, 42), 1);
    assert_eq!(read_i16(&st, 46), 0);
    assert_eq!(read_u64(&st, 48), 0);
    assert_eq!(read_u16(&st, 56), 10_000);
}

#[test]
fn arbitrage_with_ready_volatility_sets_fee_curve_and_skew() {
    let mut st = state(20, 6, 9, 7, 45, 0.5, 9, 0);
    let lp = 0.6f64;
    after_swap(&report(1, 1000, 2000, 8), &mut st, &update(lp, Some(sample())));
    assert_eq!(read_u32(&st, 0), 21);
    // The window closes: the smoothed share 0.6 > 0.55 adds 3 bps, then both counters reset.
    assert_eq!(read_u16(&st, 32), 58);
    assert_eq!(read_u32(&st, 4), 0);
    assert_eq!(read_u32(&st, 42), 0);
    assert_eq!(read_u64(&st, 48), 0.6f64.to_bits());
    assert_eq!(read_u32(&st, 16), 10);
    assert_eq!(read_u64(&st, 8), 2.5e-5f64.to_bits());
    assert_eq!(read_u16(&st, 56), 4000);
    assert_eq!(read_i16(&st, 46), -8);
    assert_eq!(read_u64(&st, 34), lp.to_bits());
    assert_eq!(read_u64(&st, 24), 8);
}

#[test]
fn first_sample_initializes_sigma() {
    let mut st = state(3, 1, 0, 7, 40, 0.5, 2, 0);
    after_swap(&report(0, 1000, 2000, 8), &mut st, &update(0.6, Some(sample())));
    assert_eq!(read_u32(&st, 16), 1);
    assert_eq!(read_u64(&st, 8), 1.0e-5f64.to_bits());
    // Not enough samples yet: fee kept, curve stays power-3.
    assert_eq!(read_u16(&st, 32), 40);
    assert_eq!(read_u16(&st, 56), 10_000);
    assert_eq!(read_i16(&st, 46), 8);
    assert_eq!(read_u32(&st, 4), 1);
    assert_eq!(read_u32(&st, 42), 3);
}

#[test]
fn retail_trade_keeps_skew_and_log_price() {
    let mut st = state(30, 2, 12, 9, 50, 0.5, 4, -8);
    after_swap(&report(0, 1000, 2000, 9), &mut st, &update(0.7, Some(sample())));
    assert_eq!(read_i16(&st, 46), -8);
    assert_eq!(read_u64(&st, 34), 0.5f64.to_bits());
    assert_eq!(read_u32(&st, 16), 12);
    assert_eq!(read_u64(&st, 8), 3.0e-5f64.to_bits());
    // The stored sigma is read as usable: fee 70, no window close.
    assert_eq!(read_u16(&st, 32), 70);
    assert_eq!(read_u16(&st, 56), 6000);
    assert_eq!(read_u32(&st, 4), 3);
    assert_eq!(read_u32(&st, 42), 5);
}

#[test]
fn flow_tiers_follow_the_smoothed_share() {
    // Smoothed share 0.5: above 0.45, at most 0.55: one bps.
    let mut st = state(30, 9, 12, 9, 50, 0.5, 9, 0);
    after_swap(&report(0, 1000, 2000, 9), &mut st, &flow_update(0.7, None, 0.5));
    assert_eq!(read_u16(&st, 32), 71);
    assert_eq!(read_u64(&st, 48), 0.5f64.to_bits());
    // A window of 10 retail trades out of 10 after a smoothed share of 0.2: the share
    // becomes 0.15 * 1.0 + 0.85 * 0.2 = 0.32, nothing is added.
    let mut st = state(30, 9, 12, 9, 50, 0.5, 9, 0);
    let ewma = 0.15 * 1.0 + (1.0 - 0.15) * 0.2;
    after_swap(&report(0, 1000, 2000, 9), &mut st, &flow_update(0.7, None, ewma));
    assert_eq!(read_u16(&st, 32), 70);
    assert_eq!(read_u32(&st, 4), 0);
    assert_eq!(read_u32(&st, 42), 0);
    // Smoothed share 0.9: three bps, whatever the raw share.
    let mut st = state(30, 0, 12, 9, 50, 0.5, 9, 0);
    after_swap(&report(0, 1000, 2000, 10), &mut st, &flow_update(0.7, None, 0.9));
    assert_eq!(read_u16(&st, 32), 73);
}

#[test]
fn warm_up_closes_window_but_keeps_fee() {
    let mut st = state(30, 4, 2, 9, 50, 0.5, 9, 0);
    after_swap(&report(0, 1000, 2000, 9), &mut st, &update(0.7, None));
    assert_eq!(read_u16(&st, 32), 50);
    assert_eq!(read_u32(&st, 4), 0);
    assert_eq!(read_u32(&st, 42), 0);
    assert_eq!(read_u64(&st, 48), 0.4f64.to_bits());
}

#[test]
fn cold_fee_does_not_close_window() {
    let mut st = state(30, 4, 2, 9, 0, 0.5, 9, 0);
    after_swap(&report(0, 1000, 2000, 9), &mut st, &update(0.7, None));
    assert_eq!(read_u16(&st, 32), 40);
    assert_eq!(read_u32(&st, 4), 5);
    assert_eq!(read_u32(&st, 42), 10);
}

#[test]
fn short_report_changes_nothing() {
    let mut st = state(30, 4, 2, 9, 50, 0.5, 9, 0);
    let before = st.clone();
    let data = report(0, 1000, 2000, 9);
    after_swap(&data[..41], &mut st, &update(0.7, None));
    assert_eq!(st, before);
    assert!(observe_trade(&data[..41], &st).is_none());
}

#[test]
fn short_storage_gets_the_fields_that_fit() {
    let mut st = vec![0u8; 20];
    after_swap(&report(0, 1000, 2000, 5), &mut st, &update(0.1, None));
    assert_eq!(read_u32(&st, 0), 1);
    assert_eq!(read_u32(&st, 4), 1);
    assert_eq!(read_u32(&st, 16), 0);
    assert_eq!(st.len(), 20);
}

#[test]
fn observation_counts_this_trade() {
    let st = state(20, 6, 9, 7, 45, 0.5, 9, 0);
    let obs = observe_trade(&report(1, 1000, 2000, 8), &st).unwrap();
    assert!(obs.is_likely_arb);
    assert_eq!(obs.retail_count, 6);
    assert_eq!(obs.window_trade_count, 10);
    assert_eq!(obs.sample_count, 9);
    assert_eq!(obs.reserve_x, 1000);
    assert_eq!(obs.reserve_y, 2000);
    assert_eq!(obs.last_log_price_bits, 0.5f64.to_bits());
    let retail = observe_trade(&report(1, 1000, 2000, 7), &st).unwrap();
    assert!(!retail.is_likely_arb);
    assert_eq!(retail.retail_count, 7);
}

#[test]
fn fee_stays_within_bounds_over_a_run() {
    let mut st = vec![0u8; 1024];
    for k in 0..60u64 {
        let step = k / 3;
        let smp = ReturnSample {
            first_bits: 1.0e-6f64.to_bits(),
            first: reading(true, 30 + (k % 51) as u16, (k * 97 % 10_001) as u16),
            smoothed_bits: 2.0e-6f64.to_bits(),
            smoothed: reading(k % 4 != 0, 30 + (k * 7 % 51) as u16, 2500),
        };
        let u = VolatilityUpdate {
            log_price_bits: (0.1 * k as f64).to_bits(),
            log_price_finite: true,
            kept: reading(k % 5 != 0, 30 + (k * 13 % 51) as u16, 7000),
            sample: if k % 2 == 0 { Some(smp) } else { None },
            flow_share_bits: 0.5f64.to_bits(),
            flow_share_above_high: k % 3 == 0,
            flow_share_above_low: k % 2 == 0,
        };
        let before = read_u32(&st, 0);
        after_swap(&report((k % 2) as u8, 1000 + k, 2000, step), &mut st, &u);
        let fee = read_u16(&st, 32);
        assert!((30..=80).contains(&fee), "fee {} at trade {}", fee, k);
        assert_eq!(read_u32(&st, 0), before + 1);
        assert_eq!(read_u64(&st, 24), step);
    }
}

#[test]
fn repeated_report_is_retail() {
    let mut st = state(20, 2, 9, 7, 45, 0.5, 3, 0);
    let data = report(1, 1000, 2000, 8);
    after_swap(&data, &mut st, &update(0.6, Some(sample())));
    let first = st.clone();
    assert_eq!(read_i16(&first, 46), -8);
    after_swap(&data, &mut st, &update(0.9, Some(sample())));
    assert_eq!(&st[8..20], &first[8..20]);
    assert_eq!(&st[24..32], &first[24..32]);
    assert_eq!(&st[34..42], &first[34..42]);
    assert_eq!(&st[46..48], &first[46..48]);
    assert_eq!(read_u32(&st, 0), read_u32(&first, 0) + 1);
    assert_eq!(read_u32(&st, 4), read_u32(&first, 4) + 1);
}

#[test]
fn repeated_report_keeps_blend_weight_when_sigma_reads_the_same() {
    let mut st = state(20, 2, 9, 7, 45, 0.5, 3, 0);
    let data = report(0, 1000, 2000, 8);
    after_swap(&data, &mut st, &update(0.6, Some(sample())));
    let first = st.clone();
    assert_eq!(read_u16(&first, 56), 4000);
    let mut again = update(0.9, None);
    again.kept = sample().smoothed;
    after_swap(&data, &mut st, &again);
    assert_eq!(&st[56..58], &first[56..58]);
    assert_eq!(&st[8..20], &first[8..20]);
}
