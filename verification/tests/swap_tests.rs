use prop_amm_starter::swap::{blended_output, compute_swap, quote_swap};

fn storage(trade_count: u32, fee: u16, skew: i16, w_p3: u16) -> Vec<u8> {
    let mut st = vec![0u8; 1024];
    st[0..4].copy_from_slice(&trade_count.to_le_bytes());
    st[32..34].copy_from_slice(&fee.to_le_bytes());
    st[46..48].copy_from_slice(&skew.to_le_bytes());
    st[56..58].copy_from_slice(&w_p3.to_le_bytes());
    st
}

fn request(side: u8, input: u64, rx: u64, ry: u64, st: &[u8]) -> Vec<u8> {
    let mut d = vec![side];
    d.extend_from_slice(&input.to_le_bytes());
    d.extend_from_slice(&rx.to_le_bytes());
    d.extend_from_slice(&ry.to_le_bytes());
    d.extend_from_slice(st);
    d
}

#[test]
fn cold_start_quotes_power3_at_forty_bps() {
    let st = storage(0, 0, 0, 0);
    assert_eq!(compute_swap(&request(0, 1000, 1_000_000, 2_000_000, &st)), 497);
    assert_eq!(compute_swap(&request(1, 1000, 1_000_000, 2_000_000, &st)), 1989);
}

#[test]
fn pure_constant_product_quote() {
    let st = storage(5, 50, 0, 0);
    assert_eq!(compute_swap(&request(0, 50_000, 10_000_000, 5_000_000, &st)), 98_519);
}

#[test]
fn blended_quote() {
    let st = storage(5, 60, 0, 2500);
    assert_eq!(compute_swap(&request(1, 123_456, 7_000_000, 9_000_000, &st)), 154_724);
}

#[test]
fn skew_raises_side_zero_and_lowers_side_one() {
    let st = storage(3, 45, 8, 0);
    assert_eq!(compute_swap(&request(0, 100_000, 1_000_000, 1_000_000, &st)), 90_470);
    assert_eq!(compute_swap(&request(1, 100_000, 1_000_000, 1_000_000, &st)), 90_603);
}

#[test]
fn fee_is_clamped_to_bounds() {
    let low = storage(3, 45, -500, 0);
    assert_eq!(compute_swap(&request(0, 100_000, 1_000_000, 1_000_000, &low)), 90_661);
    let high = storage(3, 500, 0, 0);
    assert_eq!(compute_swap(&request(0, 100_000, 1_000_000, 1_000_000, &high)), 90_247);
}

#[test]
fn blend_weight_above_full_is_power3() {
    let st = storage(3, 50, 0, 20_000);
    assert_eq!(compute_swap(&request(0, 100_000, 1_000_000, 1_000_000, &st)), 86_400);
}

#[test]
fn output_never_exceeds_reserve() {
    let st = storage(1, 30, 0, 0);
    assert_eq!(compute_swap(&request(0, 1_000_000_000_000_000, 1000, 1000, &st)), 999);
}

#[test]
fn degenerate_requests_quote_zero() {
    let st = storage(0, 0, 0, 0);
    assert_eq!(compute_swap(&request(0, 1, 1_000_000, 1_000_000, &st)), 0);
    assert_eq!(compute_swap(&request(0, 0, 1_000_000, 1_000_000, &st)), 0);
    assert_eq!(compute_swap(&request(0, 1000, 0, 1_000_000, &st)), 0);
    assert_eq!(compute_swap(&request(1, 1000, 1_000_000, 0, &st)), 0);
    assert_eq!(compute_swap(&request(2, 1000, 1_000_000, 1_000_000, &st)), 0);
}

#[test]
fn short_request_does_not_decode() {
    let st = storage(0, 0, 0, 0);
    let full = request(0, 1000, 1_000_000, 2_000_000, &st);
    assert_eq!(compute_swap(&full[..full.len() - 1]), 0);
    assert_eq!(compute_swap(&[]), 0);
    let mut longer = full.clone();
    longer.extend_from_slice(&[9, 9, 9]);
    assert_eq!(compute_swap(&longer), 497);
}

#[test]
fn saturated_arithmetic_at_the_extremes() {
    let st = storage(0, 0, 0, 0);
    assert_eq!(compute_swap(&request(0, u64::MAX, u64::MAX, u64::MAX, &st)), 1);
    let blend = storage(2, 30, 0, 5000);
    assert_eq!(compute_swap(&request(1, u64::MAX, u64::MAX, 3, &blend)), 1);
}

#[test]
fn quote_swap_matches_compute_swap() {
    let st = storage(5, 60, 0, 2500);
    assert_eq!(quote_swap(1, 123_456, 7_000_000, 9_000_000, &st), 154_724);
    assert_eq!(quote_swap(0, 1000, 1_000_000, 2_000_000, &[]), 497);
}

#[test]
fn larger_trades_are_quoted_more() {
    let st = storage(5, 60, 3, 2500);
    let mut last = 0;
    for input in [1u64, 10, 100, 1_000, 10_000, 100_000, 1_000_000, 10_000_000] {
        let out = compute_swap(&request(0, input, 5_000_000, 8_000_000, &st));
        assert!(out >= last);
        last = out;
    }
}

#[test]
fn blended_output_weights() {
    assert_eq!(blended_output(1_000_000, 1_000_000, 100_000, 0), 90_909);
    assert_eq!(blended_output(1_000_000, 1_000_000, 100_000, 10_000), 86_776);
    assert_eq!(blended_output(1_000_000, 1_000_000, 100_000, 5_000), 88_842);
}

#[test]
fn saturation_breaks_monotonicity_only_at_extreme_sizes() {
    let st = storage(0, 0, 0, 0);
    let r = 1u64 << 40;
    assert_eq!(compute_swap(&request(0, 1 << 44, r, r, &st)), 490_668_418_882);
    assert_eq!(compute_swap(&request(0, 1 << 48, r, r, &st)), 2_147_886_357);
}

#[test]
fn higher_stored_fee_never_pays_more() {
    let mut last = u64::MAX;
    for fee in [30u16, 35, 40, 50, 60, 80, 90] {
        let st = storage(4, fee, 0, 2500);
        let out = compute_swap(&request(1, 250_000, 3_000_000, 4_000_000, &st));
        assert!(out <= last);
        last = out;
    }
    let low = compute_swap(&request(1, 250_000, 3_000_000, 4_000_000, &storage(4, 30, 0, 2500)));
    let high = compute_swap(&request(1, 250_000, 3_000_000, 4_000_000, &storage(4, 80, 0, 2500)));
    assert!(high < low);
}

#[test]
fn unsaturated_quote_is_the_plain_formula() {
    // net = 100_000 * 9950 / 10000 = 99_500; constant product 2e6·n/(3e6+n),
    // power-3 2e6·n·(n+6e6)/(2·(3e6+n)²), blended 30/70.
    let st = storage(4, 50, 0, 3000);
    let n: u128 = 99_500;
    let (ro, ri): (u128, u128) = (2_000_000, 3_000_000);
    let cf = ro * n / (ri + n);
    let p3 = ro * n * (n + 2 * ri) / (2 * (ri + n) * (ri + n));
    let expected = (3000 * p3 + 7000 * cf) / 10000;
    assert_eq!(compute_swap(&request(0, 100_000, 2_000_000, 3_000_000, &st)) as u128, expected);
}

#[test]
fn blend_lies_between_power3_and_constant_product() {
    let quote = |w: u16| compute_swap(&request(0, 400_000, 6_000_000, 2_000_000, &storage(7, 55, -8, w)));
    let power3 = quote(10_000);
    let cfmm = quote(0);
    assert!(power3 < cfmm);
    for w in [1u16, 2500, 5000, 7500, 9999] {
        let out = quote(w);
        assert!(power3 <= out && out <= cfmm);
    }
}
