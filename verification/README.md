# prop_amm_starter

A verified pricing strategy for a proportional automated market maker.

- `src/layout.rs` — little-endian fields in the persistent storage buffer, with
  read-after-write lemmas.
- `src/swap.rs` — the swap quote: fee with directional skew, constant-product /
  power-3 blended curve in saturating `u128` arithmetic, output bounded by the
  reserve, monotone in the trade size where the arithmetic is exact.
- `src/adapt.rs` — the state update after each trade: trade classification,
  flow counters, volatility sample count, fee, blend weight and skew. The
  floating-point volatility model's results come in as plain values.
- `src/instruction.rs` — instruction tags and the storage carried by a trade report.
- `src/report.rs` — batch-run summaries.
- `app/` — the BPF entrypoint, the floating-point volatility model and the
  command-line report.
