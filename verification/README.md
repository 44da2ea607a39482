# intent_engine

The bookkeeping and display logic of a small intent-market pipeline, as a
Verus-verified library, with the two programs around it in `app/`.

- `src/book.rs`: the book of tracked intents (unique keys), refreshed by
  incoming envelopes and purged on expiry.
- `src/state.rs`: the published snapshot, sorted by expiry.
- `src/clock.rs`: UTC instants and the chrono calls on them.
- `src/token.rs`, `src/amount.rs`, `src/board.rs`, `src/filter.rs`: the
  dashboard's token registry, amount formatting, per-intent cells and
  source filter.
- `src/text.rs`: character-level helpers (trimming, decimal notation).
- `app/`: the engine and dashboard processes (ZeroMQ, JSON, terminal UI,
  and the floating-point dollar arithmetic).

`app/main.rs` runs `engine` or `tui` by its first argument.
