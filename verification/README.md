# trade_aggregator

Market-data aggregation, verified with Verus: a raw tape (trades) and book
updates become bars carrying aggressive order flow, plus a reconstructed order
book with periodic liquidity profiles. Everything runs on event time, so a
replay is deterministic.

## Layout

- `src/` — the verified library.
  - `canonical` — the input model (trades, book updates, instruments, granularity).
  - `period` — the bar-closing rules (time, aligned time, tick, volume, dollar,
    range, Renko, grid Renko, tick/volume/dollar imbalance, run, point & figure),
    each with an exact transition function and its laws; `AnyPeriod` mixes them.
  - `streams` — the laws of each rule over a whole stream of trades: the state
    it reaches from its fresh state, and which trades open a bar.
  - `bar` — OHLCV bars.
  - `orderflow` — the lenses (footprint, volume profile, delta/CVD, trade count,
    VWAP, market profile), value areas, and the order flow attached to a bar.
  - `passive` — the order book and the liquidity profiles over clock-aligned
    windows.
  - `aggregator` — the per-symbol aggregator: routing, fan-out to the periods,
    notifications, end-of-stream flush, bar history and snapshots, and the
    determinism laws.
  - `databento` — mapping DBN record fields to canonical events, and the
    event-time merge rule of a trade stream with a book stream.
  - `levels`, `text`, `error` — sorted price tables, labels, configuration errors.
- `tests/` — scenario tests.
- `app/` — subscribers and their dispatch, channel and closure adapters,
  floating-point views (VWAP, value areas, time-weighted liquidity) and DBN
  file replay.

Every executable function states when it can be called (`requires`, mostly
overflow limits that the aggregator can check ahead with `can_process` and
`can_finish`) and what it returns (`ensures`), over mathematical models.
