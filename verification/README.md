# raptorbt

Decisions of a bar-by-bar backtesting engine -- signal cleaning, order
matching, fills, bar aggregation and the phase decisions of a step -- with
their behaviour stated as contracts and proved. The engine's accounting
(position sizing, cash, margin, fees and PnL) is not part of the library.

- `src/signals.rs` — cleaning raw entry/exit signals into alternating
  trades (single-sided, signed with reversals, and two-sided), shifting and
  combining signal arrays; `src/signal_laws.rs` — what cleaning guarantees:
  it only drops signals, keeps entries and exits alternating within the
  pyramid limit, is idempotent, and treats unsigned directions as one side.
- `src/fill.rs` — which bar price a fill takes, when a limit fills and a
  stop triggers (and at which price a gapped stop fills), and the seeded
  SplitMix64 stream stochastic fills draw from.
- `src/tape.rs` — the venue's tape: which of a bar's prices print, what the
  prints offer an order resting at a price, and what the book left by the
  last print offers an order arriving mid-bar. Prices enter as their rank in
  price order; sizes are carried, never read.
- `src/decimals.rs` — the exact product of short decimals, as an integer
  mantissa and a scale, and when it stays where the conversion to binary is
  exact.
- `src/fees.rs` — which tier of a tiered fee schedule a trade falls in.
- `src/engine.rs` — what a matched fill does to the position book (open,
  close, or refuse: reduce_only, position_open, margin_call) under netting
  and hedging, and which protective level or signal closes a position.
- `src/matching.rs` — the resting-order book (`OrderBook`, whose ids are
  their positions by type invariant): typed orders with time in force and
  post_only, replacing an order's levels, releasing
  one-triggers-other children and canceling one-cancels-other siblings
  after a fill, matching every working order against one step, and the
  orders a walk of the standing book reaches.
- `src/stepping.rs` — the plan of a step (its phases, in order) and the
  decisions between them: expiry, deferred next-bar-open intents, entry
  checks, margin breach, the market sweep.
- `src/orders.rs` — order sides and time in force; when a DAY or GTD order
  lapses, by trading date.
- `src/aggregate.rs` — the proleptic Gregorian calendar (days since the
  epoch to year and month and back), and the window bookkeeping of time and
  calendar bar builders: which window a record falls in, when a window's bar
  is complete, and its end stamp; the tick counter of count bars.
- `src/performance.rs` — the local-day compactor that keeps the last mark of
  each exchange-local trading day across UTC offset changes.
- `app/` — the `f64` side: fill prices and sizes, fees, lot rounding, and bar
  accumulation driven by the decisions above. It ranks `f64` prices by
  their bits (`price_rank`) before handing them to the library.
