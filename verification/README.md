# flowsurface

The market-data core of a desktop charting application, written in Verus. Panes ask for trades
and klines over a range of time; the library works out what is already covered, what lies in the
local cache and what must be fetched, keeps requests from fetching the same stretch twice, files
what arrives, and tells each pane what to draw. Contracts state what every function returns or
changes; Verus proves them.

## Layout

- `src/` is the verified library.
  - `market_data/` holds ranges, keys, requirements, the planner, the job coordinator, the coverage
    ledger, the store, the cache format, sessions, derived bubbles and the runtime that ties them
    together.
  - `screen/` decides what the dashboard does: backfill after a lost connection, what an effect
    does to a pane, link groups, pane contents.
  - `market_service.rs`, `render_scheduler.rs`, `power_guard.rs` and `windowing.rs` decide when the
    connection counts as lost, when a pane is redrawn, when sleep is held off and how windows open.
  - `modal/` and `widget/` hold the parts of dialogs and widgets that can be computed without
    drawing.
  - `keyed.rs`, `id_table.rs`, `sorting.rs`, `seqs.rs` and `text.rs` are the containers and lemmas
    that the rest is built on.
- `tests/` runs the library.
- `app/` is the ordinary Rust around it: files, serialisation, drawing, windows.

## Laws

What relates several functions is stated as a public proof function whose name starts with `law_`.
They stand beside the code they speak of, or in a `*_laws.rs` file next to it.

## Trusted code

Calls into `chrono`, `uuid` and `rustc-hash`, and two into std, go through small wrappers marked
`external_body`, in `clock.rs`, `ids.rs`, `id_table.rs`, `market_data/session.rs` and
`windowing.rs`. The comment above each says what is taken on trust.
