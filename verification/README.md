# execution_engine

A low-latency crypto execution engine with formally verified logic:

- `types` — fixed-point `Decimal` arithmetic and the order and market-data types;
- `order_book` — a fixed-depth two-sided book (bids best-first descending, asks
  ascending) with single-level updates and snapshots, and laws on ranking and quotes;
- `sor` — smart order routing over two venues by fee-adjusted price, with laws on the
  routed total and on leg order;
- `algos` — TWAP, POV and iceberg execution algorithms as state machines;
- `tca` — transaction-cost tracking of parent orders and their fills;
- `engine` — the event loop's decisions: algorithm dispatch, routing of child orders,
  cancellation, mapping of reports back to algorithms;
- `exchanges` — a simulated venue (random-walk price, synthetic book, matching).

`app/` holds the simulation driver and the floating-point parts of the cost report.
