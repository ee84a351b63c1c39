# discretionary_engine

The verified core of a discretionary trading engine, written in Verus.

- `src/component.rs`: lifecycle state machine of system components and the
  `Component` trait whose lifecycle operations run on it.
- `src/order_state.rs`: lifecycle state of an order on a venue.
- `src/routing.rs`: per-asset executors of conceptual limit orders and the
  routing hub that applies queued commands to them.
- `src/risk.rs`: which risk layers apply to a sizing; settling balances
  fetched from several exchanges.
- `src/bus.rs`: decisions of the Redis command bus (live consumers, harmless
  group-creation failures, escalation of connection problems).
- `src/report.rs`, `src/text.rs`, `src/strategy.rs`, `src/settings.rs`:
  error presentation, joining text, the strategy's command line, defaults.

`app/` holds the command line and the services around the library: Redis I/O,
async plumbing, and the parts that compute with floating-point prices and sizes.
