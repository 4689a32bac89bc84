# polymarket_arb_bot

Verified decision logic of a BTC 15-minute Up/Down spread arbitrage bot for Polymarket.
The bot buys both legs of a binary market when the sum of their best asks lies below
`1/(1+2*fee) - margin`; one leg always resolves to $1.00.

- `src/` — the library, verified with Verus:
  - `time.rs`: instants (seconds and nanoseconds since the epoch), their order, and whole
    seconds between two instants; RFC 3339 parsing and the clock through `chrono`.
  - `text.rs`: substring and prefix tests; Unicode lower-casing through `str::to_lowercase`.
  - `order.rs`: stable ranks and the facts behind a stable sort by instant.
  - `market.rs`: Gamma API events, token id extraction, and selection of the active
    BTC 15-minute markets sorted by end time.
  - `strategy.rs`: the run loop's next step, when the market list is due for a refresh,
    and the entry state machine of a market cycle.
  - `redeem.rs`: the redeem-only plan, condition id normalization, and outcome counts.
  - `config.rs`: command-line arguments, endpoints, and default settings.
- `tests/` — tests of the library on concrete values.
- `app/` — the program: command line, configuration file, HTTP client calls, logging,
  sleeping, and the floating-point entry threshold.
