# arca

A personal finance daemon: accounts, balances and transactions from banks and services, a
net-worth and debt view, a three-tier portfolio with rebalance bands, detection of recurring
charges, alerts, a monthly Markdown report and a weekly calendar digest.

- `src/` is the library. It holds the rules and the computations on integers and text, over
  plain rows in memory, and is verified with Verus. Amounts are integer cents; there is no
  floating point.
- `app/` is the daemon around it: sockets, HTTP, SQLite, files, the clock and the wire
  format. What is counted in floats is there too: prices, the conversions between dollars and
  cents, and the shares of a portfolio in per cent, most of it in `app/convert.rs`.
- `tests/` runs the library from outside, with the real outside crates.

What the library rests on without proof is marked where it stands: the calls into `chrono`,
`chrono-tz`, `serde_json`, `age` and `toml`, and a few functions of the standard library, each
with a comment that says what is taken from it.
