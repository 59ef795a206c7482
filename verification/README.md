# tycoon

Verified models of two Soroban contracts of the Tycoon game, and the game's
treasury accounting check.

- `src/token.rs` — the TYC token: initialization, minting by the
  administrator, transfers, allowances with a ledger-based expiry, burning,
  and the retired entry points. Every operation states exactly when it is
  refused (and then changes nothing) and what it changes otherwise; every
  operation keeps the ledger consistent (total supply = sum of balances, no
  negative balance or allowance).
- `src/boost.rs` — the boost system: per-player boost lists with a cap,
  expiry, duplicate-id checks, and the stacking rules that combine boosts into
  one multiplier. Every operation keeps each list within the cap and free of
  duplicate ids.
- `src/treasury.rs` — the treasury invariant of a game snapshot.
- `src/balances.rs`, `src/allowances.rs`, `src/boost_book.rs` — the stored
  tables behind the two contracts; `src/context.rs` — the ledger sequence and
  the signers of an invocation.
- `app/` — the Soroban contracts: each entry point loads the storage entries
  it touches into the library, lets the library decide, stores the result and
  publishes the events.
