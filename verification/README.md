# creator_event_manager

A verified core for a creator prediction-event contract: events, matches and
predictions, the scoring and ranking rules, match listing in schedule order,
and the decisions behind finalizing an event's prize pool, claiming staged
prizes, and sweeping unclaimed prizes back to treasury.

- `src/` — the library, written and proved with Verus. Every function works
  on plain values (addresses are their kind and 32 key bytes, strings and
  symbols their bytes).
  - `address.rs` — addresses and their total order.
  - `storage_types.rs` — records, scoring (`weighted_contribution`),
    results, grading, and the ranking orders.
  - `storage.rs` — lookups and id counters.
  - `matches.rs` — listing an event's matches by match time.
  - `finalize.rs` — finalization, claims, clawback, and the laws that tie
    them together (each allocation is settled once; claims plus clawback
    account for the pool).
  - `event.rs` — the errors of these operations.
- `app/` — the contract shell: ledger-encoded copies of the records, the
  storage helpers, and entry points that read the ledger, call the library
  and carry out what it decides.
- `tests/` — tests of the library.
