# delego_reputation

A reputation ledger for merchants and agents: time-decayed trust scores
driven by escrow outcomes, counterparty ratings and flags, written in Verus
with every entry point proved against a contract.

## Layout

- `src/types.rs` — plain data: outcomes, scores, records, flags, the
  configuration, errors (codes `4001..=4009`) and events.
- `src/scoring.rs` — the score formula: outcome values, the recency weight
  (a halving per decay window with linear interpolation in between, zero
  from `MAX_HALVINGS` half-lives on) and the weighted averages over the most
  recent `SCORE_WINDOW` records, with the laws of the recency weight.
- `src/model.rs` — the abstract state (`ReputationView`), the ledger
  invariant, and each entry point as a function on the abstract state.
- `src/invariants.rs` — proofs that every entry point keeps the invariant.
- `src/contract.rs` — `ReputationContract`, the executable ledger; each
  entry point's contract says that it does exactly what the model says.
- `src/laws.rs` — properties across entry points: exact lifetime counters,
  in-place lifecycle updates, one rating per escrow and rater, one active
  flag per reporter, automatic freezing, the admin handover, masking, the
  scoring window.
- `app/` — the Soroban contract around the ledger: authorization, the ledger
  clock, persistence, TTL upkeep and event publication.
- `tests/` — scenario tests.
