# risk_scoring

A risk-scoring engine with machine-checked contracts (Verus).

An entity carries named integer factors; rules weigh each factor against a
threshold, and correlation pairs add a damped interaction term. Scores are
computed in signed fixed-point arithmetic with 24 fractional bits (the
`fixed` crate's `I40F24`), over several feedback passes, then clamped to
`0..=1000` and classified into four tiers.

Layout:

- `src/` — the verified library
  - `fixed_point.rs` — fixed-point operations on raw bits, each stated exactly
  - `entity.rs` — factors kept in ascending name order
  - `model.rs` — requests, rules and results
  - `score_math.rs` — the formulas both engines share
  - `scoring.rs` — scoring a request by factor name
  - `engine.rs` — the contract form, on parallel arrays
  - `chain.rs` — request to call data, and contract answer to response
  - `agreement.rs` — proof that both engines give the same answer for a
    request whose rules name distinct factors, whenever neither run
    overflows
  - `client.rs`, `routes.rs`, `storage.rs` — values of the HTTP service
- `tests/` — tests of the library
- `app/` — the HTTP service (axum), the SQLite rule store and the
  JSON-RPC calls of the contracts (alloy)
