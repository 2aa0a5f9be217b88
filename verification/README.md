# Threat engine

A stream-processing engine that inspects network events for attacks: known byte
signatures, floods and scans by probabilistic sketches, and multi-step sequences
by a small matcher. Its logic is verified with Verus.

- `src/` is the verified library.
  - `models.rs`, `text.rs`, `time.rs`: events, alerts, texts and clock readings.
  - `queue.rs`: the bounded queue and the decisions of threads that share its
    ring; `interleaving.rs`: what holds however their accesses interleave.
  - `detection/`: signatures, sketches, windows and sequences.
  - `ingestion.rs`: the simulated traffic.
  - `pipeline.rs`: routing, workers and the alert history.
  - `api.rs`: who is served, and what the endpoints answer.
- `app/` is the service around it: threads, the shared ring's atomics, the
  floating-point cardinality estimate, HTTP and JSON.
- `tests/` runs the library.

The service listens on port 8080 and logs JSON. `API_TOKEN` sets the bearer
token that all endpoints but `/health` and `/login` want.
