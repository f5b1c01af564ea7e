# punkgo

A local compute kernel in which every actor (human or agent) spends energy
to act, and every committed action leaves a hash-chained, Merkle-audited
trace. The library is written in Verus: each function carries a contract
that the verifier proves.

## Layout

- `src/` — the verified library.
  - `kernel.rs`: the submit pipeline (validate, authorize, quote, reserve,
    settle, append, receipt), holds, reads, and request handling.
  - `ledger.rs`, `energy.rs`: balances, reservations, settlement, and the
    per-tick energy split (energy neutrality).
  - `event_log.rs`, `audit.rs`, `signing.rs`: the append-only event log,
    the tlog Merkle tree and inclusion proofs, Ed25519 checkpoint signatures.
  - `actor.rs`, `actor_store.rs`, `lifecycle.rs`, `boundary.rs`,
    `consent.rs`, `envelope_store.rs`, `policy.rs`: actors, their
    boundaries, authorization envelopes and hold rules.
  - `cli.rs`, `daemon.rs`, `state.rs`, `testkit.rs`: request building for
    the command-line client, the daemon's address file, state paths and
    configuration defaults.
  - `json.rs`, `text.rs`, `hex.rs`, `digest.rs`, `blob.rs`, `sandbox.rs`,
    `requests.rs`, `protocol.rs`, `errors.rs`, `stellar.rs`, `clock.rs`:
    supporting models and codecs.
- `tests/` — tests of the library on concrete values.
- `app/` — the daemon and command-line client: IPC, files, the clock-driven
  energy producer, audit proofs through `tlog_tiles`, and the wire formats.
