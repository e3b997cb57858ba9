# layerx_agentd

The tenant-scoped agent daemon's core logic as a Verus library: every function in `src/`
carries a `requires`/`ensures` contract that Verus proves, and the laws that span several
calls stand in `src/` as public proof functions.

## Layout

- `src/store/` — the tenant-scoped store, its on-disk image, forward schema migration, and
  the durable changes that write the image through a caller's writer and undo themselves
  when the write fails.
- `src/outbox/` — the exact-byte submission outbox, its state machine, status encoding,
  recovery after restart and the resolution of submissions whose outcome is unknown.
- `src/prepare/` — preparation lifecycle: expiry, retention and invalidation.
- `src/limits/` — boundary admission, rate limits over a shared counter ledger, quotas and
  request deadlines.
- `src/session/` — agent sessions, their records and revocation.
- `src/managed_agent/` — managed agent records, observations, listing, responses and the
  finalization of governance actions.
- `src/human/` — Human-plane operations the daemon decides itself: idempotent capability
  installation (`capability`), the digests and outbox steps of preparation and submission
  (`journey`), mapping a wall-clock lease onto core sequences (`lease`), and the decisions
  of a receipt lookup by idempotency key (`receipt`).
- `src/owner.rs`, `src/owner_action.rs` — the owner installation's request digest and its
  action record: pending, validated with the allocated session token, completed.
- `src/managed_agent/authority.rs` — the authority's budget and key-policy reports and the
  observations recorded of them.
- `src/read.rs`, `src/session_control.rs`, `src/session_keys.rs` — the coordinates of core
  reads and the failures of session control and the session key registry.
- `src/policy/`, `src/idempotency.rs`, `src/identity.rs`, `src/tenant.rs`, `src/obs/`,
  `src/ops/`, `src/owner.rs`, `src/sign_verify.rs`, `src/shutdown.rs` — policy evaluation,
  idempotent execution, identity bindings, tenant observability, health and metrics,
  program simulation evidence, owner installation digests, verified submissions and
  shutdown.
- `src/digest.rs`, `src/text.rs`, `src/bytes.rs`, `src/assoc.rs` — SHA-256 through the
  `sha2` crate, text and byte helpers.
- `app/` — the daemon's start-up: it opens the store directory, migrates it forward and
  writes the store image to disk.
- `tests/` — tests of the library on concrete values.

## What the library leaves to its caller

The library takes as arguments what only the core authority, the node or the key files can
tell: identity, scope, budget and key-policy reports, clock attestations, served receipts,
the node's answer to a submission and fresh session tokens. The steps between them — calling
the authority and the node, provisioning session keys, opening the session an owner
installation names, and the protocol preparation of an activity — belong to the daemon that
runs the library, as do decoding replayed approval holds, storing receipts and augmenting
them with proof evidence, tenant deletion and the normalization of internal errors; the
library checks that every replayed hold keeps its budget reservation. DID syntax is checked by the
caller; capability narrowing is decided by the caller and handed in as a flag.

## Checking

`verus` verifies `src/lib.rs`; `cargo test` runs `tests/` against the compiled library.
