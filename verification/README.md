# quorium

The peer-roster logic of a threshold-signature (MPC) node, verified with Verus.

- `src/peers/` — peer ids (`<index>-<uuid>`) and their text forms, the
  encodings of the roster in the NATS key-value bucket and in `peers.json`,
  ordering by index, and `resolve`, the state machine that picks the roster
  (bucket, then file, then a fresh one) and mirrors the winner to the other
  store.
- `src/text.rs` — decimal rendering and parsing of `usize`.
- `src/bootstrap.rs` — the decisions of the `nodes-backup` tool.
- `src/error.rs` — `PeerError`.
- `app/` — the asynchronous NATS, file and signal handling that drives the
  library: the node (`quorium`) and the bootstrap tool (`quorium nodes-backup`).
