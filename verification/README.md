# agentio

A directory of owner-signed, leased topic records for agents that compose
authenticated `peerbus` endpoints by topic name, with its naming, identity
and control-plane rules proved in Verus.

## Layout

- `src/` is the verified library.
  - `naming/`: topic normalization and participant prefixes, the
    one-to-one name table, machine identities.
  - `directory/`: records and withdrawals with the exact bytes an owner
    signs, their validation, the directory store (revisions, owners,
    leases, withdrawals, generation-stable snapshot pages), the resolution
    protocol and the control-plane health counters.
  - `agent/`: the builder and its configuration checks, the agent's
    state, and the decisions of the control plane (serving resolution
    requests, reconciling snapshots, querying directory targets,
    announcing, renewing, adopting and withdrawing hosted records, and
    the maintenance schedule), each as a function from state and event to
    next state and action.
  - `identity.rs`, `rendezvous.rs`: key-file naming and checks, and the
    rendezvous record encoding.
- `app/` is ordinary Rust around the library: the transport, signing,
  serialization, files, clocks and the worker threads. It performs what the
  library decides and hands every outcome back to it.
- `tests/` runs the library on concrete values.

The laws the library keeps (what a newer revision does, that an older one
never rolls state back, that another owner cannot replace a live record,
that a withdrawal removes exactly its record, that changing any signed field
changes the signed bytes, that the name table stays one-to-one, and more)
are public proof functions next to the code they speak of.
