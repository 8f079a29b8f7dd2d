# espresso_core

Verified core logic of an Espresso sequencer node and its tooling, written in Verus.
Every function under `src/` carries a `requires`/`ensures` contract that Verus proves;
the few calls into outside crates (hashing, duration parsing) go through small trusted
wrappers whose contracts name, rather than restate, what those crates compute.

## Layout

- `src/` — the verified library, one module per concern:
  - `bounded_deque`, `named_semaphore`, `outgoing`, `protocol`: the request/response
    protocol's bookkeeping (bounded queues, per-key permits, joining of outgoing
    requests, retry and batching decisions).
  - `transaction`, `ns_iter`: transactions, namespace identifiers, their commitment
    preimage and block-size accounting, and iteration over a block's transactions.
  - `vid_ns`, `encoding_proof`, `availability`, `block_info`: namespaced VID shares,
    the inputs and checks of proofs of incorrect encoding, and the decisions of the
    availability API and of builder offers.
  - `leaf_chain`, `epoch_catchup`, `quorum`, `prover`: the chain of undecided leaves
    that proves a decide, the planner of a stake-table catchup, signer tallies for
    light-client state proofs and the prover's update decisions.
  - `stake_table`, `deployer`, `keygen`, `builder_options`, `api_checks`,
    `storage_metrics`, `mock_ledger`: smaller rules of the stake table contract,
    deployment and timelock tooling, key generation and configuration.
- `tests/` — executable tests of the library.
- `app/` — ordinary Rust around the library: serde forms of library types, error
  rendering and a driver for the catchup planner.
