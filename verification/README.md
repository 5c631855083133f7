# recproofs

Recursive proofs over the events of transactions and the updates of a state
tree. Each circuit is planned here as a list of operations (`circuit::Op`),
and every planning function states, and proves, what any assignment that
satisfies the plan must mean: which hashes are hashed together, which values
are carried from child proofs, against which verifier data each child proof
is verified, which flags are consistent. For the address and summary
subcircuits, the leaves of the accumulate and merge circuits and the
partial branch of an element-wise hashed tree it also proves the converse: every assignment that
meets their relation extends to one that satisfies the plan
(`circuit::completes`).

## Layout

- `src/circuit.rs`: the plan (`CircuitBuilder`), its meaning (`holds`,
  `CircuitBuilder::sat`), and partial witnesses.
- `src/generate.rs`: computes every value of a plan from a witness and checks
  each operation; what it returns satisfies the plan.
- `src/gadgets.rs`, `src/indices.rs`, `src/event.rs`, `src/field.rs`: the
  building blocks: small gadgets, positions of public inputs, events and
  their flags, and the Goldilocks field.
- `src/subcircuits/`: reusable subcircuits (Merkle hashing, summaries,
  propagated values, addresses, trees) and the recursion subcircuits:
  `unbounded` (a branch verifies both children against the leaf circuit's
  verifier data or its own, which every proof carries in its public inputs)
  and `bounded` (a branch verifies both children against one fixed child
  circuit).
- `src/circuits/`: the circuits of the system: accumulating deltas, matching
  them with state updates, merging event trees, building event roots,
  verifying programs, transactions and blocks.
- `tests/`: tests that plan circuits, generate witnesses with a stand-in
  hash, and check the public inputs of the proofs.
- `app/`: what runs a plan on the plonky2 prover: replaying operations on a
  plonky2 circuit builder, hashing events with Poseidon, recursion data.
