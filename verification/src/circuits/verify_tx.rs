//! Circuits for verifying a transaction's proofs: a leaf verifies the proof
//! of a transaction's set of programs, and a branch merges the events of its
//! two children.
use vstd::prelude::*;

use crate::circuit::{
    bit_of, cap_height_ok, lemma_fits_after, lemma_fits_prefix, lemma_wrote_chain, CircuitBuilder, CommonCircuitData,
    Env, PartialWitness, Target, WitnessConflict,
};
use crate::circuits::merge::embed;
use crate::indices::all_within;
use crate::subcircuits::unbounded;

pub mod core_circuit;

verus! {

/// The positions of the public inputs of a transaction proof.
#[derive(Copy, Clone, PartialEq, Eq, Debug)]
pub struct Indices {
    pub events: embed::PublicIndices,
}

/// A proof of the transaction circuits, by its public inputs, with their
/// positions.
pub struct Proof {
    pub public_inputs: Vec<u64>,
    pub indices: Indices,
}

impl Proof {
    /// Whether the proof's events are present.
    pub fn events_present(&self) -> (r: bool)
        requires
            self.indices.events.within(self.public_inputs@.len()),
        ensures
            r == (self.public_inputs@[self.indices.events.hash_present.0.0 as int] == 1),
    {
        self.indices.events.hash_present.get_field(self.public_inputs.as_slice())
    }

    /// The hash of the proof's events.
    pub fn events(&self) -> (r: [u64; 4])
        requires
            self.indices.events.within(self.public_inputs@.len()),
        ensures
            forall|k: int|
                0 <= k < 4 ==> #[trigger] r[k] == self.public_inputs@[self.indices.events.hash.pos(
                    k,
                )],
    {
        self.indices.events.hash.get_field(self.public_inputs.as_slice())
    }
}

/// The leaf circuit: the events of a transaction are those of the proof of
/// its set of programs.
pub struct LeafCircuit {
    /// The recursion subcircuit: the branch circuit's verifier data.
    pub unbounded: unbounded::LeafSubCircuit,
    /// The events list.
    pub events: embed::LeafSubCircuit,
    /// The program set verifier.
    pub program_verifier: core_circuit::ProgramVerifierSubCircuit,
    /// The plan of the circuit.
    pub circuit: CircuitBuilder,
    /// The shape of the circuit's proofs, and the number that names it.
    pub common: CommonCircuitData,
}

impl LeafCircuit {
    /// Plans the leaf circuit: verifies a proof of the program set (whose
    /// cast list root is the root of its program identifiers) and exposes
    /// its events as this proof's events. The circuit is named `id`, and its
    /// verifier data has a cap of `2^cap_height` digests.
    #[verifier::rlimit(30)]
    pub fn new(program: &core_circuit::ProgramSetCircuit, cap_height: usize, id: usize) -> (r: Self)
        requires
            cap_height_ok(cap_height),
            program.events.within(program.common.num_public_inputs as nat),
            all_within(program.cast_root.values.0, program.common.num_public_inputs as nat),
            program.program_id.unpruned_hash.within(program.common.num_public_inputs as nat),
            crate::circuit::cap_height_ok(program.common.cap_height),
        ensures
            r.common.cap_height == cap_height,
            r.common.id == id,
            r.unbounded.in_leaf(r.circuit.public_inputs@, r.common),
            r.events.indices.within(r.circuit.public_inputs@.len()),
            r.program_verifier.targets.program_set_proof.public_inputs@.len()
                == program.common.num_public_inputs,
            forall|e: Env|
                e.valid() && #[trigger] r.circuit.sat(e) ==> {
                    let (c, pis) = (*program, r.program_verifier.targets.program_set_proof.public_inputs@);
                    let ev = r.events.targets.inputs;
                    &&& e.val(ev.hash_present.target) == e.val(pis[c.events.hash_present.0.0 as int])
                    &&& forall|k: int|
                        0 <= k < 4 ==> #[trigger] e.val(ev.hash.elements[k]) == e.val(
                            pis[c.events.hash.pos(k)],
                        )
                    &&& forall|k: int|
                        0 <= k < 4 ==> #[trigger] e.val(pis[c.cast_root.values.0[k].0 as int])
                            == e.val(pis[c.program_id.unpruned_hash.pos(k)])
                },
    {
        let mut builder = CircuitBuilder::new();
        let events_inputs = embed::default(&mut builder);
        let unbounded_inputs = unbounded::default(&mut builder, cap_height);
        let ghost registered = builder.public_inputs@;
        let unbounded_targets = unbounded_inputs.build_leaf(&mut builder);
        let events_targets = events_inputs.build_leaf(&mut builder);

        let program_verifier_targets = core_circuit::ProgramSetVerifierTargets::build_targets(
            &mut builder,
            program,
        );
        let ghost b0 = builder;

        // Connect the proof to the recursion
        builder.connect_hashes(events_targets.inputs.hash, program_verifier_targets.event_root);
        builder.connect(
            events_targets.inputs.hash_present.target,
            program_verifier_targets.events_present.target,
        );

        let public_inputs = builder.public_inputs.clone();
        proof {
            assert(public_inputs@ == registered);
            assert forall|i: int| 0 <= i < 5 implies public_inputs@.contains(
                #[trigger] events_targets.inputs.public_targets()[i],
            ) by {
                assert(public_inputs@[i] == events_targets.inputs.public_targets()[i]);
            }
            assert forall|e: Env| e.valid() && #[trigger] builder.sat(e) implies forall|k: int|
                0 <= k < 4 ==> #[trigger] e.val(
                    program_verifier_targets.program_set_proof.public_inputs@[program.cast_root.values.0[k].0 as int],
                ) == e.val(
                    program_verifier_targets.program_set_proof.public_inputs@[program.program_id.unpruned_hash.pos(k)],
                ) by {
                assert(b0.sat(e));
            }
        }
        let unbounded = unbounded_targets.build(public_inputs.as_slice());
        let events = events_targets.build(public_inputs.as_slice());
        let program_verifier = program_verifier_targets.build(public_inputs.as_slice());
        let common = CommonCircuitData { num_public_inputs: builder.num_public_inputs(), cap_height, id };
        LeafCircuit { unbounded, events, program_verifier, circuit: builder, common }
    }

    /// The positions of the public inputs of a leaf proof.
    pub fn indices(&self) -> (r: Indices)
        ensures
            r.events == self.events.indices,
    {
        Indices { events: self.events.indices }
    }

    /// Gives the witness the public inputs of the proof of the program set.
    pub fn set_witness(&self, inputs: &mut PartialWitness, program_set_proof: &[u64]) -> (r: Result<
        (),
        WitnessConflict,
    >)
        requires
            self.program_verifier.targets.program_set_proof.public_inputs@.len()
                == program_set_proof@.len(),
        ensures
            r is Ok <==> old(inputs).fits(
                self.program_verifier.targets.program_set_proof.public_inputs@,
                program_set_proof@,
            ),
            r is Ok ==> final(inputs).extends(*old(inputs)),
            r is Ok ==> forall|k: int|
                0 <= k < program_set_proof@.len() ==> final(inputs).has(
                    #[trigger] self.program_verifier.targets.program_set_proof.public_inputs@[k],
                    program_set_proof@[k],
                ),
    {
        self.program_verifier.set_witness(inputs, program_set_proof)
    }
}

/// The branch circuit: both children are verified, and the events of two
/// transactions (or one) are merged.
pub struct BranchCircuit {
    /// The recursion subcircuit: the children's proofs and their verification.
    pub unbounded: unbounded::BranchSubCircuit,
    /// The events list.
    pub events: embed::BranchSubCircuit,
    /// The plan of the circuit.
    pub circuit: CircuitBuilder,
}

impl BranchCircuit {
    /// Plans the branch circuit: both children verify, against the leaf
    /// circuit's verifier data or this circuit's own, and carry this
    /// circuit's verifier data (see `unbounded::verifies_children`); the
    /// events of this proof are the merge, by a verified proof of the merge
    /// circuit, of the children's events (see `embed::BranchTargets::merges`).
    pub fn new(mc: &embed::MergeCircuit, leaf: &LeafCircuit) -> (r: Self)
        requires
            mc.indices.within(mc.num_public_inputs as nat),
            crate::circuit::cap_height_ok(mc.cap_height),
            leaf.events.indices.within(leaf.circuit.public_inputs@.len()),
            leaf.unbounded.in_leaf(leaf.circuit.public_inputs@, leaf.common),
        ensures
            r.unbounded.indices.verifier.locates(r.circuit.public_inputs@, r.unbounded.targets.inputs.verifier),
            forall|e: Env|
                e.valid() && #[trigger] r.circuit.sat(e) ==> unbounded::verifies_children(
                    e,
                    r.unbounded.targets,
                    leaf.unbounded.indices,
                    leaf.common.id,
                ),
            r.unbounded.targets.left_proof.public_inputs@.len() == leaf.circuit.public_inputs@.len(),
            r.unbounded.targets.right_proof.public_inputs@.len() == leaf.circuit.public_inputs@.len(),
            r.events.targets.proof.public_inputs@.len() == mc.num_public_inputs,
            leaf.events.indices.locates(r.unbounded.targets.left_proof.public_inputs@, r.events.targets.left),
            leaf.events.indices.locates(r.unbounded.targets.right_proof.public_inputs@, r.events.targets.right),
            r.events.indices.within(r.circuit.public_inputs@.len()),
            forall|e: Env|
                e.valid() && #[trigger] r.circuit.sat(e) ==> r.events.targets.merges(e, *mc),
    {
        let mut builder = CircuitBuilder::new();
        let events_inputs = embed::default(&mut builder);
        let unbounded_inputs = unbounded::default(&mut builder, leaf.common.cap_height);
        let ghost registered = builder.public_inputs@;

        let unbounded_targets = unbounded_inputs.build_branch(&mut builder, &leaf.unbounded, &leaf.common);
        let ghost bu = builder;
        let events_targets = events_inputs.build_branch(
            &mut builder,
            mc,
            &leaf.events.indices,
            &unbounded_targets.left_proof,
            &unbounded_targets.right_proof,
        );

        let public_inputs = builder.public_inputs.clone();
        proof {
            assert(public_inputs@ == registered);
            assert forall|i: int| 0 <= i < 5 implies public_inputs@.contains(
                #[trigger] events_targets.inputs.public_targets()[i],
            ) by {
                assert(public_inputs@[i] == events_targets.inputs.public_targets()[i]);
            }
        }
        proof {
            assert forall|e: Env| e.valid() && #[trigger] builder.sat(e) implies unbounded::verifies_children(
                e,
                unbounded_targets,
                leaf.unbounded.indices,
                leaf.common.id,
            ) by {
                assert(bu.sat(e));
            }
        }
        let unbounded = unbounded_targets.build(public_inputs.as_slice());
        let events = events_targets.build(&leaf.events.indices, public_inputs.as_slice());
        BranchCircuit { unbounded, events, circuit: builder }
    }

    /// The positions of the public inputs of a branch proof.
    pub fn indices(&self) -> (r: Indices)
        ensures
            r.events == self.events.indices,
    {
        Indices { events: self.events.indices }
    }

    /// Gives the witness the children (each with whether it is a proof of
    /// the leaf circuit; an absent right child is the left one again),
    /// whether the right child is absent, and the public inputs of the proof
    /// of the merge.
    pub fn set_witness(
        &self,
        inputs: &mut PartialWitness,
        merge: &[u64],
        left_is_leaf: bool,
        left_proof: &[u64],
        right_is_leaf: bool,
        right_proof: Option<&[u64]>,
    ) -> (r: Result<(), WitnessConflict>)
        requires
            self.events.targets.proof.public_inputs@.len() == merge@.len(),
            self.unbounded.targets.left_proof.public_inputs@.len() == left_proof@.len(),
            self.unbounded.targets.right_proof.public_inputs@.len() == left_proof@.len(),
            right_proof matches Some(rp) ==> rp@.len() == left_proof@.len(),
        ensures
            r is Ok <==> old(inputs).fits(
                self.unbounded.witness_targets() + (seq![self.events.targets.partial.target]
                    + self.events.targets.proof.public_inputs@),
                unbounded::BranchSubCircuit::witness_values(
                    left_is_leaf,
                    left_proof@,
                    if right_proof is None { left_is_leaf } else { right_is_leaf },
                    match right_proof {
                        Some(rp) => rp@,
                        None => left_proof@,
                    },
                ) + (seq![bit_of(right_proof is None)] + merge@),
            ),
            r is Ok ==> final(inputs).wrote(
                *old(inputs),
                self.unbounded.witness_targets() + (seq![self.events.targets.partial.target]
                    + self.events.targets.proof.public_inputs@),
                unbounded::BranchSubCircuit::witness_values(
                    left_is_leaf,
                    left_proof@,
                    if right_proof is None { left_is_leaf } else { right_is_leaf },
                    match right_proof {
                        Some(rp) => rp@,
                        None => left_proof@,
                    },
                ) + (seq![bit_of(right_proof is None)] + merge@),
            ),
            r is Ok ==> final(inputs).has(
                self.events.targets.partial.target,
                if right_proof is None {
                    1u64
                } else {
                    0u64
                },
            ),
    {
        let partial = right_proof.is_none();
        let (right, right_leaf) = match right_proof {
            Some(rp) => (rp, right_is_leaf),
            None => (left_proof, left_is_leaf),
        };
        let ghost (t1, v1) = (
            self.unbounded.witness_targets(),
            unbounded::BranchSubCircuit::witness_values(left_is_leaf, left_proof@, right_leaf, right@),
        );
        let ghost (t2, v2) = (
            seq![self.events.targets.partial.target] + self.events.targets.proof.public_inputs@,
            seq![bit_of(partial)] + merge@,
        );
        let ghost w0 = *inputs;
        proof {
            lemma_fits_prefix(w0, t1, v1, t2, v2);
        }
        self.unbounded.set_witness(inputs, left_is_leaf, left_proof, right_leaf, right)?;
        let ghost w1 = *inputs;
        proof {
            lemma_fits_after(w0, w1, t1, v1, t2, v2);
        }
        self.events.set_witness(inputs, partial, merge)?;
        proof {
            lemma_wrote_chain(w0, w1, *inputs, t1, v1, t2, v2);
        }
        Ok(())
    }
}

} // verus!
