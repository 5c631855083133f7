//! Circuits for proving events can be accumulated to a state delta object.
use vstd::prelude::*;

use crate::circuit::{
    bit_of, cap_height_ok, lemma_fits_after, lemma_fits_prefix, lemma_wrote_chain, CircuitBuilder, CommonCircuitData, Env,
    PartialWitness, Target, WitnessConflict,
};
use crate::circuits::accumulate_delta::core_circuit::{leaf_relation, spec_from_event};
use crate::event::{field_of_u64, Event, EventType, FlagSet, ALL_FLAGS};
use crate::gadgets::hash_event;
use crate::subcircuits::{unbounded, unpruned};
use crate::subcircuits::unpruned::PartialAllowed;

pub mod core_circuit;

verus! {

/// The positions of the public inputs of a proof of accumulated events.
#[derive(Copy, Clone, PartialEq, Eq, Debug)]
pub struct Indices {
    pub event_hash: unpruned::PublicIndices,
    pub partial_state: core_circuit::PublicIndices,
}

impl Indices {
    /// Every position is below `len`.
    pub open spec fn within(self, len: nat) -> bool {
        self.event_hash.unpruned_hash.within(len) && self.partial_state.within(len)
    }
}

/// A proof of accumulated events, by its public inputs, with their
/// positions.
pub struct Proof {
    pub public_inputs: Vec<u64>,
    pub indices: Indices,
}

impl Proof {
    /// The hash of the events.
    pub fn events(&self) -> (r: [u64; 4])
        requires
            self.indices.within(self.public_inputs@.len()),
        ensures
            forall|k: int|
                0 <= k < 4 ==> #[trigger] r[k]
                    == self.public_inputs@[self.indices.event_hash.unpruned_hash.pos(k)],
    {
        self.indices.event_hash.unpruned_hash.get_field(self.public_inputs.as_slice())
    }

    /// The address of the object.
    pub fn address(&self) -> (r: u64)
        requires
            self.indices.within(self.public_inputs@.len()),
        ensures
            r == self.public_inputs@[self.indices.partial_state.address.0 as int],
    {
        self.indices.partial_state.address.get_field(self.public_inputs.as_slice())
    }

    /// The flags of the object; they are flag bits in every proof of the
    /// circuit.
    pub fn object_flags(&self) -> (r: FlagSet)
        requires
            self.indices.within(self.public_inputs@.len()),
            self.public_inputs@[self.indices.partial_state.object_flags.0 as int] <= 0xff,
            (self.public_inputs@[self.indices.partial_state.object_flags.0 as int] as u8)
                & !ALL_FLAGS == 0,
        ensures
            r.bits == self.public_inputs@[self.indices.partial_state.object_flags.0 as int],
            r.wf(),
    {
        let flags = self.indices.partial_state.object_flags.get_field(self.public_inputs.as_slice());
        match FlagSet::from_bits(flags as u8) {
            Some(s) => s,
            None => FlagSet::empty(),
        }
    }

    /// The old owner of the object.
    pub fn old_owner(&self) -> (r: [u64; 4])
        requires
            self.indices.within(self.public_inputs@.len()),
        ensures
            forall|k: int|
                0 <= k < 4 ==> #[trigger] r[k]
                    == self.public_inputs@[self.indices.partial_state.old_owner.0[k].0 as int],
    {
        self.indices.partial_state.old_owner.get_field(self.public_inputs.as_slice())
    }

    /// The new owner of the object.
    pub fn new_owner(&self) -> (r: [u64; 4])
        requires
            self.indices.within(self.public_inputs@.len()),
        ensures
            forall|k: int|
                0 <= k < 4 ==> #[trigger] r[k]
                    == self.public_inputs@[self.indices.partial_state.new_owner.0[k].0 as int],
    {
        self.indices.partial_state.new_owner.get_field(self.public_inputs.as_slice())
    }

    /// The old data of the object.
    pub fn old_data(&self) -> (r: [u64; 4])
        requires
            self.indices.within(self.public_inputs@.len()),
        ensures
            forall|k: int|
                0 <= k < 4 ==> #[trigger] r[k]
                    == self.public_inputs@[self.indices.partial_state.old_data.0[k].0 as int],
    {
        self.indices.partial_state.old_data.get_field(self.public_inputs.as_slice())
    }

    /// The new data of the object.
    pub fn new_data(&self) -> (r: [u64; 4])
        requires
            self.indices.within(self.public_inputs@.len()),
        ensures
            forall|k: int|
                0 <= k < 4 ==> #[trigger] r[k]
                    == self.public_inputs@[self.indices.partial_state.new_data.0[k].0 as int],
    {
        self.indices.partial_state.new_data.get_field(self.public_inputs.as_slice())
    }

    /// The change of the object's credits.
    pub fn credit_delta(&self) -> (r: u64)
        requires
            self.indices.within(self.public_inputs@.len()),
        ensures
            r == self.public_inputs@[self.indices.partial_state.credit_delta.0 as int],
    {
        self.indices.partial_state.credit_delta.get_field(self.public_inputs.as_slice())
    }
}

/// The leaf circuit: the partial object of one event, and the event's hash.
pub struct LeafCircuit {
    /// The recursion subcircuit: the branch circuit's verifier data.
    pub unbounded: unbounded::LeafSubCircuit,
    /// The rp-style merkle hash of all event fields.
    pub event_hash: unpruned::LeafSubCircuit,
    /// The event-to-state/partial-object converter.
    pub partial_state: core_circuit::LeafSubCircuit,
    /// The plan of the circuit.
    pub circuit: CircuitBuilder,
    /// The shape of the circuit's proofs, and the number that names it.
    pub common: CommonCircuitData,
}

impl LeafCircuit {
    /// Plans the leaf circuit, named `id`, whose verifier data has a cap of
    /// `2^cap_height` digests: the partial object is the one the (private)
    /// event gives (see `core_circuit::leaf_relation`), and the event hash is
    /// the hash of the event's owner, kind, address and value.
    pub fn new(cap_height: usize, id: usize) -> (r: Self)
        requires
            cap_height_ok(cap_height),
        ensures
            r.common.cap_height == cap_height,
            r.common.id == id,
            r.unbounded.in_leaf(r.circuit.public_inputs@, r.common),
            r.partial_state.indices.locates(r.circuit.public_inputs@, r.partial_state.targets.inputs),
            r.event_hash.indices.unpruned_hash.within(r.circuit.public_inputs@.len()),
            forall|k: int|
                0 <= k < 4 ==> r.circuit.public_inputs@[#[trigger] r.event_hash.indices.unpruned_hash.pos(k)]
                    == r.event_hash.targets.inputs.unpruned_hash.elements[k],
            forall|e: Env|
                e.valid() && #[trigger] r.circuit.sat(e) ==> {
                    let t = r.partial_state.targets;
                    &&& leaf_relation(
                        t.inputs.values(e),
                        e.vals(t.event_owner@),
                        e.val(t.event_ty),
                        e.vals(t.event_value@),
                    )
                    &&& forall|k: int|
                        0 <= k < 4 ==> #[trigger] e.val(
                            r.event_hash.targets.inputs.unpruned_hash.elements[k],
                        ) == e.hash(
                            e.vals(t.event_owner@ + seq![t.event_ty, t.inputs.address] + t.event_value@),
                        )[k]
                },
    {
        let mut builder = CircuitBuilder::new();
        let event_hash_inputs = unpruned::default(&mut builder);
        let partial_state_inputs = core_circuit::default(&mut builder);
        let unbounded_inputs = unbounded::default(&mut builder, cap_height);
        let ghost registered = builder.public_inputs@;

        let unbounded_targets = unbounded_inputs.build_leaf(&mut builder);
        let event_hash_targets = event_hash_inputs.build_leaf(&mut builder);
        let partial_state_targets = partial_state_inputs.build_leaf(&mut builder);

        let event_hash_calc = hash_event(
            &mut builder,
            partial_state_targets.event_owner,
            partial_state_targets.event_ty,
            partial_state_targets.inputs.address,
            partial_state_targets.event_value,
        );
        builder.connect_hashes(event_hash_calc, event_hash_targets.inputs.unpruned_hash);

        let public_inputs = builder.public_inputs.clone();
        proof {
            assert(public_inputs@ == registered);
            assert forall|k: int| 0 <= k < 4 implies public_inputs@.contains(
                #[trigger] event_hash_targets.inputs.unpruned_hash.elements[k],
            ) by {
                assert(public_inputs@[k] == event_hash_targets.inputs.unpruned_hash.elements[k]);
            }
            assert forall|i: int| 0 <= i < 19 implies public_inputs@.contains(
                #[trigger] partial_state_targets.inputs.public_targets()[i],
            ) by {
                assert(public_inputs@[4 + i] == partial_state_targets.inputs.public_targets()[i]);
            }
            let t = partial_state_targets;
            assert forall|e: Env| e.valid() && #[trigger] builder.sat(e) implies forall|k: int|
                0 <= k < 4 ==> #[trigger] e.val(event_hash_targets.inputs.unpruned_hash.elements[k])
                    == e.hash(
                    e.vals(t.event_owner@ + seq![t.event_ty, t.inputs.address] + t.event_value@),
                )[k] by {
                assert forall|k: int| 0 <= k < 4 implies #[trigger] e.val(
                    event_hash_targets.inputs.unpruned_hash.elements[k],
                ) == e.hash(
                    e.vals(t.event_owner@ + seq![t.event_ty, t.inputs.address] + t.event_value@),
                )[k] by {
                    assert(e.val(event_hash_calc.elements[k]) == e.val(
                        event_hash_targets.inputs.unpruned_hash.elements[k],
                    ));
                }
            }
        }
        let unbounded = unbounded_targets.build(public_inputs.as_slice());
        let event_hash = event_hash_targets.build(public_inputs.as_slice());
        let partial_state = partial_state_targets.build(public_inputs.as_slice());
        let common = CommonCircuitData { num_public_inputs: builder.num_public_inputs(), cap_height, id };
        LeafCircuit { unbounded, event_hash, partial_state, circuit: builder, common }
    }

    /// Gives the witness the values of the event; the event hash follows.
    pub fn set_witness(
        &self,
        inputs: &mut PartialWitness,
        address: u64,
        event_owner: [u64; 4],
        event_ty: EventType,
        event_value: [u64; 4],
    ) -> (r: Result<(), WitnessConflict>)
        requires
            event_ty == EventType::CreditDelta ==> event_value[3] == 0 || event_value[3] == 1,
            event_ty == EventType::CreditDelta && event_value[3] == 1 ==> event_value[0]
                != 0x8000_0000_0000_0000u64,
        ensures
            r is Ok <==> old(inputs).fits(
                self.partial_state.leaf_targets(),
                core_circuit::LeafSubCircuit::leaf_values(
                    spec_from_event(
                        Event { owner: event_owner, ty: event_ty, address, value: event_value },
                    ),
                ),
            ),
            r is Ok ==> final(inputs).extends(*old(inputs)) && self.partial_state.witness_has(
                *final(inputs),
                spec_from_event(
                    Event { owner: event_owner, ty: event_ty, address, value: event_value },
                ),
            ),            r is Ok ==> final(inputs).has_arr(self.partial_state.targets.event_owner, event_owner)
                && final(inputs).has(self.partial_state.targets.event_ty, event_ty.spec_code())
                && final(inputs).has(self.partial_state.targets.inputs.address, field_of_u64(address))
                && final(inputs).has_arr(self.partial_state.targets.event_value, event_value),
    {
        self.partial_state.set_witness(
            inputs,
            Event { owner: event_owner, ty: event_ty, address, value: event_value },
        )
    }
}

/// The branch circuit: it verifies two children, proofs of the leaf circuit
/// or of this circuit, and proves the merge of their partial objects and the
/// hash of their event hashes.
pub struct BranchCircuit {
    /// The recursion subcircuit: the children's proofs and their verification.
    pub unbounded: unbounded::BranchSubCircuit,
    /// The rp-style merkle hash of all event fields.
    pub event_hash: unpruned::BranchSubCircuit<PartialAllowed>,
    /// The event-to-state/partial-object converter.
    pub partial_state: core_circuit::BranchSubCircuit,
    /// The plan of the circuit.
    pub circuit: CircuitBuilder,
}

impl BranchCircuit {
    /// Plans the branch circuit over children of the leaf's shape: both
    /// children verify, against the leaf circuit's verifier data or this
    /// circuit's own, and carry this circuit's verifier data (see
    /// `unbounded::verifies_children`); the partial object merges the
    /// children's (see `core_circuit::branch_relation`), the event hash
    /// hashes theirs, and both agree on whether the right child is absent.
    #[verifier::rlimit(30)]
    pub fn new(leaf: &LeafCircuit) -> (r: Self)
        requires
            leaf.event_hash.indices.unpruned_hash.within(leaf.circuit.public_inputs@.len()),
            leaf.partial_state.indices.within(leaf.circuit.public_inputs@.len()),
            leaf.unbounded.in_leaf(leaf.circuit.public_inputs@, leaf.common),
        ensures
            r.unbounded.indices.verifier.locates(r.circuit.public_inputs@, r.unbounded.targets.inputs.verifier),
            r.unbounded.targets.inputs.verifier.constants_sigmas_cap.0@.len()
                == leaf.unbounded.targets.inputs.verifier.constants_sigmas_cap.0@.len(),
            forall|e: Env|
                e.valid() && #[trigger] r.circuit.sat(e) ==> unbounded::verifies_children(
                    e,
                    r.unbounded.targets,
                    leaf.unbounded.indices,
                    leaf.common.id,
                ),
            r.partial_state.indices.locates(r.circuit.public_inputs@, r.partial_state.targets.inputs),
            r.event_hash.indices.unpruned_hash.within(r.circuit.public_inputs@.len()),
            forall|k: int|
                0 <= k < 4 ==> r.circuit.public_inputs@[#[trigger] r.event_hash.indices.unpruned_hash.pos(k)]
                    == r.event_hash.targets.inputs.unpruned_hash.elements[k],
            r.unbounded.targets.left_proof.public_inputs@.len() == leaf.circuit.public_inputs@.len(),
            r.unbounded.targets.right_proof.public_inputs@.len() == leaf.circuit.public_inputs@.len(),
            unpruned::reads_children(
                r.event_hash.targets,
                leaf.event_hash.indices,
                r.unbounded.targets.left_proof.public_inputs@,
                r.unbounded.targets.right_proof.public_inputs@,
            ),
            leaf.partial_state.indices.locates(
                r.unbounded.targets.left_proof.public_inputs@,
                r.partial_state.targets.left,
            ),
            leaf.partial_state.indices.locates_fields(
                r.unbounded.targets.right_proof.public_inputs@,
                r.partial_state.targets.right,
            ),
            forall|e: Env|
                e.valid() && #[trigger] r.circuit.sat(e) ==> {
                    let t = r.partial_state.targets;
                    let (rp, i) = (r.unbounded.targets.right_proof.public_inputs@, leaf.partial_state.indices);
                    &&& e.val(t.right.object_flags) == if e.truth(t.partial.target) {
                        0
                    } else {
                        e.val(rp[i.object_flags.0 as int])
                    }
                    &&& e.val(t.right.credit_delta) == if e.truth(t.partial.target) {
                        0
                    } else {
                        e.val(rp[i.credit_delta.0 as int])
                    }
                    &&& unpruned::extended_branch_hash(e, false, r.event_hash.targets)
                    &&& e.val(r.event_hash.targets.extension.partial.target) == e.val(
                        t.partial.target,
                    )
                    &&& core_circuit::branch_relation(
                        t.inputs.values(e),
                        t.left.values(e),
                        t.right.values(e),
                    )
                },
    {
        let mut builder = CircuitBuilder::new();
        let event_hash_inputs = unpruned::default(&mut builder);
        let partial_state_inputs = core_circuit::default(&mut builder);
        let unbounded_inputs = unbounded::default(&mut builder, leaf.common.cap_height);
        let ghost registered = builder.public_inputs@;

        let unbounded_targets = unbounded_inputs.build_branch(&mut builder, &leaf.unbounded, &leaf.common);
        let ghost bu = builder;
        let left_proof = &unbounded_targets.left_proof;
        let right_proof = &unbounded_targets.right_proof;

        let event_hash_targets = event_hash_inputs.build_extended_branch(
            &mut builder,
            &leaf.event_hash.indices,
            left_proof,
            right_proof,
            false,
        );
        let ghost be = builder;
        let partial_state_targets = partial_state_inputs.build_branch(
            &mut builder,
            &leaf.partial_state.indices,
            left_proof,
            right_proof,
        );
        let ghost b0 = builder;

        builder.connect(
            event_hash_targets.extension.partial.target,
            partial_state_targets.partial.target,
        );

        let public_inputs = builder.public_inputs.clone();
        proof {
            assert(public_inputs@ == registered);
            assert forall|k: int| 0 <= k < 4 implies public_inputs@.contains(
                #[trigger] event_hash_targets.inputs.unpruned_hash.elements[k],
            ) by {
                assert(public_inputs@[k] == event_hash_targets.inputs.unpruned_hash.elements[k]);
            }
            assert forall|i: int| 0 <= i < 19 implies public_inputs@.contains(
                #[trigger] partial_state_targets.inputs.public_targets()[i],
            ) by {
                assert(public_inputs@[4 + i] == partial_state_targets.inputs.public_targets()[i]);
            }
            assert forall|e: Env| e.valid() && #[trigger] builder.sat(e) implies core_circuit::branch_relation(
                partial_state_targets.inputs.values(e),
                partial_state_targets.left.values(e),
                partial_state_targets.right.values(e),
            ) && unpruned::extended_branch_hash(e, false, event_hash_targets) && unbounded::verifies_children(
                e,
                unbounded_targets,
                leaf.unbounded.indices,
                leaf.common.id,
            ) by {
                assert(b0.sat(e));
                assert(be.sat(e));
                assert(bu.sat(e));
            }
        }
        let unbounded = unbounded_targets.build(public_inputs.as_slice());
        let event_hash = event_hash_targets.build(&leaf.event_hash.indices, public_inputs.as_slice());
        let partial_state = partial_state_targets.build(
            &leaf.partial_state.indices,
            public_inputs.as_slice(),
        );
        BranchCircuit { unbounded, event_hash, partial_state, circuit: builder }
    }

    /// Gives the witness what the children's public inputs determine: with
    /// only a left child, its values (partial); with both, their merge.
    pub fn set_witness(
        &self,
        inputs: &mut PartialWitness,
        left_inputs: &[u64],
        right_inputs: Option<&[u64]>,
    ) -> (r: Result<(), WitnessConflict>)
        requires
            self.partial_state.indices.within(left_inputs@.len()),
            right_inputs matches Some(ri) ==> self.partial_state.proofs_mergeable(
                left_inputs@,
                ri@,
            ),
        ensures
            r is Ok <==> old(inputs).fits(
                seq![self.event_hash.targets.extension.partial.target]
                    + self.partial_state.merged_targets(),
                seq![bit_of(right_inputs is None)] + match right_inputs {
                    None => self.partial_state.from_proof_values(left_inputs@),
                    Some(ri) => self.partial_state.from_proofs_values(left_inputs@, ri@),
                },
            ),
            r is Ok ==> final(inputs).wrote(
                *old(inputs),
                seq![self.event_hash.targets.extension.partial.target]
                    + self.partial_state.merged_targets(),
                seq![bit_of(right_inputs is None)] + match right_inputs {
                    None => self.partial_state.from_proof_values(left_inputs@),
                    Some(ri) => self.partial_state.from_proofs_values(left_inputs@, ri@),
                },
            ),
            r is Ok ==> final(inputs).extends(*old(inputs)) && final(inputs).has(
                self.event_hash.targets.extension.partial.target,
                if right_inputs is None {
                    1u64
                } else {
                    0u64
                },
            ),
    {
        let partial = right_inputs.is_none();
        let ghost (t1, v1) = (seq![self.event_hash.targets.extension.partial.target], seq![bit_of(partial)]);
        let ghost (t2, v2) = (
            self.partial_state.merged_targets(),
            match right_inputs {
                None => self.partial_state.from_proof_values(left_inputs@),
                Some(ri) => self.partial_state.from_proofs_values(left_inputs@, ri@),
            },
        );
        let ghost w0 = *inputs;
        proof {
            lemma_fits_prefix(w0, t1, v1, t2, v2);
        }
        self.event_hash.set_witness(inputs, partial)?;
        let ghost w1 = *inputs;
        proof {
            lemma_fits_after(w0, w1, t1, v1, t2, v2);
        }
        match right_inputs {
            None => self.partial_state.set_witness_from_proof(inputs, left_inputs)?,
            Some(right_inputs) => self.partial_state.set_witness_from_proofs(
                inputs,
                left_inputs,
                right_inputs,
            )?,
        }
        proof {
            lemma_wrote_chain(w0, w1, *inputs, t1, v1, t2, v2);
        }
        Ok(())
    }
}

} // verus!
