//! Circuits for recursively proving the merge of two binary merkle trees.
//!
//! The resulting merge of trees A and B will provably contain all nodes from A
//! and B and those nodes will retain their relative positioning within
//! a tree, i.e. if A1 was to the left of A2 in its own tree, it will still
//! be in the resulting tree. However no order is defined for the positioning of
//! nodes between A and B, i.e. A1 could be to the left or right of B1.
use vstd::prelude::*;

use crate::circuit::{
    cap_height_ok, or_zero, CircuitBuilder, CommonCircuitData, Env, PartialWitness, WitnessConflict,
};
use crate::gadgets::all_zero;
use crate::subcircuits::unbounded;

pub mod core_circuit;
pub mod embed;

verus! {

/// The leaf circuit: merges up to two leaf hashes, creating a parent node if
/// both are present, otherwise forwarding the one present.
pub struct LeafCircuit {
    /// The recursion subcircuit: the branch circuit's verifier data.
    pub unbounded: unbounded::LeafSubCircuit,
    /// The merge subcircuit.
    pub merge: core_circuit::LeafSubCircuit,
    /// The plan of the circuit.
    pub circuit: CircuitBuilder,
    /// The shape of the circuit's proofs, and the number that names it.
    pub common: CommonCircuitData,
}

impl LeafCircuit {
    /// Plans the leaf circuit, named `id`, whose verifier data has a cap of
    /// `2^cap_height` digests: see `core_circuit::SubCircuitInputs::build_leaf`.
    pub fn new(cap_height: usize, id: usize) -> (r: Self)
        requires
            cap_height_ok(cap_height),
        ensures
            r.common.cap_height == cap_height,
            r.common.id == id,
            r.unbounded.in_leaf(r.circuit.public_inputs@, r.common),
            r.merge.indices.locates(r.circuit.public_inputs@, r.merge.targets.inputs),
            forall|e: Env|
                e.valid() && #[trigger] r.circuit.sat(e) ==> {
                    let t = r.merge.targets.inputs;
                    &&& e.truth(t.a_present.target) || all_zero(e, t.a_hash.elements)
                    &&& e.truth(t.b_present.target) || all_zero(e, t.b_hash.elements)
                    &&& e.truth(t.merged_present.target) == (e.truth(t.a_present.target)
                        || e.truth(t.b_present.target))
                    &&& forall|i: int|
                        0 <= i < 4 ==> #[trigger] e.val(t.merged_hash.elements[i])
                            == core_circuit::forwarded(
                            e,
                            t.a_present,
                            t.a_hash.elements,
                            t.b_present,
                            t.b_hash.elements,
                            i,
                        )
                },
    {
        let mut builder = CircuitBuilder::new();
        let merge_inputs = core_circuit::default(&mut builder);
        let ghost registered_b = builder;
        let unbounded_inputs = unbounded::default(&mut builder, cap_height);
        let ghost registered = builder.public_inputs@;
        let unbounded_targets = unbounded_inputs.build_leaf(&mut builder);
        proof {
            assert forall|e: Env| e.valid() && #[trigger] builder.sat(e) implies e.is_bool(merge_inputs.a_present.target)
                && e.is_bool(merge_inputs.b_present.target) && e.is_bool(merge_inputs.merged_present.target) by {
                assert(registered_b.sat(e));
            }
        }
        let merge_targets = merge_inputs.build_leaf(&mut builder);
        let public_inputs = builder.public_inputs.clone();
        proof {
            assert(public_inputs@ == registered);
            let pt = merge_inputs.public_targets();
            assert forall|i: int| 0 <= i < 15 implies public_inputs@.contains(#[trigger] pt[i]) by {
                assert(public_inputs@[i] == pt[i]);
            }
        }
        let unbounded = unbounded_targets.build(public_inputs.as_slice());
        let merge = merge_targets.build(public_inputs.as_slice());
        let common = CommonCircuitData { num_public_inputs: builder.num_public_inputs(), cap_height, id };
        LeafCircuit { unbounded, merge, circuit: builder, common }
    }

    /// Gives the witness the two optional hashes.
    pub fn set_witness(
        &self,
        inputs: &mut PartialWitness,
        a_hash: Option<[u64; 4]>,
        b_hash: Option<[u64; 4]>,
    ) -> (r: Result<(), WitnessConflict>)
        ensures
            r is Ok <==> old(inputs).fits(
                core_circuit::sides_targets(self.merge.targets.inputs),
                core_circuit::sides_values(a_hash is Some, or_zero(a_hash), b_hash is Some, or_zero(b_hash)),
            ),
            r is Ok ==> {
                let t = self.merge.targets.inputs;
                &&& final(inputs).extends(*old(inputs))
                &&& final(inputs).has(t.a_present.target, if a_hash is Some { 1u64 } else { 0u64 })
                &&& final(inputs).has(t.b_present.target, if b_hash is Some { 1u64 } else { 0u64 })
                &&& final(inputs).has_arr(t.a_hash.elements, or_zero(a_hash))
                &&& final(inputs).has_arr(t.b_hash.elements, or_zero(b_hash))
            },
    {
        self.merge.set_witness(inputs, a_hash, b_hash)
    }

    /// Gives the witness the hashes as they are, the merged one too.
    pub fn set_witness_unsafe(
        &self,
        inputs: &mut PartialWitness,
        a_hash: Option<[u64; 4]>,
        b_hash: Option<[u64; 4]>,
        merged_hash: Option<[u64; 4]>,
    ) -> (r: Result<(), WitnessConflict>)
        ensures
            r is Ok <==> old(inputs).fits(
                core_circuit::unsafe_targets(self.merge.targets.inputs, merged_hash is Some),
                core_circuit::unsafe_values(
                    a_hash is Some,
                    or_zero(a_hash),
                    b_hash is Some,
                    or_zero(b_hash),
                    merged_hash is Some,
                    merged_hash,
                ),
            ),
            r is Ok ==> {
                let t = self.merge.targets.inputs;
                &&& final(inputs).extends(*old(inputs))
                &&& final(inputs).has(t.a_present.target, if a_hash is Some { 1u64 } else { 0u64 })
                &&& final(inputs).has_arr(t.a_hash.elements, or_zero(a_hash))
                &&& final(inputs).has(t.b_present.target, if b_hash is Some { 1u64 } else { 0u64 })
                &&& final(inputs).has_arr(t.b_hash.elements, or_zero(b_hash))
                &&& final(inputs).has(
                    t.merged_present.target,
                    if merged_hash is Some { 1u64 } else { 0u64 },
                )
                &&& merged_hash matches Some(h) ==> final(inputs).has_arr(t.merged_hash.elements, h)
            },
    {
        let zero: [u64; 4] = [0u64, 0u64, 0u64, 0u64];
        let a = match a_hash {
            Some(h) => h,
            None => zero,
        };
        let b = match b_hash {
            Some(h) => h,
            None => zero,
        };
        self.merge.set_witness_unsafe(
            inputs,
            a_hash.is_some(),
            a,
            b_hash.is_some(),
            b,
            merged_hash.is_some(),
            merged_hash,
        )
    }
}

/// The branch circuit: verifies two children, proofs of the leaf circuit or
/// of this circuit, and merges their merges.
pub struct BranchCircuit {
    /// The recursion subcircuit: the children's proofs and their verification.
    pub unbounded: unbounded::BranchSubCircuit,
    /// The merge subcircuit.
    pub merge: core_circuit::BranchSubCircuit,
    /// The plan of the circuit.
    pub circuit: CircuitBuilder,
}

impl BranchCircuit {
    /// Plans the branch circuit over children of the leaf's shape: both
    /// children verify, against the leaf circuit's verifier data or this
    /// circuit's own, and carry this circuit's verifier data (see
    /// `unbounded::verifies_children`); the merge is the merge of theirs (see
    /// `core_circuit::branch_merges`).
    pub fn new(leaf: &LeafCircuit) -> (r: Self)
        requires
            leaf.merge.indices.within(leaf.circuit.public_inputs@.len()),
            leaf.unbounded.in_leaf(leaf.circuit.public_inputs@, leaf.common),
        ensures
            r.merge.indices.locates(r.circuit.public_inputs@, r.merge.targets.inputs),
            r.unbounded.indices.verifier.locates(r.circuit.public_inputs@, r.unbounded.targets.inputs.verifier),
            r.unbounded.targets.left_proof.public_inputs@.len() == leaf.circuit.public_inputs@.len(),
            r.unbounded.targets.right_proof.public_inputs@.len() == leaf.circuit.public_inputs@.len(),
            forall|e: Env|
                e.valid() && #[trigger] r.circuit.sat(e) ==> unbounded::verifies_children(
                    e,
                    r.unbounded.targets,
                    leaf.unbounded.indices,
                    leaf.common.id,
                ),
            forall|e: Env|
                e.valid() && #[trigger] r.circuit.sat(e) && core_circuit::direction_spec(
                    r.unbounded.targets.left_proof.public_inputs@,
                    leaf.merge.indices,
                ).flags_bool(e) && core_circuit::direction_spec(
                    r.unbounded.targets.right_proof.public_inputs@,
                    leaf.merge.indices,
                ).flags_bool(e) ==> core_circuit::branch_merges(
                    e,
                    r.merge.targets.inputs,
                    core_circuit::direction_spec(r.unbounded.targets.left_proof.public_inputs@, leaf.merge.indices),
                    core_circuit::direction_spec(r.unbounded.targets.right_proof.public_inputs@, leaf.merge.indices),
                ),
    {
        let mut builder = CircuitBuilder::new();
        let merge_inputs = core_circuit::default(&mut builder);
        let ghost registered_b = builder;
        let unbounded_inputs = unbounded::default(&mut builder, leaf.common.cap_height);
        let ghost registered = builder.public_inputs@;
        let unbounded_targets = unbounded_inputs.build_branch(&mut builder, &leaf.unbounded, &leaf.common);
        let ghost bu = builder;
        proof {
            assert forall|e: Env| e.valid() && #[trigger] builder.sat(e) implies e.is_bool(merge_inputs.a_present.target)
                && e.is_bool(merge_inputs.b_present.target) && e.is_bool(merge_inputs.merged_present.target) by {
                assert(registered_b.sat(e));
            }
        }
        let merge_targets = merge_inputs.build_branch(
            &mut builder,
            &leaf.merge.indices,
            &unbounded_targets.left_proof,
            &unbounded_targets.right_proof,
        );
        let public_inputs = builder.public_inputs.clone();
        proof {
            assert(public_inputs@ == registered);
            let pt = merge_inputs.public_targets();
            assert forall|i: int| 0 <= i < 15 implies public_inputs@.contains(#[trigger] pt[i]) by {
                assert(public_inputs@[i] == pt[i]);
            }
        }
        proof {
            assert forall|e: Env| e.valid() && #[trigger] builder.sat(e) implies unbounded::verifies_children(
                e,
                unbounded_targets,
                leaf.unbounded.indices,
                leaf.common.id,
            ) by {
                assert(bu.sat(e));
            }
        }
        let unbounded = unbounded_targets.build(public_inputs.as_slice());
        let merge = merge_targets.build(&leaf.merge.indices, public_inputs.as_slice());
        BranchCircuit { unbounded, merge, circuit: builder }
    }

    /// Gives the witness the children: whether each is a proof of the leaf
    /// circuit, and its public inputs; the merge itself follows from them.
    pub fn set_witness(
        &self,
        inputs: &mut PartialWitness,
        left_is_leaf: bool,
        left_proof: &[u64],
        right_is_leaf: bool,
        right_proof: &[u64],
    ) -> (r: Result<(), WitnessConflict>)
        requires
            self.unbounded.targets.left_proof.public_inputs@.len() == left_proof@.len(),
            self.unbounded.targets.right_proof.public_inputs@.len() == right_proof@.len(),
        ensures
            r is Ok <==> old(inputs).fits(
                self.unbounded.witness_targets(),
                unbounded::BranchSubCircuit::witness_values(left_is_leaf, left_proof@, right_is_leaf, right_proof@),
            ),
            r is Ok ==> final(inputs).wrote(
                *old(inputs),
                self.unbounded.witness_targets(),
                unbounded::BranchSubCircuit::witness_values(left_is_leaf, left_proof@, right_is_leaf, right_proof@),
            ),
    {
        self.unbounded.set_witness(inputs, left_is_leaf, left_proof, right_is_leaf, right_proof)?;
        self.merge.set_witness(inputs);
        Ok(())
    }
}

} // verus!
