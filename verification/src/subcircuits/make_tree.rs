//! Subcircuits for recursively proving the construction of a binary merkle tree
//! out of a single value.
use vstd::prelude::*;

use crate::circuit::{
    BoolTarget, CircuitBuilder, Env, HashOutTarget, PartialWitness, ProofWithPublicInputsTarget,
    Target, WitnessConflict,
};
use crate::field::{fmod, lemma_fmod_small};
use crate::gadgets::{
    all_zero, hash_is_nonzero, hash_is_zero, hash_or_forward, hashes_equal, pair_vals, same_vals,
};
use crate::indices::HashOutTargetIndex;

verus! {

/// The positions of the public inputs of this subcircuit.
#[derive(Copy, Clone, PartialEq, Eq, Debug)]
pub struct PublicIndices {
    /// The positions of the elements of the hash.
    pub hash: HashOutTargetIndex,
    /// The positions of the elements of the `leaf_value`.
    pub leaf_value: HashOutTargetIndex,
}

impl PublicIndices {
    /// Every position is below `len`.
    pub open spec fn within(self, len: nat) -> bool {
        self.hash.within(len) && self.leaf_value.within(len)
    }
}

pub struct SubCircuitInputs {
    /// The leaf value or ZERO if absent.
    pub hash: HashOutTarget,
    /// The value to be propagated throughout the produced tree.
    pub leaf_value: HashOutTarget,
}

impl SubCircuitInputs {
    /// Every target is among the public inputs.
    pub open spec fn registered_in(self, pis: Seq<Target>) -> bool {
        &&& forall|i: int| 0 <= i < 4 ==> pis.contains(#[trigger] self.hash.elements[i])
        &&& forall|i: int| 0 <= i < 4 ==> pis.contains(#[trigger] self.leaf_value.elements[i])
    }
}

pub struct LeafTargets {
    /// The public inputs.
    pub inputs: SubCircuitInputs,
}

/// Allocates the hash and the leaf value and registers them as public inputs.
pub fn default(builder: &mut CircuitBuilder) -> (r: SubCircuitInputs)
    ensures
        final(builder).public_inputs@ == old(builder).public_inputs@ + r.hash.elements@
            + r.leaf_value.elements@,
        forall|e: Env| #[trigger] final(builder).sat(e) ==> old(builder).sat(e),
{
    let hash = builder.add_virtual_hash();
    let leaf_value = builder.add_virtual_hash();
    builder.register_public_inputs(&hash.elements);
    builder.register_public_inputs(&leaf_value.elements);
    SubCircuitInputs { hash, leaf_value }
}

impl SubCircuitInputs {
    /// Proves the hash is either the leaf value or ZERO, and not both.
    pub fn build_leaf(self, builder: &mut CircuitBuilder) -> (r: LeafTargets)
        ensures
            final(builder).grows(*old(builder)),
            r.inputs == self,
            forall|e: Env|
                e.valid() && #[trigger] final(builder).sat(e) ==> (same_vals(
                    e,
                    self.hash.elements,
                    self.leaf_value.elements,
                ) != all_zero(e, self.hash.elements)),
    {
        let one = builder.one();
        let eq = hashes_equal(builder, self.hash, self.leaf_value);
        let zero = hash_is_zero(builder, self.hash);
        let xor = builder.add(eq.target, zero.target);
        builder.connect(xor, one);
        proof {
            assert forall|e: Env| e.valid() && #[trigger] builder.sat(e) implies (same_vals(
                e,
                self.hash.elements,
                self.leaf_value.elements,
            ) != all_zero(e, self.hash.elements)) by {
                lemma_fmod_small(e.val(eq.target) + e.val(zero.target));
            }
        }
        LeafTargets { inputs: self }
    }
}

/// The leaf subcircuit metadata.
pub struct LeafSubCircuit {
    pub targets: LeafTargets,
    pub indices: PublicIndices,
}

impl LeafTargets {
    /// Finds the positions of the public inputs.
    pub fn build(self, public_inputs: &[Target]) -> (r: LeafSubCircuit)
        requires
            self.inputs.registered_in(public_inputs@),
        ensures
            r.targets == self,
            r.indices.within(public_inputs@.len()),
            forall|k: int|
                0 <= k < 4 ==> public_inputs@[#[trigger] r.indices.hash.pos(k)]
                    == self.inputs.hash.elements[k],
            forall|k: int|
                0 <= k < 4 ==> public_inputs@[#[trigger] r.indices.leaf_value.pos(k)]
                    == self.inputs.leaf_value.elements[k],
    {
        let indices = PublicIndices {
            hash: HashOutTargetIndex::new(public_inputs, self.inputs.hash),
            leaf_value: HashOutTargetIndex::new(public_inputs, self.inputs.leaf_value),
        };
        LeafSubCircuit { targets: self, indices }
    }
}

/// The targets that a witness of the tree gives: the hash, then the leaf
/// value.
pub open spec fn tree_targets(inputs: SubCircuitInputs) -> Seq<Target> {
    inputs.hash.elements@ + inputs.leaf_value.elements@
}

impl LeafSubCircuit {
    /// Gives the witness the leaf value, and the hash: the leaf value when
    /// present, ZERO otherwise.
    pub fn set_witness(&self, inputs: &mut PartialWitness, present: bool, leaf_value: [u64; 4]) -> (r:
        Result<(), WitnessConflict>)
        ensures
            r is Ok <==> old(inputs).fits(
                tree_targets(self.targets.inputs),
                (if present { leaf_value } else { [0u64, 0u64, 0u64, 0u64] })@ + leaf_value@,
            ),
            r is Ok ==> forall|k: int|
                0 <= k < 4 ==> final(inputs).view_map()[#[trigger] self.targets.inputs.leaf_value.elements[k]]
                    == leaf_value[k],
            r is Ok ==> forall|k: int|
                0 <= k < 4 ==> final(inputs).view_map()[#[trigger] self.targets.inputs.hash.elements[k]]
                    == if present {
                    leaf_value[k]
                } else {
                    0u64
                },
    {
        let hash = if present {
            leaf_value
        } else {
            [0u64; 4]
        };
        self.set_witness_unsafe(inputs, hash, leaf_value)
    }

    /// Gives the witness the hash and the leaf value as they are.
    pub fn set_witness_unsafe(
        &self,
        inputs: &mut PartialWitness,
        hash: [u64; 4],
        leaf_value: [u64; 4],
    ) -> (r: Result<(), WitnessConflict>)
        ensures
            r is Ok <==> old(inputs).fits(tree_targets(self.targets.inputs), hash@ + leaf_value@),
            r is Ok ==> final(inputs).wrote(*old(inputs), tree_targets(self.targets.inputs), hash@ + leaf_value@),
            r is Ok ==> forall|k: int|
                0 <= k < 4 ==> final(inputs).view_map()[#[trigger] self.targets.inputs.leaf_value.elements[k]]
                    == leaf_value[k],
            r is Ok ==> forall|k: int|
                0 <= k < 4 ==> final(inputs).view_map()[#[trigger] self.targets.inputs.hash.elements[k]]
                    == hash[k],
    {
        inputs.set_two_hashes(self.targets.inputs.hash, hash, self.targets.inputs.leaf_value, leaf_value)
    }
}

pub struct BranchTargets {
    /// The public inputs.
    pub inputs: SubCircuitInputs,
    /// Whether the left branch is a leaf.
    pub left_is_leaf: BoolTarget,
    /// Whether the right branch is a leaf.
    pub right_is_leaf: BoolTarget,
}

/// The facts that a branch proves of the hashes and leaf values of its
/// children.
pub open spec fn branch_facts(
    e: Env,
    inputs: SubCircuitInputs,
    l_hash: [Target; 4],
    r_hash: [Target; 4],
    l_leaf: [Target; 4],
    r_leaf: [Target; 4],
) -> bool {
    let (ln, rn) = (!all_zero(e, l_hash), !all_zero(e, r_hash));
    &&& forall|i: int|
        0 <= i < 4 ==> #[trigger] e.val(inputs.hash.elements[i]) == if ln && rn {
            e.hash(pair_vals(e, l_hash, r_hash))[i]
        } else {
            fmod(e.val(l_hash[i]) + e.val(r_hash[i]))
        }
    &&& same_vals(e, inputs.leaf_value.elements, l_leaf)
    &&& same_vals(e, inputs.leaf_value.elements, r_leaf)
    &&& !(same_vals(e, l_hash, inputs.leaf_value.elements) && all_zero(e, l_hash))
    &&& !(same_vals(e, r_hash, inputs.leaf_value.elements) && all_zero(e, r_hash))
}

impl SubCircuitInputs {
    /// Hashes the children's hashes together when both are present (not
    /// ZERO), forwards the present one otherwise, and propagates the leaf
    /// value.
    pub fn build_branch(
        self,
        builder: &mut CircuitBuilder,
        indices: &PublicIndices,
        left_proof: &ProofWithPublicInputsTarget,
        right_proof: &ProofWithPublicInputsTarget,
    ) -> (r: BranchTargets)
        requires
            indices.within(left_proof.public_inputs@.len()),
            indices.within(right_proof.public_inputs@.len()),
        ensures
            final(builder).grows(*old(builder)),
            r.inputs == self,
            forall|e: Env|
                e.valid() && #[trigger] final(builder).sat(e) ==> branch_facts(
                    e,
                    self,
                    indices.hash.get_spec(left_proof.public_inputs@),
                    indices.hash.get_spec(right_proof.public_inputs@),
                    indices.leaf_value.get_spec(left_proof.public_inputs@),
                    indices.leaf_value.get_spec(right_proof.public_inputs@),
                ),
    {
        let l_hash = indices.hash.get_target(left_proof.public_inputs.as_slice());
        let r_hash = indices.hash.get_target(right_proof.public_inputs.as_slice());
        assert(l_hash.elements =~= indices.hash.get_spec(left_proof.public_inputs@));
        assert(r_hash.elements =~= indices.hash.get_spec(right_proof.public_inputs@));
        let left_non_zero = hash_is_nonzero(builder, l_hash);
        let right_non_zero = hash_is_nonzero(builder, r_hash);
        let summary_hash = hash_or_forward(
            builder,
            left_non_zero,
            l_hash.elements,
            right_non_zero,
            r_hash.elements,
        );
        builder.connect_hashes(self.hash, summary_hash);
        let l_leaf = indices.leaf_value.get_target(left_proof.public_inputs.as_slice());
        let r_leaf = indices.leaf_value.get_target(right_proof.public_inputs.as_slice());
        assert(l_leaf.elements =~= indices.leaf_value.get_spec(left_proof.public_inputs@));
        assert(r_leaf.elements =~= indices.leaf_value.get_spec(right_proof.public_inputs@));
        builder.connect_hashes(self.leaf_value, l_leaf);
        builder.connect_hashes(self.leaf_value, r_leaf);
        let left_eq = hashes_equal(builder, l_hash, self.leaf_value);
        let left_zero = hash_is_zero(builder, l_hash);
        let left_is_leaf = builder.add(left_eq.target, left_zero.target);
        let left_is_leaf = BoolTarget::new_unsafe(left_is_leaf);
        builder.assert_bool(left_is_leaf);
        let right_eq = hashes_equal(builder, r_hash, self.leaf_value);
        let right_zero = hash_is_zero(builder, r_hash);
        let right_is_leaf = builder.add(right_eq.target, right_zero.target);
        let right_is_leaf = BoolTarget::new_unsafe(right_is_leaf);
        builder.assert_bool(right_is_leaf);
        proof {
            assert forall|e: Env| e.valid() && #[trigger] builder.sat(e) implies branch_facts(
                e,
                self,
                l_hash.elements,
                r_hash.elements,
                l_leaf.elements,
                r_leaf.elements,
            ) by {
                assert forall|i: int| 0 <= i < 4 implies #[trigger] e.val(self.hash.elements[i])
                    == e.val(summary_hash.elements[i]) by {}
                lemma_fmod_small(e.val(left_eq.target) + e.val(left_zero.target));
                lemma_fmod_small(e.val(right_eq.target) + e.val(right_zero.target));
                assert forall|i: int| 0 <= i < 4 implies #[trigger] e.val(
                    self.leaf_value.elements[i],
                ) == e.val(r_leaf.elements[i]) by {}
                assert forall|i: int| 0 <= i < 4 implies #[trigger] e.val(
                    self.leaf_value.elements[i],
                ) == e.val(l_leaf.elements[i]) by {}
            }
        }
        BranchTargets { inputs: self, left_is_leaf, right_is_leaf }
    }
}

/// The branch subcircuit metadata.
pub struct BranchSubCircuit {
    pub targets: BranchTargets,
    pub indices: PublicIndices,
}

impl BranchTargets {
    /// Finds the positions of the public inputs; they are meant to be the
    /// same as the child's.
    pub fn build(self, child: &PublicIndices, public_inputs: &[Target]) -> (r: BranchSubCircuit)
        requires
            self.inputs.registered_in(public_inputs@),
        ensures
            r.targets == self,
            r.indices.within(public_inputs@.len()),
            forall|k: int|
                0 <= k < 4 ==> public_inputs@[#[trigger] r.indices.hash.pos(k)]
                    == self.inputs.hash.elements[k],
            forall|k: int|
                0 <= k < 4 ==> public_inputs@[#[trigger] r.indices.leaf_value.pos(k)]
                    == self.inputs.leaf_value.elements[k],
    {
        let indices = PublicIndices {
            hash: HashOutTargetIndex::new(public_inputs, self.inputs.hash),
            leaf_value: HashOutTargetIndex::new(public_inputs, self.inputs.leaf_value),
        };
        BranchSubCircuit { targets: self, indices }
    }
}

impl BranchSubCircuit {
    /// Gives the witness the hash and the leaf value.
    pub fn set_witness(&self, inputs: &mut PartialWitness, hash: [u64; 4], leaf_value: [u64; 4]) -> (r:
        Result<(), WitnessConflict>)
        ensures
            r is Ok <==> old(inputs).fits(tree_targets(self.targets.inputs), hash@ + leaf_value@),
            r is Ok ==> final(inputs).wrote(*old(inputs), tree_targets(self.targets.inputs), hash@ + leaf_value@),
            r is Ok ==> forall|k: int|
                0 <= k < 4 ==> final(inputs).view_map()[#[trigger] self.targets.inputs.leaf_value.elements[k]]
                    == leaf_value[k],
            r is Ok ==> forall|k: int|
                0 <= k < 4 ==> final(inputs).view_map()[#[trigger] self.targets.inputs.hash.elements[k]]
                    == hash[k],
    {
        inputs.set_two_hashes(self.targets.inputs.hash, hash, self.targets.inputs.leaf_value, leaf_value)
    }
}

} // verus!
