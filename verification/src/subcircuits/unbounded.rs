//! Subcircuits for recursively proving an unbounded number of leaves.
//!
//! A branch verifies both of its children, each a proof of the leaf circuit
//! or of the branch circuit itself. Every proof of the tree carries the
//! branch circuit's verifier data among its public inputs, so that a branch
//! can verify its branch children against its own verifier data.
use vstd::prelude::*;

use crate::circuit::{
    bit_of, cap_height_ok, flatten_verifier, lemma_fits_after, lemma_fits_prefix, lemma_verifier_targets_at,
    lemma_verifier_vals, lemma_wrote_chain, verifier_data_targets, verifier_data_values, verifier_targets,
    BoolTarget, CircuitBuilder, CommonCircuitData, Env, PartialWitness, ProofWithPublicInputsTarget, Target,
    VerifierCircuitTarget, VerifierOnlyCircuitData, WitnessConflict,
};
use crate::gadgets::{connect_verifier_data, same_vals, select_verifier};
use crate::indices::VerifierCircuitTargetIndex;
use vstd::arithmetic::power2::pow2;

verus! {

/// The positions of the branch circuit's verifier data among the public
/// inputs.
pub struct PublicIndices {
    pub verifier: VerifierCircuitTargetIndex,
}

impl PublicIndices {
    /// Every position is below `len`.
    pub open spec fn within(self, len: nat) -> bool {
        self.verifier.within(len)
    }
}

pub struct SubCircuitInputs {
    /// The verifier data of the branch circuit.
    pub verifier: VerifierCircuitTarget,
}

impl SubCircuitInputs {
    /// Every target is among the public inputs.
    pub open spec fn registered_in(self, pis: Seq<Target>) -> bool {
        &&& forall|i: int| 0 <= i < 4 ==> pis.contains(#[trigger] self.verifier.circuit_digest.elements[i])
        &&& forall|k: int, i: int|
            #![trigger self.verifier.constants_sigmas_cap.0@[k].elements[i]]
            0 <= k < self.verifier.constants_sigmas_cap.0@.len() && 0 <= i < 4 ==> pis.contains(
                self.verifier.constants_sigmas_cap.0@[k].elements[i],
            )
    }
}

/// Allocates the branch circuit's verifier data, with a cap of
/// `2^cap_height` digests, and registers it as public inputs.
pub fn default(builder: &mut CircuitBuilder, cap_height: usize) -> (r: SubCircuitInputs)
    requires
        cap_height_ok(cap_height),
    ensures
        forall|e: Env| #[trigger] final(builder).sat(e) ==> old(builder).sat(e),
        final(builder).public_inputs@ == old(builder).public_inputs@ + verifier_targets(r.verifier),
        r.registered_in(final(builder).public_inputs@),
        r.verifier.constants_sigmas_cap.0@.len() == pow2(cap_height as nat),
{
    let verifier = builder.add_virtual_verifier_data(cap_height);
    let ghost p0 = builder.public_inputs@;
    let flat = flatten_verifier(&verifier);
    builder.register_public_inputs(flat.as_slice());
    let r = SubCircuitInputs { verifier };
    proof {
        lemma_verifier_targets_at(verifier);
        let pis = builder.public_inputs@;
        assert(pis == p0 + verifier_targets(verifier));
        assert forall|i: int| 0 <= i < 4 implies pis.contains(#[trigger] verifier.circuit_digest.elements[i]) by {
            assert(pis[p0.len() + i] == verifier.circuit_digest.elements[i]);
        }
        assert forall|k: int, i: int|
            #![trigger verifier.constants_sigmas_cap.0@[k].elements[i]]
            0 <= k < verifier.constants_sigmas_cap.0@.len() && 0 <= i < 4 implies pis.contains(
            verifier.constants_sigmas_cap.0@[k].elements[i],
        ) by {
            assert(pis[p0.len() + (4 + 4 * k + i)] == verifier.constants_sigmas_cap.0@[k].elements[i]);
        }
    }
    r
}

pub struct LeafTargets {
    /// The public inputs.
    pub inputs: SubCircuitInputs,
}

impl SubCircuitInputs {
    /// A leaf only carries the branch circuit's verifier data.
    pub fn build_leaf(self, builder: &mut CircuitBuilder) -> (r: LeafTargets)
        ensures
            final(builder).ops@ == old(builder).ops@,
            final(builder).public_inputs@ == old(builder).public_inputs@,
            forall|e: Env| #[trigger] final(builder).sat(e) == old(builder).sat(e),
            r.inputs == self,
    {
        LeafTargets { inputs: self }
    }
}

/// The leaf subcircuit metadata.
pub struct LeafSubCircuit {
    pub targets: LeafTargets,
    pub indices: PublicIndices,
}

impl LeafTargets {
    /// Finds the positions of the public inputs.
    pub fn build(self, public_inputs: &[Target]) -> (r: LeafSubCircuit)
        requires
            self.inputs.registered_in(public_inputs@),
        ensures
            r.targets == self,
            r.indices.verifier.locates(public_inputs@, self.inputs.verifier),
    {
        let verifier = VerifierCircuitTargetIndex::new(public_inputs, &self.inputs.verifier);
        LeafSubCircuit { targets: self, indices: PublicIndices { verifier } }
    }
}

impl LeafSubCircuit {
    /// The subcircuit stands in a leaf circuit with these public inputs,
    /// described by `common`: the positions hold its verifier data, whose
    /// cap holds `2^common.cap_height` digests.
    pub open spec fn in_leaf(self, pis: Seq<Target>, common: CommonCircuitData) -> bool {
        &&& self.indices.verifier.locates(pis, self.targets.inputs.verifier)
        &&& common.num_public_inputs == pis.len()
        &&& cap_height_ok(common.cap_height)
        &&& self.targets.inputs.verifier.constants_sigmas_cap.0@.len() == pow2(common.cap_height as nat)
    }

    /// Gives the witness the branch circuit's verifier data.
    pub fn set_witness(&self, inputs: &mut PartialWitness, branch: &VerifierOnlyCircuitData) -> (r: Result<
        (),
        WitnessConflict,
    >)
        requires
            self.targets.inputs.verifier.constants_sigmas_cap.0@.len() == branch.constants_sigmas_cap@.len(),
        ensures
            r is Ok <==> old(inputs).fits(
                verifier_data_targets(self.targets.inputs.verifier),
                verifier_data_values(*branch),
            ),
            r is Ok ==> final(inputs).wrote(
                *old(inputs),
                verifier_data_targets(self.targets.inputs.verifier),
                verifier_data_values(*branch),
            ),
    {
        inputs.set_verifier_data_target(&self.targets.inputs.verifier, branch)
    }
}

pub struct BranchTargets {
    /// The public inputs.
    pub inputs: SubCircuitInputs,
    /// Whether the left child is a proof of the leaf circuit.
    pub left_is_leaf: BoolTarget,
    /// The proof of the left child.
    pub left_proof: ProofWithPublicInputsTarget,
    /// Whether the right child is a proof of the leaf circuit.
    pub right_is_leaf: BoolTarget,
    /// The proof of the right child.
    pub right_proof: ProofWithPublicInputsTarget,
}

/// A child proof, with its public inputs `proof`, verifies as a proof of the
/// leaf circuit's shape (numbered `leaf`): against the leaf circuit's
/// verifier data when its flag is set, and against the branch circuit's own
/// (`verifier`) when it is not; the flag is a boolean.
pub open spec fn verifies_child(
    e: Env,
    verifier: VerifierCircuitTarget,
    is_leaf: BoolTarget,
    proof: Seq<Target>,
    leaf: usize,
) -> bool {
    &&& e.is_bool(is_leaf.target)
    &&& e.verified(
        leaf,
        if e.truth(is_leaf.target) {
            e.verifier_data(leaf)
        } else {
            e.vals(verifier_targets(verifier))
        },
        e.vals(proof),
    )
}

/// A child proof carries, at the positions, the branch circuit's verifier
/// data.
pub open spec fn carries_verifier(
    e: Env,
    verifier: VerifierCircuitTarget,
    idx: PublicIndices,
    proof: Seq<Target>,
) -> bool {
    &&& forall|i: int|
        0 <= i < 4 ==> #[trigger] e.val(verifier.circuit_digest.elements[i]) == e.val(
            proof[idx.verifier.circuit_digest.pos(i)],
        )
    &&& forall|k: int, i: int|
        #![trigger verifier.constants_sigmas_cap.0@[k].elements[i]]
        0 <= k < verifier.constants_sigmas_cap.0@.len() && 0 <= i < 4 ==> e.val(
            verifier.constants_sigmas_cap.0@[k].elements[i],
        ) == e.val(proof[idx.verifier.constants_sigmas_cap@[k].pos(i)])
}

/// Both children of a branch verify (see `verifies_child`) and carry the
/// branch circuit's verifier data at the positions.
pub open spec fn verifies_children(e: Env, t: BranchTargets, idx: PublicIndices, leaf: usize) -> bool {
    &&& verifies_child(e, t.inputs.verifier, t.left_is_leaf, t.left_proof.public_inputs@, leaf)
    &&& verifies_child(e, t.inputs.verifier, t.right_is_leaf, t.right_proof.public_inputs@, leaf)
    &&& carries_verifier(e, t.inputs.verifier, idx, t.left_proof.public_inputs@)
    &&& carries_verifier(e, t.inputs.verifier, idx, t.right_proof.public_inputs@)
}

impl SubCircuitInputs {
    /// Verifies both children, proofs of the leaf circuit (described by
    /// `common`) or of this branch circuit, and connects the verifier data
    /// they carry to this circuit's own.
    pub fn build_branch(
        self,
        builder: &mut CircuitBuilder,
        leaf: &LeafSubCircuit,
        common: &CommonCircuitData,
    ) -> (r: BranchTargets)
        requires
            cap_height_ok(common.cap_height),
            leaf.indices.within(common.num_public_inputs as nat),
            leaf.indices.verifier.constants_sigmas_cap@.len() == pow2(common.cap_height as nat),
            self.verifier.constants_sigmas_cap.0@.len() == pow2(common.cap_height as nat),
        ensures
            final(builder).grows(*old(builder)),
            r.inputs == self,
            r.left_proof.public_inputs@.len() == common.num_public_inputs,
            r.right_proof.public_inputs@.len() == common.num_public_inputs,
            forall|e: Env|
                e.valid() && #[trigger] final(builder).sat(e) ==> verifies_children(
                    e,
                    r,
                    leaf.indices,
                    common.id,
                ),
    {
        let left_is_leaf = builder.add_virtual_bool_target_safe();
        let ghost b1 = *builder;
        let right_is_leaf = builder.add_virtual_bool_target_safe();
        let ghost b2 = *builder;
        let left_proof = builder.add_virtual_proof_with_pis(common.num_public_inputs);
        let right_proof = builder.add_virtual_proof_with_pis(common.num_public_inputs);
        let leaf_verifier = builder.constant_verifier_data(common.id, common.cap_height);
        let ghost b3 = *builder;
        let left_verifier = select_verifier(builder, left_is_leaf, &leaf_verifier, &self.verifier);
        let ghost b4 = *builder;
        let right_verifier = select_verifier(builder, right_is_leaf, &leaf_verifier, &self.verifier);
        let ghost b5 = *builder;

        // Connect the children's verifier data to this circuit's own: every
        // proof in the tree uses the same verifier data.
        let left_carried = leaf.indices.verifier.get_target(left_proof.public_inputs.as_slice());
        let right_carried = leaf.indices.verifier.get_target(right_proof.public_inputs.as_slice());
        connect_verifier_data(builder, &self.verifier, &left_carried);
        let ghost b6 = *builder;
        connect_verifier_data(builder, &self.verifier, &right_carried);
        let ghost b7 = *builder;

        builder.verify_proof(&left_proof, &left_verifier, common.id);
        let ghost b8 = *builder;
        builder.verify_proof(&right_proof, &right_verifier, common.id);
        let r = BranchTargets { inputs: self, left_is_leaf, left_proof, right_is_leaf, right_proof };
        proof {
            assert forall|e: Env| e.valid() && #[trigger] builder.sat(e) implies verifies_children(
                e,
                r,
                leaf.indices,
                common.id,
            ) by {
                assert(b8.sat(e));
                assert(b7.sat(e));
                assert(b6.sat(e));
                assert(b5.sat(e));
                assert(b4.sat(e));
                assert(b3.sat(e));
                assert(b2.sat(e));
                assert(b1.sat(e));
                if e.truth(left_is_leaf.target) {
                    lemma_verifier_vals(e, left_verifier, leaf_verifier);
                } else {
                    lemma_verifier_vals(e, left_verifier, self.verifier);
                }
                if e.truth(right_is_leaf.target) {
                    lemma_verifier_vals(e, right_verifier, leaf_verifier);
                } else {
                    lemma_verifier_vals(e, right_verifier, self.verifier);
                }
                assert forall|k: int, i: int|
                    #![trigger self.verifier.constants_sigmas_cap.0@[k].elements[i]]
                    0 <= k < self.verifier.constants_sigmas_cap.0@.len() && 0 <= i < 4 implies e.val(
                    self.verifier.constants_sigmas_cap.0@[k].elements[i],
                ) == e.val(left_proof.public_inputs@[leaf.indices.verifier.constants_sigmas_cap@[k].pos(i)])
                    && e.val(self.verifier.constants_sigmas_cap.0@[k].elements[i]) == e.val(
                    right_proof.public_inputs@[leaf.indices.verifier.constants_sigmas_cap@[k].pos(i)],
                ) by {
                    assert(same_vals(
                        e,
                        self.verifier.constants_sigmas_cap.0@[k].elements,
                        left_carried.constants_sigmas_cap.0@[k].elements,
                    ));
                    assert(same_vals(
                        e,
                        self.verifier.constants_sigmas_cap.0@[k].elements,
                        right_carried.constants_sigmas_cap.0@[k].elements,
                    ));
                }
            }
        }
        r
    }
}

/// The branch subcircuit metadata.
pub struct BranchSubCircuit {
    pub targets: BranchTargets,
    pub indices: PublicIndices,
}

impl BranchTargets {
    /// Finds the positions of the public inputs.
    pub fn build(self, public_inputs: &[Target]) -> (r: BranchSubCircuit)
        requires
            self.inputs.registered_in(public_inputs@),
        ensures
            r.targets == self,
            r.indices.verifier.locates(public_inputs@, self.inputs.verifier),
    {
        let verifier = VerifierCircuitTargetIndex::new(public_inputs, &self.inputs.verifier);
        BranchSubCircuit { targets: self, indices: PublicIndices { verifier } }
    }
}

impl BranchSubCircuit {
    /// The targets of the witness, in order: the left flag and proof, then
    /// the right flag and proof.
    pub open spec fn witness_targets(self) -> Seq<Target> {
        seq![self.targets.left_is_leaf.target] + self.targets.left_proof.public_inputs@ + seq![
            self.targets.right_is_leaf.target,
        ] + self.targets.right_proof.public_inputs@
    }

    /// The values given to the targets of the witness, in order.
    pub open spec fn witness_values(left_is_leaf: bool, left: Seq<u64>, right_is_leaf: bool, right: Seq<u64>) -> Seq<
        u64,
    > {
        seq![bit_of(left_is_leaf)] + left + seq![bit_of(right_is_leaf)] + right
    }

    /// Gives the witness the children: whether each is a leaf proof, and its
    /// public inputs.
    pub fn set_witness(
        &self,
        inputs: &mut PartialWitness,
        left_is_leaf: bool,
        left_proof: &[u64],
        right_is_leaf: bool,
        right_proof: &[u64],
    ) -> (r: Result<(), WitnessConflict>)
        requires
            self.targets.left_proof.public_inputs@.len() == left_proof@.len(),
            self.targets.right_proof.public_inputs@.len() == right_proof@.len(),
        ensures
            r is Ok <==> old(inputs).fits(
                self.witness_targets(),
                Self::witness_values(left_is_leaf, left_proof@, right_is_leaf, right_proof@),
            ),
            r is Ok ==> final(inputs).wrote(
                *old(inputs),
                self.witness_targets(),
                Self::witness_values(left_is_leaf, left_proof@, right_is_leaf, right_proof@),
            ),
    {
        let ghost (t1, v1) = (seq![self.targets.left_is_leaf.target], seq![bit_of(left_is_leaf)]);
        let ghost (t2, v2) = (self.targets.left_proof.public_inputs@, left_proof@);
        let ghost (t3, v3) = (seq![self.targets.right_is_leaf.target], seq![bit_of(right_is_leaf)]);
        let ghost (t4, v4) = (self.targets.right_proof.public_inputs@, right_proof@);
        let ghost w0 = *inputs;
        proof {
            assert(self.witness_targets() == t1 + t2 + t3 + t4);
            lemma_fits_prefix(w0, t1 + t2 + t3, v1 + v2 + v3, t4, v4);
            lemma_fits_prefix(w0, t1 + t2, v1 + v2, t3, v3);
            lemma_fits_prefix(w0, t1, v1, t2, v2);
        }
        inputs.set_bool_target(self.targets.left_is_leaf, left_is_leaf)?;
        let ghost w1 = *inputs;
        proof {
            lemma_fits_after(w0, w1, t1, v1, t2, v2);
            lemma_fits_after(w0, w1, t1, v1, t2 + t3, v2 + v3);
            lemma_fits_after(w0, w1, t1, v1, t2 + t3 + t4, v2 + v3 + v4);
            assert(t1 + (t2 + t3) == t1 + t2 + t3);
            assert(v1 + (v2 + v3) == v1 + v2 + v3);
            assert(t1 + (t2 + t3 + t4) == t1 + t2 + t3 + t4);
            assert(v1 + (v2 + v3 + v4) == v1 + v2 + v3 + v4);
        }
        inputs.set_proof_with_pis_target(&self.targets.left_proof, left_proof)?;
        let ghost w2 = *inputs;
        proof {
            lemma_wrote_chain(w0, w1, w2, t1, v1, t2, v2);
            lemma_fits_after(w0, w2, t1 + t2, v1 + v2, t3, v3);
            lemma_fits_after(w0, w2, t1 + t2, v1 + v2, t3 + t4, v3 + v4);
            assert(t1 + t2 + (t3 + t4) == t1 + t2 + t3 + t4);
            assert(v1 + v2 + (v3 + v4) == v1 + v2 + v3 + v4);
        }
        inputs.set_bool_target(self.targets.right_is_leaf, right_is_leaf)?;
        let ghost w3 = *inputs;
        proof {
            lemma_wrote_chain(w0, w2, w3, t1 + t2, v1 + v2, t3, v3);
            lemma_fits_after(w0, w3, t1 + t2 + t3, v1 + v2 + v3, t4, v4);
        }
        inputs.set_proof_with_pis_target(&self.targets.right_proof, right_proof)?;
        proof {
            lemma_wrote_chain(w0, w3, *inputs, t1 + t2 + t3, v1 + v2 + v3, t4, v4);
        }
        Ok(())
    }
}

} // verus!
