//! Subcircuits embedding the merge of two binary merkle trees.
//!
//! This lets you do the merge externally in however many recursive steps and
//! just embed the proof of the final merge in another circuit.
use vstd::prelude::*;

use crate::circuit::{
    bit_of, flagged_targets, flagged_values, lemma_fits_after, lemma_fits_prefix, lemma_wrote_chain,
    or_zero, BoolTarget, CircuitBuilder, Env, HashOutTarget, PartialWitness,
    ProofWithPublicInputsTarget, Target, WitnessConflict,
};
use crate::gadgets::{false_if, zero_hash_if};
use crate::indices::{BoolTargetIndex, HashOutTargetIndex};

verus! {

/// The indices of the public inputs of this subcircuit in any
/// `ProofWithPublicInputs`.
#[derive(Copy, Clone, PartialEq, Eq, Debug)]
pub struct PublicIndices {
    /// The index for the presence of the hash.
    pub hash_present: BoolTargetIndex,
    /// The indices of each of the elements of the hash.
    pub hash: HashOutTargetIndex,
}

impl PublicIndices {
    /// Every position is below `len`.
    pub open spec fn within(self, len: nat) -> bool {
        self.hash_present.0.0 < len && self.hash.within(len)
    }

    /// The positions hold the targets of the inputs.
    pub open spec fn locates(self, pis: Seq<Target>, t: SubCircuitInputs) -> bool {
        &&& self.within(pis.len())
        &&& pis[self.hash_present.0.0 as int] == t.hash_present.target
        &&& forall|k: int| 0 <= k < 4 ==> pis[#[trigger] self.hash.pos(k)] == t.hash.elements[k]
    }
}

pub struct SubCircuitInputs {
    /// The presence of `hash`.
    pub hash_present: BoolTarget,
    /// The hash or ZERO if absent.
    pub hash: HashOutTarget,
}

impl SubCircuitInputs {
    /// The presence flag is boolean in every satisfying environment.
    pub open spec fn constrained(self, b: CircuitBuilder) -> bool {
        forall|e: Env| e.valid() && #[trigger] b.sat(e) ==> e.is_bool(self.hash_present.target)
    }

    /// The targets, in the order they are registered as public inputs.
    pub open spec fn public_targets(self) -> Seq<Target> {
        seq![self.hash_present.target] + self.hash.elements@
    }

    /// Every target is among the public inputs.
    pub open spec fn registered_in(self, pis: Seq<Target>) -> bool {
        forall|i: int| 0 <= i < 5 ==> pis.contains(#[trigger] self.public_targets()[i])
    }
}

pub struct LeafTargets {
    /// The public inputs.
    pub inputs: SubCircuitInputs,
}

/// Allocates the targets of the subcircuit and registers them as public
/// inputs.
pub fn default(builder: &mut CircuitBuilder) -> (r: SubCircuitInputs)
    ensures
        final(builder).public_inputs@ == old(builder).public_inputs@ + r.public_targets(),
        forall|e: Env| #[trigger] final(builder).sat(e) ==> old(builder).sat(e),
        r.constrained(*final(builder)),
{
    let hash_present = builder.add_virtual_bool_target_safe();
    let hash = builder.add_virtual_hash();
    builder.register_public_input(hash_present.target);
    builder.register_public_inputs(&hash.elements);
    let r = SubCircuitInputs { hash_present, hash };
    assert(builder.public_inputs@ =~= old(builder).public_inputs@ + r.public_targets());
    r
}

impl SubCircuitInputs {
    /// A leaf adds no constraint.
    pub fn build_leaf(self, _builder: &mut CircuitBuilder) -> (r: LeafTargets)
        ensures
            final(_builder).ops@ == old(_builder).ops@,
            final(_builder).public_inputs@ == old(_builder).public_inputs@,
            r.inputs == self,
    {
        LeafTargets { inputs: self }
    }
}

pub struct LeafSubCircuit {
    pub targets: LeafTargets,
    pub indices: PublicIndices,
}

/// Finds the positions of the public inputs of the subcircuit.
fn find_indices(inputs: &SubCircuitInputs, public_inputs: &[Target]) -> (r: PublicIndices)
    requires
        inputs.registered_in(public_inputs@),
    ensures
        r.locates(public_inputs@, *inputs),
{
    assert(inputs.public_targets()[0] == inputs.hash_present.target);
    assert forall|k: int| 0 <= k < 4 implies public_inputs@.contains(
        #[trigger] inputs.hash.elements[k],
    ) by {
        assert(inputs.public_targets()[k + 1] == inputs.hash.elements[k]);
    }
    PublicIndices {
        hash_present: BoolTargetIndex::new(public_inputs, inputs.hash_present),
        hash: HashOutTargetIndex::new(public_inputs, inputs.hash),
    }
}

impl LeafTargets {
    /// Finds the positions of the public inputs.
    pub fn build(self, public_inputs: &[Target]) -> (r: LeafSubCircuit)
        requires
            self.inputs.registered_in(public_inputs@),
        ensures
            r.targets == self,
            r.indices.locates(public_inputs@, self.inputs),
    {
        let indices = find_indices(&self.inputs, public_inputs);
        LeafSubCircuit { targets: self, indices }
    }
}

impl LeafSubCircuit {
    /// Gives the witness the optional hash: present, or absent and ZERO.
    pub fn set_witness(&self, inputs: &mut PartialWitness, hash: Option<[u64; 4]>) -> (r: Result<
        (),
        WitnessConflict,
    >)
        ensures
            r is Ok <==> old(inputs).fits(
                flagged_targets(self.targets.inputs.hash_present, self.targets.inputs.hash),
                flagged_values(hash is Some, or_zero(hash)),
            ),
            r is Ok ==> final(inputs).wrote(
                *old(inputs),
                flagged_targets(self.targets.inputs.hash_present, self.targets.inputs.hash),
                flagged_values(hash is Some, or_zero(hash)),
            ),
            r is Ok ==> final(inputs).extends(*old(inputs)) && final(inputs).has(
                self.targets.inputs.hash_present.target,
                if hash is Some {
                    1u64
                } else {
                    0u64
                },
            ) && final(inputs).has_arr(self.targets.inputs.hash.elements, or_zero(hash)),
    {
        let zero: [u64; 4] = [0u64, 0u64, 0u64, 0u64];
        let h = match hash {
            Some(h) => h,
            None => zero,
        };
        self.set_witness_unsafe(inputs, hash.is_some(), h)
    }

    /// Gives the witness the presence flag and the hash as they are.
    fn set_witness_unsafe(&self, inputs: &mut PartialWitness, hash_present: bool, hash: [u64; 4]) -> (r:
        Result<(), WitnessConflict>)
        ensures
            r is Ok <==> old(inputs).fits(
                flagged_targets(self.targets.inputs.hash_present, self.targets.inputs.hash),
                flagged_values(hash_present, hash),
            ),
            r is Ok ==> final(inputs).wrote(
                *old(inputs),
                flagged_targets(self.targets.inputs.hash_present, self.targets.inputs.hash),
                flagged_values(hash_present, hash),
            ),
            r is Ok ==> final(inputs).extends(*old(inputs)) && final(inputs).has(
                self.targets.inputs.hash_present.target,
                if hash_present {
                    1u64
                } else {
                    0u64
                },
            ) && final(inputs).has_arr(self.targets.inputs.hash.elements, hash),
    {
        inputs.set_flagged_hash(self.targets.inputs.hash_present, hash_present, self.targets.inputs.hash, hash)
    }
}

/// What the embedding needs of the circuit that proves merges: the positions
/// of its public inputs, their number, the number by which the plan names the
/// circuit (its verifier data and its shape), and the height of its cap.
pub struct MergeCircuit {
    pub indices: crate::circuits::merge::core_circuit::PublicIndices,
    pub num_public_inputs: usize,
    pub circuit: usize,
    pub cap_height: usize,
}

pub struct BranchTargets {
    /// The public inputs.
    pub inputs: SubCircuitInputs,
    /// The left direction.
    pub left: SubCircuitInputs,
    /// The right direction.
    pub right: SubCircuitInputs,
    /// Whether or not the right direction is absent.
    pub partial: BoolTarget,
    /// The proof of the merge.
    pub proof: ProofWithPublicInputsTarget,
}

/// The inputs of a child proof at the positions of this subcircuit.
pub fn direction_from_node(proof: &ProofWithPublicInputsTarget, indices: &PublicIndices) -> (r:
    SubCircuitInputs)
    requires
        indices.within(proof.public_inputs@.len()),
    ensures
        indices.locates(proof.public_inputs@, r),
{
    let hash_present = indices.hash_present.get_target(proof.public_inputs.as_slice());
    let hash = indices.hash.get_target(proof.public_inputs.as_slice());
    SubCircuitInputs { hash_present, hash }
}

/// The values of two digest targets are equal, element by element.
pub open spec fn same_hash(e: Env, a: HashOutTarget, b: HashOutTarget) -> bool {
    forall|i: int| 0 <= i < 4 ==> #[trigger] e.val(a.elements[i]) == e.val(b.elements[i])
}

impl BranchTargets {
    /// What a branch proves of the verified proof of a merge: the merge's
    /// `a` side is the left child's hash, its `b` side the right child's
    /// (absent and ZERO when partial), and its merged hash this subcircuit's.
    pub open spec fn merges(self, e: Env, mc: MergeCircuit) -> bool {
        let m = crate::circuits::merge::core_circuit::direction_spec(
            self.proof.public_inputs@,
            mc.indices,
        );
        let r = self;
        &&& e.is_bool(r.partial.target)
        &&& e.val(m.a_present.target) == e.val(r.left.hash_present.target)
        &&& same_hash(e, m.a_hash, r.left.hash)
        &&& e.is_bool(r.right.hash_present.target) ==> e.val(m.b_present.target) == if e.truth(
            r.partial.target,
        ) {
            0
        } else {
            e.val(r.right.hash_present.target)
        }
        &&& forall|i: int|
            0 <= i < 4 ==> #[trigger] e.val(m.b_hash.elements[i]) == if e.truth(r.partial.target) {
                0
            } else {
                e.val(r.right.hash.elements[i])
            }
        &&& e.val(m.merged_present.target) == e.val(r.inputs.hash_present.target)
        &&& same_hash(e, m.merged_hash, r.inputs.hash)
    }
}

impl SubCircuitInputs {
    /// Embeds a verified proof of a merge: its `a` side is the left child's
    /// hash, its `b` side the right child's (absent when partial), and its
    /// merged hash this subcircuit's.
    pub fn build_branch(
        self,
        builder: &mut CircuitBuilder,
        mc: &MergeCircuit,
        indices: &PublicIndices,
        left_proof: &ProofWithPublicInputsTarget,
        right_proof: &ProofWithPublicInputsTarget,
    ) -> (r: BranchTargets)
        requires
            mc.indices.within(mc.num_public_inputs as nat),
            crate::circuit::cap_height_ok(mc.cap_height),
            indices.within(left_proof.public_inputs@.len()),
            indices.within(right_proof.public_inputs@.len()),
        ensures
            final(builder).grows(*old(builder)),
            forall|e: Env| #[trigger]
                final(builder).sat(e) ==> e.verified(
                    mc.circuit,
                    e.verifier_data(mc.circuit),
                    e.vals(r.proof.public_inputs@),
                ),
            r.inputs == self,
            indices.locates(left_proof.public_inputs@, r.left),
            indices.locates(right_proof.public_inputs@, r.right),
            r.proof.public_inputs@.len() == mc.num_public_inputs,
            forall|e: Env| e.valid() && #[trigger] final(builder).sat(e) ==> r.merges(e, *mc),
    {
        let _false = builder._false();
        let left = direction_from_node(left_proof, indices);
        let right = direction_from_node(right_proof, indices);
        let partial = builder.add_virtual_bool_target_safe();

        let proof = builder.add_virtual_proof_with_pis(mc.num_public_inputs);
        let verifier = builder.constant_verifier_data(mc.circuit, mc.cap_height);
        let ghost bc = *builder;
        builder.verify_proof(&proof, &verifier, mc.circuit);
        let ghost bv = *builder;

        let m = crate::circuits::merge::core_circuit::direction_from_node(&proof, &mc.indices);
        proof {
            crate::circuits::merge::core_circuit::lemma_direction_spec(proof.public_inputs@, mc.indices, m);
        }

        let b_present_calc = false_if(builder, partial, right.hash_present);
        let b_hash_calc = zero_hash_if(builder, partial, right.hash);

        builder.connect(m.a_present.target, left.hash_present.target);
        builder.connect(m.b_present.target, b_present_calc.target);
        builder.connect(m.merged_present.target, self.hash_present.target);
        builder.connect_hashes(m.a_hash, left.hash);
        builder.connect_hashes(m.b_hash, b_hash_calc);
        builder.connect_hashes(m.merged_hash, self.hash);

        proof {
            assert forall|e: Env| #[trigger] builder.sat(e) implies e.verified(
                mc.circuit,
                e.verifier_data(mc.circuit),
                e.vals(proof.public_inputs@),
            ) by {
                assert(bv.sat(e));
                assert(bc.sat(e));
            }
        }
        BranchTargets { inputs: self, left, right, partial, proof }
    }
}

pub struct BranchSubCircuit {
    pub targets: BranchTargets,
    pub indices: PublicIndices,
}

impl BranchTargets {
    /// Finds the positions of the public inputs; they are meant to be the
    /// same as the child's.
    pub fn build(self, child: &PublicIndices, public_inputs: &[Target]) -> (r: BranchSubCircuit)
        requires
            self.inputs.registered_in(public_inputs@),
        ensures
            r.indices.locates(public_inputs@, self.inputs),
            r.targets == self,
    {
        let indices = find_indices(&self.inputs, public_inputs);
        BranchSubCircuit { indices, targets: self }
    }
}

impl BranchSubCircuit {
    /// Gives the witness the partial flag and the public inputs of the proof
    /// of the merge.
    pub fn set_witness(&self, inputs: &mut PartialWitness, partial: bool, proof: &[u64]) -> (r:
        Result<(), WitnessConflict>)
        requires
            self.targets.proof.public_inputs@.len() == proof@.len(),
        ensures
            r is Ok <==> old(inputs).fits(
                seq![self.targets.partial.target] + self.targets.proof.public_inputs@,
                seq![bit_of(partial)] + proof@,
            ),
            r is Ok ==> final(inputs).wrote(
                *old(inputs),
                seq![self.targets.partial.target] + self.targets.proof.public_inputs@,
                seq![bit_of(partial)] + proof@,
            ),
            r is Ok ==> final(inputs).extends(*old(inputs)) && final(inputs).has(
                self.targets.partial.target,
                if partial {
                    1u64
                } else {
                    0u64
                },
            ),
            r is Ok ==> forall|k: int|
                0 <= k < proof@.len() ==> final(inputs).has(
                    #[trigger] self.targets.proof.public_inputs@[k],
                    proof@[k],
                ),
    {
        let ghost (t1, v1) = (seq![self.targets.partial.target], seq![bit_of(partial)]);
        let ghost (t2, v2) = (self.targets.proof.public_inputs@, proof@);
        let ghost w0 = *inputs;
        proof {
            lemma_fits_prefix(w0, t1, v1, t2, v2);
        }
        inputs.set_bool_target(self.targets.partial, partial)?;
        let ghost mid = *inputs;
        proof {
            lemma_fits_after(w0, mid, t1, v1, t2, v2);
        }
        inputs.set_proof_with_pis_target(&self.targets.proof, proof)?;
        proof {
            lemma_wrote_chain(w0, mid, *inputs, t1, v1, t2, v2);
        }
        assert(mid.has(self.targets.partial.target, if partial { 1u64 } else { 0u64 }));
        Ok(())
    }

    /// Gives the witness the partial flag, the public inputs of the proof of
    /// the merge, the presence flag and the hash as they are.
    pub fn set_witness_unsafe(
        &self,
        inputs: &mut PartialWitness,
        partial: bool,
        proof: &[u64],
        hash_present: bool,
        hash: [u64; 4],
    ) -> (r: Result<(), WitnessConflict>)
        requires
            self.targets.proof.public_inputs@.len() == proof@.len(),
        ensures
            r is Ok <==> old(inputs).fits(
                seq![self.targets.partial.target] + self.targets.proof.public_inputs@ + flagged_targets(
                    self.targets.inputs.hash_present,
                    self.targets.inputs.hash,
                ),
                seq![bit_of(partial)] + proof@ + flagged_values(hash_present, hash),
            ),
            r is Ok ==> final(inputs).extends(*old(inputs)) && final(inputs).has(
                self.targets.partial.target,
                if partial {
                    1u64
                } else {
                    0u64
                },
            ) && final(inputs).has(
                self.targets.inputs.hash_present.target,
                if hash_present {
                    1u64
                } else {
                    0u64
                },
            ) && final(inputs).has_arr(self.targets.inputs.hash.elements, hash),
            r is Ok ==> forall|k: int|
                0 <= k < proof@.len() ==> final(inputs).has(
                    #[trigger] self.targets.proof.public_inputs@[k],
                    proof@[k],
                ),
    {
        let ghost (t1, v1) = (
            seq![self.targets.partial.target] + self.targets.proof.public_inputs@,
            seq![bit_of(partial)] + proof@,
        );
        let ghost (t2, v2) = (
            flagged_targets(self.targets.inputs.hash_present, self.targets.inputs.hash),
            flagged_values(hash_present, hash),
        );
        let ghost w0 = *inputs;
        proof {
            lemma_fits_prefix(w0, t1, v1, t2, v2);
        }
        self.set_witness(inputs, partial, proof)?;
        let ghost w1 = *inputs;
        proof {
            lemma_fits_after(w0, w1, t1, v1, t2, v2);
        }
        inputs.set_flagged_hash(self.targets.inputs.hash_present, hash_present, self.targets.inputs.hash, hash)?;
        let ghost w2 = *inputs;
        proof {
            assert(w1.has(self.targets.partial.target, if partial { 1u64 } else { 0u64 }));
            assert(w2.has(self.targets.partial.target, if partial { 1u64 } else { 0u64 }));
            assert(w2.has(self.targets.inputs.hash_present.target, if hash_present { 1u64 } else { 0u64 }));
            assert forall|k: int| 0 <= k < proof@.len() implies inputs.has(
                #[trigger] self.targets.proof.public_inputs@[k],
                proof@[k],
            ) by {
                assert(w1.has(self.targets.proof.public_inputs@[k], proof@[k]));
                assert(w2.has(self.targets.proof.public_inputs@[k], proof@[k]));
            }
        }
        Ok(())
    }
}

} // verus!
