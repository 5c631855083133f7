//! Subcircuits for recursively proving a tree of a fixed height.
//!
//! Each level of the tree has a circuit of its own: a branch verifies both of
//! its children as proofs of the circuit one level down.
use vstd::prelude::*;

use crate::circuit::{
    cap_height_ok, CircuitBuilder, CommonCircuitData, Env, PartialWitness,
    ProofWithPublicInputsTarget, WitnessConflict,
};

verus! {

pub struct BranchTargets {
    /// The proof of the left child.
    pub left_proof: ProofWithPublicInputsTarget,
    /// The proof of the right child.
    pub right_proof: ProofWithPublicInputsTarget,
}

/// Both children verify as proofs of the circuit numbered `child`, against
/// its verifier data.
pub open spec fn verifies_children(e: Env, t: BranchTargets, child: usize) -> bool {
    &&& e.verified(child, e.verifier_data(child), e.vals(t.left_proof.public_inputs@))
    &&& e.verified(child, e.verifier_data(child), e.vals(t.right_proof.public_inputs@))
}

/// Verifies two children, proofs of the circuit described by `child`.
pub fn build_branch(builder: &mut CircuitBuilder, child: &CommonCircuitData) -> (r: BranchTargets)
    requires
        cap_height_ok(child.cap_height),
    ensures
        final(builder).grows(*old(builder)),
        r.left_proof.public_inputs@.len() == child.num_public_inputs,
        r.right_proof.public_inputs@.len() == child.num_public_inputs,
        forall|e: Env| #[trigger] final(builder).sat(e) ==> verifies_children(e, r, child.id),
{
    let left_proof = builder.add_virtual_proof_with_pis(child.num_public_inputs);
    let right_proof = builder.add_virtual_proof_with_pis(child.num_public_inputs);
    let verifier = builder.constant_verifier_data(child.id, child.cap_height);
    let ghost b1 = *builder;
    builder.verify_proof(&left_proof, &verifier, child.id);
    let ghost b2 = *builder;
    builder.verify_proof(&right_proof, &verifier, child.id);
    let r = BranchTargets { left_proof, right_proof };
    proof {
        assert forall|e: Env| #[trigger] builder.sat(e) implies verifies_children(e, r, child.id) by {
            assert(b2.sat(e));
            assert(b1.sat(e));
        }
    }
    r
}

impl BranchTargets {
    /// Gives the witness the public inputs of both children's proofs.
    pub fn set_witness(&self, inputs: &mut PartialWitness, left_proof: &[u64], right_proof: &[u64]) -> (r:
        Result<(), WitnessConflict>)
        requires
            self.left_proof.public_inputs@.len() == left_proof@.len(),
            self.right_proof.public_inputs@.len() == right_proof@.len(),
        ensures
            r is Ok <==> old(inputs).fits(
                self.left_proof.public_inputs@ + self.right_proof.public_inputs@,
                left_proof@ + right_proof@,
            ),
            r is Ok ==> final(inputs).wrote(
                *old(inputs),
                self.left_proof.public_inputs@ + self.right_proof.public_inputs@,
                left_proof@ + right_proof@,
            ),
    {
        inputs.set_two_proofs(&self.left_proof, left_proof, &self.right_proof, right_proof)
    }
}

} // verus!
