//! Subcircuits for recursively proving all nodes in a tree share a common value.
use vstd::prelude::*;

use crate::circuit::{
    CircuitBuilder, Env, PartialWitness, ProofWithPublicInputsTarget, Target, WitnessConflict,
};
use crate::gadgets::same_vals;
use crate::indices::{all_within, ArrayTargetIndex, TargetIndex};

verus! {

/// The positions of the public inputs of this subcircuit.
#[derive(Copy, Clone, Debug, PartialEq, Eq)]
pub struct PublicIndices<const V: usize> {
    /// The positions of the common values.
    pub values: ArrayTargetIndex<TargetIndex, V>,
}

impl<const V: usize> PublicIndices<V> {
    /// The positions hold the values among the public inputs.
    pub open spec fn locates(self, pis: Seq<Target>, values: [Target; V]) -> bool {
        &&& all_within(self.values.0, pis.len())
        &&& forall|k: int| 0 <= k < V ==> pis[(#[trigger] self.values.0[k]).0 as int] == values[k]
    }
}

pub struct SubCircuitInputs<const V: usize> {
    /// The common values.
    pub values: [Target; V],
}

pub struct LeafTargets<const V: usize> {
    /// The public inputs.
    pub inputs: SubCircuitInputs<V>,
}

/// Allocates the values and registers them as public inputs.
pub fn default<const V: usize>(builder: &mut CircuitBuilder) -> (r: SubCircuitInputs<V>)
    ensures
        final(builder).public_inputs@ == old(builder).public_inputs@ + r.values@,
        forall|e: Env| #[trigger] final(builder).sat(e) ==> old(builder).sat(e),
{
    let values = builder.add_virtual_target_arr::<V>();
    builder.register_public_inputs(&values);
    SubCircuitInputs { values }
}

impl<const V: usize> SubCircuitInputs<V> {
    /// A leaf only states that the values exist.
    pub fn build_leaf(self, builder: &mut CircuitBuilder) -> (r: LeafTargets<V>)
        ensures
            final(builder).grows(*old(builder)),
            r.inputs == self,
    {
        LeafTargets { inputs: self }
    }
}

/// The leaf subcircuit metadata.
pub struct LeafSubCircuit<const V: usize> {
    pub targets: LeafTargets<V>,
    pub indices: PublicIndices<V>,
}

impl<const V: usize> LeafTargets<V> {
    /// Finds the positions of the public inputs.
    pub fn build(self, public_inputs: &[Target]) -> (r: LeafSubCircuit<V>)
        requires
            forall|k: int| 0 <= k < V ==> public_inputs@.contains(#[trigger] self.inputs.values[k]),
        ensures
            r.targets == self,
            all_within(r.indices.values.0, public_inputs@.len()),
            forall|k: int|
                0 <= k < V ==> public_inputs@[(#[trigger] r.indices.values.0[k]).0 as int]
                    == self.inputs.values[k],
    {
        let indices = PublicIndices {
            values: ArrayTargetIndex::<TargetIndex, V>::new(public_inputs, &self.inputs.values),
        };
        LeafSubCircuit { targets: self, indices }
    }
}

impl<const V: usize> LeafSubCircuit<V> {
    /// Gives the witness the values.
    pub fn set_witness(&self, inputs: &mut PartialWitness, values: [u64; V]) -> (r: Result<
        (),
        WitnessConflict,
    >)
        ensures
            r is Ok <==> old(inputs).fits(self.targets.inputs.values@, values@),
            r is Ok ==> final(inputs).wrote(*old(inputs), self.targets.inputs.values@, values@),
            r is Ok ==> final(inputs).extends(*old(inputs)),
            r is Ok ==> forall|k: int|
                0 <= k < V ==> final(inputs).view_map()[#[trigger] self.targets.inputs.values[k]]
                    == values[k],
    {
        inputs.set_target_arr(&self.targets.inputs.values, &values)
    }
}

pub struct BranchTargets<const V: usize> {
    /// The public inputs.
    pub inputs: SubCircuitInputs<V>,
    /// The left direction.
    pub left: SubCircuitInputs<V>,
    /// The right direction.
    pub right: SubCircuitInputs<V>,
}

impl<const V: usize> SubCircuitInputs<V> {
    /// Connects the values to both children's values.
    pub fn build_branch(
        self,
        builder: &mut CircuitBuilder,
        indices: &PublicIndices<V>,
        left_proof: &ProofWithPublicInputsTarget,
        right_proof: &ProofWithPublicInputsTarget,
    ) -> (r: BranchTargets<V>)
        requires
            all_within(indices.values.0, left_proof.public_inputs@.len()),
            all_within(indices.values.0, right_proof.public_inputs@.len()),
        ensures
            final(builder).grows(*old(builder)),
            r.inputs == self,
            forall|k: int|
                0 <= k < V ==> #[trigger] r.left.values[k]
                    == left_proof.public_inputs@[indices.values.0[k].0 as int],
            forall|k: int|
                0 <= k < V ==> #[trigger] r.right.values[k]
                    == right_proof.public_inputs@[indices.values.0[k].0 as int],
            forall|e: Env|
                e.valid() && #[trigger] final(builder).sat(e) ==> same_vals(
                    e,
                    self.values,
                    r.left.values,
                ) && same_vals(e, r.left.values, r.right.values),
    {
        let l_values = indices.values.get_target(left_proof.public_inputs.as_slice());
        let r_values = indices.values.get_target(right_proof.public_inputs.as_slice());
        let mut k: usize = 0;
        while k < V
            invariant
                k <= V,
                builder.grows(*old(builder)),
                forall|e: Env|
                    e.valid() && #[trigger] builder.sat(e) ==> forall|i: int|
                        0 <= i < k ==> #[trigger] e.val(self.values[i]) == e.val(l_values[i])
                            && e.val(l_values[i]) == e.val(r_values[i]),
            decreases V - k,
        {
            let ghost b0 = *builder;
            builder.connect(self.values[k], l_values[k]);
            let ghost b1 = *builder;
            builder.connect(l_values[k], r_values[k]);
            proof {
                assert forall|e: Env| e.valid() && #[trigger] builder.sat(e) implies forall|i: int|
                    0 <= i < k + 1 ==> #[trigger] e.val(self.values[i]) == e.val(l_values[i])
                        && e.val(l_values[i]) == e.val(r_values[i]) by {
                    assert(b1.sat(e));
                    assert(b0.sat(e));
                }
            }
            k = k + 1;
        }
        proof {
            assert forall|e: Env| e.valid() && #[trigger] builder.sat(e) implies same_vals(
                e,
                self.values,
                l_values,
            ) && same_vals(e, l_values, r_values) by {
                assert forall|i: int| 0 <= i < V implies #[trigger] e.val(self.values[i]) == e.val(
                    l_values[i],
                ) by {}
                assert forall|i: int| 0 <= i < V implies #[trigger] e.val(l_values[i]) == e.val(
                    r_values[i],
                ) by {
                    assert(e.val(self.values[i]) == e.val(l_values[i]));
                }
            }
        }
        BranchTargets {
            inputs: self,
            left: SubCircuitInputs { values: l_values },
            right: SubCircuitInputs { values: r_values },
        }
    }
}

/// The branch subcircuit metadata.
pub struct BranchSubCircuit<const V: usize> {
    pub targets: BranchTargets<V>,
    pub indices: PublicIndices<V>,
}

impl<const V: usize> BranchTargets<V> {
    /// Finds the positions of the public inputs; they are meant to be the
    /// same as the child's.
    pub fn build(self, child: &PublicIndices<V>, public_inputs: &[Target]) -> (r: BranchSubCircuit<
        V,
    >)
        requires
            forall|k: int| 0 <= k < V ==> public_inputs@.contains(#[trigger] self.inputs.values[k]),
        ensures
            r.targets == self,
            all_within(r.indices.values.0, public_inputs@.len()),
            forall|k: int|
                0 <= k < V ==> public_inputs@[(#[trigger] r.indices.values.0[k]).0 as int]
                    == self.inputs.values[k],
    {
        let indices = PublicIndices {
            values: ArrayTargetIndex::<TargetIndex, V>::new(public_inputs, &self.inputs.values),
        };
        BranchSubCircuit { indices, targets: self }
    }
}

impl<const V: usize> BranchSubCircuit<V> {
    /// Gives the witness the values.
    pub fn set_witness(&self, inputs: &mut PartialWitness, values: [u64; V]) -> (r: Result<
        (),
        WitnessConflict,
    >)
        ensures
            r is Ok <==> old(inputs).fits(self.targets.inputs.values@, values@),
            r is Ok ==> final(inputs).wrote(*old(inputs), self.targets.inputs.values@, values@),
            r is Ok ==> final(inputs).extends(*old(inputs)),
            r is Ok ==> forall|k: int|
                0 <= k < V ==> final(inputs).view_map()[#[trigger] self.targets.inputs.values[k]]
                    == values[k],
    {
        inputs.set_target_arr(&self.targets.inputs.values, &values)
    }
}

} // verus!
