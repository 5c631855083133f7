//! Subcircuits for recursively proving partial contents of a merkle tree.
//!
//! These can be used to prove a subset of nodes belong to a tree.
use vstd::prelude::*;

use crate::circuit::{
    closed, completes, lemma_completes_trans, lemma_completes_weaken, lemma_total_ext_completes,
    plan_sat, same_below, flagged_targets, flagged_values, or_zero, BoolTarget, CircuitBuilder, Env, HashOutTarget,
    PartialWitness, ProofWithPublicInputsTarget, Target, WitnessConflict,
};
use crate::field::fmod;
use crate::gadgets::{all_bool_below, all_zero, at_least_one_true, sum_vals, hash_is_zero, hash_or_forward, pair_vals};
use crate::indices::{BoolTargetIndex, HashOutTargetIndex};

verus! {

/// The positions of the public inputs of this subcircuit.
#[derive(Clone, Copy, PartialEq, Eq, Debug)]
pub struct PublicIndices {
    pub summary_hash_present: BoolTargetIndex,
    pub summary_hash: HashOutTargetIndex,
}

impl PublicIndices {
    /// Every position is below `len`.
    pub open spec fn within(self, len: nat) -> bool {
        self.summary_hash_present.0.0 < len && self.summary_hash.within(len)
    }
}

pub struct SubCircuitInputs {
    pub summary_hash_present: BoolTarget,
    /// The hash of the previous state or ZERO if absent.
    ///
    /// For branches this is defined as follows:
    /// `hash([left.summary_hash, right.summary_hash])` if both present,
    /// `x.summary_hash` if only one is present,
    /// ZERO if both are absent.
    pub summary_hash: HashOutTarget,
}

impl SubCircuitInputs {
    /// The presence flag is boolean in every satisfying environment.
    pub open spec fn within(self, n: nat) -> bool {
        &&& self.summary_hash_present.target.index < n
        &&& forall|i: int| 0 <= i < 4 ==> (#[trigger] self.summary_hash.elements[i]).index < n
    }

    /// What a leaf accepts: the summary is present, or its hash is zero.
    pub open spec fn leaf_holds(self, e: Env) -> bool {
        e.truth(self.summary_hash_present.target) || all_zero(e, self.summary_hash.elements)
    }

    /// Every satisfying environment holds the presence as a boolean.
    pub open spec fn constrained(self, b: CircuitBuilder) -> bool {
        forall|e: Env| e.valid() && #[trigger] b.sat(e) ==> e.is_bool(self.summary_hash_present.target)
    }

    /// The targets, in the order they are registered as public inputs.
    pub open spec fn public_targets(self) -> Seq<Target> {
        seq![self.summary_hash_present.target] + self.summary_hash.elements@
    }

    /// Every target is among the public inputs.
    pub open spec fn registered_in(self, pis: Seq<Target>) -> bool {
        forall|i: int| 0 <= i < 5 ==> pis.contains(#[trigger] self.public_targets()[i])
    }
}

pub struct LeafTargets {
    /// The public inputs.
    pub inputs: SubCircuitInputs,
}

/// Allocates the targets of the subcircuit and registers them as public
/// inputs.
pub fn default(builder: &mut CircuitBuilder) -> (r: SubCircuitInputs)
    ensures
        final(builder).public_inputs@ == old(builder).public_inputs@ + r.public_targets(),
        forall|e: Env| #[trigger] final(builder).sat(e) ==> old(builder).sat(e),
        r.constrained(*final(builder)),
{
    let summary_hash_present = builder.add_virtual_bool_target_safe();
    let summary_hash = builder.add_virtual_hash();
    builder.register_public_input(summary_hash_present.target);
    builder.register_public_inputs(&summary_hash.elements);
    let r = SubCircuitInputs { summary_hash_present, summary_hash };
    assert(builder.public_inputs@ =~= old(builder).public_inputs@ + r.public_targets());
    r
}

impl SubCircuitInputs {
    /// Proves the hash is ZERO unless it is present.
    pub fn build_leaf(self, builder: &mut CircuitBuilder) -> (r: LeafTargets)
        requires
            self.constrained(*old(builder)),
        ensures
            final(builder).grows(*old(builder)),
            r.inputs == self,
            forall|e: Env|
                e.valid() && #[trigger] final(builder).sat(e) ==> e.truth(
                    self.summary_hash_present.target,
                ) || all_zero(e, self.summary_hash.elements),
            self.within(old(builder).ops@.len()) ==> completes(
                old(builder).ops@,
                final(builder).ops@,
                |e: Env| self.leaf_holds(e),
            ),
            self.within(old(builder).ops@.len()) && closed(old(builder).ops@) ==> closed(
                final(builder).ops@,
            ),
    {
        let ghost g0 = *builder;
        let hash_zero = hash_is_zero(builder, self.summary_hash);
        let ghost g1 = *builder;
        let mut ts: Vec<BoolTarget> = Vec::new();
        ts.push(hash_zero);
        ts.push(self.summary_hash_present);
        let ghost tsv = ts@;
        at_least_one_true(builder, ts);
        proof {
            assert(g1.ops@.len() == g1.ops.len());
            if self.within(g0.ops@.len()) {
                let pre = |e: Env| self.leaf_holds(e);
                let t = |e: Env| true;
                let pre2 = |e: Env| sum_vals(e, tsv) != 0;
                lemma_total_ext_completes(g0.ops@, g1.ops@);
                lemma_completes_weaken(g0.ops@, g1.ops@, t, pre);
                assert(tsv[0] == hash_zero && tsv[1] == self.summary_hash_present);
                assert(all_bool_below(tsv, g1.ops@.len()));
                assert forall|e: Env, e2: Env|
                    #![trigger pre(e), pre2(e2)]
                    e.valid() && plan_sat(g0.ops@, e) && pre(e) && e2.valid() && plan_sat(g1.ops@, e2)
                        && same_below(e, e2, g0.ops@.len()) implies pre2(e2) by {
                    assert(g1.sat(e2));
                    assert(g0.sat(e));
                    let pr = self.summary_hash_present.target;
                    assert(e.is_bool(pr));
                    assert((e.w)(pr) == (e2.w)(pr));
                    if all_zero(e, self.summary_hash.elements) {
                        assert forall|i: int| 0 <= i < 4 implies #[trigger] e2.val(
                            self.summary_hash.elements[i],
                        ) == 0 by {
                            assert(e.val(self.summary_hash.elements[i]) == 0);
                            assert((e.w)(self.summary_hash.elements[i]) == (e2.w)(
                                self.summary_hash.elements[i],
                            ));
                        }
                    }
                    assert(tsv.drop_last() =~= seq![hash_zero]);
                    assert(seq![hash_zero].drop_last() =~= Seq::<BoolTarget>::empty());
                    let hz = e2.val(hash_zero.target);
                    let pv = e2.val(pr);
                    crate::field::lemma_fmod_small(hz);
                    crate::field::lemma_fmod_small(hz + pv);
                    assert(sum_vals(e2, Seq::<BoolTarget>::empty()) == 0);
                    assert(seq![hash_zero].last() == hash_zero);
                    assert(sum_vals(e2, seq![hash_zero]) == fmod(0 + hz));
                    assert(tsv.last() == self.summary_hash_present);
                    assert(sum_vals(e2, tsv) == fmod(sum_vals(e2, seq![hash_zero]) + pv));
                }
                lemma_completes_trans(g0.ops@, g1.ops@, builder.ops@, pre, pre2);
            }
        }
        proof {
            assert forall|e: Env| e.valid() && #[trigger] builder.sat(e) implies e.truth(
                self.summary_hash_present.target,
            ) || all_zero(e, self.summary_hash.elements) by {
                assert(e.is_bool(tsv[0].target) && e.is_bool(tsv[1].target));
                assert(forall|i: int| 0 <= i < tsv.len() ==> #[trigger] e.is_bool(tsv[i].target));
                let i = choose|i: int| 0 <= i < tsv.len() && #[trigger] e.truth(tsv[i].target);
                assert(i == 0 || i == 1);
            }
        }
        LeafTargets { inputs: self }
    }
}

/// The leaf subcircuit metadata.
pub struct LeafSubCircuit {
    pub targets: LeafTargets,
    pub indices: PublicIndices,
}

impl LeafTargets {
    /// Finds the positions of the public inputs.
    pub fn build(self, public_inputs: &[Target]) -> (r: LeafSubCircuit)
        requires
            self.inputs.registered_in(public_inputs@),
        ensures
            r.targets == self,
            r.indices.within(public_inputs@.len()),
            public_inputs@[r.indices.summary_hash_present.0.0 as int]
                == self.inputs.summary_hash_present.target,
            forall|k: int|
                0 <= k < 4 ==> public_inputs@[#[trigger] r.indices.summary_hash.pos(k)]
                    == self.inputs.summary_hash.elements[k],
    {
        assert(self.inputs.public_targets()[0] == self.inputs.summary_hash_present.target);
        assert forall|k: int| 0 <= k < 4 implies public_inputs@.contains(
            #[trigger] self.inputs.summary_hash.elements[k],
        ) by {
            assert(self.inputs.public_targets()[k + 1] == self.inputs.summary_hash.elements[k]);
        }
        let indices = PublicIndices {
            summary_hash_present: BoolTargetIndex::new(
                public_inputs,
                self.inputs.summary_hash_present,
            ),
            summary_hash: HashOutTargetIndex::new(public_inputs, self.inputs.summary_hash),
        };
        LeafSubCircuit { targets: self, indices }
    }
}

impl LeafSubCircuit {
    /// Gives the witness the presence flag and the hash, ZERO when absent.
    pub fn set_witness(&self, inputs: &mut PartialWitness, summary_hash: Option<[u64; 4]>) -> (r:
        Result<(), WitnessConflict>)
        ensures
            r is Ok <==> old(inputs).fits(
                flagged_targets(self.targets.inputs.summary_hash_present, self.targets.inputs.summary_hash),
                flagged_values(summary_hash is Some, or_zero(summary_hash)),
            ),
            r is Ok ==> final(inputs).wrote(
                *old(inputs),
                flagged_targets(self.targets.inputs.summary_hash_present, self.targets.inputs.summary_hash),
                flagged_values(summary_hash is Some, or_zero(summary_hash)),
            ),
            r is Ok ==> final(inputs).view_map()[self.targets.inputs.summary_hash_present.target]
                == (if summary_hash is Some {
                1u64
            } else {
                0u64
            }),
            r is Ok ==> forall|k: int|
                0 <= k < 4 ==> final(inputs).view_map()[#[trigger] self.targets.inputs.summary_hash.elements[k]]
                    == match summary_hash {
                    Some(h) => h[k],
                    None => 0u64,
                },
            r is Ok ==> final(inputs).extends(*old(inputs)),
    {
        let h = match summary_hash {
            Some(h) => h,
            None => [0u64; 4],
        };
        self.set_witness_unsafe(inputs, summary_hash.is_some(), h)
    }

    /// Gives the witness the presence flag and the hash as they are.
    pub fn set_witness_unsafe(
        &self,
        inputs: &mut PartialWitness,
        summary_hash_present: bool,
        summary_hash: [u64; 4],
    ) -> (r: Result<(), WitnessConflict>)
        ensures
            r is Ok <==> old(inputs).fits(
                flagged_targets(self.targets.inputs.summary_hash_present, self.targets.inputs.summary_hash),
                flagged_values(summary_hash_present, summary_hash),
            ),
            r is Ok ==> final(inputs).wrote(
                *old(inputs),
                flagged_targets(self.targets.inputs.summary_hash_present, self.targets.inputs.summary_hash),
                flagged_values(summary_hash_present, summary_hash),
            ),
            r is Ok ==> final(inputs).view_map()[self.targets.inputs.summary_hash_present.target]
                == (if summary_hash_present {
                1u64
            } else {
                0u64
            }),
            r is Ok ==> forall|k: int|
                0 <= k < 4 ==> final(inputs).view_map()[#[trigger] self.targets.inputs.summary_hash.elements[k]]
                    == summary_hash[k],
            r is Ok ==> final(inputs).extends(*old(inputs)) && final(inputs).has(
                self.targets.inputs.summary_hash_present.target,
                if summary_hash_present {
                    1u64
                } else {
                    0u64
                },
            ) && final(inputs).has_arr(self.targets.inputs.summary_hash.elements, summary_hash),
    {
        inputs.set_flagged_hash(
            self.targets.inputs.summary_hash_present,
            summary_hash_present,
            self.targets.inputs.summary_hash,
            summary_hash,
        )
    }
}

/// The summary `p` of a branch over children summarized by `l` and `r`:
/// present when either is, and the hash of both hashes when both are, else
/// the one present (their sum, an absent one being ZERO).
pub open spec fn branch_summary(e: Env, p: SubCircuitInputs, l: SubCircuitInputs, r: SubCircuitInputs) -> bool {
    let (lp, rp) = (e.truth(l.summary_hash_present.target), e.truth(r.summary_hash_present.target));
    &&& e.is_bool(p.summary_hash_present.target)
    &&& e.truth(p.summary_hash_present.target) == (lp || rp)
    &&& forall|i: int|
        0 <= i < 4 ==> #[trigger] e.val(p.summary_hash.elements[i]) == if lp && rp {
            e.hash(pair_vals(e, l.summary_hash.elements, r.summary_hash.elements))[i]
        } else {
            fmod(e.val(l.summary_hash.elements[i]) + e.val(r.summary_hash.elements[i]))
        }
}

pub struct BranchTargets {
    /// The public inputs.
    pub inputs: SubCircuitInputs,
    /// The left direction.
    pub left: SubCircuitInputs,
    /// The right direction.
    pub right: SubCircuitInputs,
}

/// The inputs of a child proof, read at the positions of this subcircuit.
pub fn direction_from_node(proof: &ProofWithPublicInputsTarget, indices: &PublicIndices) -> (r:
    SubCircuitInputs)
    requires
        indices.within(proof.public_inputs@.len()),
    ensures
        r.summary_hash_present.target == proof.public_inputs@[indices.summary_hash_present.0.0 as int],
        forall|k: int|
            0 <= k < 4 ==> #[trigger] r.summary_hash.elements[k]
                == proof.public_inputs@[indices.summary_hash.pos(k)],
{
    let summary_hash_present = indices.summary_hash_present.get_target(
        proof.public_inputs.as_slice(),
    );
    let summary_hash = indices.summary_hash.get_target(proof.public_inputs.as_slice());
    SubCircuitInputs { summary_hash_present, summary_hash }
}

impl SubCircuitInputs {
    /// Proves the presence flag is the `or` of the children's flags and the
    /// hash is the hash of both children's hashes when both are present, and
    /// otherwise the one that is present (their sum, an absent one being ZERO).
    pub fn build_branch(
        self,
        builder: &mut CircuitBuilder,
        indices: &PublicIndices,
        left_proof: &ProofWithPublicInputsTarget,
        right_proof: &ProofWithPublicInputsTarget,
    ) -> (r: BranchTargets)
        requires
            indices.within(left_proof.public_inputs@.len()),
            indices.within(right_proof.public_inputs@.len()),
        ensures
            final(builder).grows(*old(builder)),
            r.inputs == self,
            r.left.summary_hash_present.target == left_proof.public_inputs@[indices.summary_hash_present.0.0 as int],
            r.right.summary_hash_present.target == right_proof.public_inputs@[indices.summary_hash_present.0.0 as int],
            forall|k: int|
                0 <= k < 4 ==> #[trigger] r.left.summary_hash.elements[k]
                    == left_proof.public_inputs@[indices.summary_hash.pos(k)],
            forall|k: int|
                0 <= k < 4 ==> #[trigger] r.right.summary_hash.elements[k]
                    == right_proof.public_inputs@[indices.summary_hash.pos(k)],
            forall|e: Env|
                e.valid() && #[trigger] final(builder).sat(e) && e.is_bool(
                    r.left.summary_hash_present.target,
                ) && e.is_bool(r.right.summary_hash_present.target) ==> branch_summary(
                    e,
                    self,
                    r.left,
                    r.right,
                ),
    {
        let left = direction_from_node(left_proof, indices);
        let right = direction_from_node(right_proof, indices);
        let l_present = left.summary_hash_present;
        let l_hash = left.summary_hash;
        let r_present = right.summary_hash_present;
        let r_hash = right.summary_hash;
        let summary_hash_calc = hash_or_forward(
            builder,
            l_present,
            l_hash.elements,
            r_present,
            r_hash.elements,
        );
        let summary_hash_present_calc = builder.or(l_present, r_present);
        builder.connect(summary_hash_present_calc.target, self.summary_hash_present.target);
        builder.connect_hashes(summary_hash_calc, self.summary_hash);
        proof {
            assert forall|e: Env|
                e.valid() && #[trigger] builder.sat(e) && e.is_bool(l_present.target) && e.is_bool(
                    r_present.target,
                ) implies forall|i: int|
                0 <= i < 4 ==> #[trigger] e.val(self.summary_hash.elements[i]) == if e.truth(
                    l_present.target,
                ) && e.truth(r_present.target) {
                    e.hash(pair_vals(e, l_hash.elements, r_hash.elements))[i]
                } else {
                    fmod(e.val(l_hash.elements[i]) + e.val(r_hash.elements[i]))
                } by {
                assert forall|i: int| 0 <= i < 4 implies #[trigger] e.val(
                    self.summary_hash.elements[i],
                ) == e.val(summary_hash_calc.elements[i]) by {}
            }
        }
        BranchTargets { inputs: self, left, right }
    }
}

/// The branch subcircuit metadata.
pub struct BranchSubCircuit {
    pub targets: BranchTargets,
    pub indices: PublicIndices,
}

impl BranchTargets {
    /// Finds the positions of the public inputs; they are meant to be the
    /// same as the child's.
    pub fn build(self, child: &PublicIndices, public_inputs: &[Target]) -> (r: BranchSubCircuit)
        requires
            self.inputs.registered_in(public_inputs@),
        ensures
            r.targets == self,
            r.indices.within(public_inputs@.len()),
            public_inputs@[r.indices.summary_hash_present.0.0 as int]
                == self.inputs.summary_hash_present.target,
            forall|k: int|
                0 <= k < 4 ==> public_inputs@[#[trigger] r.indices.summary_hash.pos(k)]
                    == self.inputs.summary_hash.elements[k],
    {
        assert(self.inputs.public_targets()[0] == self.inputs.summary_hash_present.target);
        assert forall|k: int| 0 <= k < 4 implies public_inputs@.contains(
            #[trigger] self.inputs.summary_hash.elements[k],
        ) by {
            assert(self.inputs.public_targets()[k + 1] == self.inputs.summary_hash.elements[k]);
        }
        let indices = PublicIndices {
            summary_hash_present: BoolTargetIndex::new(
                public_inputs,
                self.inputs.summary_hash_present,
            ),
            summary_hash: HashOutTargetIndex::new(public_inputs, self.inputs.summary_hash),
        };
        BranchSubCircuit { indices, targets: self }
    }
}

impl BranchSubCircuit {
    /// Nothing to give: the values follow from the children.
    pub fn set_witness(&self, inputs: &mut PartialWitness)
        ensures
            final(inputs).view_map() == old(inputs).view_map(),
    {
    }

    /// Gives the witness the presence flag and the hash as they are.
    pub fn set_witness_unsafe(
        &self,
        inputs: &mut PartialWitness,
        summary_hash_present: bool,
        summary_hash: [u64; 4],
    ) -> (r: Result<(), WitnessConflict>)
        ensures
            r is Ok <==> old(inputs).fits(
                flagged_targets(self.targets.inputs.summary_hash_present, self.targets.inputs.summary_hash),
                flagged_values(summary_hash_present, summary_hash),
            ),
            r is Ok ==> final(inputs).wrote(
                *old(inputs),
                flagged_targets(self.targets.inputs.summary_hash_present, self.targets.inputs.summary_hash),
                flagged_values(summary_hash_present, summary_hash),
            ),
            r is Ok ==> final(inputs).view_map()[self.targets.inputs.summary_hash_present.target]
                == (if summary_hash_present {
                1u64
            } else {
                0u64
            }),
            r is Ok ==> forall|k: int|
                0 <= k < 4 ==> final(inputs).view_map()[#[trigger] self.targets.inputs.summary_hash.elements[k]]
                    == summary_hash[k],
            r is Ok ==> final(inputs).extends(*old(inputs)) && final(inputs).has(
                self.targets.inputs.summary_hash_present.target,
                if summary_hash_present {
                    1u64
                } else {
                    0u64
                },
            ) && final(inputs).has_arr(self.targets.inputs.summary_hash.elements, summary_hash),
    {
        inputs.set_flagged_hash(
            self.targets.inputs.summary_hash_present,
            summary_hash_present,
            self.targets.inputs.summary_hash,
            summary_hash,
        )
    }
}

} // verus!
