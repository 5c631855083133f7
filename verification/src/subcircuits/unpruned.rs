//! Subcircuits for recursively proving the entire contents of a merkle tree.
//!
//! These subcircuits are useful because with just a pair of them, say a old and
//! new, you can prove a transition from the current merkle root (proved by old)
//! to a new merkle root (proved by new).
use vstd::prelude::*;

use crate::circuit::{
    all_below, bit_of, closed, completes, env_set, flagged_targets, flagged_values, hash_in_field, holds,
    lemma_closed_push, lemma_completes_trans, lemma_completes_weaken, lemma_push_value,
    lemma_total_ext_completes, lemma_vals_frame, plan_sat, same_below, target_at, BoolTarget,
    CircuitBuilder, Env, HashOutTarget, Op, PartialWitness, ProofWithPublicInputsTarget, Target,
    WitnessConflict,
};
use crate::gadgets::{byte_decomposition, byte_wise_hash, pair_vals, select_hash, same_vals};
use crate::indices::HashOutTargetIndex;

verus! {

/// Which branches a tree allows.
pub trait Extended {
    /// The targets that such branches add.
    type BranchTargets;
}

/// Only full branches: both children are present.
#[derive(Copy, Clone, PartialEq, Eq, Debug)]
pub struct OnlyFull;

impl Extended for OnlyFull {
    type BranchTargets = ();
}

/// Partial branches allowed: the right child may be absent.
#[derive(Copy, Clone, PartialEq, Eq, Debug)]
pub struct PartialAllowed;

impl Extended for PartialAllowed {
    type BranchTargets = BranchTargetsExtension;
}

pub struct BranchTargetsExtension {
    /// Whether or not the right target is absent.
    pub partial: BoolTarget,
}

/// The positions of the public inputs of this subcircuit.
#[derive(Copy, Clone, PartialEq, Eq, Debug)]
pub struct PublicIndices {
    /// The positions of the elements of the unpruned hash.
    pub unpruned_hash: HashOutTargetIndex,
}

impl PublicIndices {
    /// The positions hold the elements of the hash among the public inputs.
    pub open spec fn locates(self, pis: Seq<Target>, h: HashOutTarget) -> bool {
        &&& self.unpruned_hash.within(pis.len())
        &&& forall|k: int| 0 <= k < 4 ==> pis[#[trigger] self.unpruned_hash.pos(k)] == h.elements[k]
    }
}

pub struct SubCircuitInputs {
    /// The hash of the unpruned state or ZERO if absent.
    /// For leafs this is just an arbitrary value.
    /// For branches this is the hash of
    /// `[left.unpruned_hash, right.unpruned_hash]`.
    pub unpruned_hash: HashOutTarget,
}

impl SubCircuitInputs {
    /// Every target is among the public inputs.
    pub open spec fn registered_in(self, pis: Seq<Target>) -> bool {
        forall|i: int| 0 <= i < 4 ==> pis.contains(#[trigger] self.unpruned_hash.elements[i])
    }
}

pub struct LeafTargets {
    /// The public inputs.
    pub inputs: SubCircuitInputs,
}

/// Allocates the hash of the subcircuit and registers it as public inputs.
pub fn default(builder: &mut CircuitBuilder) -> (r: SubCircuitInputs)
    ensures
        final(builder).public_inputs@ == old(builder).public_inputs@ + r.unpruned_hash.elements@,
        forall|e: Env| #[trigger] final(builder).sat(e) ==> old(builder).sat(e),
{
    let unpruned_hash = builder.add_virtual_hash();
    builder.register_public_inputs(&unpruned_hash.elements);
    SubCircuitInputs { unpruned_hash }
}

impl SubCircuitInputs {
    /// A leaf only states that a hash exists.
    pub fn build_leaf(self, builder: &mut CircuitBuilder) -> (r: LeafTargets)
        ensures
            final(builder).grows(*old(builder)),
            r.inputs == self,
    {
        LeafTargets { inputs: self }
    }
}

/// The leaf subcircuit metadata.
pub struct LeafSubCircuit {
    pub targets: LeafTargets,
    pub indices: PublicIndices,
}

impl LeafTargets {
    /// Finds the positions of the public inputs.
    pub fn build(self, public_inputs: &[Target]) -> (r: LeafSubCircuit)
        requires
            self.inputs.registered_in(public_inputs@),
        ensures
            r.targets == self,
            r.indices.unpruned_hash.within(public_inputs@.len()),
            forall|k: int|
                0 <= k < 4 ==> public_inputs@[#[trigger] r.indices.unpruned_hash.pos(k)]
                    == self.inputs.unpruned_hash.elements[k],
    {
        let indices = PublicIndices {
            unpruned_hash: HashOutTargetIndex::new(public_inputs, self.inputs.unpruned_hash),
        };
        LeafSubCircuit { targets: self, indices }
    }
}

impl LeafSubCircuit {
    /// Gives the witness the hash.
    pub fn set_witness(&self, inputs: &mut PartialWitness, unpruned_hash: [u64; 4]) -> (r: Result<
        (),
        WitnessConflict,
    >)
        ensures
            r is Ok <==> old(inputs).fits(self.targets.inputs.unpruned_hash.elements@, unpruned_hash@),
            r is Ok ==> final(inputs).wrote(
                *old(inputs),
                self.targets.inputs.unpruned_hash.elements@,
                unpruned_hash@,
            ),
            r is Ok ==> forall|k: int|
                0 <= k < 4 ==> final(inputs).view_map()[#[trigger] self.targets.inputs.unpruned_hash.elements[k]]
                    == unpruned_hash[k],
            r is Ok ==> final(inputs).extends(*old(inputs)) && final(inputs).has_arr(
                self.targets.inputs.unpruned_hash.elements,
                unpruned_hash,
            ),
    {
        inputs.set_hash_target(self.targets.inputs.unpruned_hash, unpruned_hash)
    }
}

pub struct BranchTargets<E: Extended> {
    /// The public inputs.
    pub inputs: SubCircuitInputs,
    /// The left direction.
    pub left: SubCircuitInputs,
    /// The right direction.
    pub right: SubCircuitInputs,
    /// The extended targets.
    pub extension: E::BranchTargets,
}

/// The targets hold the hash of the children's hashes: of their elements
/// when `vm_hashing` is false, of their bytes otherwise.
pub open spec fn branch_hash(
    e: Env,
    vm_hashing: bool,
    left: [Target; 4],
    right: [Target; 4],
    out: [Target; 4],
) -> bool {
    if vm_hashing {
        exists|bytes: Seq<int>|
            byte_decomposition(pair_vals(e, left, right), bytes) && forall|k: int|
                0 <= k < 4 ==> #[trigger] e.val(out[k]) == e.hash(bytes)[k]
    } else {
        forall|k: int| 0 <= k < 4 ==> #[trigger] e.val(out[k]) == e.hash(pair_vals(e, left, right))[k]
    }
}

/// What a branch that allows an absent right child proves of its hash: the
/// partial flag is a boolean; when set, the hash is the left child's; when
/// not, it is the hash of both children's.
pub open spec fn extended_branch_hash(e: Env, vm_hashing: bool, t: BranchTargets<PartialAllowed>) -> bool {
    &&& e.is_bool(t.extension.partial.target)
    &&& e.truth(t.extension.partial.target) ==> same_vals(
        e,
        t.inputs.unpruned_hash.elements,
        t.left.unpruned_hash.elements,
    )
    &&& !e.truth(t.extension.partial.target) ==> branch_hash(
        e,
        vm_hashing,
        t.left.unpruned_hash.elements,
        t.right.unpruned_hash.elements,
        t.inputs.unpruned_hash.elements,
    )
}

/// What a branch with its partial flag set accepts when it hashes the
/// children's elements: the flag is a boolean, the children's hash is four
/// field elements, and the hash is the left child's when the flag is set
/// and the children's hash when it is not.
pub open spec fn partial_accepts(e: Env, partial: Target, left: [Target; 4], right: [Target; 4], out: [Target; 4]) -> bool {
    &&& e.is_bool(partial)
    &&& hash_in_field(e, pair_vals(e, left, right))
    &&& e.truth(partial) ==> same_vals(e, out, left)
    &&& !e.truth(partial) ==> forall|k: int| 0 <= k < 4 ==> #[trigger] e.val(out[k]) == e.hash(pair_vals(e, left, right))[k]
}

/// What a branch whose right child may be absent accepts when it hashes the
/// children's elements: the children's hash is four field elements, and the
/// hash is the left child's or the children's hash.
pub open spec fn extended_accepts(e: Env, left: [Target; 4], right: [Target; 4], out: [Target; 4]) -> bool {
    &&& hash_in_field(e, pair_vals(e, left, right))
    &&& same_vals(e, out, left) || forall|k: int| 0 <= k < 4 ==> #[trigger] e.val(out[k]) == e.hash(pair_vals(e, left, right))[k]
}

/// The children's hashes of a branch are the child proofs' public inputs at
/// the positions.
pub open spec fn reads_children<E: Extended>(
    t: BranchTargets<E>,
    idx: PublicIndices,
    left: Seq<Target>,
    right: Seq<Target>,
) -> bool {
    &&& forall|k: int| 0 <= k < 4 ==> #[trigger] t.left.unpruned_hash.elements[k] == left[idx.unpruned_hash.pos(k)]
    &&& forall|k: int| 0 <= k < 4 ==> #[trigger] t.right.unpruned_hash.elements[k] == right[idx.unpruned_hash.pos(k)]
}

/// The hash of a child proof at the positions of this subcircuit.
pub fn child_hash(proof: &ProofWithPublicInputsTarget, indices: &PublicIndices) -> (r: HashOutTarget)
    requires
        indices.unpruned_hash.within(proof.public_inputs@.len()),
    ensures
        forall|k: int|
            0 <= k < 4 ==> #[trigger] r.elements[k] == proof.public_inputs@[indices.unpruned_hash.pos(k)],
{
    indices.unpruned_hash.get_target(proof.public_inputs.as_slice())
}

impl SubCircuitInputs {
    /// Hashes the children's hashes together, the hash being replaced by the
    /// left child's when `partial` is given and true.
    fn helper(
        &self,
        builder: &mut CircuitBuilder,
        left: HashOutTarget,
        right: HashOutTarget,
        vm_hashing: bool,
        partial: Option<BoolTarget>,
    ) -> (r: HashOutTarget)
        ensures
            final(builder).grows(*old(builder)),
            forall|e: Env|
                e.valid() && #[trigger] final(builder).sat(e) ==> branch_hash(
                    e,
                    vm_hashing,
                    left.elements,
                    right.elements,
                    r.elements,
                ),
            partial is None ==> forall|e: Env|
                e.valid() && #[trigger] final(builder).sat(e) ==> same_vals(
                    e,
                    r.elements,
                    self.unpruned_hash.elements,
                ),
            partial matches Some(b) ==> forall|e: Env|
                e.valid() && #[trigger] final(builder).sat(e) && e.is_bool(b.target) ==> same_vals(
                    e,
                    self.unpruned_hash.elements,
                    if e.truth(b.target) {
                        left.elements
                    } else {
                        r.elements
                    },
                ),
            partial matches Some(b) ==> (!vm_hashing && all_below(left.elements@, old(builder).ops@.len())
                && all_below(right.elements@, old(builder).ops@.len()) && all_below(
                self.unpruned_hash.elements@,
                old(builder).ops@.len(),
            ) && b.target.index < old(builder).ops@.len() ==> completes(
                old(builder).ops@,
                final(builder).ops@,
                |e: Env| partial_accepts(e, b.target, left.elements, right.elements, self.unpruned_hash.elements),
            )),
            partial matches Some(b) ==> (!vm_hashing && all_below(left.elements@, old(builder).ops@.len())
                && all_below(right.elements@, old(builder).ops@.len()) && all_below(
                self.unpruned_hash.elements@,
                old(builder).ops@.len(),
            ) && b.target.index < old(builder).ops@.len() && closed(old(builder).ops@) ==> closed(
                final(builder).ops@,
            )),
    {
        let mut inputs: Vec<Target> = Vec::new();
        inputs.push(left.elements[0]);
        inputs.push(left.elements[1]);
        inputs.push(left.elements[2]);
        inputs.push(left.elements[3]);
        inputs.push(right.elements[0]);
        inputs.push(right.elements[1]);
        inputs.push(right.elements[2]);
        inputs.push(right.elements[3]);
        assert(inputs@ =~= left.elements@ + right.elements@);
        let ghost ins = inputs@;
        let ghost before = *builder;
        let calc = if vm_hashing {
            byte_wise_hash(builder, inputs)
        } else {
            builder.hash_n_to_hash_no_pad(inputs)
        };
        let ghost mid = *builder;
        proof {
            assert forall|e: Env| e.valid() && #[trigger] mid.sat(e) implies branch_hash(
                e,
                vm_hashing,
                left.elements,
                right.elements,
                calc.elements,
            ) by {
                assert(e.vals(ins) == pair_vals(e, left.elements, right.elements));
            }
        }
        match partial {
            Some(b) => {
                let sel = select_hash(builder, b, left, calc);
                let ghost mid2 = *builder;
                builder.connect_hashes(sel, self.unpruned_hash);
                proof {
                    let n0 = before.ops@.len();
                    if !vm_hashing && all_below(left.elements@, n0) && all_below(right.elements@, n0)
                        && all_below(self.unpruned_hash.elements@, n0) && b.target.index < n0 {
                        let out = self.unpruned_hash.elements;
                        let pre = |e: Env| partial_accepts(e, b.target, left.elements, right.elements, out);
                        let pre_h = |e: Env| hash_in_field(e, e.vals(ins));
                        let t = |e: Env| true;
                        let pre_c = |e: Env|
                            forall|i: int| 0 <= i < 4 ==> #[trigger] e.val(sel.elements[i]) == e.val(out[i]);
                        assert(all_below(ins, n0)) by {
                            assert forall|k: int| 0 <= k < ins.len() implies (#[trigger] ins[k]).index < n0 by {
                                if k < 4 {
                                    assert(ins[k] == left.elements@[k]);
                                } else {
                                    assert(ins[k] == right.elements@[k - 4]);
                                }
                            }
                        }
                        assert forall|e: Env| #![trigger pre(e)] pre(e) implies pre_h(e) by {
                            assert(e.vals(ins) == pair_vals(e, left.elements, right.elements));
                        }
                        lemma_completes_weaken(before.ops@, mid.ops@, pre_h, pre);
                        assert(all_below(left.elements@, mid.ops@.len()));
                        assert(all_below(calc.elements@, mid.ops@.len())) by {
                            assert(forall|k: int| 0 <= k < 4 ==> calc.elements@[k] == calc.elements[k]);
                        }
                        assert(mid2.ops@.len() == mid2.ops.len());
                        lemma_total_ext_completes(mid.ops@, mid2.ops@);
                        lemma_completes_trans(before.ops@, mid.ops@, mid2.ops@, pre, t);
                        assert(all_below(sel.elements@, mid2.ops@.len())) by {
                            assert(forall|k: int| 0 <= k < 4 ==> sel.elements@[k] == sel.elements[k]);
                        }
                        assert(all_below(out@, mid2.ops@.len()));
                        assert forall|e: Env, e2: Env|
                            #![trigger pre(e), pre_c(e2)]
                            e.valid() && plan_sat(before.ops@, e) && pre(e) && e2.valid() && plan_sat(
                                mid2.ops@,
                                e2,
                            ) && same_below(e, e2, n0) implies pre_c(e2) by {
                            assert(mid2.sat(e2));
                            assert(mid.sat(e2));
                            lemma_vals_frame(e, e2, n0, ins);
                            assert(e.vals(ins) == pair_vals(e, left.elements, right.elements));
                            assert(e2.h == e.h);
                            assert((e.w)(b.target) == (e2.w)(b.target));
                            assert(e2.is_bool(b.target));
                            assert forall|i: int| 0 <= i < 4 implies #[trigger] e2.val(sel.elements[i]) == e2.val(
                                out[i],
                            ) by {
                                assert(out@[i] == out[i] && left.elements@[i] == left.elements[i]);
                                assert((e.w)(out[i]) == (e2.w)(out[i]));
                                assert((e.w)(left.elements[i]) == (e2.w)(left.elements[i]));
                                if e2.truth(b.target) {
                                    assert(e.truth(b.target));
                                    assert(e.val(out[i]) == e.val(left.elements[i]));
                                    assert(e2.val(sel.elements[i]) == e2.val(left.elements[i]));
                                } else {
                                    assert(!e.truth(b.target));
                                    assert(e.val(out[i]) == e.hash(pair_vals(e, left.elements, right.elements))[i]);
                                    assert(e2.val(sel.elements[i]) == e2.val(calc.elements[i]));
                                    assert(e2.val(calc.elements[i]) == e2.hash(e2.vals(ins))[i]);
                                    assert(e2.hash(e2.vals(ins)) == e.hash(e.vals(ins)));
                                }
                            }
                        }
                        lemma_completes_trans(before.ops@, mid2.ops@, builder.ops@, pre, pre_c);
                    }
                }
                proof {
                    assert forall|e: Env|
                        e.valid() && #[trigger] builder.sat(e) && e.is_bool(b.target) implies same_vals(
                        e,
                        self.unpruned_hash.elements,
                        if e.truth(b.target) {
                            left.elements
                        } else {
                            calc.elements
                        },
                    ) by {
                        assert(mid2.sat(e));
                        let t = if e.truth(b.target) {
                            left.elements
                        } else {
                            calc.elements
                        };
                        assert forall|i: int| 0 <= i < 4 implies #[trigger] e.val(
                            self.unpruned_hash.elements[i],
                        ) == e.val(t[i]) by {
                            assert(e.val(sel.elements[i]) == e.val(self.unpruned_hash.elements[i]));
                        }
                    }
                }
            },
            None => {
                builder.connect_hashes(calc, self.unpruned_hash);
            },
        }
        proof {
            assert forall|e: Env| e.valid() && #[trigger] builder.sat(e) implies branch_hash(
                e,
                vm_hashing,
                left.elements,
                right.elements,
                calc.elements,
            ) by {
                assert(mid.sat(e));
            }
        }
        calc
    }

    /// A branch of two present children: the hash is the hash of theirs.
    pub fn build_branch(
        self,
        builder: &mut CircuitBuilder,
        indices: &PublicIndices,
        left_proof: &ProofWithPublicInputsTarget,
        right_proof: &ProofWithPublicInputsTarget,
        vm_hashing: bool,
    ) -> (r: BranchTargets<OnlyFull>)
        requires
            indices.unpruned_hash.within(left_proof.public_inputs@.len()),
            indices.unpruned_hash.within(right_proof.public_inputs@.len()),
        ensures
            final(builder).grows(*old(builder)),
            r.inputs == self,
            forall|k: int|
                0 <= k < 4 ==> #[trigger] r.left.unpruned_hash.elements[k]
                    == left_proof.public_inputs@[indices.unpruned_hash.pos(k)],
            forall|k: int|
                0 <= k < 4 ==> #[trigger] r.right.unpruned_hash.elements[k]
                    == right_proof.public_inputs@[indices.unpruned_hash.pos(k)],
            forall|e: Env|
                e.valid() && #[trigger] final(builder).sat(e) ==> branch_hash(
                    e,
                    vm_hashing,
                    r.left.unpruned_hash.elements,
                    r.right.unpruned_hash.elements,
                    self.unpruned_hash.elements,
                ),
    {
        let l = child_hash(left_proof, indices);
        let rh = child_hash(right_proof, indices);
        let calc = self.helper(builder, l, rh, vm_hashing, None);
        proof {
            assert forall|e: Env| e.valid() && #[trigger] builder.sat(e) implies branch_hash(
                e,
                vm_hashing,
                l.elements,
                rh.elements,
                self.unpruned_hash.elements,
            ) by {
                assert(same_vals(e, calc.elements, self.unpruned_hash.elements));
                if vm_hashing {
                    let bytes = choose|bytes: Seq<int>|
                        byte_decomposition(pair_vals(e, l.elements, rh.elements), bytes)
                            && forall|k: int|
                            0 <= k < 4 ==> #[trigger] e.val(calc.elements[k]) == e.hash(bytes)[k];
                    assert forall|k: int| 0 <= k < 4 implies #[trigger] e.val(
                        self.unpruned_hash.elements[k],
                    ) == e.hash(bytes)[k] by {
                        assert(e.val(calc.elements[k]) == e.val(self.unpruned_hash.elements[k]));
                    }
                } else {
                    assert forall|k: int| 0 <= k < 4 implies #[trigger] e.val(
                        self.unpruned_hash.elements[k],
                    ) == e.hash(pair_vals(e, l.elements, rh.elements))[k] by {
                        assert(e.val(calc.elements[k]) == e.val(self.unpruned_hash.elements[k]));
                    }
                }
            }
        }
        BranchTargets {
            inputs: self,
            left: SubCircuitInputs { unpruned_hash: l },
            right: SubCircuitInputs { unpruned_hash: rh },
            extension: (),
        }
    }

    /// A branch whose right child may be absent (`partial`): the hash is the
    /// left child's when partial, and the hash of both otherwise.
    pub fn build_extended_branch(
        self,
        builder: &mut CircuitBuilder,
        indices: &PublicIndices,
        left_proof: &ProofWithPublicInputsTarget,
        right_proof: &ProofWithPublicInputsTarget,
        vm_hashing: bool,
    ) -> (r: BranchTargets<PartialAllowed>)
        requires
            indices.unpruned_hash.within(left_proof.public_inputs@.len()),
            indices.unpruned_hash.within(right_proof.public_inputs@.len()),
        ensures
            final(builder).grows(*old(builder)),
            r.inputs == self,
            forall|k: int|
                0 <= k < 4 ==> #[trigger] r.left.unpruned_hash.elements[k]
                    == left_proof.public_inputs@[indices.unpruned_hash.pos(k)],
            forall|k: int|
                0 <= k < 4 ==> #[trigger] r.right.unpruned_hash.elements[k]
                    == right_proof.public_inputs@[indices.unpruned_hash.pos(k)],
            forall|e: Env|
                e.valid() && #[trigger] final(builder).sat(e) ==> {
                    &&& e.is_bool(r.extension.partial.target)
                    &&& e.truth(r.extension.partial.target) ==> same_vals(
                        e,
                        self.unpruned_hash.elements,
                        r.left.unpruned_hash.elements,
                    )
                    &&& !e.truth(r.extension.partial.target) ==> branch_hash(
                        e,
                        vm_hashing,
                        r.left.unpruned_hash.elements,
                        r.right.unpruned_hash.elements,
                        self.unpruned_hash.elements,
                    )
                },
            !vm_hashing && all_below(self.unpruned_hash.elements@, old(builder).ops@.len()) && all_below(
                r.left.unpruned_hash.elements@,
                old(builder).ops@.len(),
            ) && all_below(r.right.unpruned_hash.elements@, old(builder).ops@.len()) ==> completes(
                old(builder).ops@,
                final(builder).ops@,
                |e: Env|
                    extended_accepts(
                        e,
                        r.left.unpruned_hash.elements,
                        r.right.unpruned_hash.elements,
                        self.unpruned_hash.elements,
                    ),
            ),
            !vm_hashing && all_below(self.unpruned_hash.elements@, old(builder).ops@.len()) && all_below(
                r.left.unpruned_hash.elements@,
                old(builder).ops@.len(),
            ) && all_below(r.right.unpruned_hash.elements@, old(builder).ops@.len()) && closed(
                old(builder).ops@,
            ) ==> closed(final(builder).ops@),
    {
        let ghost b0 = *builder;
        let partial = builder.add_virtual_bool_target_safe();
        let ghost b1 = *builder;
        let l = child_hash(left_proof, indices);
        let rh = child_hash(right_proof, indices);
        let calc = self.helper(builder, l, rh, vm_hashing, Some(partial));
        proof {
            let n = b0.ops@.len();
            let out = self.unpruned_hash.elements;
            if !vm_hashing && all_below(out@, n) && all_below(l.elements@, n) && all_below(rh.elements@, n) {
                let op1 = Op::VirtualTarget;
                let op2 = Op::AssertBool { b: target_at(n as int) };
                let ops1 = b0.ops@.push(op1);
                assert(b1.ops@ == ops1.push(op2));
                assert(b1.ops@.len() == b1.ops.len());
                assert(builder.ops@.len() == builder.ops.len());
                assert(all_below(out@, b1.ops@.len()));
                assert(all_below(l.elements@, b1.ops@.len()));
                assert(all_below(rh.elements@, b1.ops@.len()));
                let pre = |e: Env| extended_accepts(e, l.elements, rh.elements, out);
                let pre1 = |e: Env| partial_accepts(e, partial.target, l.elements, rh.elements, out);
                assert(completes(b1.ops@, builder.ops@, pre1));
                if closed(b0.ops@) {
                    lemma_closed_push(b0.ops@, op1);
                    lemma_closed_push(ops1, op2);
                    assert forall|e: Env| e.valid() && #[trigger] plan_sat(b0.ops@, e) && pre(e) implies exists|e3: Env|
                        e3.valid() && #[trigger] plan_sat(builder.ops@, e3) && same_below(e, e3, n) by {
                        let v: int = if same_vals(e, out, l.elements) {
                            1
                        } else {
                            0
                        };
                        lemma_push_value(b0.ops@, op1, e, v);
                        let e1 = env_set(e, n, v);
                        let e1b = env_set(e1, (n + 1) as nat, 0);
                        assert(target_at(n as int).index == n);
                        assert(e1b.val(target_at(n as int)) == v);
                        assert(holds(op2, (n + 1) as int, e1b));
                        lemma_push_value(ops1, op2, e1, 0);
                        assert(plan_sat(b1.ops@, e1b));
                        assert(partial.target == target_at(n as int));
                        assert(same_below(e, e1b, n)) by {
                            assert forall|t: Target| t.index < n implies #[trigger] (e.w)(t) == (e1b.w)(t) by {}
                        }
                        assert(all_below(l.elements@ + rh.elements@, n)) by {
                            assert forall|k: int| 0 <= k < 8 implies (#[trigger] (l.elements@ + rh.elements@)[k]).index < n by {
                                if k < 4 {
                                    assert((l.elements@ + rh.elements@)[k] == l.elements@[k]);
                                } else {
                                    assert((l.elements@ + rh.elements@)[k] == rh.elements@[k - 4]);
                                }
                            }
                        }
                        lemma_vals_frame(e, e1b, n, l.elements@ + rh.elements@);
                        assert(pair_vals(e1b, l.elements, rh.elements) == pair_vals(e, l.elements, rh.elements));
                        assert forall|k: int| 0 <= k < 4 implies (#[trigger] (e.w)(out[k])) == (e1b.w)(out[k])
                            && (e.w)(l.elements[k]) == (e1b.w)(l.elements[k]) by {
                            assert(out@[k] == out[k] && l.elements@[k] == l.elements[k]);
                        }
                        assert(e1b.h == e.h);
                        assert(e1b.is_bool(partial.target));
                        assert(hash_in_field(e1b, pair_vals(e1b, l.elements, rh.elements)));
                        if e1b.truth(partial.target) {
                            assert(same_vals(e, out, l.elements));
                            assert forall|k: int| 0 <= k < 4 implies #[trigger] e1b.val(out[k]) == e1b.val(
                                l.elements[k],
                            ) by {
                                assert(e.val(out[k]) == e.val(l.elements[k]));
                            }
                            assert(same_vals(e1b, out, l.elements));
                        } else {
                            assert(!same_vals(e, out, l.elements));
                            assert forall|k: int| 0 <= k < 4 implies #[trigger] e1b.val(out[k]) == e1b.hash(
                                pair_vals(e1b, l.elements, rh.elements),
                            )[k] by {
                                assert(e.val(out[k]) == e.hash(pair_vals(e, l.elements, rh.elements))[k]);
                            }
                        }
                        assert(pre1(e1b));
                        let e3 = choose|e3: Env|
                            e3.valid() && #[trigger] plan_sat(builder.ops@, e3) && same_below(e1b, e3, b1.ops@.len());
                        assert forall|t: Target| t.index < n implies #[trigger] (e.w)(t) == (e3.w)(t) by {
                            assert((e.w)(t) == (e1b.w)(t));
                            assert((e1b.w)(t) == (e3.w)(t));
                        }
                        assert(same_below(e, e3, n));
                    }
                }
            }
        }
        proof {
            assert forall|e: Env| e.valid() && #[trigger] builder.sat(e) && !e.truth(
                partial.target,
            ) implies branch_hash(
                e,
                vm_hashing,
                l.elements,
                rh.elements,
                self.unpruned_hash.elements,
            ) by {
                if !e.truth(partial.target) {
                    assert(same_vals(e, self.unpruned_hash.elements, calc.elements));
                    if vm_hashing {
                        let bytes = choose|bytes: Seq<int>|
                            byte_decomposition(pair_vals(e, l.elements, rh.elements), bytes)
                                && forall|k: int|
                                0 <= k < 4 ==> #[trigger] e.val(calc.elements[k]) == e.hash(
                                    bytes,
                                )[k];
                        assert forall|k: int| 0 <= k < 4 implies #[trigger] e.val(
                            self.unpruned_hash.elements[k],
                        ) == e.hash(bytes)[k] by {
                            assert(e.val(calc.elements[k]) == e.val(
                                self.unpruned_hash.elements[k],
                            ));
                        }
                    } else {
                        assert forall|k: int| 0 <= k < 4 implies #[trigger] e.val(
                            self.unpruned_hash.elements[k],
                        ) == e.hash(pair_vals(e, l.elements, rh.elements))[k] by {
                            assert(e.val(calc.elements[k]) == e.val(
                                self.unpruned_hash.elements[k],
                            ));
                        }
                    }
                }
            }
        }
        BranchTargets {
            inputs: self,
            left: SubCircuitInputs { unpruned_hash: l },
            right: SubCircuitInputs { unpruned_hash: rh },
            extension: BranchTargetsExtension { partial },
        }
    }
}

/// The branch subcircuit metadata.
pub struct BranchSubCircuit<E: Extended> {
    pub targets: BranchTargets<E>,
    pub indices: PublicIndices,
}

impl<E: Extended> BranchTargets<E> {
    /// Finds the positions of the public inputs; they are meant to be the
    /// same as the child's.
    pub fn build(self, child: &PublicIndices, public_inputs: &[Target]) -> (r: BranchSubCircuit<E>)
        requires
            self.inputs.registered_in(public_inputs@),
        ensures
            r.targets == self,
            r.indices.unpruned_hash.within(public_inputs@.len()),
            forall|k: int|
                0 <= k < 4 ==> public_inputs@[#[trigger] r.indices.unpruned_hash.pos(k)]
                    == self.inputs.unpruned_hash.elements[k],
    {
        let indices = PublicIndices {
            unpruned_hash: HashOutTargetIndex::new(public_inputs, self.inputs.unpruned_hash),
        };
        BranchSubCircuit { indices, targets: self }
    }
}

impl BranchSubCircuit<OnlyFull> {
    /// Nothing to give: the hash follows from the children.
    pub fn set_witness(&self, inputs: &mut PartialWitness)
        ensures
            final(inputs).view_map() == old(inputs).view_map(),
    {
    }

    /// Gives the witness the hash as it is.
    pub fn set_witness_unsafe(&self, inputs: &mut PartialWitness, unpruned_hash: [u64; 4]) -> (r:
        Result<(), WitnessConflict>)
        ensures
            r is Ok <==> old(inputs).fits(self.targets.inputs.unpruned_hash.elements@, unpruned_hash@),
            r is Ok ==> final(inputs).wrote(
                *old(inputs),
                self.targets.inputs.unpruned_hash.elements@,
                unpruned_hash@,
            ),
            r is Ok ==> forall|k: int|
                0 <= k < 4 ==> final(inputs).view_map()[#[trigger] self.targets.inputs.unpruned_hash.elements[k]]
                    == unpruned_hash[k],
            r is Ok ==> final(inputs).extends(*old(inputs)) && final(inputs).has_arr(
                self.targets.inputs.unpruned_hash.elements,
                unpruned_hash,
            ),
    {
        inputs.set_hash_target(self.targets.inputs.unpruned_hash, unpruned_hash)
    }
}

impl BranchSubCircuit<PartialAllowed> {
    /// Gives the witness whether the right child is absent.
    pub fn set_witness(&self, inputs: &mut PartialWitness, partial: bool) -> (r: Result<
        (),
        WitnessConflict,
    >)
        ensures
            r is Ok <==> !(old(inputs).view_map().contains_key(self.targets.extension.partial.target)
                && old(inputs).view_map()[self.targets.extension.partial.target] != if partial {
                1u64
            } else {
                0u64
            }),
            r is Ok <==> old(inputs).fits(seq![self.targets.extension.partial.target], seq![bit_of(partial)]),
            r is Ok ==> final(inputs).wrote(
                *old(inputs),
                seq![self.targets.extension.partial.target],
                seq![bit_of(partial)],
            ),
            r is Ok ==> final(inputs).view_map() == old(inputs).view_map().insert(
                self.targets.extension.partial.target,
                if partial {
                    1u64
                } else {
                    0u64
                },
            ),
            r is Ok ==> final(inputs).extends(*old(inputs)) && final(inputs).has(
                self.targets.extension.partial.target,
                if partial {
                    1u64
                } else {
                    0u64
                },
            ),
    {
        inputs.set_bool_target(self.targets.extension.partial, partial)
    }

    /// Gives the witness the hash as it is and whether the right child is
    /// absent.
    pub fn set_witness_unsafe(
        &self,
        inputs: &mut PartialWitness,
        unpruned_hash: [u64; 4],
        partial: bool,
    ) -> (r: Result<(), WitnessConflict>)
        ensures
            r is Ok <==> old(inputs).fits(
                flagged_targets(self.targets.extension.partial, self.targets.inputs.unpruned_hash),
                flagged_values(partial, unpruned_hash),
            ),
            r is Ok ==> final(inputs).wrote(
                *old(inputs),
                flagged_targets(self.targets.extension.partial, self.targets.inputs.unpruned_hash),
                flagged_values(partial, unpruned_hash),
            ),
            r is Ok ==> final(inputs).extends(*old(inputs)),
            r is Ok ==> final(inputs).view_map().contains_key(self.targets.extension.partial.target),
            r is Ok ==> forall|k: int|
                0 <= k < 4 ==> final(inputs).view_map().contains_key(
                    #[trigger] self.targets.inputs.unpruned_hash.elements[k],
                ),
            r is Ok ==> forall|k: int|
                0 <= k < 4 ==> final(inputs).view_map()[#[trigger] self.targets.inputs.unpruned_hash.elements[k]]
                    == unpruned_hash[k],
            r is Ok ==> final(inputs).view_map()[self.targets.extension.partial.target] == (
            if partial {
                1u64
            } else {
                0u64
            }),
    {
        inputs.set_flagged_hash(
            self.targets.extension.partial,
            partial,
            self.targets.inputs.unpruned_hash,
            unpruned_hash,
        )
    }
}

} // verus!
