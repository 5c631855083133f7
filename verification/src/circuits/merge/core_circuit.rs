//! Subcircuits for recursively proving the merge of two binary merkle trees.
//!
//! The resulting merge of trees A and B will provably contain all nodes from A
//! and B and those nodes will retain their relative positioning within
//! a tree, i.e. if A1 was to the left of A2 in its own tree, it will still
//! be in the resulting tree. However no order is defined for the positioning of
//! nodes between A and B, i.e. A1 could be to the left or right of B1.
use vstd::prelude::*;

use crate::circuit::{
    all_below, closed, completes, hash_in_field, lemma_completes_trans, lemma_completes_weaken,
    lemma_push_completes, lemma_total_ext_completes, lemma_total_ext_push, lemma_total_ext_trans,
    plan_sat, same_below, env_set, holds, digest, Op,
    bit_of, given_targets, given_values, flagged_targets, flagged_values, lemma_fits_after, lemma_fits_prefix, lemma_wrote_chain,
    or_zero, BoolTarget, CircuitBuilder, Env, HashOutTarget, PartialWitness,
    ProofWithPublicInputsTarget, Target, WitnessConflict,
};
use crate::field::fmod;
use crate::gadgets::{all_zero, at_least_one_true, lemma_two_sum, sum_vals, hash_is_zero, hash_or_forward, pair_vals};
use crate::indices::{BoolTargetIndex, HashOutTargetIndex};


verus! {

/// The indices of the public inputs of this subcircuit in any
/// `ProofWithPublicInputs`.
#[derive(Copy, Clone, PartialEq, Eq, Debug)]
pub struct PublicIndices {
    /// The index for the presence of the a hash.
    pub a_present: BoolTargetIndex,
    /// The indices of each of the elements of the a hash.
    pub a_hash: HashOutTargetIndex,
    /// The index for the presence of the b hash.
    pub b_present: BoolTargetIndex,
    /// The indices of each of the elements of the b hash.
    pub b_hash: HashOutTargetIndex,
    /// The index for the presence of the merged hash.
    pub merged_present: BoolTargetIndex,
    /// The indices of each of the elements of the merged hash.
    pub merged_hash: HashOutTargetIndex,
}

impl PublicIndices {
    /// Every position is below `len`.
    pub open spec fn within(self, len: nat) -> bool {
        &&& self.a_present.0.0 < len
        &&& self.a_hash.within(len)
        &&& self.b_present.0.0 < len
        &&& self.b_hash.within(len)
        &&& self.merged_present.0.0 < len
        &&& self.merged_hash.within(len)
    }

    /// The positions hold the targets of the inputs.
    pub open spec fn locates(self, pis: Seq<Target>, t: SubCircuitInputs) -> bool {
        &&& self.within(pis.len())
        &&& pis[self.a_present.0.0 as int] == t.a_present.target
        &&& pis[self.b_present.0.0 as int] == t.b_present.target
        &&& pis[self.merged_present.0.0 as int] == t.merged_present.target
        &&& forall|k: int| 0 <= k < 4 ==> pis[#[trigger] self.a_hash.pos(k)] == t.a_hash.elements[k]
        &&& forall|k: int| 0 <= k < 4 ==> pis[#[trigger] self.b_hash.pos(k)] == t.b_hash.elements[k]
        &&& forall|k: int|
            0 <= k < 4 ==> pis[#[trigger] self.merged_hash.pos(k)] == t.merged_hash.elements[k]
    }
}

pub struct SubCircuitInputs {
    /// The presence of `a_hash`.
    pub a_present: BoolTarget,
    /// The a hash or ZERO if absent.
    pub a_hash: HashOutTarget,
    /// The presence of `b_hash`.
    pub b_present: BoolTarget,
    /// The b hash or ZERO if absent.
    pub b_hash: HashOutTarget,
    /// The presence of `merged_hash`.
    pub merged_present: BoolTarget,
    /// The merged hash or ZERO if absent.
    pub merged_hash: HashOutTarget,
}

/// The value of element `i` of the merge of two optional digests: their
/// hash when both are present, otherwise their sum (the one present, an
/// absent one being ZERO).
pub open spec fn forwarded(e: Env, lp: BoolTarget, l: [Target; 4], rp: BoolTarget, r: [Target; 4], i: int) -> int {
    if e.truth(lp.target) && e.truth(rp.target) {
        e.hash(pair_vals(e, l, r))[i]
    } else {
        fmod(e.val(l[i]) + e.val(r[i]))
    }
}

impl SubCircuitInputs {
    /// Every target is among the first `n`.
    pub open spec fn within(self, n: nat) -> bool {
        all_below(self.public_targets(), n)
    }

    /// What a leaf accepts: an absent side's hash is zero, the merged hash is
    /// present when one side is, and it is the hash of both (when both are
    /// present) or the present one; the hash of both sides is four field
    /// elements.
    pub open spec fn leaf_holds(self, e: Env) -> bool {
        &&& e.truth(self.a_present.target) || all_zero(e, self.a_hash.elements)
        &&& e.truth(self.b_present.target) || all_zero(e, self.b_hash.elements)
        &&& e.truth(self.merged_present.target) == (e.truth(self.a_present.target) || e.truth(
            self.b_present.target,
        ))
        &&& forall|i: int|
            0 <= i < 4 ==> #[trigger] e.val(self.merged_hash.elements[i]) == forwarded(
                e,
                self.a_present,
                self.a_hash.elements,
                self.b_present,
                self.b_hash.elements,
                i,
            )
        &&& hash_in_field(e, pair_vals(e, self.a_hash.elements, self.b_hash.elements))
    }

    /// The presence flags are boolean in every satisfying environment.
    pub open spec fn constrained(self, b: CircuitBuilder) -> bool {
        forall|e: Env|
            e.valid() && #[trigger] b.sat(e) ==> e.is_bool(self.a_present.target) && e.is_bool(
                self.b_present.target,
            ) && e.is_bool(self.merged_present.target)
    }

    /// The targets, in the order they are registered as public inputs.
    pub open spec fn public_targets(self) -> Seq<Target> {
        seq![self.a_present.target] + self.a_hash.elements@ + seq![self.b_present.target]
            + self.b_hash.elements@ + seq![self.merged_present.target]
            + self.merged_hash.elements@
    }

    /// Every target is among the public inputs.
    pub open spec fn registered_in(self, pis: Seq<Target>) -> bool {
        forall|i: int| 0 <= i < 15 ==> pis.contains(#[trigger] self.public_targets()[i])
    }
}

pub struct LeafTargets {
    /// The public inputs.
    pub inputs: SubCircuitInputs,
}

/// Allocates the targets of the subcircuit and registers them as public
/// inputs.
pub fn default(builder: &mut CircuitBuilder) -> (r: SubCircuitInputs)
    ensures
        final(builder).public_inputs@ == old(builder).public_inputs@ + r.public_targets(),
        forall|e: Env| #[trigger] final(builder).sat(e) ==> old(builder).sat(e),
        r.constrained(*final(builder)),
{
    let a_present = builder.add_virtual_bool_target_safe();
    let a_hash = builder.add_virtual_hash();
    let b_present = builder.add_virtual_bool_target_safe();
    let b_hash = builder.add_virtual_hash();
    let merged_present = builder.add_virtual_bool_target_safe();
    let merged_hash = builder.add_virtual_hash();
    builder.register_public_input(a_present.target);
    builder.register_public_inputs(&a_hash.elements);
    builder.register_public_input(b_present.target);
    builder.register_public_inputs(&b_hash.elements);
    builder.register_public_input(merged_present.target);
    builder.register_public_inputs(&merged_hash.elements);
    let r = SubCircuitInputs { a_present, a_hash, b_present, b_hash, merged_present, merged_hash };
    assert(builder.public_inputs@ =~= old(builder).public_inputs@ + r.public_targets());
    r
}

/// A boolean that is one, or a digest that is zero, of a two-element list.
proof fn lemma_one_true(e: Env, ts: Seq<BoolTarget>)
    requires
        ts.len() == 2,
        e.is_bool(ts[0].target),
        e.is_bool(ts[1].target),
        exists|i: int| 0 <= i < ts.len() && #[trigger] e.truth(ts[i].target),
    ensures
        e.truth(ts[0].target) || e.truth(ts[1].target),
{
    let i = choose|i: int| 0 <= i < ts.len() && #[trigger] e.truth(ts[i].target);
    assert(i == 0 || i == 1);
}

impl SubCircuitInputs {
    /// Proves each hash is ZERO unless present, and the merged hash is the
    /// hash of both when both are present, otherwise the one present.
    pub fn build_leaf(self, builder: &mut CircuitBuilder) -> (r: LeafTargets)
        requires
            self.constrained(*old(builder)),
        ensures
            final(builder).grows(*old(builder)),
            r.inputs == self,
            forall|e: Env|
                e.valid() && #[trigger] final(builder).sat(e) ==> {
                    &&& e.truth(self.a_present.target) || all_zero(e, self.a_hash.elements)
                    &&& e.truth(self.b_present.target) || all_zero(e, self.b_hash.elements)
                    &&& e.truth(self.merged_present.target) == (e.truth(self.a_present.target)
                        || e.truth(self.b_present.target))
                    &&& forall|i: int|
                        0 <= i < 4 ==> #[trigger] e.val(self.merged_hash.elements[i]) == forwarded(
                            e,
                            self.a_present,
                            self.a_hash.elements,
                            self.b_present,
                            self.b_hash.elements,
                            i,
                        )
                },
            self.within(old(builder).ops@.len()) ==> completes(
                old(builder).ops@,
                final(builder).ops@,
                |e: Env| self.leaf_holds(e),
            ),
            self.within(old(builder).ops@.len()) && closed(old(builder).ops@) ==> closed(
                final(builder).ops@,
            ),
    {
        let ghost g0 = *builder;
        let a_is_zero = hash_is_zero(builder, self.a_hash);
        let ghost g1 = *builder;
        let b_is_zero = hash_is_zero(builder, self.b_hash);
        let ghost g2 = *builder;
        let mut ta: Vec<BoolTarget> = Vec::new();
        ta.push(a_is_zero);
        ta.push(self.a_present);
        let ghost tav = ta@;
        at_least_one_true(builder, ta);
        let ghost g3 = *builder;
        let mut tb: Vec<BoolTarget> = Vec::new();
        tb.push(b_is_zero);
        tb.push(self.b_present);
        let ghost tbv = tb@;
        at_least_one_true(builder, tb);
        let ghost g4 = *builder;

        let merged_present_calc = builder.or(self.a_present, self.b_present);
        let ghost g5 = *builder;
        builder.connect(self.merged_present.target, merged_present_calc.target);
        let ghost g6 = *builder;

        let merged_hash_calc = hash_or_forward(
            builder,
            self.a_present,
            self.a_hash.elements,
            self.b_present,
            self.b_hash.elements,
        );
        let ghost g7 = *builder;
        builder.connect_hashes(self.merged_hash, merged_hash_calc);
        proof {
            assert(g2.ops@.len() == g2.ops.len());
            assert(g5.ops@.len() == g5.ops.len());
            assert(g6.ops@.len() == g6.ops.len());
            let m = g0.ops@.len();
            if self.within(m) {
                let pt = self.public_targets();
                assert(pt[0] == self.a_present.target && pt[5] == self.b_present.target);
                assert(pt[10] == self.merged_present.target);
                assert(forall|k: int| 0 <= k < 4 ==> pt[1 + k] == #[trigger] self.a_hash.elements[k]);
                assert(forall|k: int| 0 <= k < 4 ==> pt[6 + k] == #[trigger] self.b_hash.elements[k]);
                assert(forall|k: int| 0 <= k < 4 ==> pt[11 + k] == #[trigger] self.merged_hash.elements[k]);
                assert(forall|k: int| 0 <= k < 4 ==> (#[trigger] self.a_hash.elements[k]).index < m);
                assert(forall|k: int| 0 <= k < 4 ==> (#[trigger] self.b_hash.elements[k]).index < m);
                assert(forall|k: int| 0 <= k < 4 ==> (#[trigger] self.merged_hash.elements[k]).index < m);
                let (ap, bp, mp) = (self.a_present, self.b_present, self.merged_present);
                let pre = |e: Env| self.leaf_holds(e);
                let t = |e: Env| true;
                // the zero tests
                lemma_total_ext_trans(g0.ops@, g1.ops@, g2.ops@);
                lemma_total_ext_completes(g0.ops@, g2.ops@);
                lemma_completes_weaken(g0.ops@, g2.ops@, t, pre);
                // an absent side has a zero hash
                let pa = |e: Env| sum_vals(e, tav) != 0;
                assert(tav[0] == a_is_zero && tav[1] == ap && tav =~= seq![a_is_zero, ap]);
                assert forall|e: Env, e2: Env|
                    #![trigger pre(e), pa(e2)]
                    e.valid() && plan_sat(g0.ops@, e) && pre(e) && e2.valid() && plan_sat(g2.ops@, e2)
                        && same_below(e, e2, m) implies pa(e2) by {
                    assert(g2.sat(e2));
                    assert(g1.sat(e2));
                    assert(g0.sat(e));
                    assert((e.w)(ap.target) == (e2.w)(ap.target));
                    if all_zero(e, self.a_hash.elements) {
                        assert forall|i: int| 0 <= i < 4 implies #[trigger] e2.val(self.a_hash.elements[i]) == 0 by {
                            assert(e.val(self.a_hash.elements[i]) == 0);
                            assert((e.w)(self.a_hash.elements[i]) == (e2.w)(self.a_hash.elements[i]));
                        }
                    }
                    lemma_two_sum(e2, a_is_zero, ap);
                }
                lemma_completes_trans(g0.ops@, g2.ops@, g3.ops@, pre, pa);
                let pb = |e: Env| sum_vals(e, tbv) != 0;
                assert(tbv =~= seq![b_is_zero, bp]);
                assert forall|e: Env, e2: Env|
                    #![trigger pre(e), pb(e2)]
                    e.valid() && plan_sat(g0.ops@, e) && pre(e) && e2.valid() && plan_sat(g3.ops@, e2)
                        && same_below(e, e2, m) implies pb(e2) by {
                    assert(g3.sat(e2));
                    assert(g2.sat(e2));
                    assert(g0.sat(e));
                    assert((e.w)(bp.target) == (e2.w)(bp.target));
                    if all_zero(e, self.b_hash.elements) {
                        assert forall|i: int| 0 <= i < 4 implies #[trigger] e2.val(self.b_hash.elements[i]) == 0 by {
                            assert(e.val(self.b_hash.elements[i]) == 0);
                            assert((e.w)(self.b_hash.elements[i]) == (e2.w)(self.b_hash.elements[i]));
                        }
                    }
                    lemma_two_sum(e2, b_is_zero, bp);
                }
                lemma_completes_trans(g0.ops@, g3.ops@, g4.ops@, pre, pb);
                // the merged presence
                lemma_total_ext_push(g4.ops@, Op::Or { a: ap.target, b: bp.target });
                lemma_total_ext_completes(g4.ops@, g5.ops@);
                lemma_completes_trans(g0.ops@, g4.ops@, g5.ops@, pre, t);
                let calc = merged_present_calc.target;
                let pm = |e: Env| e.val(mp.target) == e.val(calc);
                assert forall|e: Env| #![trigger pm(e)] e.valid() && pm(e) implies 0 <= (|e: Env| 0int)(e) < crate::field::p()
                    && holds(
                    Op::Connect { x: mp.target, y: calc },
                    g5.ops@.len() as int,
                    env_set(e, g5.ops@.len(), (|e: Env| 0int)(e)),
                ) by {}
                lemma_push_completes(g5.ops@, g6.ops@, Op::Connect { x: mp.target, y: calc }, |e: Env| 0int, pm);
                assert forall|e: Env, e2: Env|
                    #![trigger pre(e), pm(e2)]
                    e.valid() && plan_sat(g0.ops@, e) && pre(e) && e2.valid() && plan_sat(g5.ops@, e2)
                        && same_below(e, e2, m) implies pm(e2) by {
                    assert(g5.sat(e2) && g0.sat(e));
                    assert((e.w)(ap.target) == (e2.w)(ap.target));
                    assert((e.w)(bp.target) == (e2.w)(bp.target));
                    assert((e.w)(mp.target) == (e2.w)(mp.target));
                }
                lemma_completes_trans(g0.ops@, g5.ops@, g6.ops@, pre, pm);
                // the merged hash
                let ph = |e: Env| hash_in_field(e, pair_vals(e, self.a_hash.elements, self.b_hash.elements));
                assert(all_below(self.a_hash.elements@, g6.ops@.len()));
                assert(all_below(self.b_hash.elements@, g6.ops@.len()));
                assert forall|e: Env, e2: Env|
                    #![trigger pre(e), ph(e2)]
                    e.valid() && plan_sat(g0.ops@, e) && pre(e) && e2.valid() && plan_sat(g6.ops@, e2)
                        && same_below(e, e2, m) implies ph(e2) by {
                    let ins = self.a_hash.elements@ + self.b_hash.elements@;
                    assert(all_below(ins, m)) by {
                        assert forall|k: int| 0 <= k < ins.len() implies (#[trigger] ins[k]).index < m by {
                            if k < 4 {
                                assert(ins[k] == self.a_hash.elements[k]);
                            } else {
                                assert(ins[k] == self.b_hash.elements[k - 4]);
                            }
                        }
                    }
                    crate::circuit::lemma_vals_frame(e, e2, m, ins);
                    assert forall|k: int| 0 <= k < 4 implies 0 <= #[trigger] e2.hash(
                        pair_vals(e2, self.a_hash.elements, self.b_hash.elements),
                    )[k] < crate::field::p() by {
                        assert(0 <= e.hash(pair_vals(e, self.a_hash.elements, self.b_hash.elements))[k]
                            < crate::field::p());
                    }
                }
                lemma_completes_trans(g0.ops@, g6.ops@, g7.ops@, pre, ph);
                let pmh = |e: Env|
                    forall|i: int|
                        0 <= i < 4 ==> #[trigger] e.val(self.merged_hash.elements[i]) == e.val(
                            merged_hash_calc.elements[i],
                        );
                assert(all_below(self.merged_hash.elements@, g7.ops@.len()));
                assert(all_below(merged_hash_calc.elements@, g7.ops@.len()));
                assert forall|e: Env, e2: Env|
                    #![trigger pre(e), pmh(e2)]
                    e.valid() && plan_sat(g0.ops@, e) && pre(e) && e2.valid() && plan_sat(g7.ops@, e2)
                        && same_below(e, e2, m) implies pmh(e2) by {
                    assert(g7.sat(e2) && g0.sat(e));
                    assert((e.w)(ap.target) == (e2.w)(ap.target));
                    assert((e.w)(bp.target) == (e2.w)(bp.target));
                    let ins = self.a_hash.elements@ + self.b_hash.elements@;
                    assert(all_below(ins, m)) by {
                        assert forall|k: int| 0 <= k < ins.len() implies (#[trigger] ins[k]).index < m by {
                            if k < 4 {
                                assert(ins[k] == self.a_hash.elements[k]);
                            } else {
                                assert(ins[k] == self.b_hash.elements[k - 4]);
                            }
                        }
                    }
                    crate::circuit::lemma_vals_frame(e, e2, m, ins);
                    assert forall|i: int| 0 <= i < 4 implies #[trigger] e2.val(self.merged_hash.elements[i])
                        == e2.val(merged_hash_calc.elements[i]) by {
                        assert((e.w)(self.merged_hash.elements[i]) == (e2.w)(self.merged_hash.elements[i]));
                        assert((e.w)(self.a_hash.elements[i]) == (e2.w)(self.a_hash.elements[i]));
                        assert((e.w)(self.b_hash.elements[i]) == (e2.w)(self.b_hash.elements[i]));
                        assert(e.val(self.merged_hash.elements[i]) == forwarded(
                            e,
                            ap,
                            self.a_hash.elements,
                            bp,
                            self.b_hash.elements,
                            i,
                        ));
                    }
                }
                lemma_completes_trans(g0.ops@, g7.ops@, builder.ops@, pre, pmh);
            }
        }
        proof {
            assert forall|e: Env| e.valid() && #[trigger] builder.sat(e) implies {
                &&& e.truth(self.a_present.target) || all_zero(e, self.a_hash.elements)
                &&& e.truth(self.b_present.target) || all_zero(e, self.b_hash.elements)
                &&& e.truth(self.merged_present.target) == (e.truth(self.a_present.target)
                    || e.truth(self.b_present.target))
                &&& forall|i: int|
                    0 <= i < 4 ==> #[trigger] e.val(self.merged_hash.elements[i]) == forwarded(
                        e,
                        self.a_present,
                        self.a_hash.elements,
                        self.b_present,
                        self.b_hash.elements,
                        i,
                    )
            } by {
                assert(forall|i: int| 0 <= i < tav.len() ==> #[trigger] e.is_bool(tav[i].target));
                assert(forall|i: int| 0 <= i < tbv.len() ==> #[trigger] e.is_bool(tbv[i].target));
                lemma_one_true(e, tav);
                lemma_one_true(e, tbv);
                assert forall|i: int| 0 <= i < 4 implies #[trigger] e.val(
                    self.merged_hash.elements[i],
                ) == forwarded(
                    e,
                    self.a_present,
                    self.a_hash.elements,
                    self.b_present,
                    self.b_hash.elements,
                    i,
                ) by {
                    assert(e.val(self.merged_hash.elements[i]) == e.val(
                        merged_hash_calc.elements[i],
                    ));
                }
            }
        }
        LeafTargets { inputs: self }
    }
}

/// The leaf subcircuit metadata. This subcircuit merges up to two leaf hashes
/// creating a parent node if two leafs are present, otherwise just forwarding
/// any existing hash.
pub struct LeafSubCircuit {
    pub targets: LeafTargets,
    pub indices: PublicIndices,
}

/// Finds the positions of the public inputs of the subcircuit.
fn find_indices(inputs: &SubCircuitInputs, public_inputs: &[Target]) -> (r: PublicIndices)
    requires
        inputs.registered_in(public_inputs@),
    ensures
        r.locates(public_inputs@, *inputs),
{
    let ghost pt = inputs.public_targets();
    assert(pt[0] == inputs.a_present.target);
    assert(pt[5] == inputs.b_present.target);
    assert(pt[10] == inputs.merged_present.target);
    assert forall|k: int| 0 <= k < 4 implies public_inputs@.contains(
        #[trigger] inputs.a_hash.elements[k],
    ) by {
        assert(pt[1 + k] == inputs.a_hash.elements[k]);
    }
    assert forall|k: int| 0 <= k < 4 implies public_inputs@.contains(
        #[trigger] inputs.b_hash.elements[k],
    ) by {
        assert(pt[6 + k] == inputs.b_hash.elements[k]);
    }
    assert forall|k: int| 0 <= k < 4 implies public_inputs@.contains(
        #[trigger] inputs.merged_hash.elements[k],
    ) by {
        assert(pt[11 + k] == inputs.merged_hash.elements[k]);
    }
    PublicIndices {
        a_present: BoolTargetIndex::new(public_inputs, inputs.a_present),
        a_hash: HashOutTargetIndex::new(public_inputs, inputs.a_hash),
        b_present: BoolTargetIndex::new(public_inputs, inputs.b_present),
        b_hash: HashOutTargetIndex::new(public_inputs, inputs.b_hash),
        merged_present: BoolTargetIndex::new(public_inputs, inputs.merged_present),
        merged_hash: HashOutTargetIndex::new(public_inputs, inputs.merged_hash),
    }
}

impl LeafTargets {
    /// Finds the positions of the public inputs.
    pub fn build(self, public_inputs: &[Target]) -> (r: LeafSubCircuit)
        requires
            self.inputs.registered_in(public_inputs@),
        ensures
            r.targets == self,
            r.indices.locates(public_inputs@, self.inputs),
    {
        let indices = find_indices(&self.inputs, public_inputs);
        LeafSubCircuit { targets: self, indices }
    }
}

/// The targets of the `a` and `b` sides, in the order they are given: each
/// side's presence flag and hash.
pub open spec fn sides_targets(t: SubCircuitInputs) -> Seq<Target> {
    flagged_targets(t.a_present, t.a_hash) + flagged_targets(t.b_present, t.b_hash)
}

/// The values given to the targets of the `a` and `b` sides.
pub open spec fn sides_values(a_present: bool, a_hash: [u64; 4], b_present: bool, b_hash: [u64; 4]) -> Seq<
    u64,
> {
    flagged_values(a_present, a_hash) + flagged_values(b_present, b_hash)
}

/// The targets that the unchecked witness gives: both sides, the merged
/// presence flag, and the merged hash when it is given.
pub open spec fn unsafe_targets(t: SubCircuitInputs, merged_given: bool) -> Seq<Target> {
    sides_targets(t) + seq![t.merged_present.target] + if merged_given {
        t.merged_hash.elements@
    } else {
        Seq::empty()
    }
}

/// The values that the unchecked witness gives.
pub open spec fn unsafe_values(
    a_present: bool,
    a_hash: [u64; 4],
    b_present: bool,
    b_hash: [u64; 4],
    merged_present: bool,
    merged_hash: Option<[u64; 4]>,
) -> Seq<u64> {
    sides_values(a_present, a_hash, b_present, b_hash) + seq![bit_of(merged_present)] + match merged_hash {
        Some(h) => h@,
        None => Seq::empty(),
    }
}

/// Gives both sides their presence flags and hashes.
fn set_sides(
    inputs: &mut PartialWitness,
    t: &SubCircuitInputs,
    a_present: bool,
    a_hash: [u64; 4],
    b_present: bool,
    b_hash: [u64; 4],
) -> (r: Result<(), WitnessConflict>)
    ensures
        r is Ok <==> old(inputs).fits(sides_targets(*t), sides_values(a_present, a_hash, b_present, b_hash)),
        r is Ok ==> final(inputs).wrote(
            *old(inputs),
            sides_targets(*t),
            sides_values(a_present, a_hash, b_present, b_hash),
        ),
        r is Ok ==> {
            &&& final(inputs).has(t.a_present.target, bit_of(a_present))
            &&& final(inputs).has_arr(t.a_hash.elements, a_hash)
            &&& final(inputs).has(t.b_present.target, bit_of(b_present))
            &&& final(inputs).has_arr(t.b_hash.elements, b_hash)
        },
{
    let ghost (t1, v1) = (flagged_targets(t.a_present, t.a_hash), flagged_values(a_present, a_hash));
    let ghost (t2, v2) = (flagged_targets(t.b_present, t.b_hash), flagged_values(b_present, b_hash));
    let ghost w0 = *inputs;
    proof {
        lemma_fits_prefix(w0, t1, v1, t2, v2);
    }
    inputs.set_flagged_hash(t.a_present, a_present, t.a_hash, a_hash)?;
    let ghost w1 = *inputs;
    proof {
        lemma_fits_after(w0, w1, t1, v1, t2, v2);
    }
    inputs.set_flagged_hash(t.b_present, b_present, t.b_hash, b_hash)?;
    proof {
        lemma_wrote_chain(w0, w1, *inputs, t1, v1, t2, v2);
        assert(w1.has(t.a_present.target, bit_of(a_present)));
        assert forall|k: int| #![trigger t.a_hash.elements[k]] 0 <= k < 4 implies inputs.has(
            t.a_hash.elements[k],
            a_hash[k],
        ) by {
            assert(w1.has(t.a_hash.elements[k], a_hash[k]));
        }
    }
    Ok(())
}

impl LeafSubCircuit {
    /// Gives the witness the two optional hashes: present, or absent and
    /// ZERO.
    pub fn set_witness(
        &self,
        inputs: &mut PartialWitness,
        a_hash: Option<[u64; 4]>,
        b_hash: Option<[u64; 4]>,
    ) -> (r: Result<(), WitnessConflict>)
        ensures
            r is Ok <==> old(inputs).fits(
                sides_targets(self.targets.inputs),
                sides_values(a_hash is Some, or_zero(a_hash), b_hash is Some, or_zero(b_hash)),
            ),
            r is Ok ==> final(inputs).wrote(
                *old(inputs),
                sides_targets(self.targets.inputs),
                sides_values(a_hash is Some, or_zero(a_hash), b_hash is Some, or_zero(b_hash)),
            ),
            r is Ok ==> {
                let t = self.targets.inputs;
                &&& final(inputs).extends(*old(inputs))
                &&& final(inputs).has(t.a_present.target, if a_hash is Some { 1u64 } else { 0u64 })
                &&& final(inputs).has(t.b_present.target, if b_hash is Some { 1u64 } else { 0u64 })
                &&& final(inputs).has_arr(t.a_hash.elements, or_zero(a_hash))
                &&& final(inputs).has_arr(t.b_hash.elements, or_zero(b_hash))
            },
    {
        let zero: [u64; 4] = [0u64, 0u64, 0u64, 0u64];
        let a = match a_hash {
            Some(h) => h,
            None => zero,
        };
        let b = match b_hash {
            Some(h) => h,
            None => zero,
        };
        set_sides(inputs, &self.targets.inputs, a_hash.is_some(), a, b_hash.is_some(), b)
    }

    /// Gives the witness the values as they are; the merged hash only when
    /// given.
    pub fn set_witness_unsafe(
        &self,
        inputs: &mut PartialWitness,
        a_present: bool,
        a_hash: [u64; 4],
        b_present: bool,
        b_hash: [u64; 4],
        merged_present: bool,
        merged_hash: Option<[u64; 4]>,
    ) -> (r: Result<(), WitnessConflict>)
        ensures
            r is Ok <==> old(inputs).fits(
                unsafe_targets(self.targets.inputs, merged_hash is Some),
                unsafe_values(a_present, a_hash, b_present, b_hash, merged_present, merged_hash),
            ),
            r is Ok ==> {
                let t = self.targets.inputs;
                &&& final(inputs).extends(*old(inputs))
                &&& final(inputs).has(t.a_present.target, if a_present { 1u64 } else { 0u64 })
                &&& final(inputs).has_arr(t.a_hash.elements, a_hash)
                &&& final(inputs).has(t.b_present.target, if b_present { 1u64 } else { 0u64 })
                &&& final(inputs).has_arr(t.b_hash.elements, b_hash)
                &&& final(inputs).has(
                    t.merged_present.target,
                    if merged_present { 1u64 } else { 0u64 },
                )
                &&& merged_hash matches Some(h) ==> final(inputs).has_arr(t.merged_hash.elements, h)
            },
    {
        let t = &self.targets.inputs;
        let ghost (t1, v1) = (sides_targets(*t), sides_values(a_present, a_hash, b_present, b_hash));
        let ghost (t2, v2) = (seq![t.merged_present.target], seq![bit_of(merged_present)]);
        let ghost (t3, v3) = (
            if merged_hash is Some { t.merged_hash.elements@ } else { Seq::<Target>::empty() },
            match merged_hash {
                Some(h) => h@,
                None => Seq::<u64>::empty(),
            },
        );
        let ghost w0 = *inputs;
        proof {
            lemma_fits_prefix(w0, t1 + t2, v1 + v2, t3, v3);
            lemma_fits_prefix(w0, t1, v1, t2, v2);
        }
        set_sides(inputs, t, a_present, a_hash, b_present, b_hash)?;
        let ghost w1 = *inputs;
        proof {
            lemma_fits_after(w0, w1, t1, v1, t2, v2);
        }
        inputs.set_bool_target(t.merged_present, merged_present)?;
        let ghost w2 = *inputs;
        proof {
            lemma_wrote_chain(w0, w1, w2, t1, v1, t2, v2);
            lemma_fits_after(w0, w2, t1 + t2, v1 + v2, t3, v3);
            assert(w1.has(t.a_present.target, bit_of(a_present)));
            assert(w1.has(t.b_present.target, bit_of(b_present)));
            assert(w1.has_arr(t.a_hash.elements, a_hash));
            assert(w1.has_arr(t.b_hash.elements, b_hash));
        }
        if let Some(merged_hash) = merged_hash {
            inputs.set_hash_target(t.merged_hash, merged_hash)?;
            proof {
                assert(inputs.extends(w2));
                assert(w2.has(t.merged_present.target, bit_of(merged_present)));
            }
        } else {
            proof {
                assert(w2.fits(t3, v3));
            }
        }
        Ok(())
    }
}

pub struct BranchTargets {
    /// The public inputs.
    pub inputs: SubCircuitInputs,
}

/// The children's hashes are merged as the leaf merges them: each of `a`, `b`
/// and merged is the hash of both children's when both are present, else the
/// one present, and present when either is.
pub open spec fn branch_merges(e: Env, p: SubCircuitInputs, l: SubCircuitInputs, r: SubCircuitInputs) -> bool {
    &&& e.truth(p.a_present.target) == (e.truth(l.a_present.target) || e.truth(r.a_present.target))
    &&& e.truth(p.b_present.target) == (e.truth(l.b_present.target) || e.truth(r.b_present.target))
    &&& e.truth(p.merged_present.target) == (e.truth(l.merged_present.target) || e.truth(
        r.merged_present.target,
    ))
    &&& forall|i: int|
        0 <= i < 4 ==> #[trigger] e.val(p.a_hash.elements[i]) == forwarded(
            e,
            l.a_present,
            l.a_hash.elements,
            r.a_present,
            r.a_hash.elements,
            i,
        )
    &&& forall|i: int|
        0 <= i < 4 ==> #[trigger] e.val(p.b_hash.elements[i]) == forwarded(
            e,
            l.b_present,
            l.b_hash.elements,
            r.b_present,
            r.b_hash.elements,
            i,
        )
    &&& forall|i: int|
        0 <= i < 4 ==> #[trigger] e.val(p.merged_hash.elements[i]) == forwarded(
            e,
            l.merged_present,
            l.merged_hash.elements,
            r.merged_present,
            r.merged_hash.elements,
            i,
        )
}

/// The inputs of a child proof at the positions of this subcircuit.
pub fn direction_from_node(proof: &ProofWithPublicInputsTarget, indices: &PublicIndices) -> (r:
    SubCircuitInputs)
    requires
        indices.within(proof.public_inputs@.len()),
    ensures
        indices.locates(proof.public_inputs@, r),
{
    let pis = proof.public_inputs.as_slice();
    SubCircuitInputs {
        a_present: indices.a_present.get_target(pis),
        a_hash: indices.a_hash.get_target(pis),
        b_present: indices.b_present.get_target(pis),
        b_hash: indices.b_hash.get_target(pis),
        merged_present: indices.merged_present.get_target(pis),
        merged_hash: indices.merged_hash.get_target(pis),
    }
}

impl SubCircuitInputs {
    /// The presence flags are boolean.
    pub open spec fn flags_bool(self, e: Env) -> bool {
        e.is_bool(self.a_present.target) && e.is_bool(self.b_present.target) && e.is_bool(
            self.merged_present.target,
        )
    }

    /// Proves the merge of the children's merges: see `branch_merges`.
    pub fn build_branch(
        self,
        builder: &mut CircuitBuilder,
        indices: &PublicIndices,
        left_proof: &ProofWithPublicInputsTarget,
        right_proof: &ProofWithPublicInputsTarget,
    ) -> (r: BranchTargets)
        requires
            indices.within(left_proof.public_inputs@.len()),
            indices.within(right_proof.public_inputs@.len()),
        ensures
            final(builder).grows(*old(builder)),
            r.inputs == self,
            forall|e: Env|
                e.valid() && #[trigger] final(builder).sat(e) && direction_spec(
                    left_proof.public_inputs@,
                    *indices,
                ).flags_bool(e) && direction_spec(right_proof.public_inputs@, *indices).flags_bool(
                    e,
                ) ==> branch_merges(
                    e,
                    self,
                    direction_spec(left_proof.public_inputs@, *indices),
                    direction_spec(right_proof.public_inputs@, *indices),
                ),
    {
        let left = direction_from_node(left_proof, indices);
        let right = direction_from_node(right_proof, indices);
        proof {
            lemma_direction_spec(left_proof.public_inputs@, *indices, left);
            lemma_direction_spec(right_proof.public_inputs@, *indices, right);
        }

        let a_present_calc = builder.or(left.a_present, right.a_present);
        builder.connect(self.a_present.target, a_present_calc.target);
        let b_present_calc = builder.or(left.b_present, right.b_present);
        builder.connect(self.b_present.target, b_present_calc.target);
        let merged_present_calc = builder.or(left.merged_present, right.merged_present);
        builder.connect(self.merged_present.target, merged_present_calc.target);

        let a_hash_calc = hash_or_forward(
            builder,
            left.a_present,
            left.a_hash.elements,
            right.a_present,
            right.a_hash.elements,
        );
        let b_hash_calc = hash_or_forward(
            builder,
            left.b_present,
            left.b_hash.elements,
            right.b_present,
            right.b_hash.elements,
        );
        let merged_hash_calc = hash_or_forward(
            builder,
            left.merged_present,
            left.merged_hash.elements,
            right.merged_present,
            right.merged_hash.elements,
        );
        builder.connect_hashes(a_hash_calc, self.a_hash);
        builder.connect_hashes(b_hash_calc, self.b_hash);
        builder.connect_hashes(merged_hash_calc, self.merged_hash);
        proof {
            assert forall|e: Env|
                e.valid() && #[trigger] builder.sat(e) && left.flags_bool(e) && right.flags_bool(
                    e,
                ) implies branch_merges(e, self, left, right) by {
                assert forall|i: int| 0 <= i < 4 implies #[trigger] e.val(self.a_hash.elements[i])
                    == e.val(a_hash_calc.elements[i]) by {}
                assert forall|i: int| 0 <= i < 4 implies #[trigger] e.val(self.b_hash.elements[i])
                    == e.val(b_hash_calc.elements[i]) by {}
                assert forall|i: int| 0 <= i < 4 implies #[trigger] e.val(
                    self.merged_hash.elements[i],
                ) == e.val(merged_hash_calc.elements[i]) by {}
            }
        }
        BranchTargets { inputs: self }
    }
}

/// The targets of a child proof at the positions of this subcircuit.
pub open spec fn direction_spec(pis: Seq<Target>, indices: PublicIndices) -> SubCircuitInputs {
    SubCircuitInputs {
        a_present: BoolTarget { target: pis[indices.a_present.0.0 as int] },
        a_hash: HashOutTarget { elements: indices.a_hash.get_spec(pis) },
        b_present: BoolTarget { target: pis[indices.b_present.0.0 as int] },
        b_hash: HashOutTarget { elements: indices.b_hash.get_spec(pis) },
        merged_present: BoolTarget { target: pis[indices.merged_present.0.0 as int] },
        merged_hash: HashOutTarget { elements: indices.merged_hash.get_spec(pis) },
    }
}

/// The inputs located at the positions are those of `direction_spec`.
pub proof fn lemma_direction_spec(pis: Seq<Target>, indices: PublicIndices, t: SubCircuitInputs)
    requires
        indices.locates(pis, t),
    ensures
        t == direction_spec(pis, indices),
{
    let d = direction_spec(pis, indices);
    assert(t.a_hash.elements =~= d.a_hash.elements);
    assert(t.b_hash.elements =~= d.b_hash.elements);
    assert(t.merged_hash.elements =~= d.merged_hash.elements);
}

/// The branch subcircuit metadata. This subcircuit merges up to two leaf hashes
/// creating a parent node if two leafs are present, otherwise just forwarding
/// any existing hash.
pub struct BranchSubCircuit {
    pub targets: BranchTargets,
    pub indices: PublicIndices,
}

impl BranchTargets {
    /// Finds the positions of the public inputs; they are meant to be the
    /// same as the child's.
    pub fn build(self, child: &PublicIndices, public_inputs: &[Target]) -> (r: BranchSubCircuit)
        requires
            self.inputs.registered_in(public_inputs@),
        ensures
            r.targets == self,
            r.indices.locates(public_inputs@, self.inputs),
    {
        let indices = find_indices(&self.inputs, public_inputs);
        BranchSubCircuit { targets: self, indices }
    }
}

impl BranchSubCircuit {
    /// Nothing to give: the values follow from the children.
    pub fn set_witness(&self, _inputs: &mut PartialWitness)
        ensures
            final(_inputs).view_map() == old(_inputs).view_map(),
    {
    }

    /// Gives the witness the values as they are, the hashes only when given.
    pub fn set_witness_unsafe(
        &self,
        inputs: &mut PartialWitness,
        a_present: bool,
        a_hash: Option<[u64; 4]>,
        b_present: bool,
        b_hash: Option<[u64; 4]>,
        merged_present: bool,
        merged_hash: Option<[u64; 4]>,
    ) -> (r: Result<(), WitnessConflict>)
        ensures
            r is Ok <==> ({
                let t = self.targets.inputs;
                old(inputs).fits(
                    seq![t.a_present.target] + given_targets(a_hash is Some, t.a_hash.elements@)
                        + (seq![t.b_present.target] + given_targets(b_hash is Some, t.b_hash.elements@))
                        + (seq![t.merged_present.target] + given_targets(
                        merged_hash is Some,
                        t.merged_hash.elements@,
                    )),
                    seq![bit_of(a_present)] + given_values(a_hash) + (seq![bit_of(b_present)]
                        + given_values(b_hash)) + (seq![bit_of(merged_present)] + given_values(
                        merged_hash,
                    )),
                )
            }),
            r is Ok ==> {
                let t = self.targets.inputs;
                &&& final(inputs).extends(*old(inputs))
                &&& final(inputs).has(t.a_present.target, if a_present { 1u64 } else { 0u64 })
                &&& a_hash matches Some(h) ==> final(inputs).has_arr(t.a_hash.elements, h)
                &&& final(inputs).has(t.b_present.target, if b_present { 1u64 } else { 0u64 })
                &&& b_hash matches Some(h) ==> final(inputs).has_arr(t.b_hash.elements, h)
                &&& final(inputs).has(
                    t.merged_present.target,
                    if merged_present { 1u64 } else { 0u64 },
                )
                &&& merged_hash matches Some(h) ==> final(inputs).has_arr(t.merged_hash.elements, h)
            },
    {
        let t = &self.targets.inputs;
        let ghost (t1, v1) = (
            seq![t.a_present.target] + given_targets(a_hash is Some, t.a_hash.elements@),
            seq![bit_of(a_present)] + given_values(a_hash),
        );
        let ghost (t2, v2) = (
            seq![t.b_present.target] + given_targets(b_hash is Some, t.b_hash.elements@),
            seq![bit_of(b_present)] + given_values(b_hash),
        );
        let ghost (t3, v3) = (
            seq![t.merged_present.target] + given_targets(merged_hash is Some, t.merged_hash.elements@),
            seq![bit_of(merged_present)] + given_values(merged_hash),
        );
        let ghost w0 = *inputs;
        proof {
            lemma_fits_prefix(w0, t1 + t2, v1 + v2, t3, v3);
            lemma_fits_prefix(w0, t1, v1, t2, v2);
        }
        inputs.set_flag_and_given_hash(t.a_present, a_present, t.a_hash, a_hash)?;
        let ghost w1 = *inputs;
        proof {
            lemma_fits_after(w0, w1, t1, v1, t2, v2);
        }
        inputs.set_flag_and_given_hash(t.b_present, b_present, t.b_hash, b_hash)?;
        let ghost w2 = *inputs;
        proof {
            lemma_wrote_chain(w0, w1, w2, t1, v1, t2, v2);
            lemma_fits_after(w0, w2, t1 + t2, v1 + v2, t3, v3);
        }
        inputs.set_flag_and_given_hash(t.merged_present, merged_present, t.merged_hash, merged_hash)?;
        proof {
            assert(w1.has(t.a_present.target, bit_of(a_present)));
            assert(w2.has(t.b_present.target, bit_of(b_present)));
            if a_hash is Some {
                assert forall|k: int| #![trigger t.a_hash.elements[k]] 0 <= k < 4 implies inputs.has(
                    t.a_hash.elements[k],
                    a_hash->0[k],
                ) by {
                    assert(w1.has(t.a_hash.elements[k], a_hash->0[k]));
                }
            }
            if b_hash is Some {
                assert forall|k: int| #![trigger t.b_hash.elements[k]] 0 <= k < 4 implies inputs.has(
                    t.b_hash.elements[k],
                    b_hash->0[k],
                ) by {
                    assert(w2.has(t.b_hash.elements[k], b_hash->0[k]));
                }
            }
        }
        Ok(())
    }
}

impl SubCircuitInputs {
    /// Nothing is present, and every hash is zero: the merge of nothing.
    pub open spec fn is_empty(self, e: Env) -> bool {
        &&& !e.truth(self.a_present.target)
        &&& !e.truth(self.b_present.target)
        &&& !e.truth(self.merged_present.target)
        &&& all_zero(e, self.a_hash.elements)
        &&& all_zero(e, self.b_hash.elements)
        &&& all_zero(e, self.merged_hash.elements)
    }

    /// The two merges have the same presences and the same hashes.
    pub open spec fn same_merge(self, e: Env, o: SubCircuitInputs) -> bool {
        &&& e.truth(self.a_present.target) == e.truth(o.a_present.target)
        &&& e.truth(self.b_present.target) == e.truth(o.b_present.target)
        &&& e.truth(self.merged_present.target) == e.truth(o.merged_present.target)
        &&& crate::gadgets::same_vals(e, self.a_hash.elements, o.a_hash.elements)
        &&& crate::gadgets::same_vals(e, self.b_hash.elements, o.b_hash.elements)
        &&& crate::gadgets::same_vals(e, self.merged_hash.elements, o.merged_hash.elements)
    }
}

/// A hash forwarded next to an absent side of zeros is the hash itself.
proof fn lemma_forward_zero(e: Env, lp: BoolTarget, l: [Target; 4], rp: BoolTarget, r: [Target; 4])
    requires
        e.valid(),
        !e.truth(lp.target) || !e.truth(rp.target),
        all_zero(e, l) || all_zero(e, r),
    ensures
        all_zero(e, r) ==> forall|i: int| 0 <= i < 4 ==> #[trigger] forwarded(e, lp, l, rp, r, i) == e.val(l[i]),
        all_zero(e, l) ==> forall|i: int| 0 <= i < 4 ==> #[trigger] forwarded(e, lp, l, rp, r, i) == e.val(r[i]),
{
    assert forall|i: int| 0 <= i < 4 implies #[trigger] forwarded(e, lp, l, rp, r, i) == fmod(
        e.val(l[i]) + e.val(r[i]),
    ) by {}
    assert forall|i: int| 0 <= i < 4 implies 0 <= #[trigger] e.val(l[i]) < crate::field::p() && 0 <= e.val(r[i])
        < crate::field::p() by {
        assert(0 <= (e.w)(l[i]) < crate::field::p());
        assert(0 <= (e.w)(r[i]) < crate::field::p());
    }
    assert forall|i: int| 0 <= i < 4 implies fmod(e.val(l[i]) + e.val(r[i])) == e.val(l[i]) + e.val(
        r[i],
    ) by {
        if all_zero(e, r) {
            assert(e.val(r[i]) == 0);
            crate::field::lemma_fmod_small(e.val(l[i]));
        } else {
            assert(e.val(l[i]) == 0);
            crate::field::lemma_fmod_small(e.val(r[i]));
        }
    }
}

/// Merging with an empty proof, on either side, changes nothing: the
/// branch has the presences and the hashes of the other child.
pub proof fn law_merge_with_empty(e: Env, p: SubCircuitInputs, l: SubCircuitInputs, r: SubCircuitInputs)
    requires
        e.valid(),
        branch_merges(e, p, l, r),
    ensures
        r.is_empty(e) ==> p.same_merge(e, l),
        l.is_empty(e) ==> p.same_merge(e, r),
{
    if r.is_empty(e) || l.is_empty(e) {
        lemma_forward_zero(e, l.a_present, l.a_hash.elements, r.a_present, r.a_hash.elements);
        lemma_forward_zero(e, l.b_present, l.b_hash.elements, r.b_present, r.b_hash.elements);
        lemma_forward_zero(e, l.merged_present, l.merged_hash.elements, r.merged_present, r.merged_hash.elements);
    }
}

/// A branch over two leaves that each merge two present hashes, A and B on
/// the left and C and D on the right: everything is present, the first hash
/// is the hash of A and C, the second of B and D, and the merged hash the
/// hash of the leaves' merged hashes, that is of `hash(A, B)` and
/// `hash(C, D)`.
pub proof fn law_two_level_merge(e: Env, p: SubCircuitInputs, l: SubCircuitInputs, r: SubCircuitInputs)
    requires
        e.valid(),
        l.leaf_holds(e),
        r.leaf_holds(e),
        branch_merges(e, p, l, r),
        e.truth(l.a_present.target) && e.truth(l.b_present.target),
        e.truth(r.a_present.target) && e.truth(r.b_present.target),
    ensures
        e.truth(p.a_present.target) && e.truth(p.b_present.target) && e.truth(p.merged_present.target),
        forall|i: int|
            0 <= i < 4 ==> #[trigger] e.val(p.a_hash.elements[i]) == e.hash(
                pair_vals(e, l.a_hash.elements, r.a_hash.elements),
            )[i],
        forall|i: int|
            0 <= i < 4 ==> #[trigger] e.val(p.b_hash.elements[i]) == e.hash(
                pair_vals(e, l.b_hash.elements, r.b_hash.elements),
            )[i],
        forall|i: int|
            0 <= i < 4 ==> #[trigger] e.val(p.merged_hash.elements[i]) == e.hash(
                digest(e, pair_vals(e, l.a_hash.elements, l.b_hash.elements)) + digest(
                    e,
                    pair_vals(e, r.a_hash.elements, r.b_hash.elements),
                ),
            )[i],
{
    let lm = digest(e, pair_vals(e, l.a_hash.elements, l.b_hash.elements));
    let rm = digest(e, pair_vals(e, r.a_hash.elements, r.b_hash.elements));
    assert(pair_vals(e, l.merged_hash.elements, r.merged_hash.elements) =~= lm + rm) by {
        assert forall|k: int| 0 <= k < 8 implies #[trigger] pair_vals(e, l.merged_hash.elements, r.merged_hash.elements)[k]
            == (lm + rm)[k] by {
            if k < 4 {
                assert(l.merged_hash.elements@[k] == l.merged_hash.elements[k]);
                assert(e.val(l.merged_hash.elements[k]) == forwarded(
                    e,
                    l.a_present,
                    l.a_hash.elements,
                    l.b_present,
                    l.b_hash.elements,
                    k,
                ));
            } else {
                assert(r.merged_hash.elements@[k - 4] == r.merged_hash.elements[k - 4]);
                assert(e.val(r.merged_hash.elements[k - 4]) == forwarded(
                    e,
                    r.a_present,
                    r.a_hash.elements,
                    r.b_present,
                    r.b_hash.elements,
                    k - 4,
                ));
            }
        }
    }
    assert forall|i: int| 0 <= i < 4 implies #[trigger] e.val(p.merged_hash.elements[i]) == e.hash(
        lm + rm,
    )[i] by {
        assert(e.val(p.merged_hash.elements[i]) == forwarded(
            e,
            l.merged_present,
            l.merged_hash.elements,
            r.merged_present,
            r.merged_hash.elements,
            i,
        ));
    }
}

} // verus!
