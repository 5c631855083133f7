//! Subcircuits for recursively proving addresses of leaves of a merkle
//! tree are correct.
use vstd::prelude::*;

use crate::circuit::{
    bit_of, closed, completes, env_set, holds, lemma_completes_trans, lemma_completes_weaken,
    lemma_fits_after, lemma_fits_prefix, lemma_push_completes, lemma_total_ext_completes,
    lemma_total_ext_push, lemma_total_ext_trans, lemma_wrote_chain, plan_sat, same_below, BoolTarget, CircuitBuilder, Env, Op, PartialWitness, ProofWithPublicInputsTarget, Target, WitnessConflict,
};
use crate::field::{
    fmod, half, is_canonical, lemma_fmod_add_once, lemma_fmod_small, lemma_half, lemma_half_unique,
    neg_one, p, ORDER,
};
use crate::indices::{BoolTargetIndex, TargetIndex};

verus! {

/// The positions of the public inputs of this subcircuit.
#[derive(Copy, Clone, PartialEq, Eq, Debug)]
pub struct PublicIndices {
    pub node_present: BoolTargetIndex,
    pub node_address: TargetIndex,
}

impl PublicIndices {
    /// Every position is below `len`.
    pub open spec fn within(self, len: nat) -> bool {
        self.node_present.0.0 < len && self.node_address.0 < len
    }
}

pub struct SubCircuitInputs {
    pub node_present: BoolTarget,
    /// The address of this node or `-1` if absent.
    pub node_address: Target,
}

impl SubCircuitInputs {
    /// Both targets are among the first `n`.
    pub open spec fn within(self, n: nat) -> bool {
        self.node_present.target.index < n && self.node_address.index < n
    }

    /// What a leaf accepts: the presence is a boolean, and the node is present
    /// exactly when its address is not `-1`.
    pub open spec fn leaf_holds(self, e: Env) -> bool {
        e.is_bool(self.node_present.target) && (e.truth(self.node_present.target) <==> e.val(
            self.node_address,
        ) != p() - 1)
    }
}

pub struct LeafTargets {
    pub node_present: BoolTarget,
    /// The address of this node or `-1` if absent.
    pub node_address: Target,
}

/// Allocates the presence flag and the address and registers them as public
/// inputs.
pub fn default(builder: &mut CircuitBuilder) -> (r: SubCircuitInputs)
    ensures
        final(builder).public_inputs@ == old(builder).public_inputs@.push(r.node_present.target).push(
            r.node_address,
        ),
        forall|e: Env| #[trigger] final(builder).sat(e) ==> old(builder).sat(e),
        forall|e: Env| e.valid() && #[trigger] final(builder).sat(e) ==> e.is_bool(r.node_present.target),
{
    let node_present = builder.add_virtual_bool_target_safe();
    let node_address = builder.add_virtual_target();
    builder.register_public_input(node_present.target);
    builder.register_public_input(node_address);
    SubCircuitInputs { node_present, node_address }
}

impl SubCircuitInputs {
    /// Proves the node is present exactly when its address is not `-1`.
    pub fn build_leaf(self, builder: &mut CircuitBuilder) -> (r: LeafTargets)
        ensures
            final(builder).grows(*old(builder)),
            r.node_present == self.node_present,
            r.node_address == self.node_address,
            forall|e: Env|
                e.valid() && #[trigger] final(builder).sat(e) ==> e.is_bool(self.node_present.target)
                    && (e.truth(self.node_present.target) <==> e.val(self.node_address) != p() - 1),
            self.within(old(builder).ops@.len()) ==> completes(
                old(builder).ops@,
                final(builder).ops@,
                |e: Env| self.leaf_holds(e),
            ),
            self.within(old(builder).ops@.len()) && closed(old(builder).ops@) ==> closed(
                final(builder).ops@,
            ),
    {
        let ghost b0 = *builder;
        let check_neg_one = builder.add_const(self.node_address, 1);
        let ghost b1 = *builder;
        let node_present_calc = builder.is_nonzero(check_neg_one);
        let ghost b2 = *builder;
        builder.connect(node_present_calc.target, self.node_present.target);
        proof {
            assert(b1.ops@.len() == b1.ops.len());
            assert(builder.ops@.len() == builder.ops.len());
            if self.within(b0.ops@.len()) {
                let pre = |e: Env| self.leaf_holds(e);
                let t = |e: Env| true;
                let (calc, present) = (node_present_calc.target, self.node_present.target);
                let pre3 = |e: Env| e.val(calc) == e.val(present);
                lemma_push_completes(
                    b0.ops@,
                    b1.ops@,
                    Op::AddConst { x: self.node_address, c: 1 },
                    |e: Env| fmod(e.val(self.node_address) + 1),
                    pre,
                );
                lemma_push_completes(b2.ops@, builder.ops@, Op::Connect { x: calc, y: present }, |e: Env| 0int, pre3);
                assert(b2.ops@.len() == b2.ops.len());
                lemma_total_ext_completes(b1.ops@, b2.ops@);
                lemma_completes_trans(b0.ops@, b1.ops@, b2.ops@, pre, t);
                assert forall|e: Env, e2: Env|
                    #![trigger pre(e), pre3(e2)]
                    e.valid() && plan_sat(b0.ops@, e) && pre(e) && e2.valid() && plan_sat(b2.ops@, e2) && same_below(
                        e,
                        e2,
                        b0.ops@.len(),
                    ) implies pre3(e2) by {
                    assert(b2.sat(e2));
                    assert(b1.sat(e2));
                    let a = e2.val(self.node_address);
                    assert((e.w)(self.node_address) == (e2.w)(self.node_address));
                    assert((e.w)(present) == (e2.w)(present));
                    if a == p() - 1 {
                        assert(fmod(a + 1) == 0) by {
                            vstd::arithmetic::div_mod::lemma_mod_self_0(p());
                        }
                    } else {
                        lemma_fmod_small(a + 1);
                    }
                }
                lemma_completes_trans(b0.ops@, b2.ops@, builder.ops@, pre, pre3);
            }
        }
        proof {
            assert forall|e: Env| e.valid() && #[trigger] builder.sat(e) implies e.is_bool(
                self.node_present.target,
            ) && (e.truth(self.node_present.target) <==> e.val(self.node_address) != p() - 1) by {
                let a = e.val(self.node_address);
                if a == p() - 1 {
                    assert(fmod(a + 1) == 0) by {
                        vstd::arithmetic::div_mod::lemma_mod_self_0(p());
                    }
                } else {
                    lemma_fmod_small(a + 1);
                }
            }
        }
        LeafTargets { node_present: self.node_present, node_address: self.node_address }
    }
}

/// The leaf subcircuit metadata.
pub struct LeafSubCircuit {
    pub targets: LeafTargets,
    pub indices: PublicIndices,
}

impl LeafTargets {
    /// Finds the positions of the public inputs.
    pub fn build(self, public_inputs: &[Target]) -> (r: LeafSubCircuit)
        requires
            public_inputs@.contains(self.node_present.target),
            public_inputs@.contains(self.node_address),
        ensures
            r.targets == self,
            r.indices.within(public_inputs@.len()),
            public_inputs@[r.indices.node_present.0.0 as int] == self.node_present.target,
            public_inputs@[r.indices.node_address.0 as int] == self.node_address,
    {
        let indices = PublicIndices {
            node_present: BoolTargetIndex::new(public_inputs, self.node_present),
            node_address: TargetIndex::new(public_inputs, self.node_address),
        };
        LeafSubCircuit { targets: self, indices }
    }
}

/// The field value of an optional address: the address, or `-1` when absent.
pub open spec fn address_value(node_address: Option<u64>) -> u64 {
    match node_address {
        Some(a) => a,
        None => (ORDER - 1) as u64,
    }
}

/// The targets of a presence flag and an address, in the order they are
/// given.
pub open spec fn address_targets(present: BoolTarget, address: Target) -> Seq<Target> {
    seq![present.target, address]
}

/// The values given to a presence flag and an address.
pub open spec fn address_values(present: bool, node_address: Option<u64>) -> Seq<u64> {
    seq![bit_of(present), address_value(node_address)]
}

/// Gives a presence flag and an address field value.
fn set_address(
    inputs: &mut PartialWitness,
    present_target: BoolTarget,
    address_target: Target,
    node_present: bool,
    node_address: Option<u64>,
) -> (r: Result<(), WitnessConflict>)
    requires
        node_address matches Some(a) ==> is_canonical(a),
    ensures
        r is Ok <==> old(inputs).fits(
            address_targets(present_target, address_target),
            address_values(node_present, node_address),
        ),
        r is Ok ==> final(inputs).wrote(
            *old(inputs),
            address_targets(present_target, address_target),
            address_values(node_present, node_address),
        ),
        r is Ok ==> final(inputs).view_map()[present_target.target] == (if node_present {
            1u64
        } else {
            0u64
        }),
        r is Ok ==> final(inputs).view_map()[address_target] == address_value(node_address),
        r is Ok ==> final(inputs).extends(*old(inputs)) && final(inputs).has(
            present_target.target,
            if node_present {
                1u64
            } else {
                0u64
            },
        ) && final(inputs).has(address_target, address_value(node_address)),
{
    let a = match node_address {
        Some(a) => a,
        None => neg_one(),
    };
    let ghost (t1, v1) = (seq![present_target.target], seq![bit_of(node_present)]);
    let ghost (t2, v2) = (seq![address_target], seq![address_value(node_address)]);
    let ghost w0 = *inputs;
    proof {
        lemma_fits_prefix(w0, t1, v1, t2, v2);
        assert(t1 + t2 == address_targets(present_target, address_target));
        assert(v1 + v2 == address_values(node_present, node_address));
    }
    inputs.set_bool_target(present_target, node_present)?;
    let ghost w1 = *inputs;
    proof {
        lemma_fits_after(w0, w1, t1, v1, t2, v2);
    }
    inputs.set_target(address_target, a)?;
    proof {
        lemma_wrote_chain(w0, w1, *inputs, t1, v1, t2, v2);
        assert(w1.has(present_target.target, bit_of(node_present)));
    }
    Ok(())
}

impl LeafSubCircuit {
    /// Gives the witness the address, `-1` when absent, and its presence.
    pub fn set_witness(&self, inputs: &mut PartialWitness, node_address: Option<u64>) -> (r: Result<
        (),
        WitnessConflict,
    >)
        requires
            node_address matches Some(a) ==> is_canonical(a),
        ensures
            r is Ok <==> old(inputs).fits(
                address_targets(self.targets.node_present, self.targets.node_address),
                address_values(node_address is Some, node_address),
            ),
            r is Ok ==> final(inputs).wrote(
                *old(inputs),
                address_targets(self.targets.node_present, self.targets.node_address),
                address_values(node_address is Some, node_address),
            ),
            r is Ok ==> final(inputs).view_map()[self.targets.node_present.target] == (
            if node_address is Some {
                1u64
            } else {
                0u64
            }),
            r is Ok ==> final(inputs).view_map()[self.targets.node_address] == address_value(
                node_address,
            ),
            r is Ok ==> final(inputs).extends(*old(inputs)) && final(inputs).has(
                self.targets.node_present.target,
                if node_address is Some {
                    1u64
                } else {
                    0u64
                },
            ) && final(inputs).has(self.targets.node_address, address_value(node_address)),
    {
        self.set_witness_unsafe(inputs, node_address.is_some(), node_address)
    }

    /// Gives the witness the presence flag and the address as they are.
    pub fn set_witness_unsafe(
        &self,
        inputs: &mut PartialWitness,
        node_present: bool,
        node_address: Option<u64>,
    ) -> (r: Result<(), WitnessConflict>)
        requires
            node_address matches Some(a) ==> is_canonical(a),
        ensures
            r is Ok <==> old(inputs).fits(
                address_targets(self.targets.node_present, self.targets.node_address),
                address_values(node_present, node_address),
            ),
            r is Ok ==> final(inputs).wrote(
                *old(inputs),
                address_targets(self.targets.node_present, self.targets.node_address),
                address_values(node_present, node_address),
            ),
            r is Ok ==> final(inputs).view_map()[self.targets.node_present.target] == (
            if node_present {
                1u64
            } else {
                0u64
            }),
            r is Ok ==> final(inputs).view_map()[self.targets.node_address] == address_value(
                node_address,
            ),
            r is Ok ==> final(inputs).extends(*old(inputs)) && final(inputs).has(
                self.targets.node_present.target,
                if node_present {
                    1u64
                } else {
                    0u64
                },
            ) && final(inputs).has(self.targets.node_address, address_value(node_address)),
    {
        set_address(
            inputs,
            self.targets.node_present,
            self.targets.node_address,
            node_present,
            node_address,
        )
    }
}

pub struct BranchTargets {
    /// The public inputs.
    pub inputs: SubCircuitInputs,
    /// The left direction: an even address, one less than the right's.
    pub left: SubCircuitInputs,
    /// The right direction: an odd address, one more than the left's.
    pub right: SubCircuitInputs,
}

/// The inputs of a child proof, read at the positions of this subcircuit.
pub fn direction_from_node(proof: &ProofWithPublicInputsTarget, indices: &PublicIndices) -> (r:
    SubCircuitInputs)
    requires
        indices.within(proof.public_inputs@.len()),
    ensures
        r.node_present.target == proof.public_inputs@[indices.node_present.0.0 as int],
        r.node_address == proof.public_inputs@[indices.node_address.0 as int],
{
    let node_present = indices.node_present.get_target(proof.public_inputs.as_slice());
    let node_address = indices.node_address.get_target(proof.public_inputs.as_slice());
    SubCircuitInputs { node_present, node_address }
}

/// What a branch proves of its address: the parent of a present child's
/// address (the address halved in the field, the right one less one first),
/// the left child's address when neither is present, and both children have
/// the same parent when both are present.
pub open spec fn branch_address(
    e: Env,
    node_present: Target,
    node_address: Target,
    l_present: Target,
    l_address: Target,
    r_present: Target,
    r_address: Target,
) -> bool {
    let (lp, rp) = (e.truth(l_present), e.truth(r_present));
    let x = e.val(node_address);
    &&& e.is_bool(node_present)
    &&& e.truth(node_present) == (lp || rp)
    &&& lp ==> fmod(x * 2) == e.val(l_address)
    &&& !lp && rp ==> fmod(x * 2) == fmod(e.val(r_address) - 1)
    &&& !lp && !rp ==> x == e.val(l_address)
    &&& lp && rp ==> fmod(e.val(r_address) - 1) == e.val(l_address)
}

/// What a branch accepts: the children's presences are booleans and the node
/// is the parent of the present children (see `branch_address`).
pub open spec fn branch_accepts(e: Env, t: SubCircuitInputs, l: SubCircuitInputs, r: SubCircuitInputs) -> bool {
    &&& e.is_bool(l.node_present.target)
    &&& e.is_bool(r.node_present.target)
    &&& branch_address(
        e,
        t.node_present.target,
        t.node_address,
        l.node_present.target,
        l.node_address,
        r.node_present.target,
        r.node_address,
    )
}

impl SubCircuitInputs {
    /// Proves the address of this node is the parent of its present
    /// children's addresses.
    pub fn build_branch(
        self,
        builder: &mut CircuitBuilder,
        indices: &PublicIndices,
        left_proof: &ProofWithPublicInputsTarget,
        right_proof: &ProofWithPublicInputsTarget,
    ) -> (r: BranchTargets)
        requires
            indices.within(left_proof.public_inputs@.len()),
            indices.within(right_proof.public_inputs@.len()),
        ensures
            final(builder).grows(*old(builder)),
            r.inputs == self,
            r.left.node_present.target == left_proof.public_inputs@[indices.node_present.0.0 as int],
            r.left.node_address == left_proof.public_inputs@[indices.node_address.0 as int],
            r.right.node_present.target == right_proof.public_inputs@[indices.node_present.0.0 as int],
            r.right.node_address == right_proof.public_inputs@[indices.node_address.0 as int],
            forall|e: Env|
                e.valid() && #[trigger] final(builder).sat(e) && e.is_bool(r.left.node_present.target)
                    && e.is_bool(r.right.node_present.target) ==> branch_address(
                    e,
                    self.node_present.target,
                    self.node_address,
                    r.left.node_present.target,
                    r.left.node_address,
                    r.right.node_present.target,
                    r.right.node_address,
                ),
            self.within(old(builder).ops@.len()) && r.left.within(old(builder).ops@.len())
                && r.right.within(old(builder).ops@.len()) ==> completes(
                old(builder).ops@,
                final(builder).ops@,
                |e: Env| branch_accepts(e, self, r.left, r.right),
            ),
            self.within(old(builder).ops@.len()) && r.left.within(old(builder).ops@.len())
                && r.right.within(old(builder).ops@.len()) && closed(old(builder).ops@) ==> closed(
                final(builder).ops@,
            ),
    {
        let left = direction_from_node(left_proof, indices);
        let right = direction_from_node(right_proof, indices);
        let ghost c0 = *builder;
        let one = builder.one();
        let ghost c1 = *builder;
        let two = builder.two();
        let ghost c2 = *builder;
        let l_present = left.node_present;
        let l_address = left.node_address;
        let r_present = right.node_present;
        let r_address = right.node_address;
        let both_present = builder.and(l_present, r_present);
        let ghost c3 = *builder;
        let node_present_calc = builder.or(l_present, r_present);
        let ghost c4 = *builder;
        let l_parent = builder.div(l_address, two);
        let ghost c5 = *builder;
        let minus_one = neg_one();
        let r_parent0 = builder.add_const(r_address, minus_one);
        let ghost c6 = *builder;
        let r_parent = builder.div(r_parent0, two);
        let ghost c7 = *builder;
        let parents_match0 = builder.is_equal(l_parent, r_parent);
        let ghost c8 = *builder;
        let parents_match = builder.select(both_present, parents_match0.target, one);
        let ghost c9 = *builder;
        builder.connect(parents_match, one);
        let ghost c10 = *builder;
        let parent = builder.select(l_present, l_parent, r_parent);
        let ghost c11 = *builder;
        let node_address_calc = builder.select(node_present_calc, parent, l_address);
        let ghost c12 = *builder;
        builder.connect(node_present_calc.target, self.node_present.target);
        let ghost c13 = *builder;
        builder.connect(node_address_calc, self.node_address);
        proof {
            assert(builder.ops@.len() == builder.ops.len());
            assert(minus_one == ORDER - 1);
            let n0: int = c0.ops@.len() as int;
            let m0 = c0.ops@.len();
            if self.within(m0) && left.within(m0) && right.within(m0) {
                let pre = |e: Env| branch_accepts(e, self, left, right);
                let t = |e: Env| true;
                // the constants and the boolean combinations
                lemma_total_ext_push(c0.ops@, Op::Constant { c: 1 });
                lemma_total_ext_push(c1.ops@, Op::Constant { c: 2 });
                lemma_total_ext_push(c2.ops@, Op::And { a: l_present.target, b: r_present.target });
                lemma_total_ext_push(c3.ops@, Op::Or { a: l_present.target, b: r_present.target });
                lemma_total_ext_trans(c0.ops@, c1.ops@, c2.ops@);
                lemma_total_ext_trans(c0.ops@, c2.ops@, c3.ops@);
                lemma_total_ext_trans(c0.ops@, c3.ops@, c4.ops@);
                lemma_total_ext_completes(c0.ops@, c4.ops@);
                lemma_completes_weaken(c0.ops@, c4.ops@, t, pre);
                // halving the left address
                let two_is = |e: Env| e.val(two) == 2;
                let hl = |e: Env| fmod(e.val(l_address) * half());
                assert forall|e: Env| #![trigger two_is(e)] e.valid() && two_is(e) implies 0 <= hl(e) < p()
                    && holds(Op::Div { x: l_address, y: two }, n0 + 4, env_set(e, (n0 + 4) as nat, hl(e))) by {
                    lemma_half(e.val(l_address));
                    assert(crate::circuit::target_at(n0 + 4).index == n0 + 4);
                }
                lemma_push_completes(c4.ops@, c5.ops@, Op::Div { x: l_address, y: two }, hl, two_is);
                assert forall|e: Env, e2: Env|
                    #![trigger pre(e), two_is(e2)]
                    e.valid() && plan_sat(c0.ops@, e) && pre(e) && e2.valid() && plan_sat(c4.ops@, e2)
                        && same_below(e, e2, m0) implies two_is(e2) by {
                    assert(c4.sat(e2));
                    assert(c2.sat(e2));
                }
                lemma_completes_trans(c0.ops@, c4.ops@, c5.ops@, pre, two_is);
                // the right address less one, halved
                lemma_total_ext_push(c5.ops@, Op::AddConst { x: r_address, c: minus_one });
                lemma_total_ext_completes(c5.ops@, c6.ops@);
                lemma_completes_trans(c0.ops@, c5.ops@, c6.ops@, pre, t);
                let hr = |e: Env| fmod(e.val(r_parent0) * half());
                assert forall|e: Env| #![trigger two_is(e)] e.valid() && two_is(e) implies 0 <= hr(e) < p()
                    && holds(Op::Div { x: r_parent0, y: two }, n0 + 6, env_set(e, (n0 + 6) as nat, hr(e))) by {
                    lemma_half(e.val(r_parent0));
                    assert(crate::circuit::target_at(n0 + 6).index == n0 + 6);
                }
                lemma_push_completes(c6.ops@, c7.ops@, Op::Div { x: r_parent0, y: two }, hr, two_is);
                assert forall|e: Env, e2: Env|
                    #![trigger pre(e), two_is(e2)]
                    e.valid() && plan_sat(c0.ops@, e) && pre(e) && e2.valid() && plan_sat(c6.ops@, e2)
                        && same_below(e, e2, m0) implies two_is(e2) by {
                    assert(c6.sat(e2));
                    assert(c2.sat(e2));
                }
                lemma_completes_trans(c0.ops@, c6.ops@, c7.ops@, pre, two_is);
                // whether the parents match
                lemma_total_ext_push(c7.ops@, Op::IsEqual { x: l_parent, y: r_parent });
                lemma_total_ext_push(c8.ops@, Op::Select { b: both_present.target, x: parents_match0.target, y: one });
                lemma_total_ext_trans(c7.ops@, c8.ops@, c9.ops@);
                lemma_total_ext_completes(c7.ops@, c9.ops@);
                lemma_completes_trans(c0.ops@, c7.ops@, c9.ops@, pre, t);
                let same_pm = |e: Env| e.val(parents_match) == e.val(one);
                assert forall|e: Env| #![trigger same_pm(e)] e.valid() && same_pm(e) implies 0 <= (|e: Env| 0int)(e) < p()
                    && holds(
                    Op::Connect { x: parents_match, y: one },
                    n0 + 9,
                    env_set(e, (n0 + 9) as nat, (|e: Env| 0int)(e)),
                ) by {}
                lemma_push_completes(c9.ops@, c10.ops@, Op::Connect { x: parents_match, y: one }, |e: Env| 0int, same_pm);
                assert forall|e: Env, e2: Env|
                    #![trigger pre(e), same_pm(e2)]
                    e.valid() && plan_sat(c0.ops@, e) && pre(e) && e2.valid() && plan_sat(c9.ops@, e2)
                        && same_below(e, e2, m0) implies same_pm(e2) by {
                    assert(c9.sat(e2));
                    assert(c8.sat(e2));
                    assert(c7.sat(e2));
                    assert(c6.sat(e2));
                    assert(c5.sat(e2));
                    assert(c4.sat(e2) && c3.sat(e2) && c2.sat(e2) && c1.sat(e2));
                    let (lp, rp, la, ra) = (l_present.target, r_present.target, l_address, r_address);
                    assert((e.w)(lp) == (e2.w)(lp));
                    assert((e.w)(rp) == (e2.w)(rp));
                    assert((e.w)(la) == (e2.w)(la));
                    assert((e.w)(ra) == (e2.w)(ra));
                    assert(e2.is_bool(both_present.target));
                    if e2.truth(lp) && e2.truth(rp) {
                        let (lv, rv) = (e2.val(l_parent), e2.val(r_parent));
                        assert(0 <= (e2.w)(l_parent) < p() && 0 <= (e2.w)(r_parent) < p());
                        assert(fmod(e2.val(ra) + minus_one) == fmod(e2.val(ra) - 1)) by {
                            lemma_fmod_add_once(-1);
                            vstd::arithmetic::div_mod::lemma_add_mod_noop(e2.val(ra), -1, p());
                            vstd::arithmetic::div_mod::lemma_add_mod_noop(e2.val(ra), minus_one as int, p());
                        }
                        assert(fmod(lv * 2) == e2.val(la));
                        assert(fmod(rv * 2) == e2.val(r_parent0));
                        lemma_half_unique(lv, rv);
                        assert(e2.truth(parents_match0.target));
                    }
                    assert(e2.is_bool(parents_match0.target));
                }
                lemma_completes_trans(c0.ops@, c9.ops@, c10.ops@, pre, same_pm);
                // the parent and the address computed
                lemma_total_ext_push(c10.ops@, Op::Select { b: l_present.target, x: l_parent, y: r_parent });
                lemma_total_ext_push(c11.ops@, Op::Select { b: node_present_calc.target, x: parent, y: l_address });
                lemma_total_ext_trans(c10.ops@, c11.ops@, c12.ops@);
                lemma_total_ext_completes(c10.ops@, c12.ops@);
                lemma_completes_trans(c0.ops@, c10.ops@, c12.ops@, pre, t);
                let same_np = |e: Env| e.val(node_present_calc.target) == e.val(self.node_present.target);
                assert forall|e: Env| #![trigger same_np(e)] e.valid() && same_np(e) implies 0 <= (|e: Env| 0int)(e) < p()
                    && holds(
                    Op::Connect { x: node_present_calc.target, y: self.node_present.target },
                    n0 + 12,
                    env_set(e, (n0 + 12) as nat, (|e: Env| 0int)(e)),
                ) by {}
                lemma_push_completes(
                    c12.ops@,
                    c13.ops@,
                    Op::Connect { x: node_present_calc.target, y: self.node_present.target },
                    |e: Env| 0int,
                    same_np,
                );
                assert forall|e: Env, e2: Env|
                    #![trigger pre(e), same_np(e2)]
                    e.valid() && plan_sat(c0.ops@, e) && pre(e) && e2.valid() && plan_sat(c12.ops@, e2)
                        && same_below(e, e2, m0) implies same_np(e2) by {
                    assert(c12.sat(e2));
                    assert(c4.sat(e2));
                    let (lp, rp, np) = (l_present.target, r_present.target, self.node_present.target);
                    assert((e.w)(lp) == (e2.w)(lp));
                    assert((e.w)(rp) == (e2.w)(rp));
                    assert((e.w)(np) == (e2.w)(np));
                }
                lemma_completes_trans(c0.ops@, c12.ops@, c13.ops@, pre, same_np);
                let same_na = |e: Env| e.val(node_address_calc) == e.val(self.node_address);
                assert forall|e: Env| #![trigger same_na(e)] e.valid() && same_na(e) implies 0 <= (|e: Env| 0int)(e) < p()
                    && holds(
                    Op::Connect { x: node_address_calc, y: self.node_address },
                    n0 + 13,
                    env_set(e, (n0 + 13) as nat, (|e: Env| 0int)(e)),
                ) by {}
                lemma_push_completes(
                    c13.ops@,
                    builder.ops@,
                    Op::Connect { x: node_address_calc, y: self.node_address },
                    |e: Env| 0int,
                    same_na,
                );
                assert forall|e: Env, e2: Env|
                    #![trigger pre(e), same_na(e2)]
                    e.valid() && plan_sat(c0.ops@, e) && pre(e) && e2.valid() && plan_sat(c13.ops@, e2)
                        && same_below(e, e2, m0) implies same_na(e2) by {
                    assert(c13.sat(e2));
                    assert(c12.sat(e2));
                    assert(c11.sat(e2));
                    assert(c10.sat(e2));
                    assert(c9.sat(e2));
                    assert(c8.sat(e2));
                    assert(c7.sat(e2));
                    assert(c6.sat(e2) && c5.sat(e2) && c4.sat(e2) && c2.sat(e2));
                    let (lp, rp, la, ra) = (l_present.target, r_present.target, l_address, r_address);
                    let na = self.node_address;
                    assert((e.w)(lp) == (e2.w)(lp));
                    assert((e.w)(rp) == (e2.w)(rp));
                    assert((e.w)(la) == (e2.w)(la));
                    assert((e.w)(ra) == (e2.w)(ra));
                    assert((e.w)(na) == (e2.w)(na));
                    assert(e2.is_bool(node_present_calc.target));
                    let x = e2.val(na);
                    assert(0 <= (e2.w)(na) < p());
                    assert(0 <= (e2.w)(l_parent) < p() && 0 <= (e2.w)(r_parent) < p());
                    if e2.truth(lp) {
                        assert(fmod(e2.val(l_parent) * 2) == e2.val(la));
                        lemma_half_unique(e2.val(l_parent), x);
                    } else if e2.truth(rp) {
                        assert(fmod(e2.val(ra) + minus_one) == fmod(e2.val(ra) - 1)) by {
                            lemma_fmod_add_once(-1);
                            vstd::arithmetic::div_mod::lemma_add_mod_noop(e2.val(ra), -1, p());
                            vstd::arithmetic::div_mod::lemma_add_mod_noop(e2.val(ra), minus_one as int, p());
                        }
                        assert(fmod(e2.val(r_parent) * 2) == e2.val(r_parent0));
                        lemma_half_unique(e2.val(r_parent), x);
                    }
                }
                lemma_completes_trans(c0.ops@, c13.ops@, builder.ops@, pre, same_na);
            }
        }
        proof {
            assert forall|e: Env|
                e.valid() && #[trigger] builder.sat(e) && e.is_bool(l_present.target) && e.is_bool(
                    r_present.target,
                ) implies branch_address(
                e,
                self.node_present.target,
                self.node_address,
                l_present.target,
                l_address,
                r_present.target,
                r_address,
            ) by {
                let (lp, rp) = (e.truth(l_present.target), e.truth(r_present.target));
                let rpar = builder.ops@.len();
                vstd::arithmetic::mul::lemma_mul_is_commutative(e.val(self.node_address), 2);
                assert(e.is_bool(both_present.target));
                assert(e.is_bool(node_present_calc.target));
                if lp && rp {
                    assert(e.val(parents_match) == e.val(one));
                    assert(e.val(l_parent) == e.val(r_parent));
                    assert(fmod(e.val(r_address) + minus_one) == fmod(e.val(r_address) - 1)) by {
                        lemma_fmod_add_once(-1);
                        vstd::arithmetic::div_mod::lemma_add_mod_noop(
                            e.val(r_address) as int,
                            -1,
                            p(),
                        );
                        vstd::arithmetic::div_mod::lemma_add_mod_noop(
                            e.val(r_address) as int,
                            minus_one as int,
                            p(),
                        );
                    }
                }
                if !lp && rp {
                    assert(fmod(e.val(r_address) + minus_one) == fmod(e.val(r_address) - 1)) by {
                        lemma_fmod_add_once(-1);
                        vstd::arithmetic::div_mod::lemma_add_mod_noop(
                            e.val(r_address) as int,
                            -1,
                            p(),
                        );
                        vstd::arithmetic::div_mod::lemma_add_mod_noop(
                            e.val(r_address) as int,
                            minus_one as int,
                            p(),
                        );
                    }
                }
            }
        }
        BranchTargets { inputs: self, left, right }
    }
}

/// The branch subcircuit metadata.
pub struct BranchSubCircuit {
    pub targets: BranchTargets,
    pub indices: PublicIndices,
}

impl BranchTargets {
    /// Finds the positions of the public inputs; they are meant to be the
    /// same as the child's.
    pub fn build(self, child: &PublicIndices, public_inputs: &[Target]) -> (r: BranchSubCircuit)
        requires
            public_inputs@.contains(self.inputs.node_present.target),
            public_inputs@.contains(self.inputs.node_address),
        ensures
            r.targets == self,
            r.indices.within(public_inputs@.len()),
            public_inputs@[r.indices.node_present.0.0 as int] == self.inputs.node_present.target,
            public_inputs@[r.indices.node_address.0 as int] == self.inputs.node_address,
    {
        let indices = PublicIndices {
            node_present: BoolTargetIndex::new(public_inputs, self.inputs.node_present),
            node_address: TargetIndex::new(public_inputs, self.inputs.node_address),
        };
        BranchSubCircuit { indices, targets: self }
    }
}

impl BranchSubCircuit {
    /// Gives the witness the address, `-1` when absent, and its presence; the
    /// values also follow from the children.
    pub fn set_witness(&self, inputs: &mut PartialWitness, node_address: Option<u64>) -> (r: Result<
        (),
        WitnessConflict,
    >)
        requires
            node_address matches Some(a) ==> is_canonical(a),
        ensures
            r is Ok <==> old(inputs).fits(
                address_targets(self.targets.inputs.node_present, self.targets.inputs.node_address),
                address_values(node_address is Some, node_address),
            ),
            r is Ok ==> final(inputs).wrote(
                *old(inputs),
                address_targets(self.targets.inputs.node_present, self.targets.inputs.node_address),
                address_values(node_address is Some, node_address),
            ),
            r is Ok ==> final(inputs).view_map()[self.targets.inputs.node_present.target] == (
            if node_address is Some {
                1u64
            } else {
                0u64
            }),
            r is Ok ==> final(inputs).view_map()[self.targets.inputs.node_address]
                == address_value(node_address),
            r is Ok ==> final(inputs).extends(*old(inputs)) && final(inputs).has(
                self.targets.inputs.node_present.target,
                if node_address is Some {
                    1u64
                } else {
                    0u64
                },
            ) && final(inputs).has(self.targets.inputs.node_address, address_value(node_address)),
    {
        self.set_witness_unsafe(inputs, node_address.is_some(), node_address)
    }

    /// Gives the witness the presence flag and the address as they are.
    pub fn set_witness_unsafe(
        &self,
        inputs: &mut PartialWitness,
        node_present: bool,
        node_address: Option<u64>,
    ) -> (r: Result<(), WitnessConflict>)
        requires
            node_address matches Some(a) ==> is_canonical(a),
        ensures
            r is Ok <==> old(inputs).fits(
                address_targets(self.targets.inputs.node_present, self.targets.inputs.node_address),
                address_values(node_present, node_address),
            ),
            r is Ok ==> final(inputs).wrote(
                *old(inputs),
                address_targets(self.targets.inputs.node_present, self.targets.inputs.node_address),
                address_values(node_present, node_address),
            ),
            r is Ok ==> final(inputs).view_map()[self.targets.inputs.node_present.target] == (
            if node_present {
                1u64
            } else {
                0u64
            }),
            r is Ok ==> final(inputs).view_map()[self.targets.inputs.node_address]
                == address_value(node_address),
            r is Ok ==> final(inputs).extends(*old(inputs)) && final(inputs).has(
                self.targets.inputs.node_present.target,
                if node_present {
                    1u64
                } else {
                    0u64
                },
            ) && final(inputs).has(self.targets.inputs.node_address, address_value(node_address)),
    {
        set_address(
            inputs,
            self.targets.inputs.node_present,
            self.targets.inputs.node_address,
            node_present,
            node_address,
        )
    }
}

} // verus!
