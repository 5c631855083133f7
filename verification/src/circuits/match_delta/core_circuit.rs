//! Subcircuits for recursively proving state delta objects match summarized
//! state updates.
use vstd::prelude::*;

use crate::circuit::{
    bits_value, digest, given_targets, given_values, lemma_digest_vals, lemma_fits_after,
    lemma_fits_prefix, BoolTarget, CircuitBuilder, Env, HashOutTarget, PartialWitness,
    ProofWithPublicInputsTarget, Target, WitnessConflict,
};
use crate::circuits::accumulate_delta::core_circuit::{flag_in, lemma_flags_value, ints4};
use crate::event::{field_of_u64, u64_to_field, EventFlags, FlagSet};
use crate::field::{fmod, lemma_fmod_small};
use crate::gadgets::{all_zero, are_equal, are_zero, same_vals, zero_if};

verus! {

/// The positions of the public inputs of this subcircuit: it has none.
#[derive(Copy, Clone, PartialEq, Eq, Debug, Structural)]
pub struct PublicIndices {}

/// The public inputs of this subcircuit: it has none.
pub struct SubCircuitInputs {}

pub struct LeafTargets {
    /// The public inputs.
    pub inputs: SubCircuitInputs,
    /// The object/event block height.
    ///
    /// This is also the new `last_updated` for any writes.
    pub block_height: Target,
    /// The object address.
    pub address: Target,
    /// The (partial) object flags.
    pub object_flags: Target,
    /// The previous constraint owner.
    pub old_owner: [Target; 4],
    /// The new constraint owner.
    pub new_owner: [Target; 4],
    /// The previous data.
    pub old_data: [Target; 4],
    /// The new data.
    pub new_data: [Target; 4],
    /// The old `last_updated`.
    ///
    /// This is also the "new" `last_updated` for any read-only changes.
    pub last_updated: Target,
    /// The old credits.
    pub old_credits: Target,
    /// The new credits.
    pub new_credits: Target,
    /// The state hash.
    pub state_hash: HashOutTarget,
}

/// The values that an object's state is hashed from: owner, last update,
/// credits and data.
pub open spec fn state_values(owner: Seq<int>, last_updated: int, credits: int, data: Seq<int>) -> Seq<
    int,
> {
    owner + seq![last_updated, credits] + data
}

impl LeafTargets {
    /// The object is created: the old owner is zero.
    pub open spec fn is_creation(self, e: Env) -> bool {
        all_zero(e, self.old_owner)
    }

    /// The object is deleted: the new owner is zero.
    pub open spec fn is_deletion(self, e: Env) -> bool {
        all_zero(e, self.new_owner)
    }

    /// The object is touched by a write, an owner change or a change of
    /// credits.
    pub open spec fn is_updated(self, e: Env) -> bool {
        let flags = e.val(self.object_flags);
        ||| flag_in(flags, EventFlags::GiveOwnerFlag)
        ||| flag_in(flags, EventFlags::WriteFlag)
        ||| e.val(self.old_credits) != e.val(self.new_credits)
    }

    /// The new `last_updated`: zero for a deleted object, the block height
    /// for an updated one, the old one otherwise.
    pub open spec fn new_last_updated(self, e: Env) -> int {
        if self.is_deletion(e) {
            0
        } else if self.is_updated(e) {
            e.val(self.block_height)
        } else {
            e.val(self.last_updated)
        }
    }

    /// What the leaf proves of a partial object and the state update it
    /// summarizes: complete ownership changes and writes, an owner change
    /// only as creation or deletion, and the state hash of the address and
    /// the digests of the old and new states.
    pub open spec fn proves(self, e: Env) -> bool {
        let flags = e.val(self.object_flags);
        let give = flag_in(flags, EventFlags::GiveOwnerFlag);
        let old_state = state_values(
            e.vals(self.old_owner@),
            e.val(self.last_updated),
            e.val(self.old_credits),
            e.vals(self.old_data@),
        );
        let new_state = state_values(
            e.vals(self.new_owner@),
            self.new_last_updated(e),
            e.val(self.new_credits),
            e.vals(self.new_data@),
        );
        &&& 0 <= flags < 32
        &&& give == flag_in(flags, EventFlags::TakeOwnerFlag)
        &&& flag_in(flags, EventFlags::WriteFlag) || same_vals(e, self.old_data, self.new_data)
        &&& (self.is_creation(e) || self.is_deletion(e)) == give
        &&& !(self.is_creation(e) && self.is_deletion(e))
        &&& give != same_vals(e, self.old_owner, self.new_owner)
        &&& e.hash_val(self.state_hash) == digest(
            e,
            seq![e.val(self.address)] + digest(e, old_state) + digest(e, new_state),
        )
    }
}

/// The subcircuit has no public inputs.
pub fn default(_builder: &mut CircuitBuilder) -> (r: SubCircuitInputs)
    ensures
        final(_builder).ops@ == old(_builder).ops@,
        final(_builder).public_inputs@ == old(_builder).public_inputs@,
{
    SubCircuitInputs {  }
}

/// The targets of a state, in the order they are hashed.
fn state_inputs(owner: [Target; 4], last_updated: Target, credits: Target, data: [Target; 4]) -> (r:
    Vec<Target>)
    ensures
        r@ == owner@ + seq![last_updated, credits] + data@,
{
    let mut r: Vec<Target> = Vec::new();
    r.push(owner[0]);
    r.push(owner[1]);
    r.push(owner[2]);
    r.push(owner[3]);
    r.push(last_updated);
    r.push(credits);
    r.push(data[0]);
    r.push(data[1]);
    r.push(data[2]);
    r.push(data[3]);
    assert(r@ =~= owner@ + seq![last_updated, credits] + data@);
    r
}

/// The values of a concatenation are the concatenation of the values.
proof fn lemma_vals_concat(e: Env, a: Seq<Target>, b: Seq<Target>)
    ensures
        e.vals(a + b) == e.vals(a) + e.vals(b),
{
    assert(e.vals(a + b) =~= e.vals(a) + e.vals(b));
}

impl SubCircuitInputs {
    /// Proves the partial object matches the state update: see
    /// `LeafTargets::proves`.
    #[verifier::spinoff_prover]
    #[verifier::rlimit(60)]
    pub fn build_leaf(self, builder: &mut CircuitBuilder) -> (r: LeafTargets)
        ensures
            final(builder).grows(*old(builder)),
            forall|e: Env| e.valid() && #[trigger] final(builder).sat(e) ==> r.proves(e),
    {
        let one = builder.one();

        let block_height = builder.add_virtual_target();
        let address = builder.add_virtual_target();
        let object_flags = builder.add_virtual_target();
        let old_owner = builder.add_virtual_target_arr::<4>();
        let new_owner = builder.add_virtual_target_arr::<4>();
        let old_data = builder.add_virtual_target_arr::<4>();
        let new_data = builder.add_virtual_target_arr::<4>();
        let last_updated = builder.add_virtual_target();
        let old_credits = builder.add_virtual_target();
        let new_credits = builder.add_virtual_target();

        let flags = builder.split_le(object_flags, EventFlags::count());
        let write_flag = flags[EventFlags::WriteFlag.index()];
        let give_owner_flag = flags[EventFlags::GiveOwnerFlag.index()];
        let take_owner_flag = flags[EventFlags::TakeOwnerFlag.index()];
        let ghost b0 = *builder;

        let credits_unchanged = builder.is_equal(old_credits, new_credits);
        let credits_updated = builder.not(credits_unchanged);

        // Require ownership to be complete
        builder.connect(give_owner_flag.target, take_owner_flag.target);

        // Require writes to be complete
        let data_unchanged = are_equal(builder, old_data, new_data);
        let unchanged_or_flag = builder.or(data_unchanged, write_flag);
        builder.connect(unchanged_or_flag.target, one);
        let ghost b1 = *builder;

        // Ensure ownership changes are limited to creation and deletion
        let no_owner_change = are_equal(builder, old_owner, new_owner);
        let is_creation = are_zero(builder, old_owner);
        let is_deletion = are_zero(builder, new_owner);
        let is_owner_change = builder.add(is_creation.target, is_deletion.target);
        let ownership_mode = builder.add(is_owner_change, no_owner_change.target);
        // Exactly one mode is selected
        builder.connect(ownership_mode, one);
        // Mode based on flags
        builder.connect(is_owner_change, give_owner_flag.target);
        let ghost b2 = *builder;

        // Use block_height for any writes
        let updated = builder.or(give_owner_flag, write_flag);
        let updated = builder.or(updated, credits_updated);
        let new_last_updated = builder.select(updated, block_height, last_updated);
        let new_last_updated = zero_if(builder, is_deletion, new_last_updated);
        let ghost b3 = *builder;

        // Build the old hash
        let old_inputs = state_inputs(old_owner, last_updated, old_credits, old_data);
        let ghost old_in = old_inputs@;
        let old_hash = builder.hash_n_to_hash_no_pad(old_inputs);

        // Build the new hash
        let new_inputs = state_inputs(new_owner, new_last_updated, new_credits, new_data);
        let ghost new_in = new_inputs@;
        let new_hash = builder.hash_n_to_hash_no_pad(new_inputs);
        let ghost b4 = *builder;

        // Build the state summary hash
        let mut summary: Vec<Target> = Vec::new();
        summary.push(address);
        summary.push(old_hash.elements[0]);
        summary.push(old_hash.elements[1]);
        summary.push(old_hash.elements[2]);
        summary.push(old_hash.elements[3]);
        summary.push(new_hash.elements[0]);
        summary.push(new_hash.elements[1]);
        summary.push(new_hash.elements[2]);
        summary.push(new_hash.elements[3]);
        let ghost summary_in = summary@;
        assert(summary_in =~= seq![address] + old_hash.elements@ + new_hash.elements@);
        let state_hash = builder.hash_n_to_hash_no_pad(summary);

        let r = LeafTargets {
            inputs: self,
            block_height,
            address,
            object_flags,
            old_owner,
            new_owner,
            old_data,
            new_data,
            last_updated,
            old_credits,
            new_credits,
            state_hash,
        };
        proof {
            reveal_with_fuel(bits_value, 6);
            assert forall|e: Env| e.valid() && #[trigger] builder.sat(e) implies r.proves(e) by {
                assert(b0.sat(e) && b1.sat(e) && b2.sat(e) && b3.sat(e) && b4.sat(e));
                // the flags
                let fv = e.vals(flags@.map_values(|b: BoolTarget| b.target));
                assert(e.is_bool(flags@[0].target) && e.is_bool(flags@[1].target) && e.is_bool(
                    flags@[2].target,
                ) && e.is_bool(flags@[3].target) && e.is_bool(flags@[4].target));
                assert(fv.drop_first().drop_first().drop_first().drop_first().drop_first().len()
                    == 0);
                assert(fv[0] == e.val(flags@[0].target));
                assert(fv[1] == e.val(flags@[1].target));
                assert(fv[2] == e.val(flags@[2].target));
                assert(fv[3] == e.val(flags@[3].target));
                assert(fv[4] == e.val(flags@[4].target));
                lemma_flags_value(
                    e.truth(flags@[0].target),
                    e.truth(flags@[1].target),
                    e.truth(flags@[2].target),
                    e.truth(flags@[3].target),
                    e.truth(flags@[4].target),
                );
                // ownership modes
                let (c, d, n) = (
                    e.val(is_creation.target),
                    e.val(is_deletion.target),
                    e.val(no_owner_change.target),
                );
                lemma_fmod_small(c + d);
                lemma_fmod_small(c + d + n);
                // the hashes
                lemma_vals_concat(e, old_owner@ + seq![last_updated, old_credits], old_data@);
                lemma_vals_concat(e, old_owner@, seq![last_updated, old_credits]);
                lemma_vals_concat(e, new_owner@ + seq![new_last_updated, new_credits], new_data@);
                lemma_vals_concat(e, new_owner@, seq![new_last_updated, new_credits]);
                assert(e.vals(seq![last_updated, old_credits]) =~= seq![
                    e.val(last_updated),
                    e.val(old_credits),
                ]);
                assert(e.vals(seq![new_last_updated, new_credits]) =~= seq![
                    r.new_last_updated(e),
                    e.val(new_credits),
                ]);
                lemma_digest_vals(e, old_hash, e.vals(old_in));
                lemma_digest_vals(e, new_hash, e.vals(new_in));
                lemma_vals_concat(e, seq![address] + old_hash.elements@, new_hash.elements@);
                lemma_vals_concat(e, seq![address], old_hash.elements@);
                assert(e.vals(seq![address]) =~= seq![e.val(address)]);
                lemma_digest_vals(e, state_hash, e.vals(summary_in));
            }
        }
        r
    }
}

/// The leaf subcircuit metadata. This subcircuit validates a partial
/// object corresponds to a state update.
pub struct LeafSubCircuit {
    pub targets: LeafTargets,
    pub indices: PublicIndices,
}

impl LeafTargets {
    /// The subcircuit has no public inputs to find.
    pub fn build(self, _public_inputs: &[Target]) -> (r: LeafSubCircuit)
        ensures
            r.targets == self,
            r.indices == (PublicIndices {  }),
    {
        let indices = PublicIndices {  };
        LeafSubCircuit { targets: self, indices }
    }
}

/// The values a leaf is proven with.
#[derive(Clone, Copy, PartialEq, Eq, Debug)]
pub struct LeafWitnessValue {
    /// The object/event block height.
    ///
    /// This is also the new `last_updated` for any writes.
    pub block_height: u64,
    /// The object address.
    pub address: u64,
    /// The (partial) object flags.
    pub object_flags: FlagSet,
    /// The previous constraint owner.
    pub old_owner: [u64; 4],
    /// The new constraint owner.
    pub new_owner: [u64; 4],
    /// The previous data.
    pub old_data: [u64; 4],
    /// The new data.
    pub new_data: [u64; 4],
    /// The old `last_updated`.
    ///
    /// This is also the "new" `last_updated` for any read-only changes.
    pub last_updated: u64,
    /// The old credits.
    pub old_credits: u64,
    /// The new credits.
    pub new_credits: u64,
}

impl LeafSubCircuit {
    /// The witness gives the targets of the leaf the values of `v`.
    pub open spec fn witness_has(self, w: PartialWitness, v: LeafWitnessValue) -> bool {
        let t = self.targets;
        &&& w.has(t.block_height, field_of_u64(v.block_height))
        &&& w.has(t.address, field_of_u64(v.address))
        &&& w.has(t.object_flags, v.object_flags.bits as u64)
        &&& w.has_arr(t.old_owner, v.old_owner)
        &&& w.has_arr(t.new_owner, v.new_owner)
        &&& w.has_arr(t.old_data, v.old_data)
        &&& w.has_arr(t.new_data, v.new_data)
        &&& w.has(t.last_updated, field_of_u64(v.last_updated))
        &&& w.has(t.old_credits, field_of_u64(v.old_credits))
        &&& w.has(t.new_credits, field_of_u64(v.new_credits))
    }

    /// The targets of the leaf's values, in the order they are given.
    pub open spec fn value_targets(self) -> Seq<Target> {
        let t = self.targets;
        seq![t.block_height, t.address, t.object_flags] + t.old_owner@ + t.new_owner@ + t.old_data@
            + t.new_data@ + seq![t.last_updated, t.old_credits, t.new_credits]
    }

    /// The leaf's values, in the order they are given.
    pub open spec fn values(v: LeafWitnessValue) -> Seq<u64> {
        seq![field_of_u64(v.block_height), field_of_u64(v.address), v.object_flags.bits as u64]
            + v.old_owner@ + v.new_owner@ + v.old_data@ + v.new_data@ + seq![
            field_of_u64(v.last_updated),
            field_of_u64(v.old_credits),
            field_of_u64(v.new_credits),
        ]
    }

    /// Gives the witness the values; the state hash follows from them.
    pub fn set_witness(&self, witness: &mut PartialWitness, v: LeafWitnessValue) -> (r: Result<
        (),
        WitnessConflict,
    >)
        ensures
            r is Ok <==> old(witness).fits(self.value_targets(), Self::values(v)),
            r is Ok ==> final(witness).extends(*old(witness)) && self.witness_has(*final(witness), v),
    {
        let r = self.set_witness_unsafe(witness, v, None);
        proof {
            assert(self.value_targets() + given_targets(false, self.targets.state_hash.elements@)
                =~= self.value_targets());
            assert(Self::values(v) + given_values(None) =~= Self::values(v));
        }
        r
    }

    /// Gives the witness the values and, when given, the state hash.
    pub fn set_witness_unsafe(
        &self,
        inputs: &mut PartialWitness,
        v: LeafWitnessValue,
        state_hash: Option<[u64; 4]>,
    ) -> (r: Result<(), WitnessConflict>)
        ensures
            r is Ok <==> old(inputs).fits(
                self.value_targets() + given_targets(state_hash is Some, self.targets.state_hash.elements@),
                Self::values(v) + given_values(state_hash),
            ),
            r is Ok ==> final(inputs).extends(*old(inputs)) && self.witness_has(*final(inputs), v),
            r is Ok ==> (state_hash matches Some(h) ==> final(inputs).has_arr(
                self.targets.state_hash.elements,
                h,
            )),
    {
        let t = &self.targets;
        let ts: [Target; 22] = [
            t.block_height,
            t.address,
            t.object_flags,
            t.old_owner[0],
            t.old_owner[1],
            t.old_owner[2],
            t.old_owner[3],
            t.new_owner[0],
            t.new_owner[1],
            t.new_owner[2],
            t.new_owner[3],
            t.old_data[0],
            t.old_data[1],
            t.old_data[2],
            t.old_data[3],
            t.new_data[0],
            t.new_data[1],
            t.new_data[2],
            t.new_data[3],
            t.last_updated,
            t.old_credits,
            t.new_credits,
        ];
        let vs: [u64; 22] = [
            u64_to_field(v.block_height),
            u64_to_field(v.address),
            v.object_flags.bits as u64,
            v.old_owner[0],
            v.old_owner[1],
            v.old_owner[2],
            v.old_owner[3],
            v.new_owner[0],
            v.new_owner[1],
            v.new_owner[2],
            v.new_owner[3],
            v.old_data[0],
            v.old_data[1],
            v.old_data[2],
            v.old_data[3],
            v.new_data[0],
            v.new_data[1],
            v.new_data[2],
            v.new_data[3],
            u64_to_field(v.last_updated),
            u64_to_field(v.old_credits),
            u64_to_field(v.new_credits),
        ];
        let ghost (t1, v1) = (self.value_targets(), Self::values(v));
        let ghost (t2, v2) = (
            given_targets(state_hash is Some, t.state_hash.elements@),
            given_values(state_hash),
        );
        let ghost w0 = *inputs;
        proof {
            assert(ts@ =~= t1);
            assert(vs@ =~= v1);
            lemma_fits_prefix(w0, t1, v1, t2, v2);
        }
        inputs.set_target_arr(&ts, &vs)?;
        let ghost w1 = *inputs;
        proof {
            lemma_fits_after(w0, w1, t1, v1, t2, v2);
            assert(ts[0] == t.block_height && ts[1] == t.address && ts[2] == t.object_flags);
            assert(ts[19] == t.last_updated && ts[20] == t.old_credits && ts[21] == t.new_credits);
            assert forall|k: int| 0 <= k < 4 implies {
                &&& #[trigger] ts[3 + k] == t.old_owner[k] && vs[3 + k] == v.old_owner[k]
                &&& ts[7 + k] == t.new_owner[k] && vs[7 + k] == v.new_owner[k]
                &&& ts[11 + k] == t.old_data[k] && vs[11 + k] == v.old_data[k]
                &&& ts[15 + k] == t.new_data[k] && vs[15 + k] == v.new_data[k]
            } by {}
            assert(self.witness_has(w1, v));
        }
        if let Some(state_hash) = state_hash {
            inputs.set_hash_target(t.state_hash, state_hash)?;
            assert(inputs.has_arr(t.state_hash.elements, state_hash));
        }
        proof {
            assert(self.witness_has(*inputs, v));
        }
        Ok(())
    }
}

pub struct BranchTargets {
    /// The public inputs.
    pub inputs: SubCircuitInputs,
    /// The left direction.
    pub left: SubCircuitInputs,
    /// The right direction.
    pub right: SubCircuitInputs,
}

/// The inputs of a child proof: there are none.
pub fn direction_from_node(_proof: &ProofWithPublicInputsTarget, _indices: &PublicIndices) -> (r:
    SubCircuitInputs) {
    SubCircuitInputs {  }
}

impl SubCircuitInputs {
    /// The branch adds no constraint.
    pub fn build_branch(
        self,
        _builder: &mut CircuitBuilder,
        indices: &PublicIndices,
        left_proof: &ProofWithPublicInputsTarget,
        right_proof: &ProofWithPublicInputsTarget,
    ) -> (r: BranchTargets)
        ensures
            final(_builder).ops@ == old(_builder).ops@,
            final(_builder).public_inputs@ == old(_builder).public_inputs@,
    {
        let left = direction_from_node(left_proof, indices);
        let right = direction_from_node(right_proof, indices);
        BranchTargets { inputs: self, left, right }
    }
}

pub struct BranchSubCircuit {
    pub targets: BranchTargets,
    pub indices: PublicIndices,
}

impl BranchTargets {
    /// The subcircuit has no public inputs to find.
    pub fn build(self, child: &PublicIndices, _public_inputs: &[Target]) -> (r: BranchSubCircuit)
        ensures
            r.indices == *child,
    {
        let indices = PublicIndices {  };
        BranchSubCircuit { indices, targets: self }
    }
}

impl BranchSubCircuit {
    /// Nothing to give.
    pub fn set_witness(&self, _inputs: &mut PartialWitness)
        ensures
            final(_inputs).view_map() == old(_inputs).view_map(),
    {
    }
}

} // verus!
