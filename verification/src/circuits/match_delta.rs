//! Circuits for recursively proving state delta objects match summarized
//! state updates.
use vstd::prelude::*;

use crate::circuit::{
    bit_of, cap_height_ok, lemma_fits_after, lemma_fits_prefix, lemma_wrote_chain, CircuitBuilder,
    CommonCircuitData, Env, PartialWitness, ProofWithPublicInputsTarget, Target, WitnessConflict,
};
use crate::circuits::accumulate_delta::core_circuit::{
    direction_from_node, flag_in, has_new_owner, ints4, DeltaValues, SplitFlags,
};
use crate::circuits::accumulate_delta::core_circuit as acc;
use crate::event::{field_of_u64, u64_to_field, EventFlags};
use crate::field::fmod;
use crate::gadgets::{connect_arrays, maybe_connect, same_vals};
use crate::indices::all_within;
use crate::subcircuits::unpruned::PartialAllowed;
use crate::subcircuits::{propagate, unbounded, unpruned};

pub mod core_circuit;

verus! {

/// The positions of the public inputs of a proof of matched deltas.
#[derive(Copy, Clone, PartialEq, Eq, Debug)]
pub struct Indices {
    pub event_hash: unpruned::PublicIndices,
    pub state_hash: unpruned::PublicIndices,
    pub compare_delta: core_circuit::PublicIndices,
    pub block_height: propagate::PublicIndices<1>,
}

impl Indices {
    /// Every position is below `len`.
    pub open spec fn within(self, len: nat) -> bool {
        &&& self.event_hash.unpruned_hash.within(len)
        &&& self.state_hash.unpruned_hash.within(len)
        &&& all_within(self.block_height.values.0, len)
    }
}

/// A proof of matched deltas, by its public inputs, with their positions.
pub struct Proof {
    pub public_inputs: Vec<u64>,
    pub indices: Indices,
}

impl Proof {
    /// The hash of the events.
    pub fn events(&self) -> (r: [u64; 4])
        requires
            self.indices.within(self.public_inputs@.len()),
        ensures
            forall|k: int|
                0 <= k < 4 ==> #[trigger] r[k] == self.public_inputs@[self.indices.event_hash.unpruned_hash.pos(k)],
    {
        self.indices.event_hash.unpruned_hash.get_field(self.public_inputs.as_slice())
    }

    /// The hash of the state updates.
    pub fn state_hash(&self) -> (r: [u64; 4])
        requires
            self.indices.within(self.public_inputs@.len()),
        ensures
            forall|k: int|
                0 <= k < 4 ==> #[trigger] r[k] == self.public_inputs@[self.indices.state_hash.unpruned_hash.pos(k)],
    {
        self.indices.state_hash.unpruned_hash.get_field(self.public_inputs.as_slice())
    }

    /// The block height.
    pub fn block_height(&self) -> (r: u64)
        requires
            self.indices.within(self.public_inputs@.len()),
        ensures
            r == self.public_inputs@[self.indices.block_height.values.0[0].0 as int],
    {
        self.indices.block_height.values.get_field(self.public_inputs.as_slice())[0]
    }
}

/// What the match leaf needs of the circuit that accumulates events: the
/// positions of its event hash and partial object, and the circuit itself.
pub struct AccumulateDeltaCircuit {
    pub event_hash: unpruned::PublicIndices,
    pub partial_state: acc::PublicIndices,
    pub common: CommonCircuitData,
}

pub struct LeafTargets {
    /// The proof of event accumulation.
    pub accumulate_event: ProofWithPublicInputsTarget,
}

/// The leaf circuit: a state update of one object matches the partial
/// object that the events on it accumulate to.
pub struct LeafCircuit {
    /// The recursion subcircuit: the branch circuit's verifier data.
    pub unbounded: unbounded::LeafSubCircuit,
    /// The rp-style merkle hash of events.
    pub event_hash: unpruned::LeafSubCircuit,
    /// The rp-style merkle hash of summarized state updates.
    pub state_hash: unpruned::LeafSubCircuit,
    /// The delta/state update comparator.
    pub compare_delta: core_circuit::LeafSubCircuit,
    /// The block height.
    pub block_height: propagate::LeafSubCircuit<1>,
    pub targets: LeafTargets,
    /// The plan of the circuit.
    pub circuit: CircuitBuilder,
    /// The shape of the circuit's proofs, and the number that names it.
    pub common: CommonCircuitData,
}

/// The state update `cd` matches the accumulated partial object `d`: same
/// address and flags, the owners where the owner changes, the old data where
/// read, the new data where written, and a credit change of the delta.
pub open spec fn matches_delta(e: Env, cd: core_circuit::LeafTargets, d: DeltaValues) -> bool {
    &&& e.val(cd.address) == d.address
    &&& e.val(cd.object_flags) == d.object_flags
    &&& has_new_owner(d.object_flags) ==> e.vals(cd.old_owner@) == d.old_owner && e.vals(
        cd.new_owner@,
    ) == d.new_owner
    &&& flag_in(d.object_flags, EventFlags::ReadFlag) ==> e.vals(cd.old_data@) == d.old_data
    &&& flag_in(d.object_flags, EventFlags::WriteFlag) ==> e.vals(cd.new_data@) == d.new_data
    &&& d.credit_delta == fmod(e.val(cd.new_credits) - e.val(cd.old_credits))
}

/// Equal values element by element give equal sequences of values.
proof fn lemma_same_seq(e: Env, a: [Target; 4], b: [Target; 4])
    requires
        same_vals(e, a, b),
    ensures
        e.vals(a@) == e.vals(b@),
{
    assert(e.vals(a@) =~= e.vals(b@));
}

impl LeafCircuit {
    /// Plans the leaf circuit: verifies a proof of accumulated events,
    /// proves the state update of one object (see
    /// `core_circuit::LeafTargets::proves`) and that it matches the events'
    /// partial object (see `matches_delta`), and exposes the event hash, the
    /// state hash and the block height. The circuit is named `id`, and its
    /// verifier data has a cap of `2^cap_height` digests.
    #[verifier::rlimit(40)]
    pub fn new(accumulate_event_circuit: &AccumulateDeltaCircuit, cap_height: usize, id: usize) -> (r: Self)
        requires
            cap_height_ok(cap_height),
            accumulate_event_circuit.partial_state.within(
                accumulate_event_circuit.common.num_public_inputs as nat,
            ),
            accumulate_event_circuit.event_hash.unpruned_hash.within(
                accumulate_event_circuit.common.num_public_inputs as nat,
            ),
            crate::circuit::cap_height_ok(accumulate_event_circuit.common.cap_height),
        ensures
            r.common.cap_height == cap_height,
            r.common.id == id,
            r.unbounded.in_leaf(r.circuit.public_inputs@, r.common),
            r.targets.accumulate_event.public_inputs@.len()
                == accumulate_event_circuit.common.num_public_inputs,
            r.event_hash.indices.locates(r.circuit.public_inputs@, r.event_hash.targets.inputs.unpruned_hash),
            r.state_hash.indices.locates(r.circuit.public_inputs@, r.state_hash.targets.inputs.unpruned_hash),
            r.block_height.indices.locates(r.circuit.public_inputs@, r.block_height.targets.inputs.values),
            forall|e: Env| #[trigger]
                r.circuit.sat(e) ==> e.verified(
                    accumulate_event_circuit.common.id,
                    e.verifier_data(accumulate_event_circuit.common.id),
                    e.vals(r.targets.accumulate_event.public_inputs@),
                ),
            forall|e: Env|
                e.valid() && #[trigger] r.circuit.sat(e) ==> {
                    let pis = r.targets.accumulate_event.public_inputs@;
                    let acc_inputs = acc::direction_spec(pis, accumulate_event_circuit.partial_state);
                    let cd = r.compare_delta.targets;
                    &&& cd.proves(e)
                    &&& matches_delta(e, cd, acc_inputs.values(e))
                    &&& forall|k: int|
                        0 <= k < 4 ==> #[trigger] e.val(
                            r.event_hash.targets.inputs.unpruned_hash.elements[k],
                        ) == e.val(pis[accumulate_event_circuit.event_hash.unpruned_hash.pos(k)])
                    &&& forall|k: int|
                        0 <= k < 4 ==> #[trigger] e.val(cd.state_hash.elements[k]) == e.val(
                            r.state_hash.targets.inputs.unpruned_hash.elements[k],
                        )
                    &&& e.val(r.block_height.targets.inputs.values[0]) == e.val(cd.block_height)
                },
    {
        let mut builder = CircuitBuilder::new();
        let event_hash_inputs = unpruned::default(&mut builder);
        let state_hash_inputs = unpruned::default(&mut builder);
        let compare_delta_inputs = core_circuit::default(&mut builder);
        let block_height_inputs = propagate::default::<1>(&mut builder);
        let unbounded_inputs = unbounded::default(&mut builder, cap_height);
        let ghost registered = builder.public_inputs@;

        let unbounded_targets = unbounded_inputs.build_leaf(&mut builder);
        let event_hash_targets = event_hash_inputs.build_leaf(&mut builder);
        let state_hash_targets = state_hash_inputs.build_leaf(&mut builder);
        let compare_delta_targets = compare_delta_inputs.build_leaf(&mut builder);
        let block_height_targets = block_height_inputs.build_leaf(&mut builder);
        let ghost b0 = builder;

        let circuit = &accumulate_event_circuit.common;
        let accumulate_event = builder.add_virtual_proof_with_pis(circuit.num_public_inputs);
        let targets = LeafTargets { accumulate_event };

        // Validate the accumulate_event proof and connect all the inputs
        let verifier = builder.constant_verifier_data(circuit.id, circuit.cap_height);
        let ghost bc = builder;
        builder.verify_proof(&targets.accumulate_event, &verifier, circuit.id);
        let ghost bv = builder;
        let pis = targets.accumulate_event.public_inputs.as_slice();
        let acc_inputs = direction_from_node(&targets.accumulate_event, &accumulate_event_circuit.partial_state);
        proof {
            acc::lemma_direction_spec(pis@, accumulate_event_circuit.partial_state, acc_inputs);
        }

        // event hash
        let acc_event_hash = accumulate_event_circuit.event_hash.unpruned_hash.get_target(pis);
        builder.connect_hashes(event_hash_targets.inputs.unpruned_hash, acc_event_hash);
        // address
        builder.connect(compare_delta_targets.address, acc_inputs.address);
        // flags
        let acc_flags = acc_inputs.object_flags;
        builder.connect(compare_delta_targets.object_flags, acc_flags);
        let acc_flags = SplitFlags::split(&mut builder, acc_flags);
        let has_owner = builder.is_nonzero(acc_flags.owner);
        let ghost b1 = builder;
        // old owner
        maybe_connect(&mut builder, compare_delta_targets.old_owner, has_owner, acc_inputs.old_owner);
        // new owner
        maybe_connect(&mut builder, compare_delta_targets.new_owner, has_owner, acc_inputs.new_owner);
        // old data
        maybe_connect(&mut builder, compare_delta_targets.old_data, acc_flags.read, acc_inputs.old_data);
        // new data
        maybe_connect(&mut builder, compare_delta_targets.new_data, acc_flags.write, acc_inputs.new_data);
        let ghost b2 = builder;
        // credit delta
        let calc_credit_delta = builder.sub(
            compare_delta_targets.new_credits,
            compare_delta_targets.old_credits,
        );
        builder.connect(calc_credit_delta, acc_inputs.credit_delta);

        // Connect the state hash
        builder.connect_hashes(
            compare_delta_targets.state_hash,
            state_hash_targets.inputs.unpruned_hash,
        );
        // Connect the block height
        connect_arrays(
            &mut builder,
            block_height_targets.inputs.values,
            [compare_delta_targets.block_height],
        );

        let public_inputs = builder.public_inputs.clone();
        proof {
            assert(public_inputs@ == registered);
            assert forall|k: int| 0 <= k < 4 implies public_inputs@.contains(
                #[trigger] event_hash_targets.inputs.unpruned_hash.elements[k],
            ) by {
                assert(public_inputs@[k] == event_hash_targets.inputs.unpruned_hash.elements[k]);
            }
            assert forall|k: int| 0 <= k < 4 implies public_inputs@.contains(
                #[trigger] state_hash_targets.inputs.unpruned_hash.elements[k],
            ) by {
                assert(public_inputs@[4 + k] == state_hash_targets.inputs.unpruned_hash.elements[k]);
            }
            assert forall|k: int| 0 <= k < 1 implies public_inputs@.contains(
                #[trigger] block_height_targets.inputs.values[k],
            ) by {
                assert(public_inputs@[8 + k] == block_height_targets.inputs.values[k]);
            }
        }
        let unbounded = unbounded_targets.build(public_inputs.as_slice());
        let event_hash = event_hash_targets.build(public_inputs.as_slice());
        let state_hash = state_hash_targets.build(public_inputs.as_slice());
        let compare_delta = compare_delta_targets.build(public_inputs.as_slice());
        let block_height = block_height_targets.build(public_inputs.as_slice());
        let common = CommonCircuitData { num_public_inputs: builder.num_public_inputs(), cap_height, id };

        proof {
            assert forall|e: Env| #[trigger] builder.sat(e) implies e.verified(
                circuit.id,
                e.verifier_data(circuit.id),
                e.vals(targets.accumulate_event.public_inputs@),
            ) by {
                assert(bv.sat(e));
                assert(bc.sat(e));
            }
            assert forall|e: Env| e.valid() && #[trigger] builder.sat(e) implies {
                let d = acc_inputs.values(e);
                let cd = compare_delta_targets;
                &&& cd.proves(e)
                &&& matches_delta(e, cd, d)
            } by {
                assert(b0.sat(e) && b1.sat(e) && b2.sat(e));
                let d = acc_inputs.values(e);
                acc::lemma_split_flags_pub(acc_flags, e, acc_inputs.object_flags);
                if has_new_owner(d.object_flags) {
                    lemma_same_seq(e, compare_delta_targets.old_owner, acc_inputs.old_owner);
                    lemma_same_seq(e, compare_delta_targets.new_owner, acc_inputs.new_owner);
                }
                if flag_in(d.object_flags, EventFlags::ReadFlag) {
                    lemma_same_seq(e, compare_delta_targets.old_data, acc_inputs.old_data);
                }
                if flag_in(d.object_flags, EventFlags::WriteFlag) {
                    lemma_same_seq(e, compare_delta_targets.new_data, acc_inputs.new_data);
                }
            }
        }
        LeafCircuit {
            unbounded,
            event_hash,
            state_hash,
            compare_delta,
            block_height,
            targets,
            circuit: builder,
            common,
        }
    }
}

/// The values a match leaf is proven with.
#[derive(Clone, Copy, PartialEq, Eq, Debug)]
pub struct LeafWitnessValue {
    pub block_height: u64,
    pub last_updated: u64,
    pub old_owner: [u64; 4],
    pub new_owner: [u64; 4],
    pub old_data: [u64; 4],
    pub new_data: [u64; 4],
    pub old_credits: u64,
    pub new_credits: u64,
}

impl LeafCircuit {
    /// Gives the witness the state update's values; the proof of the
    /// accumulated events is given to its proof target where the plan is
    /// replayed, and the rest follows from it.
    pub fn set_witness(&self, inputs: &mut PartialWitness, v: LeafWitnessValue) -> (r: Result<
        (),
        WitnessConflict,
    >)
        ensures
            r is Ok <==> old(inputs).fits(self.update_targets(), Self::update_values(v)),
            r is Ok ==> {
                let t = self.compare_delta.targets;
                &&& final(inputs).extends(*old(inputs))
                &&& final(inputs).has(t.block_height, fmod(v.block_height as int) as u64)
                &&& final(inputs).has(t.last_updated, fmod(v.last_updated as int) as u64)
                &&& final(inputs).has(t.old_credits, fmod(v.old_credits as int) as u64)
                &&& final(inputs).has(t.new_credits, fmod(v.new_credits as int) as u64)
                &&& final(inputs).has_arr(t.old_owner, v.old_owner)
                &&& final(inputs).has_arr(t.new_owner, v.new_owner)
                &&& final(inputs).has_arr(t.old_data, v.old_data)
                &&& final(inputs).has_arr(t.new_data, v.new_data)
            },
    {
        let t = &self.compare_delta.targets;
        let ts: [Target; 20] = [
            t.block_height,
            t.last_updated,
            t.old_credits,
            t.new_credits,
            t.old_owner[0],
            t.old_owner[1],
            t.old_owner[2],
            t.old_owner[3],
            t.new_owner[0],
            t.new_owner[1],
            t.new_owner[2],
            t.new_owner[3],
            t.old_data[0],
            t.old_data[1],
            t.old_data[2],
            t.old_data[3],
            t.new_data[0],
            t.new_data[1],
            t.new_data[2],
            t.new_data[3],
        ];
        let vs: [u64; 20] = [
            u64_to_field(v.block_height),
            u64_to_field(v.last_updated),
            u64_to_field(v.old_credits),
            u64_to_field(v.new_credits),
            v.old_owner[0],
            v.old_owner[1],
            v.old_owner[2],
            v.old_owner[3],
            v.new_owner[0],
            v.new_owner[1],
            v.new_owner[2],
            v.new_owner[3],
            v.old_data[0],
            v.old_data[1],
            v.old_data[2],
            v.old_data[3],
            v.new_data[0],
            v.new_data[1],
            v.new_data[2],
            v.new_data[3],
        ];
        proof {
            assert(ts@ =~= self.update_targets());
            assert(vs@ =~= Self::update_values(v));
        }
        let r = inputs.set_target_arr(&ts, &vs);
        proof {
            if r is Ok {
                assert(ts[0] == t.block_height && ts[1] == t.last_updated);
                assert(ts[2] == t.old_credits && ts[3] == t.new_credits);
                assert forall|k: int| 0 <= k < 4 implies {
                    &&& #[trigger] ts[4 + k] == t.old_owner[k] && vs[4 + k] == v.old_owner[k]
                    &&& ts[8 + k] == t.new_owner[k] && vs[8 + k] == v.new_owner[k]
                    &&& ts[12 + k] == t.old_data[k] && vs[12 + k] == v.old_data[k]
                    &&& ts[16 + k] == t.new_data[k] && vs[16 + k] == v.new_data[k]
                } by {}
            }
        }
        r
    }

    /// The targets of the state update's values, in the order they are
    /// given.
    pub open spec fn update_targets(self) -> Seq<Target> {
        let t = self.compare_delta.targets;
        seq![t.block_height, t.last_updated, t.old_credits, t.new_credits] + t.old_owner@
            + t.new_owner@ + t.old_data@ + t.new_data@
    }

    /// The state update's values, in the order they are given.
    pub open spec fn update_values(v: LeafWitnessValue) -> Seq<u64> {
        seq![
            field_of_u64(v.block_height),
            field_of_u64(v.last_updated),
            field_of_u64(v.old_credits),
            field_of_u64(v.new_credits),
        ] + v.old_owner@ + v.new_owner@ + v.old_data@ + v.new_data@
    }
}

/// The branch circuit: the event hashes and the state hashes of two children
/// are hashed together, with the same right child absent or present, and
/// their block height is the same. Both children's proofs are verified by
/// the recursion subcircuit.
pub struct BranchCircuit {
    /// The recursion subcircuit: the children's proofs and their verification.
    pub unbounded: unbounded::BranchSubCircuit,
    /// The rp-style merkle hash of events.
    pub event_hash: unpruned::BranchSubCircuit<PartialAllowed>,
    /// The rp-style merkle hash of summarized state updates.
    pub state_hash: unpruned::BranchSubCircuit<PartialAllowed>,
    /// The partial-object/state update comparator.
    pub compare_delta: core_circuit::BranchSubCircuit,
    /// The block height.
    pub block_height: propagate::BranchSubCircuit<1>,
    /// The plan of the circuit.
    pub circuit: CircuitBuilder,
}

impl BranchCircuit {
    /// Plans the branch circuit over children of the leaf's shape: both
    /// children verify, against the leaf circuit's verifier data or this
    /// circuit's own, and carry this circuit's verifier data (see
    /// `unbounded::verifies_children`); both hashes hash the children's, on
    /// the same partial flag, and the block height is the children's.
    #[verifier::rlimit(30)]
    pub fn new(leaf: &LeafCircuit) -> (r: Self)
        requires
            leaf.event_hash.indices.unpruned_hash.within(leaf.circuit.public_inputs@.len()),
            leaf.state_hash.indices.unpruned_hash.within(leaf.circuit.public_inputs@.len()),
            all_within(leaf.block_height.indices.values.0, leaf.circuit.public_inputs@.len()),
            leaf.unbounded.in_leaf(leaf.circuit.public_inputs@, leaf.common),
        ensures
            r.unbounded.indices.verifier.locates(r.circuit.public_inputs@, r.unbounded.targets.inputs.verifier),
            forall|e: Env|
                e.valid() && #[trigger] r.circuit.sat(e) ==> unbounded::verifies_children(
                    e,
                    r.unbounded.targets,
                    leaf.unbounded.indices,
                    leaf.common.id,
                ),
            r.event_hash.indices.locates(r.circuit.public_inputs@, r.event_hash.targets.inputs.unpruned_hash),
            r.state_hash.indices.locates(r.circuit.public_inputs@, r.state_hash.targets.inputs.unpruned_hash),
            r.block_height.indices.locates(r.circuit.public_inputs@, r.block_height.targets.inputs.values),
            r.unbounded.targets.left_proof.public_inputs@.len() == leaf.circuit.public_inputs@.len(),
            r.unbounded.targets.right_proof.public_inputs@.len() == leaf.circuit.public_inputs@.len(),
            unpruned::reads_children(
                r.event_hash.targets,
                leaf.event_hash.indices,
                r.unbounded.targets.left_proof.public_inputs@,
                r.unbounded.targets.right_proof.public_inputs@,
            ),
            unpruned::reads_children(
                r.state_hash.targets,
                leaf.state_hash.indices,
                r.unbounded.targets.left_proof.public_inputs@,
                r.unbounded.targets.right_proof.public_inputs@,
            ),
            forall|k: int|
                0 <= k < 1 ==> #[trigger] r.block_height.targets.left.values[k]
                    == r.unbounded.targets.left_proof.public_inputs@[leaf.block_height.indices.values.0[k].0 as int],
            forall|k: int|
                0 <= k < 1 ==> #[trigger] r.block_height.targets.right.values[k]
                    == r.unbounded.targets.right_proof.public_inputs@[leaf.block_height.indices.values.0[k].0 as int],
            forall|e: Env|
                e.valid() && #[trigger] r.circuit.sat(e) ==> {
                    &&& unpruned::extended_branch_hash(e, false, r.event_hash.targets)
                    &&& unpruned::extended_branch_hash(e, false, r.state_hash.targets)
                    &&& e.val(r.event_hash.targets.extension.partial.target) == e.val(
                        r.state_hash.targets.extension.partial.target,
                    )
                    &&& same_vals(
                        e,
                        r.block_height.targets.inputs.values,
                        r.block_height.targets.left.values,
                    )
                    &&& same_vals(
                        e,
                        r.block_height.targets.left.values,
                        r.block_height.targets.right.values,
                    )
                },
    {
        let mut builder = CircuitBuilder::new();
        let event_hash_inputs = unpruned::default(&mut builder);
        let state_hash_inputs = unpruned::default(&mut builder);
        let compare_delta_inputs = core_circuit::default(&mut builder);
        let block_height_inputs = propagate::default::<1>(&mut builder);
        let unbounded_inputs = unbounded::default(&mut builder, leaf.common.cap_height);
        let ghost registered = builder.public_inputs@;

        let unbounded_targets = unbounded_inputs.build_branch(&mut builder, &leaf.unbounded, &leaf.common);
        let ghost bu = builder;
        let left_proof = &unbounded_targets.left_proof;
        let right_proof = &unbounded_targets.right_proof;

        let event_hash_targets = event_hash_inputs.build_extended_branch(
            &mut builder,
            &leaf.event_hash.indices,
            left_proof,
            right_proof,
            false,
        );
        let ghost be = builder;
        let state_hash_targets = state_hash_inputs.build_extended_branch(
            &mut builder,
            &leaf.state_hash.indices,
            left_proof,
            right_proof,
            false,
        );
        let ghost bs = builder;
        let compare_delta_targets = compare_delta_inputs.build_branch(
            &mut builder,
            &leaf.compare_delta.indices,
            left_proof,
            right_proof,
        );
        let block_height_targets = block_height_inputs.build_branch(
            &mut builder,
            &leaf.block_height.indices,
            left_proof,
            right_proof,
        );
        let ghost b0 = builder;

        // Connect partials
        builder.connect(
            event_hash_targets.extension.partial.target,
            state_hash_targets.extension.partial.target,
        );

        let public_inputs = builder.public_inputs.clone();
        proof {
            assert(public_inputs@ == registered);
            assert forall|k: int| 0 <= k < 4 implies public_inputs@.contains(
                #[trigger] event_hash_targets.inputs.unpruned_hash.elements[k],
            ) by {
                assert(public_inputs@[k] == event_hash_targets.inputs.unpruned_hash.elements[k]);
            }
            assert forall|k: int| 0 <= k < 4 implies public_inputs@.contains(
                #[trigger] state_hash_targets.inputs.unpruned_hash.elements[k],
            ) by {
                assert(public_inputs@[4 + k] == state_hash_targets.inputs.unpruned_hash.elements[k]);
            }
            assert forall|k: int| 0 <= k < 1 implies public_inputs@.contains(
                #[trigger] block_height_targets.inputs.values[k],
            ) by {
                assert(public_inputs@[8 + k] == block_height_targets.inputs.values[k]);
            }
            assert forall|e: Env| e.valid() && #[trigger] builder.sat(e) implies same_vals(
                e,
                block_height_targets.inputs.values,
                block_height_targets.left.values,
            ) && same_vals(e, block_height_targets.left.values, block_height_targets.right.values)
                && unpruned::extended_branch_hash(e, false, event_hash_targets)
                && unpruned::extended_branch_hash(e, false, state_hash_targets) by {
                assert(b0.sat(e));
                assert(bs.sat(e));
                assert(be.sat(e));
            }
            assert forall|e: Env| e.valid() && #[trigger] builder.sat(e) implies unbounded::verifies_children(
                e,
                unbounded_targets,
                leaf.unbounded.indices,
                leaf.common.id,
            ) by {
                assert(b0.sat(e));
                assert(bs.sat(e));
                assert(be.sat(e));
                assert(bu.sat(e));
            }
        }
        let unbounded = unbounded_targets.build(public_inputs.as_slice());
        let event_hash = event_hash_targets.build(&leaf.event_hash.indices, public_inputs.as_slice());
        let state_hash = state_hash_targets.build(&leaf.state_hash.indices, public_inputs.as_slice());
        let compare_delta = compare_delta_targets.build(
            &leaf.compare_delta.indices,
            public_inputs.as_slice(),
        );
        let block_height = block_height_targets.build(
            &leaf.block_height.indices,
            public_inputs.as_slice(),
        );
        BranchCircuit {
            unbounded,
            event_hash,
            state_hash,
            compare_delta,
            block_height,
            circuit: builder,
        }
    }

    /// Gives the witness whether the right child is absent, for both hashes;
    /// the rest follows from the children.
    pub fn set_witness(&self, inputs: &mut PartialWitness, partial: bool) -> (r: Result<
        (),
        WitnessConflict,
    >)
        ensures
            r is Ok <==> old(inputs).fits(
                seq![
                    self.event_hash.targets.extension.partial.target,
                    self.state_hash.targets.extension.partial.target,
                ],
                seq![bit_of(partial), bit_of(partial)],
            ),
            r is Ok ==> {
                let v = if partial { 1u64 } else { 0u64 };
                &&& final(inputs).extends(*old(inputs))
                &&& final(inputs).has(self.event_hash.targets.extension.partial.target, v)
                &&& final(inputs).has(self.state_hash.targets.extension.partial.target, v)
            },
    {
        let ghost (t1, v1) = (seq![self.event_hash.targets.extension.partial.target], seq![bit_of(partial)]);
        let ghost (t2, v2) = (seq![self.state_hash.targets.extension.partial.target], seq![bit_of(partial)]);
        let ghost w0 = *inputs;
        proof {
            lemma_fits_prefix(w0, t1, v1, t2, v2);
            assert(t1 + t2 =~= seq![
                self.event_hash.targets.extension.partial.target,
                self.state_hash.targets.extension.partial.target,
            ]);
            assert(v1 + v2 =~= seq![bit_of(partial), bit_of(partial)]);
        }
        self.event_hash.set_witness(inputs, partial)?;
        let ghost w1 = *inputs;
        proof {
            lemma_fits_after(w0, w1, t1, v1, t2, v2);
        }
        self.state_hash.set_witness(inputs, partial)?;
        Ok(())
    }
}

} // verus!
