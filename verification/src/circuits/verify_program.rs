//! Circuits for proving events correspond to a program proof: a leaf
//! verifies a program's proof and the proof of the root of the events it
//! emitted, and a branch joins the programs of a transaction.
use vstd::prelude::*;

use crate::circuit::{
    bit_of, digest, flagged_targets, flagged_values, lemma_fits_after, lemma_fits_prefix,
    lemma_wrote_chain, or_zero, lemma_verifier_data_len,
    verifier_data_targets, verifier_data_values, verifier_targets, cap_height_ok, CircuitBuilder, CommonCircuitData, Env,
    PartialWitness, Target, VerifierOnlyCircuitData, WitnessConflict,
};
use crate::circuits::merge::embed;
use crate::gadgets::{connect_arrays, same_vals};
use crate::indices::all_within;
use crate::subcircuits::unpruned::PartialAllowed;
use crate::subcircuits::{propagate, unbounded, unpruned};

pub mod core_circuit;

verus! {

/// The leaf circuit: one program's proof, and the events it emitted.
pub struct LeafCircuit {
    /// The recursion subcircuit: the branch circuit's verifier data.
    pub unbounded: unbounded::LeafSubCircuit,
    /// The program identifier.
    pub program_id: unpruned::LeafSubCircuit,
    /// The events list.
    pub events: embed::LeafSubCircuit,
    /// The call list.
    pub call_list: propagate::LeafSubCircuit<4>,
    /// The cast list root.
    pub cast_root: propagate::LeafSubCircuit<4>,
    /// The program verifier.
    pub program_verifier: core_circuit::ProgramVerifierSubCircuit,
    /// The event root verifier.
    pub event_verifier: core_circuit::EventRootVerifierSubCircuit,
    /// The plan of the circuit.
    pub circuit: CircuitBuilder,
    /// The shape of the circuit's proofs, and the number that names it.
    pub common: CommonCircuitData,
}

/// What a leaf proves of the program proof `pv` and the event root proof
/// `ev`: the program's hash is the program identifier and the events' owner,
/// the program's event root is the events' vm hash, the events of this proof
/// are the events' hash (present as the program says), the call list and
/// cast root are the program's, and the program's verifier data hashes to
/// the verifier hash.
pub open spec fn leaf_links(
    e: Env,
    r: LeafCircuit,
    pv: core_circuit::ProgramVerifierTargets,
    ev: core_circuit::EventRootVerifierTargets,
) -> bool {
    let program_id = r.program_id.targets.inputs.unpruned_hash.elements;
    let events = r.events.targets.inputs;
    &&& same_vals(e, pv.program_id, program_id)
    &&& same_vals(e, ev.event_owner, program_id)
    &&& e.val(events.hash_present.target) == e.val(pv.events_present.target)
    &&& same_vals(e, pv.event_root.elements, ev.vm_event_root.elements)
    &&& same_vals(e, events.hash.elements, ev.event_root.elements)
    &&& same_vals(e, pv.call_list, r.call_list.targets.inputs.values)
    &&& same_vals(e, pv.cast_root.elements, r.cast_root.targets.inputs.values)
    &&& e.hash_val(pv.program_verifier_hash) == digest(
        e,
        e.vals(verifier_targets(pv.program_verifier)),
    )
}

impl LeafCircuit {
    /// Plans the leaf circuit: verifies a proof of the program (against
    /// verifier data given in the witness) and a proof of the root of its
    /// events, and links them: see `leaf_links`. The circuit is named `id`,
    /// and its verifier data has a cap of `2^cap_height` digests.
    #[verifier::rlimit(60)]
    pub fn new(
        program_circuit_indices: &core_circuit::ProgramPublicIndices,
        program_circuit_common: &CommonCircuitData,
        event_root: &core_circuit::EventRootCircuit,
        cap_height: usize,
        id: usize,
    ) -> (r: Self)
        requires
            cap_height_ok(cap_height),
            program_circuit_indices.within(program_circuit_common.num_public_inputs as nat),
            crate::circuit::cap_height_ok(program_circuit_common.cap_height),
            all_within(event_root.event_owner.values.0, event_root.common.num_public_inputs as nat),
            event_root.hash.unpruned_hash.within(event_root.common.num_public_inputs as nat),
            event_root.vm_hash.unpruned_hash.within(event_root.common.num_public_inputs as nat),
            crate::circuit::cap_height_ok(event_root.common.cap_height),
        ensures
            r.common.cap_height == cap_height,
            r.common.id == id,
            r.unbounded.in_leaf(r.circuit.public_inputs@, r.common),
            r.program_id.indices.unpruned_hash.within(r.circuit.public_inputs@.len()),
            r.events.indices.within(r.circuit.public_inputs@.len()),
            all_within(r.call_list.indices.values.0, r.circuit.public_inputs@.len()),
            all_within(r.cast_root.indices.values.0, r.circuit.public_inputs@.len()),
            r.program_verifier.targets.program_proof.public_inputs@.len()
                == program_circuit_common.num_public_inputs,
            r.program_verifier.targets.program_verifier.constants_sigmas_cap.0@.len()
                == vstd::arithmetic::power2::pow2(program_circuit_common.cap_height as nat),
            r.event_verifier.targets.event_root_proof.public_inputs@.len()
                == event_root.common.num_public_inputs,
            forall|e: Env|
                e.valid() && #[trigger] r.circuit.sat(e) ==> leaf_links(
                    e,
                    r,
                    r.program_verifier.targets,
                    r.event_verifier.targets,
                ),
    {
        let mut builder = CircuitBuilder::new();
        let program_id_inputs = unpruned::default(&mut builder);
        let events_inputs = embed::default(&mut builder);
        let call_list_inputs = propagate::default::<4>(&mut builder);
        let cast_root_inputs = propagate::default::<4>(&mut builder);
        let unbounded_inputs = unbounded::default(&mut builder, cap_height);
        let ghost registered = builder.public_inputs@;

        let unbounded_targets = unbounded_inputs.build_leaf(&mut builder);
        let program_id_targets = program_id_inputs.build_leaf(&mut builder);
        let events_targets = events_inputs.build_leaf(&mut builder);
        let call_list_targets = call_list_inputs.build_leaf(&mut builder);
        let cast_root_targets = cast_root_inputs.build_leaf(&mut builder);

        let program_verifier_targets = core_circuit::ProgramVerifierTargets::build_targets(
            &mut builder,
            program_circuit_indices,
            program_circuit_common,
        );
        let ghost b0 = builder;
        let event_verifier_targets = core_circuit::EventRootVerifierTargets::build_targets(
            &mut builder,
            event_root,
        );
        let ghost b1 = builder;

        // Connect the proofs
        let program_id = program_id_targets.inputs.unpruned_hash.elements;
        connect_arrays(&mut builder, program_verifier_targets.program_id, program_id);
        let ghost b2 = builder;
        connect_arrays(&mut builder, event_verifier_targets.event_owner, program_id);
        let ghost b3 = builder;
        builder.connect(
            events_targets.inputs.hash_present.target,
            program_verifier_targets.events_present.target,
        );
        let ghost b4 = builder;
        builder.connect_hashes(
            program_verifier_targets.event_root,
            event_verifier_targets.vm_event_root,
        );
        let ghost b5 = builder;
        builder.connect_hashes(events_targets.inputs.hash, event_verifier_targets.event_root);
        let ghost b6 = builder;
        connect_arrays(
            &mut builder,
            program_verifier_targets.call_list,
            call_list_targets.inputs.values,
        );
        let ghost b7 = builder;
        connect_arrays(
            &mut builder,
            program_verifier_targets.cast_root.elements,
            cast_root_targets.inputs.values,
        );

        let public_inputs = builder.public_inputs.clone();
        proof {
            assert(public_inputs@ == registered);
            assert forall|k: int| 0 <= k < 4 implies public_inputs@.contains(
                #[trigger] program_id_targets.inputs.unpruned_hash.elements[k],
            ) by {
                assert(public_inputs@[k] == program_id_targets.inputs.unpruned_hash.elements[k]);
            }
            assert forall|i: int| 0 <= i < 5 implies public_inputs@.contains(
                #[trigger] events_targets.inputs.public_targets()[i],
            ) by {
                assert(public_inputs@[4 + i] == events_targets.inputs.public_targets()[i]);
            }
            assert forall|k: int| 0 <= k < 4 implies public_inputs@.contains(
                #[trigger] call_list_targets.inputs.values[k],
            ) by {
                assert(public_inputs@[9 + k] == call_list_targets.inputs.values[k]);
            }
            assert forall|k: int| 0 <= k < 4 implies public_inputs@.contains(
                #[trigger] cast_root_targets.inputs.values[k],
            ) by {
                assert(public_inputs@[13 + k] == cast_root_targets.inputs.values[k]);
            }
        }
        let program_id = program_id_targets.build(public_inputs.as_slice());
        let events = events_targets.build(public_inputs.as_slice());
        let call_list = call_list_targets.build(public_inputs.as_slice());
        let cast_root = cast_root_targets.build(public_inputs.as_slice());
        let program_verifier = program_verifier_targets.build(public_inputs.as_slice());
        let event_verifier = event_verifier_targets.build(public_inputs.as_slice());
        let unbounded = unbounded_targets.build(public_inputs.as_slice());
        let common = CommonCircuitData { num_public_inputs: builder.num_public_inputs(), cap_height, id };
        let r = LeafCircuit {
            unbounded,
            program_id,
            events,
            call_list,
            cast_root,
            program_verifier,
            event_verifier,
            circuit: builder,
            common,
        };
        proof {
            assert forall|e: Env| e.valid() && #[trigger] r.circuit.sat(e) implies leaf_links(
                e,
                r,
                r.program_verifier.targets,
                r.event_verifier.targets,
            ) by {
                assert(b7.sat(e));
                assert(b6.sat(e));
                assert(b5.sat(e));
                assert(b4.sat(e));
                assert(b3.sat(e));
                assert(b2.sat(e));
                assert(b1.sat(e));
                assert(b0.sat(e));
                assert(same_vals(
                    e,
                    program_verifier_targets.event_root.elements,
                    event_verifier_targets.vm_event_root.elements,
                ));
                assert(same_vals(
                    e,
                    events_targets.inputs.hash.elements,
                    event_verifier_targets.event_root.elements,
                ));
            }
        }
        r
    }

    /// Gives the witness the program's verifier data, the public inputs of
    /// its proof, and the public inputs of the proof of the event root.
    pub fn set_witness(
        &self,
        inputs: &mut PartialWitness,
        program_verifier: &VerifierOnlyCircuitData,
        program_proof: &[u64],
        event_root_proof: &[u64],
    ) -> (r: Result<(), WitnessConflict>)
        requires
            self.program_verifier.targets.program_verifier.constants_sigmas_cap.0@.len()
                == program_verifier.constants_sigmas_cap@.len(),
            self.program_verifier.targets.program_proof.public_inputs@.len()
                == program_proof@.len(),
            self.event_verifier.targets.event_root_proof.public_inputs@.len()
                == event_root_proof@.len(),
        ensures
            r is Ok <==> old(inputs).fits(
                verifier_data_targets(self.program_verifier.targets.program_verifier)
                    + self.program_verifier.targets.program_proof.public_inputs@
                    + self.event_verifier.targets.event_root_proof.public_inputs@,
                verifier_data_values(*program_verifier) + program_proof@ + event_root_proof@,
            ),
            r is Ok ==> final(inputs).extends(*old(inputs)),
            r is Ok ==> forall|k: int|
                0 <= k < program_proof@.len() ==> final(inputs).has(
                    #[trigger] self.program_verifier.targets.program_proof.public_inputs@[k],
                    program_proof@[k],
                ),
            r is Ok ==> forall|k: int|
                0 <= k < event_root_proof@.len() ==> final(inputs).has(
                    #[trigger] self.event_verifier.targets.event_root_proof.public_inputs@[k],
                    event_root_proof@[k],
                ),
    {
        let ghost (t1, v1) = (
            verifier_data_targets(self.program_verifier.targets.program_verifier)
                + self.program_verifier.targets.program_proof.public_inputs@,
            verifier_data_values(*program_verifier) + program_proof@,
        );
        let ghost (t2, v2) = (
            self.event_verifier.targets.event_root_proof.public_inputs@,
            event_root_proof@,
        );
        let ghost w0 = *inputs;
        proof {
            lemma_verifier_data_len(
                self.program_verifier.targets.program_verifier,
                *program_verifier,
            );
            lemma_fits_prefix(w0, t1, v1, t2, v2);
        }
        self.program_verifier.set_witness(inputs, program_verifier, program_proof)?;
        let ghost mid = *inputs;
        proof {
            lemma_fits_after(w0, mid, t1, v1, t2, v2);
        }
        self.event_verifier.set_witness(inputs, event_root_proof)?;
        proof {
            assert forall|k: int| 0 <= k < program_proof@.len() implies inputs.has(
                #[trigger] self.program_verifier.targets.program_proof.public_inputs@[k],
                program_proof@[k],
            ) by {
                assert(mid.has(
                    self.program_verifier.targets.program_proof.public_inputs@[k],
                    program_proof@[k],
                ));
            }
        }
        Ok(())
    }

    /// Gives the witness the program's verifier data and the public inputs
    /// of its proof, and every public input of this circuit as it is: the
    /// program identifier, the event root, the call list and the cast root.
    #[verifier::rlimit(30)]
    pub fn set_witness_unsafe(
        &self,
        inputs: &mut PartialWitness,
        program_verifier: &VerifierOnlyCircuitData,
        program_proof: &[u64],
        program_id: [u64; 4],
        event_root: [u64; 4],
        call_list: [u64; 4],
        cast_root: [u64; 4],
    ) -> (r: Result<(), WitnessConflict>)
        requires
            self.program_verifier.targets.program_verifier.constants_sigmas_cap.0@.len()
                == program_verifier.constants_sigmas_cap@.len(),
            self.program_verifier.targets.program_proof.public_inputs@.len()
                == program_proof@.len(),
        ensures
            r is Ok <==> old(inputs).fits(
                verifier_data_targets(self.program_verifier.targets.program_verifier)
                    + self.program_verifier.targets.program_proof.public_inputs@
                    + self.program_id.targets.inputs.unpruned_hash.elements@ + flagged_targets(
                    self.events.targets.inputs.hash_present,
                    self.events.targets.inputs.hash,
                ) + self.call_list.targets.inputs.values@ + self.cast_root.targets.inputs.values@,
                verifier_data_values(*program_verifier) + program_proof@ + program_id@
                    + flagged_values(true, event_root) + call_list@ + cast_root@,
            ),
            r is Ok ==> final(inputs).extends(*old(inputs)),
            r is Ok ==> final(inputs).has_arr(
                self.program_id.targets.inputs.unpruned_hash.elements,
                program_id,
            ),
            r is Ok ==> final(inputs).has(self.events.targets.inputs.hash_present.target, 1u64),
            r is Ok ==> final(inputs).has_arr(self.events.targets.inputs.hash.elements, event_root),
            r is Ok ==> forall|k: int|
                0 <= k < 4 ==> final(inputs).has(
                    #[trigger] self.call_list.targets.inputs.values[k],
                    call_list[k],
                ),
            r is Ok ==> forall|k: int|
                0 <= k < 4 ==> final(inputs).has(
                    #[trigger] self.cast_root.targets.inputs.values[k],
                    cast_root[k],
                ),
    {
        let ghost (t1, v1) = (
            verifier_data_targets(self.program_verifier.targets.program_verifier)
                + self.program_verifier.targets.program_proof.public_inputs@,
            verifier_data_values(*program_verifier) + program_proof@,
        );
        let ghost (t2, v2) = (self.program_id.targets.inputs.unpruned_hash.elements@, program_id@);
        let ghost (t3, v3) = (
            flagged_targets(
                self.events.targets.inputs.hash_present,
                self.events.targets.inputs.hash,
            ),
            flagged_values(true, event_root),
        );
        let ghost (t4, v4) = (self.call_list.targets.inputs.values@, call_list@);
        let ghost (t5, v5) = (self.cast_root.targets.inputs.values@, cast_root@);
        let ghost wa = *inputs;
        proof {
            lemma_verifier_data_len(
                self.program_verifier.targets.program_verifier,
                *program_verifier,
            );
            lemma_fits_prefix(wa, t1 + t2 + t3 + t4, v1 + v2 + v3 + v4, t5, v5);
            lemma_fits_prefix(wa, t1 + t2 + t3, v1 + v2 + v3, t4, v4);
            lemma_fits_prefix(wa, t1 + t2, v1 + v2, t3, v3);
            lemma_fits_prefix(wa, t1, v1, t2, v2);
        }
        self.program_verifier.set_witness(inputs, program_verifier, program_proof)?;
        let ghost w0 = *inputs;
        proof {
            lemma_fits_after(wa, w0, t1, v1, t2, v2);
        }
        self.program_id.set_witness(inputs, program_id)?;
        let ghost w1 = *inputs;
        proof {
            lemma_wrote_chain(wa, w0, w1, t1, v1, t2, v2);
            lemma_fits_after(wa, w1, t1 + t2, v1 + v2, t3, v3);
            assert(or_zero(Some(event_root)) == event_root);
        }
        self.events.set_witness(inputs, Some(event_root))?;
        let ghost w2 = *inputs;
        proof {
            lemma_wrote_chain(wa, w1, w2, t1 + t2, v1 + v2, t3, v3);
            lemma_fits_after(wa, w2, t1 + t2 + t3, v1 + v2 + v3, t4, v4);
        }
        inputs.set_target_arr(&self.call_list.targets.inputs.values, &call_list)?;
        let ghost w3 = *inputs;
        proof {
            lemma_wrote_chain(wa, w2, w3, t1 + t2 + t3, v1 + v2 + v3, t4, v4);
            lemma_fits_after(wa, w3, t1 + t2 + t3 + t4, v1 + v2 + v3 + v4, t5, v5);
        }
        inputs.set_target_arr(&self.cast_root.targets.inputs.values, &cast_root)?;
        proof {
            assert(w1.extends(w0));
            assert(w2.extends(w1));
            assert(w3.extends(w2));
            assert(inputs.extends(w3));
            let pid = self.program_id.targets.inputs.unpruned_hash.elements;
            assert forall|i: int| #![trigger pid[i]] 0 <= i < 4 implies inputs.has(
                pid[i],
                program_id[i],
            ) by {
                assert(w1.has(pid[i], program_id[i]));
                assert(w2.has(pid[i], program_id[i]));
                assert(w3.has(pid[i], program_id[i]));
            }
            let ev = self.events.targets.inputs;
            assert(w3.has(ev.hash_present.target, 1u64));
            assert forall|i: int| #![trigger ev.hash.elements[i]] 0 <= i < 4 implies inputs.has(
                ev.hash.elements[i],
                event_root[i],
            ) by {
                assert(w2.has(ev.hash.elements[i], event_root[i]));
                assert(w3.has(ev.hash.elements[i], event_root[i]));
            }
            assert forall|k: int| 0 <= k < 4 implies inputs.has(
                #[trigger] self.call_list.targets.inputs.values[k],
                call_list[k],
            ) by {
                assert(w3.has(self.call_list.targets.inputs.values[k], call_list[k]));
            }
            assert forall|k: int| 0 <= k < 4 implies inputs.has(
                #[trigger] self.cast_root.targets.inputs.values[k],
                cast_root[k],
            ) by {
                assert(inputs.has(self.cast_root.targets.inputs.values[k], cast_root[k]));
            }
        }
        Ok(())
    }
}

/// The branch circuit: two programs' proofs (or one) of one transaction.
pub struct BranchCircuit {
    /// The recursion subcircuit: the children's proofs and their verification.
    pub unbounded: unbounded::BranchSubCircuit,
    /// The program identifier.
    pub program_id: unpruned::BranchSubCircuit<PartialAllowed>,
    /// The events list.
    pub events: embed::BranchSubCircuit,
    /// The call list.
    pub call_list: propagate::BranchSubCircuit<4>,
    /// The cast list root.
    pub cast_root: propagate::BranchSubCircuit<4>,
    /// The plan of the circuit.
    pub circuit: CircuitBuilder,
}

/// The program identifier of a branch: the left child's when the right
/// child is absent, and the vm-style hash of both children's otherwise.
pub open spec fn ids_joined(e: Env, t: unpruned::BranchTargets<PartialAllowed>) -> bool {
    let partial = t.extension.partial.target;
    &&& e.is_bool(partial)
    &&& e.truth(partial) ==> same_vals(
        e,
        t.inputs.unpruned_hash.elements,
        t.left.unpruned_hash.elements,
    )
    &&& !e.truth(partial) ==> unpruned::branch_hash(
        e,
        true,
        t.left.unpruned_hash.elements,
        t.right.unpruned_hash.elements,
        t.inputs.unpruned_hash.elements,
    )
}

impl BranchCircuit {
    /// Plans the branch circuit: the program identifiers are hashed (or the
    /// left one forwarded when the right child is absent), the events are
    /// merged by a verified proof of the merge circuit (see
    /// `embed::BranchTargets::merges`), the call list and cast root are
    /// shared by both children, and the merge is partial exactly when the
    /// program identifiers are. Both children verify, against the leaf
    /// circuit's verifier data or this circuit's own, and carry this
    /// circuit's verifier data (see `unbounded::verifies_children`).
    #[verifier::rlimit(60)]
    pub fn new(mc: &embed::MergeCircuit, leaf: &LeafCircuit) -> (r: Self)
        requires
            leaf.unbounded.in_leaf(leaf.circuit.public_inputs@, leaf.common),
            mc.indices.within(mc.num_public_inputs as nat),
            crate::circuit::cap_height_ok(mc.cap_height),
            leaf.program_id.indices.unpruned_hash.within(leaf.circuit.public_inputs@.len()),
            leaf.events.indices.within(leaf.circuit.public_inputs@.len()),
            all_within(leaf.call_list.indices.values.0, leaf.circuit.public_inputs@.len()),
            all_within(leaf.cast_root.indices.values.0, leaf.circuit.public_inputs@.len()),
        ensures
            r.unbounded.indices.verifier.locates(r.circuit.public_inputs@, r.unbounded.targets.inputs.verifier),
            forall|e: Env|
                e.valid() && #[trigger] r.circuit.sat(e) ==> unbounded::verifies_children(
                    e,
                    r.unbounded.targets,
                    leaf.unbounded.indices,
                    leaf.common.id,
                ),
            r.unbounded.targets.left_proof.public_inputs@.len() == leaf.circuit.public_inputs@.len(),
            r.unbounded.targets.right_proof.public_inputs@.len() == leaf.circuit.public_inputs@.len(),
            r.events.targets.proof.public_inputs@.len() == mc.num_public_inputs,
            r.events.indices.within(r.circuit.public_inputs@.len()),
            leaf.events.indices.locates(r.unbounded.targets.left_proof.public_inputs@, r.events.targets.left),
            leaf.events.indices.locates(r.unbounded.targets.right_proof.public_inputs@, r.events.targets.right),
            forall|k: int|
                0 <= k < 4 ==> #[trigger] r.call_list.targets.left.values[k]
                    == r.unbounded.targets.left_proof.public_inputs@[leaf.call_list.indices.values.0[k].0 as int],
            forall|k: int|
                0 <= k < 4 ==> #[trigger] r.call_list.targets.right.values[k]
                    == r.unbounded.targets.right_proof.public_inputs@[leaf.call_list.indices.values.0[k].0 as int],
            forall|k: int|
                0 <= k < 4 ==> #[trigger] r.cast_root.targets.left.values[k]
                    == r.unbounded.targets.left_proof.public_inputs@[leaf.cast_root.indices.values.0[k].0 as int],
            forall|k: int|
                0 <= k < 4 ==> #[trigger] r.cast_root.targets.right.values[k]
                    == r.unbounded.targets.right_proof.public_inputs@[leaf.cast_root.indices.values.0[k].0 as int],
            forall|e: Env|
                e.valid() && #[trigger] r.circuit.sat(e) ==> {
                    &&& r.events.targets.merges(e, *mc)
                    &&& e.val(r.events.targets.partial.target) == e.val(
                        r.program_id.targets.extension.partial.target,
                    )
                    &&& ids_joined(e, r.program_id.targets)
                    &&& same_vals(
                        e,
                        r.call_list.targets.inputs.values,
                        r.call_list.targets.left.values,
                    )
                    &&& same_vals(
                        e,
                        r.call_list.targets.left.values,
                        r.call_list.targets.right.values,
                    )
                    &&& same_vals(
                        e,
                        r.cast_root.targets.inputs.values,
                        r.cast_root.targets.left.values,
                    )
                    &&& same_vals(
                        e,
                        r.cast_root.targets.left.values,
                        r.cast_root.targets.right.values,
                    )
                },
    {
        let mut builder = CircuitBuilder::new();
        let program_id_inputs = unpruned::default(&mut builder);
        let events_inputs = embed::default(&mut builder);
        let call_list_inputs = propagate::default::<4>(&mut builder);
        let cast_root_inputs = propagate::default::<4>(&mut builder);
        let unbounded_inputs = unbounded::default(&mut builder, leaf.common.cap_height);
        let ghost registered = builder.public_inputs@;

        let unbounded_targets = unbounded_inputs.build_branch(&mut builder, &leaf.unbounded, &leaf.common);
        let ghost b0 = builder;
        let left_proof = &unbounded_targets.left_proof;
        let right_proof = &unbounded_targets.right_proof;

        let program_id_targets = program_id_inputs.build_extended_branch(
            &mut builder,
            &leaf.program_id.indices,
            left_proof,
            right_proof,
            true,
        );
        let ghost b1 = builder;
        let events_targets = events_inputs.build_branch(
            &mut builder,
            mc,
            &leaf.events.indices,
            left_proof,
            right_proof,
        );
        let ghost b2 = builder;
        let call_list_targets = call_list_inputs.build_branch(
            &mut builder,
            &leaf.call_list.indices,
            left_proof,
            right_proof,
        );
        let ghost b3 = builder;
        let cast_root_targets = cast_root_inputs.build_branch(
            &mut builder,
            &leaf.cast_root.indices,
            left_proof,
            right_proof,
        );
        let ghost b4 = builder;

        // Connect the partials
        builder.connect(events_targets.partial.target, program_id_targets.extension.partial.target);

        let public_inputs = builder.public_inputs.clone();
        proof {
            assert(public_inputs@ == registered);
            assert forall|k: int| 0 <= k < 4 implies public_inputs@.contains(
                #[trigger] program_id_targets.inputs.unpruned_hash.elements[k],
            ) by {
                assert(public_inputs@[k] == program_id_targets.inputs.unpruned_hash.elements[k]);
            }
            assert forall|i: int| 0 <= i < 5 implies public_inputs@.contains(
                #[trigger] events_targets.inputs.public_targets()[i],
            ) by {
                assert(public_inputs@[4 + i] == events_targets.inputs.public_targets()[i]);
            }
            assert forall|k: int| 0 <= k < 4 implies public_inputs@.contains(
                #[trigger] call_list_targets.inputs.values[k],
            ) by {
                assert(public_inputs@[9 + k] == call_list_targets.inputs.values[k]);
            }
            assert forall|k: int| 0 <= k < 4 implies public_inputs@.contains(
                #[trigger] cast_root_targets.inputs.values[k],
            ) by {
                assert(public_inputs@[13 + k] == cast_root_targets.inputs.values[k]);
            }
        }
        let program_id = program_id_targets.build(&leaf.program_id.indices, public_inputs.as_slice());
        let events = events_targets.build(&leaf.events.indices, public_inputs.as_slice());
        let call_list = call_list_targets.build(&leaf.call_list.indices, public_inputs.as_slice());
        let cast_root = cast_root_targets.build(&leaf.cast_root.indices, public_inputs.as_slice());
        let unbounded = unbounded_targets.build(public_inputs.as_slice());
        let r = BranchCircuit {
            unbounded,
            program_id,
            events,
            call_list,
            cast_root,
            circuit: builder,
        };
        proof {
            assert forall|e: Env| e.valid() && #[trigger] r.circuit.sat(e) implies {
                &&& r.events.targets.merges(e, *mc)
                &&& ids_joined(e, r.program_id.targets)
                &&& same_vals(e, r.call_list.targets.inputs.values, r.call_list.targets.left.values)
                &&& same_vals(e, r.call_list.targets.left.values, r.call_list.targets.right.values)
                &&& same_vals(e, r.cast_root.targets.inputs.values, r.cast_root.targets.left.values)
                &&& same_vals(e, r.cast_root.targets.left.values, r.cast_root.targets.right.values)
            } by {
                assert(b4.sat(e));
                assert(b3.sat(e));
                assert(b2.sat(e));
                assert(b1.sat(e));
            }
            assert forall|e: Env| e.valid() && #[trigger] r.circuit.sat(e) implies unbounded::verifies_children(
                e,
                r.unbounded.targets,
                leaf.unbounded.indices,
                leaf.common.id,
            ) by {
                assert(b4.sat(e));
                assert(b3.sat(e));
                assert(b2.sat(e));
                assert(b1.sat(e));
                assert(b0.sat(e));
            }
        }
        r
    }

    /// Gives the witness the children (each with whether it is a proof of
    /// the leaf circuit; an absent right child is the left one again),
    /// whether the right child is absent, and the public inputs of the proof
    /// of the merge.
    pub fn set_witness(
        &self,
        inputs: &mut PartialWitness,
        merge: &[u64],
        left_is_leaf: bool,
        left_proof: &[u64],
        right_is_leaf: bool,
        right_proof: Option<&[u64]>,
    ) -> (r: Result<(), WitnessConflict>)
        requires
            self.events.targets.proof.public_inputs@.len() == merge@.len(),
            self.unbounded.targets.left_proof.public_inputs@.len() == left_proof@.len(),
            self.unbounded.targets.right_proof.public_inputs@.len() == left_proof@.len(),
            right_proof matches Some(rp) ==> rp@.len() == left_proof@.len(),
        ensures
            r is Ok <==> old(inputs).fits(
                self.unbounded.witness_targets() + (seq![self.events.targets.partial.target]
                    + self.events.targets.proof.public_inputs@),
                unbounded::BranchSubCircuit::witness_values(
                    left_is_leaf,
                    left_proof@,
                    if right_proof is None { left_is_leaf } else { right_is_leaf },
                    match right_proof {
                        Some(rp) => rp@,
                        None => left_proof@,
                    },
                ) + (seq![bit_of(right_proof is None)] + merge@),
            ),
            r is Ok ==> final(inputs).wrote(
                *old(inputs),
                self.unbounded.witness_targets() + (seq![self.events.targets.partial.target]
                    + self.events.targets.proof.public_inputs@),
                unbounded::BranchSubCircuit::witness_values(
                    left_is_leaf,
                    left_proof@,
                    if right_proof is None { left_is_leaf } else { right_is_leaf },
                    match right_proof {
                        Some(rp) => rp@,
                        None => left_proof@,
                    },
                ) + (seq![bit_of(right_proof is None)] + merge@),
            ),
            r is Ok ==> final(inputs).has(
                self.events.targets.partial.target,
                if right_proof is None {
                    1u64
                } else {
                    0u64
                },
            ),
    {
        let partial = right_proof.is_none();
        let (right, right_leaf) = match right_proof {
            Some(rp) => (rp, right_is_leaf),
            None => (left_proof, left_is_leaf),
        };
        let ghost (t1, v1) = (
            self.unbounded.witness_targets(),
            unbounded::BranchSubCircuit::witness_values(left_is_leaf, left_proof@, right_leaf, right@),
        );
        let ghost (t2, v2) = (
            seq![self.events.targets.partial.target] + self.events.targets.proof.public_inputs@,
            seq![bit_of(partial)] + merge@,
        );
        let ghost w0 = *inputs;
        proof {
            lemma_fits_prefix(w0, t1, v1, t2, v2);
        }
        self.unbounded.set_witness(inputs, left_is_leaf, left_proof, right_leaf, right)?;
        let ghost w1 = *inputs;
        proof {
            lemma_fits_after(w0, w1, t1, v1, t2, v2);
        }
        self.events.set_witness(inputs, partial, merge)?;
        proof {
            lemma_wrote_chain(w0, w1, *inputs, t1, v1, t2, v2);
        }
        Ok(())
    }
}

} // verus!
