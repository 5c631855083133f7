//! Circuits for verifying the proof of a transaction's set of programs.
use vstd::prelude::*;

use crate::circuit::{
    BoolTarget, CircuitBuilder, CommonCircuitData, Env, HashOutTarget, PartialWitness,
    ProofWithPublicInputsTarget, Target, WitnessConflict,
};
use crate::circuits::merge::embed;
use crate::gadgets::{connect_arrays, same_vals};
use crate::indices::all_within;
use crate::subcircuits::{propagate, unpruned};

verus! {

/// What verifying a proof of a program set needs of the circuit that proves
/// them: the positions of the events, the cast list root and the program
/// identifiers, and the circuit itself.
pub struct ProgramSetCircuit {
    pub events: embed::PublicIndices,
    pub cast_root: propagate::PublicIndices<4>,
    pub program_id: unpruned::PublicIndices,
    pub common: CommonCircuitData,
}

pub struct ProgramSetVerifierTargets {
    /// The program proof.
    pub program_set_proof: ProofWithPublicInputsTarget,
    /// The presence flag for the event root.
    pub events_present: BoolTarget,
    /// The event root.
    pub event_root: HashOutTarget,
}

pub struct ProgramVerifierSubCircuit {
    pub targets: ProgramSetVerifierTargets,
}

impl ProgramSetVerifierTargets {
    /// Verifies a proof of the program set circuit against its (constant)
    /// verifier data, reads the events, and proves the cast list root is the
    /// root of the program identifiers.
    pub fn build_targets(builder: &mut CircuitBuilder, program: &ProgramSetCircuit) -> (r: Self)
        requires
            program.events.within(program.common.num_public_inputs as nat),
            all_within(program.cast_root.values.0, program.common.num_public_inputs as nat),
            program.program_id.unpruned_hash.within(program.common.num_public_inputs as nat),
            crate::circuit::cap_height_ok(program.common.cap_height),
        ensures
            final(builder).grows(*old(builder)),
            ({
                let (c, pis) = (*program, r.program_set_proof.public_inputs@);
                &&& pis.len() == c.common.num_public_inputs
                &&& r.events_present.target == pis[c.events.hash_present.0.0 as int]
                &&& r.event_root.elements == c.events.hash.get_spec(pis)
            }),
            forall|e: Env|
                #[trigger] final(builder).sat(e) ==> {
                    let (c, pis) = (*program, r.program_set_proof.public_inputs@);
                    forall|k: int|
                        0 <= k < 4 ==> #[trigger] e.val(pis[c.cast_root.values.0[k].0 as int])
                            == e.val(pis[c.program_id.unpruned_hash.pos(k)])
                },
            forall|e: Env| #[trigger]
                final(builder).sat(e) ==> e.verified(
                    program.common.id,
                    e.verifier_data(program.common.id),
                    e.vals(r.program_set_proof.public_inputs@),
                ),
    {
        let circuit = &program.common;
        let program_set_proof = builder.add_virtual_proof_with_pis(circuit.num_public_inputs);
        let verifier = builder.constant_verifier_data(circuit.id, circuit.cap_height);
        let ghost bc = *builder;
        builder.verify_proof(&program_set_proof, &verifier, circuit.id);
        let ghost bv = *builder;

        let pis = program_set_proof.public_inputs.as_slice();
        let events_present = program.events.hash_present.get_target(pis);
        let event_root = program.events.hash.get_target(pis);
        let cast_root = program.cast_root.values.get_target(pis);
        let program_ids = program.program_id.unpruned_hash.get_target(pis);

        connect_arrays(builder, cast_root, program_ids.elements);
        assert(event_root.elements =~= program.events.hash.get_spec(pis@));
        proof {
            assert forall|e: Env| #[trigger] builder.sat(e) implies e.verified(
                circuit.id,
                e.verifier_data(circuit.id),
                e.vals(program_set_proof.public_inputs@),
            ) by {
                assert(bv.sat(e));
                assert(bc.sat(e));
            }
            assert forall|e: Env| #[trigger] builder.sat(e) implies forall|k: int|
                0 <= k < 4 ==> #[trigger] e.val(pis@[program.cast_root.values.0[k].0 as int])
                    == e.val(pis@[program.program_id.unpruned_hash.pos(k)]) by {
                assert(same_vals(e, cast_root, program_ids.elements));
                assert forall|k: int| 0 <= k < 4 implies #[trigger] e.val(
                    pis@[program.cast_root.values.0[k].0 as int],
                ) == e.val(pis@[program.program_id.unpruned_hash.pos(k)]) by {
                    assert(e.val(cast_root[k]) == e.val(program_ids.elements[k]));
                }
            }
        }
        ProgramSetVerifierTargets { program_set_proof, events_present, event_root }
    }

    /// The subcircuit has no public inputs of its own.
    pub fn build(self, _public_inputs: &[Target]) -> (r: ProgramVerifierSubCircuit)
        ensures
            r.targets == self,
    {
        ProgramVerifierSubCircuit { targets: self }
    }
}

impl ProgramVerifierSubCircuit {
    /// Gives the witness the public inputs of the proof of the program set.
    pub fn set_witness(&self, inputs: &mut PartialWitness, program_set_proof: &[u64]) -> (r: Result<
        (),
        WitnessConflict,
    >)
        requires
            self.targets.program_set_proof.public_inputs@.len() == program_set_proof@.len(),
        ensures
            r is Ok <==> old(inputs).fits(self.targets.program_set_proof.public_inputs@, program_set_proof@),
            r is Ok ==> final(inputs).wrote(*old(inputs), self.targets.program_set_proof.public_inputs@, program_set_proof@),
            r is Ok ==> final(inputs).extends(*old(inputs)),
            r is Ok ==> forall|k: int|
                0 <= k < program_set_proof@.len() ==> final(inputs).has(
                    #[trigger] self.targets.program_set_proof.public_inputs@[k],
                    program_set_proof@[k],
                ),
    {
        inputs.set_proof_with_pis_target(&self.targets.program_set_proof, program_set_proof)
    }
}

} // verus!
