//! Circuits for verifying a program's proof and the root of the events it
//! emitted.
use vstd::prelude::*;

use crate::circuit::{
    digest, flatten_verifier, lemma_digest_vals, lemma_fits_after, lemma_fits_prefix,
    lemma_verifier_data_len, lemma_wrote_chain, verifier_data_targets, verifier_data_values,
    verifier_targets, BoolTarget, CircuitBuilder,
    CommonCircuitData, Env, HashOutTarget, PartialWitness, ProofWithPublicInputsTarget, Target,
    VerifierCircuitTarget, VerifierOnlyCircuitData, WitnessConflict,
};
use crate::indices::all_within;
use crate::subcircuits::{propagate, unpruned};

verus! {

/// The positions of the public inputs of a program's proof.
#[derive(Copy, Clone, PartialEq, Eq, Debug)]
pub struct ProgramPublicIndices {
    /// The indices of each of the elements of the program hash.
    pub program_hash: [usize; 4],
    /// The index of the presence flag for the event root.
    pub events_present: usize,
    /// The indices of each of the elements of event root.
    pub event_root: [usize; 4],
    /// The indices of each of the elements of cast list.
    pub call_list: [usize; 4],
    /// The indices of each of the elements of cast root.
    pub cast_root: [usize; 4],
}

/// Every position is below `len`.
pub open spec fn below4(idx: [usize; 4], len: nat) -> bool {
    forall|k: int| 0 <= k < 4 ==> #[trigger] idx[k] < len
}

/// The four values at the positions.
pub open spec fn read4<T>(idx: [usize; 4], pis: Seq<T>) -> [T; 4] {
    [pis[idx[0] as int], pis[idx[1] as int], pis[idx[2] as int], pis[idx[3] as int]]
}

/// Writes `v[k]` at `idx[k]`, for `k` from `0` up to `n`, in order.
pub open spec fn write4<T>(idx: [usize; 4], pis: Seq<T>, v: [T; 4], n: int) -> Seq<T>
    decreases n,
{
    if n <= 0 {
        pis
    } else {
        write4(idx, pis, v, n - 1).update(idx[n - 1] as int, v[n - 1])
    }
}

/// Reads the four values at the positions.
fn get4<T: Copy>(idx: [usize; 4], public_inputs: &[T]) -> (r: [T; 4])
    requires
        below4(idx, public_inputs@.len()),
    ensures
        r == read4(idx, public_inputs@),
{
    let r = [
        public_inputs[idx[0]],
        public_inputs[idx[1]],
        public_inputs[idx[2]],
        public_inputs[idx[3]],
    ];
    assert(r =~= read4(idx, public_inputs@));
    r
}

/// Writing at positions below the length keeps the length.
proof fn lemma_write4_len<T>(idx: [usize; 4], pis: Seq<T>, v: [T; 4], n: int)
    requires
        0 <= n <= 4,
        below4(idx, pis.len()),
    ensures
        write4(idx, pis, v, n).len() == pis.len(),
    decreases n,
{
    if n > 0 {
        lemma_write4_len(idx, pis, v, n - 1);
        assert(idx[n - 1] < pis.len());
    }
}

/// Writes the four values at the positions, in order.
fn set4<T: Copy>(idx: [usize; 4], public_inputs: &mut [T], v: [T; 4])
    requires
        below4(idx, old(public_inputs)@.len()),
    ensures
        final(public_inputs)@ == write4(idx, old(public_inputs)@, v, 4),
{
    let mut i: usize = 0;
    while i < 4
        invariant
            i <= 4,
            below4(idx, old(public_inputs)@.len()),
            public_inputs@ == write4(idx, old(public_inputs)@, v, i as int),
        decreases 4 - i,
    {
        proof {
            lemma_write4_len(idx, old(public_inputs)@, v, i as int);
        }
        public_inputs[idx[i]] = v[i];
        i = i + 1;
    }
}

/// Reading a position just written, when the positions are distinct, gives
/// the value written.
pub proof fn law_write4_read4<T>(idx: [usize; 4], pis: Seq<T>, v: [T; 4])
    requires
        below4(idx, pis.len()),
        forall|a: int, b: int| 0 <= a < b < 4 ==> idx[a] != idx[b],
    ensures
        read4(idx, write4(idx, pis, v, 4)) == v,
{
    assert forall|k: int| 0 <= k < 4 implies #[trigger] write4(idx, pis, v, 4)[idx[k] as int]
        == v[k] by {
        lemma_write4_read(idx, pis, v, 4, k);
    }
    assert(read4(idx, write4(idx, pis, v, 4)) =~= v);
}

/// Each written position holds its value when the positions are distinct.
proof fn lemma_write4_read<T>(idx: [usize; 4], pis: Seq<T>, v: [T; 4], n: int, k: int)
    requires
        0 <= k < n <= 4,
        below4(idx, pis.len()),
        forall|a: int, b: int| 0 <= a < b < 4 ==> idx[a] != idx[b],
    ensures
        write4(idx, pis, v, n)[idx[k] as int] == v[k],
    decreases n,
{
    lemma_write4_len(idx, pis, v, n - 1);
    if k < n - 1 {
        lemma_write4_read(idx, pis, v, n - 1, k);
        assert(idx[k] != idx[n - 1]);
    }
    assert(idx[k] < pis.len());
}

impl ProgramPublicIndices {
    /// Every position is below `len`.
    pub open spec fn within(self, len: nat) -> bool {
        &&& below4(self.program_hash, len)
        &&& self.events_present < len
        &&& below4(self.event_root, len)
        &&& below4(self.call_list, len)
        &&& below4(self.cast_root, len)
    }

    /// Extract `program_hash` from an array of public inputs.
    pub fn get_program_hash<T: Copy>(&self, public_inputs: &[T]) -> (r: [T; 4])
        requires
            below4(self.program_hash, public_inputs@.len()),
        ensures
            r == read4(self.program_hash, public_inputs@),
    {
        get4(self.program_hash, public_inputs)
    }

    /// Insert `program_hash` into an array of public inputs.
    pub fn set_program_hash<T: Copy>(&self, public_inputs: &mut [T], v: [T; 4])
        requires
            below4(self.program_hash, old(public_inputs)@.len()),
        ensures
            final(public_inputs)@ == write4(self.program_hash, old(public_inputs)@, v, 4),
    {
        set4(self.program_hash, public_inputs, v)
    }

    /// Extract the presence flag of the event root.
    pub fn get_events_present<T: Copy>(&self, public_inputs: &[T]) -> (r: T)
        requires
            self.events_present < public_inputs@.len(),
        ensures
            r == public_inputs@[self.events_present as int],
    {
        public_inputs[self.events_present]
    }

    /// Insert the presence flag of the event root.
    pub fn set_events_present<T>(&self, public_inputs: &mut [T], v: T)
        requires
            self.events_present < old(public_inputs)@.len(),
        ensures
            final(public_inputs)@ == old(public_inputs)@.update(self.events_present as int, v),
    {
        public_inputs[self.events_present] = v;
    }

    /// Extract `event_root` from an array of public inputs.
    pub fn get_event_root<T: Copy>(&self, public_inputs: &[T]) -> (r: [T; 4])
        requires
            below4(self.event_root, public_inputs@.len()),
        ensures
            r == read4(self.event_root, public_inputs@),
    {
        get4(self.event_root, public_inputs)
    }

    /// Insert `event_root` into an array of public inputs.
    pub fn set_event_root<T: Copy>(&self, public_inputs: &mut [T], v: [T; 4])
        requires
            below4(self.event_root, old(public_inputs)@.len()),
        ensures
            final(public_inputs)@ == write4(self.event_root, old(public_inputs)@, v, 4),
    {
        set4(self.event_root, public_inputs, v)
    }

    /// Extract `call_list` from an array of public inputs.
    pub fn get_call_list<T: Copy>(&self, public_inputs: &[T]) -> (r: [T; 4])
        requires
            below4(self.call_list, public_inputs@.len()),
        ensures
            r == read4(self.call_list, public_inputs@),
    {
        get4(self.call_list, public_inputs)
    }

    /// Insert `call_list` into an array of public inputs.
    pub fn set_call_list<T: Copy>(&self, public_inputs: &mut [T], v: [T; 4])
        requires
            below4(self.call_list, old(public_inputs)@.len()),
        ensures
            final(public_inputs)@ == write4(self.call_list, old(public_inputs)@, v, 4),
    {
        set4(self.call_list, public_inputs, v)
    }

    /// Extract `cast_root` from an array of public inputs.
    pub fn get_cast_root<T: Copy>(&self, public_inputs: &[T]) -> (r: [T; 4])
        requires
            below4(self.cast_root, public_inputs@.len()),
        ensures
            r == read4(self.cast_root, public_inputs@),
    {
        get4(self.cast_root, public_inputs)
    }

    /// Insert `cast_root` into an array of public inputs.
    pub fn set_cast_root<T: Copy>(&self, public_inputs: &mut [T], v: [T; 4])
        requires
            below4(self.cast_root, old(public_inputs)@.len()),
        ensures
            final(public_inputs)@ == write4(self.cast_root, old(public_inputs)@, v, 4),
    {
        set4(self.cast_root, public_inputs, v)
    }
}

pub struct ProgramVerifierTargets {
    /// The program verifer.
    pub program_verifier: VerifierCircuitTarget,
    /// The program verifier hash.
    pub program_verifier_hash: HashOutTarget,
    /// The program proof.
    pub program_proof: ProofWithPublicInputsTarget,
    /// The program id.
    pub program_id: [Target; 4],
    /// The presence flag for the event root.
    pub events_present: BoolTarget,
    /// The event root.
    pub event_root: HashOutTarget,
    /// The call list root.
    pub call_list: [Target; 4],
    /// The cast list root.
    pub cast_root: HashOutTarget,
}

pub struct ProgramVerifierSubCircuit {
    pub targets: ProgramVerifierTargets,
}

impl ProgramVerifierTargets {
    /// Verifies a proof of some program against verifier data given as
    /// targets, hashes that verifier data, and reads the program's public
    /// inputs.
    pub fn build_targets(
        builder: &mut CircuitBuilder,
        progam_circuit_indices: &ProgramPublicIndices,
        program_circuit_common: &CommonCircuitData,
    ) -> (r: Self)
        requires
            progam_circuit_indices.within(program_circuit_common.num_public_inputs as nat),
            crate::circuit::cap_height_ok(program_circuit_common.cap_height),
        ensures
            final(builder).grows(*old(builder)),
            r.program_verifier.constants_sigmas_cap.0@.len() == vstd::arithmetic::power2::pow2(
                program_circuit_common.cap_height as nat,
            ),
            ({
                let (idx, pis) = (*progam_circuit_indices, r.program_proof.public_inputs@);
                &&& pis.len() == program_circuit_common.num_public_inputs
                &&& r.program_id == read4(idx.program_hash, pis)
                &&& r.events_present.target == pis[idx.events_present as int]
                &&& r.event_root.elements == read4(idx.event_root, pis)
                &&& r.call_list == read4(idx.call_list, pis)
                &&& r.cast_root.elements == read4(idx.cast_root, pis)
            }),
            forall|e: Env| #[trigger]
                final(builder).sat(e) ==> e.hash_val(r.program_verifier_hash) == digest(
                    e,
                    e.vals(verifier_targets(r.program_verifier)),
                ),
            forall|e: Env| #[trigger]
                final(builder).sat(e) ==> e.verified(
                    program_circuit_common.id,
                    e.vals(verifier_targets(r.program_verifier)),
                    e.vals(r.program_proof.public_inputs@),
                ),
    {
        let program_proof = builder.add_virtual_proof_with_pis(
            program_circuit_common.num_public_inputs,
        );
        let program_verifier = builder.add_virtual_verifier_data(
            program_circuit_common.cap_height,
        );
        builder.verify_proof(&program_proof, &program_verifier, program_circuit_common.id);
        let ghost bv = *builder;

        let inputs = flatten_verifier(&program_verifier);
        let ghost ins = inputs@;
        let program_verifier_hash = builder.hash_n_to_hash_no_pad(inputs);

        let pis = program_proof.public_inputs.as_slice();
        let program_id = progam_circuit_indices.get_program_hash(pis);
        let events_present = BoolTarget::new_unsafe(
            progam_circuit_indices.get_events_present(pis),
        );
        let event_root = HashOutTarget { elements: progam_circuit_indices.get_event_root(pis) };
        let call_list = progam_circuit_indices.get_call_list(pis);
        let cast_root = HashOutTarget { elements: progam_circuit_indices.get_cast_root(pis) };
        proof {
            assert forall|e: Env| #[trigger] builder.sat(e) implies e.hash_val(
                program_verifier_hash,
            ) == digest(e, e.vals(verifier_targets(program_verifier))) by {
                lemma_digest_vals(e, program_verifier_hash, e.vals(ins));
            }
            assert forall|e: Env| #[trigger] builder.sat(e) implies e.verified(
                program_circuit_common.id,
                e.vals(verifier_targets(program_verifier)),
                e.vals(program_proof.public_inputs@),
            ) by {
                assert(bv.sat(e));
            }
        }
        ProgramVerifierTargets {
            program_verifier,
            program_verifier_hash,
            program_proof,
            program_id,
            events_present,
            event_root,
            call_list,
            cast_root,
        }
    }

    /// The subcircuit has no public inputs of its own.
    pub fn build(self, _public_inputs: &[Target]) -> (r: ProgramVerifierSubCircuit)
        ensures
            r.targets == self,
    {
        ProgramVerifierSubCircuit { targets: self }
    }
}

impl ProgramVerifierSubCircuit {
    /// Gives the witness the program's verifier data and the public inputs
    /// of its proof.
    pub fn set_witness(
        &self,
        inputs: &mut PartialWitness,
        program_verifier: &VerifierOnlyCircuitData,
        program_proof: &[u64],
    ) -> (r: Result<(), WitnessConflict>)
        requires
            self.targets.program_verifier.constants_sigmas_cap.0@.len()
                == program_verifier.constants_sigmas_cap@.len(),
            self.targets.program_proof.public_inputs@.len() == program_proof@.len(),
        ensures
            r is Ok <==> old(inputs).fits(
                verifier_data_targets(self.targets.program_verifier)
                    + self.targets.program_proof.public_inputs@,
                verifier_data_values(*program_verifier) + program_proof@,
            ),
            r is Ok ==> final(inputs).wrote(
                *old(inputs),
                verifier_data_targets(self.targets.program_verifier)
                    + self.targets.program_proof.public_inputs@,
                verifier_data_values(*program_verifier) + program_proof@,
            ),
            r is Ok ==> final(inputs).extends(*old(inputs)),
            r is Ok ==> final(inputs).has_arr(
                self.targets.program_verifier.circuit_digest.elements,
                program_verifier.circuit_digest,
            ),
            r is Ok ==> forall|k: int|
                0 <= k < program_proof@.len() ==> final(inputs).has(
                    #[trigger] self.targets.program_proof.public_inputs@[k],
                    program_proof@[k],
                ),
    {
        let ghost (t1, v1) = (
            verifier_data_targets(self.targets.program_verifier),
            verifier_data_values(*program_verifier),
        );
        let ghost (t2, v2) = (self.targets.program_proof.public_inputs@, program_proof@);
        let ghost w0 = *inputs;
        proof {
            lemma_verifier_data_len(self.targets.program_verifier, *program_verifier);
            lemma_fits_prefix(w0, t1, v1, t2, v2);
        }
        inputs.set_verifier_data_target(&self.targets.program_verifier, program_verifier)?;
        let ghost mid = *inputs;
        proof {
            lemma_fits_after(w0, mid, t1, v1, t2, v2);
        }
        inputs.set_proof_with_pis_target(&self.targets.program_proof, program_proof)?;
        proof {
            lemma_wrote_chain(w0, mid, *inputs, t1, v1, t2, v2);
            assert forall|i: int| #![trigger self.targets.program_verifier.circuit_digest.elements[i]] 0 <= i < 4 implies inputs.has(
                self.targets.program_verifier.circuit_digest.elements[i],
                program_verifier.circuit_digest[i],
            ) by {
                assert(mid.has(
                    self.targets.program_verifier.circuit_digest.elements[i],
                    program_verifier.circuit_digest[i],
                ));
            }
        }
        Ok(())
    }
}

/// What verifying a proof of an event root needs of the circuit that proves
/// event roots: the positions of the event owner, the two hashes of the
/// events, and the circuit itself.
pub struct EventRootCircuit {
    pub event_owner: propagate::PublicIndices<4>,
    pub hash: unpruned::PublicIndices,
    pub vm_hash: unpruned::PublicIndices,
    pub common: CommonCircuitData,
}

pub struct EventRootVerifierTargets {
    /// The event root proof.
    pub event_root_proof: ProofWithPublicInputsTarget,
    /// The event owner.
    pub event_owner: [Target; 4],
    /// The event root (rp hash).
    pub event_root: HashOutTarget,
    /// The event root (vm hash).
    pub vm_event_root: HashOutTarget,
}

pub struct EventRootVerifierSubCircuit {
    pub targets: EventRootVerifierTargets,
}

impl EventRootVerifierTargets {
    /// Verifies a proof of the event root circuit against its (constant)
    /// verifier data and reads the event owner and both event roots.
    pub fn build_targets(builder: &mut CircuitBuilder, event_root_circuit: &EventRootCircuit) -> (r:
        Self)
        requires
            all_within(
                event_root_circuit.event_owner.values.0,
                event_root_circuit.common.num_public_inputs as nat,
            ),
            event_root_circuit.hash.unpruned_hash.within(
                event_root_circuit.common.num_public_inputs as nat,
            ),
            event_root_circuit.vm_hash.unpruned_hash.within(
                event_root_circuit.common.num_public_inputs as nat,
            ),
            crate::circuit::cap_height_ok(event_root_circuit.common.cap_height),
        ensures
            final(builder).grows(*old(builder)),
            forall|e: Env| #[trigger]
                final(builder).sat(e) ==> e.verified(
                    event_root_circuit.common.id,
                    e.verifier_data(event_root_circuit.common.id),
                    e.vals(r.event_root_proof.public_inputs@),
                ),
            ({
                let (c, pis) = (*event_root_circuit, r.event_root_proof.public_inputs@);
                &&& pis.len() == c.common.num_public_inputs
                &&& forall|k: int|
                    0 <= k < 4 ==> #[trigger] r.event_owner[k] == pis[c.event_owner.values.0[k].0 as int]
                &&& r.event_root.elements == c.hash.unpruned_hash.get_spec(pis)
                &&& r.vm_event_root.elements == c.vm_hash.unpruned_hash.get_spec(pis)
            }),
    {
        let circuit = &event_root_circuit.common;
        let event_root_proof = builder.add_virtual_proof_with_pis(circuit.num_public_inputs);
        let verifier = builder.constant_verifier_data(circuit.id, circuit.cap_height);
        let ghost bc = *builder;
        builder.verify_proof(&event_root_proof, &verifier, circuit.id);
        let ghost bv = *builder;

        let pis = event_root_proof.public_inputs.as_slice();
        let event_owner = event_root_circuit.event_owner.values.get_target(pis);
        let event_root = event_root_circuit.hash.unpruned_hash.get_target(pis);
        let vm_event_root = event_root_circuit.vm_hash.unpruned_hash.get_target(pis);
        assert(event_root.elements =~= event_root_circuit.hash.unpruned_hash.get_spec(pis@));
        assert(vm_event_root.elements =~= event_root_circuit.vm_hash.unpruned_hash.get_spec(
            pis@,
        ));
        proof {
            assert forall|e: Env| #[trigger] builder.sat(e) implies e.verified(
                event_root_circuit.common.id,
                e.verifier_data(event_root_circuit.common.id),
                e.vals(event_root_proof.public_inputs@),
            ) by {
                assert(bv.sat(e));
                assert(bc.sat(e));
            }
        }
        EventRootVerifierTargets { event_root_proof, event_owner, event_root, vm_event_root }
    }

    /// The subcircuit has no public inputs of its own.
    pub fn build(self, _public_inputs: &[Target]) -> (r: EventRootVerifierSubCircuit)
        ensures
            r.targets == self,
    {
        EventRootVerifierSubCircuit { targets: self }
    }
}

impl EventRootVerifierSubCircuit {
    /// Gives the witness the public inputs of the proof of the event root.
    pub fn set_witness(&self, inputs: &mut PartialWitness, event_root_proof: &[u64]) -> (r: Result<
        (),
        WitnessConflict,
    >)
        requires
            self.targets.event_root_proof.public_inputs@.len() == event_root_proof@.len(),
        ensures
            r is Ok <==> old(inputs).fits(self.targets.event_root_proof.public_inputs@, event_root_proof@),
            r is Ok ==> final(inputs).wrote(*old(inputs), self.targets.event_root_proof.public_inputs@, event_root_proof@),
            r is Ok ==> final(inputs).extends(*old(inputs)),
            r is Ok ==> forall|k: int|
                0 <= k < event_root_proof@.len() ==> final(inputs).has(
                    #[trigger] self.targets.event_root_proof.public_inputs@[k],
                    event_root_proof@[k],
                ),
    {
        inputs.set_proof_with_pis_target(&self.targets.event_root_proof, event_root_proof)
    }
}

} // verus!
