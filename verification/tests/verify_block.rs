use recproofs::circuit::{CircuitBuilder, CommonCircuitData, PartialWitness, VerifierOnlyCircuitData};
use recproofs::circuits::merge::embed;
use recproofs::circuits::verify_block::core_circuit;
use recproofs::circuits::verify_block::core_circuit::{
    MatchDeltaCircuit, StateUpdateCircuit, SubCircuit, TxCircuit,
};
use recproofs::circuits::verify_block::{BaseOrBlockRef, Circuit, Indices, Proof};
use recproofs::field::ORDER;
use recproofs::generate::{generate_witness, public_values, GenerateError};
use recproofs::indices::{ArrayTargetIndex, BoolTargetIndex, HashOutTargetIndex, TargetIndex};
use recproofs::subcircuits::{propagate, summarized, unpruned, verify_address};

/// A stand-in for the circuit's hash: deterministic, with field outputs.
fn hash(inputs: Vec<u64>) -> [u64; 4] {
    let mut s: [u64; 4] = [
        0x9e37_79b9_7f4a_7c15,
        0xbf58_476d_1ce4_e5b9,
        0x94d0_49bb_1331_11eb,
        inputs.len() as u64,
    ];
    for (i, x) in inputs.iter().enumerate() {
        for k in 0..4 {
            let mut z = s[k] ^ x.wrapping_add((i as u64 + 1).wrapping_mul(0x2545_f491_4f6c_dd1d));
            z = (z ^ (z >> 30)).wrapping_mul(0xbf58_476d_1ce4_e5b9);
            z = (z ^ (z >> 27)).wrapping_mul(0x94d0_49bb_1331_11eb);
            s[k] = z ^ (z >> 31) ^ (k as u64);
        }
    }
    s.map(|v| v % ORDER)
}

type RawProof = Vec<u64>;

fn prove(circuit: &CircuitBuilder, w: &PartialWitness) -> Result<RawProof, GenerateError> {
    let vals = generate_witness(circuit, w, &hash)?;
    Ok(public_values(circuit, &vals).unwrap())
}

fn unsatisfied<T>(r: Result<T, GenerateError>) -> bool {
    matches!(r, Err(GenerateError::Unsatisfied { .. }))
}

const ZERO_HASH: [u64; 4] = [0; 4];
const NON_ZERO_HASHES: [[u64; 4]; 4] = [[1, 2, 3, 4], [5, 6, 7, 8], [9, 10, 11, 12], [13, 14, 15, 16]];
/// The number by which the plans name the block circuit.
const BLOCK_CIRCUIT: usize = 5;
/// The number by which the plans name the dummy base circuit.
const DUMMY_CIRCUIT: usize = 6;

/// The verifier data of the block circuit.
fn block_verifier() -> VerifierOnlyCircuitData {
    VerifierOnlyCircuitData { constants_sigmas_cap: vec![[21, 22, 23, 24]], circuit_digest: [25, 26, 27, 28] }
}

/// The verifier data of the dummy base circuit.
fn dummy_verifier() -> VerifierOnlyCircuitData {
    VerifierOnlyCircuitData { constants_sigmas_cap: vec![[31, 32, 33, 34]], circuit_digest: [35, 36, 37, 38] }
}

struct DummyCircuit {
    verify_block: SubCircuit,
    circuit: CircuitBuilder,
}

impl DummyCircuit {
    fn new() -> Self {
        let mut builder = CircuitBuilder::new();
        let inputs = core_circuit::default(&mut builder, 0);
        let common = CommonCircuitData { num_public_inputs: builder.num_public_inputs(), cap_height: 0, id: BLOCK_CIRCUIT };
        let verify_block = inputs.build(&mut builder, &common, DUMMY_CIRCUIT);
        DummyCircuit { verify_block, circuit: builder }
    }

    fn prove_base(&self, base_state_root: [u64; 4]) -> RawProof {
        self.verify_block.prove_base(&block_verifier(), base_state_root)
    }

    fn prove_base_unsafe(
        &self,
        v: Option<&VerifierOnlyCircuitData>,
        base_state_root: [u64; 4],
        state_root: [u64; 4],
        block_height: u64,
    ) -> RawProof {
        let v = v.cloned().unwrap_or_else(block_verifier);
        self.verify_block.prove_base_unsafe(&v, base_state_root, state_root, block_height)
    }

    fn prove(&self, state_root: [u64; 4], prev: &RawProof) -> Result<RawProof, GenerateError> {
        let mut inputs = PartialWitness::new();
        self.verify_block.set_witness(&mut inputs, state_root).unwrap();
        inputs.set_proof_with_pis_target(&self.verify_block.prev_proof, prev).unwrap();
        prove(&self.circuit, &inputs)
    }

    fn prove_unsafe(
        &self,
        v: Option<&VerifierOnlyCircuitData>,
        base_state_root: [u64; 4],
        state_root: [u64; 4],
        block_height: u64,
        prev: &RawProof,
    ) -> Result<RawProof, GenerateError> {
        let v = v.cloned().unwrap_or_else(block_verifier);
        let mut inputs = PartialWitness::new();
        self.verify_block
            .set_witness_unsafe(&mut inputs, &v, base_state_root, state_root, block_height)
            .unwrap();
        inputs.set_proof_with_pis_target(&self.verify_block.prev_proof, prev).unwrap();
        prove(&self.circuit, &inputs)
    }

    fn assert_proof(&self, proof: &RawProof, base_root: [u64; 4], root: [u64; 4], block_height: u64) {
        let indices = &self.verify_block.indices;
        assert_eq!(indices.base_state_root.get_field(proof), base_root);
        assert_eq!(indices.state_root.get_field(proof), root);
        assert_eq!(indices.block_height.get_field(proof), block_height);
        let v = indices.verifier.get_field(proof);
        assert_eq!(v.circuit_digest, block_verifier().circuit_digest);
        assert_eq!(v.constants_sigmas_cap, block_verifier().constants_sigmas_cap);
    }
}

#[test]
fn block_core_base_proofs() {
    let c = DummyCircuit::new();
    let zero = c.prove_base(ZERO_HASH);
    c.assert_proof(&zero, ZERO_HASH, ZERO_HASH, 0);
    let non_zero = c.prove_base(NON_ZERO_HASHES[0]);
    c.assert_proof(&non_zero, NON_ZERO_HASHES[0], NON_ZERO_HASHES[0], 0);
    assert_eq!(zero.len(), c.circuit.num_public_inputs());
}

#[test]
fn verify_static_zero() {
    let c = DummyCircuit::new();
    let mut proof = c.prove_base(ZERO_HASH);
    for i in 1..5 {
        proof = c.prove(ZERO_HASH, &proof).unwrap();
        c.assert_proof(&proof, ZERO_HASH, ZERO_HASH, i);
    }
}

#[test]
fn verify_static_nonzero() {
    let c = DummyCircuit::new();
    let mut proof = c.prove_base(NON_ZERO_HASHES[0]);
    for i in 1..5 {
        proof = c.prove(NON_ZERO_HASHES[0], &proof).unwrap();
        c.assert_proof(&proof, NON_ZERO_HASHES[0], NON_ZERO_HASHES[0], i);
    }
}

#[test]
fn verify_zero_based() {
    let c = DummyCircuit::new();
    let mut proof = c.prove_base(ZERO_HASH);
    for (i, hash) in NON_ZERO_HASHES.into_iter().enumerate() {
        proof = c.prove(hash, &proof).unwrap();
        c.assert_proof(&proof, ZERO_HASH, hash, i as u64 + 1);
    }
}

#[test]
fn verify_nonzero_based() {
    let c = DummyCircuit::new();
    let mut proof = c.prove_base(NON_ZERO_HASHES[0]);
    for (i, hash) in NON_ZERO_HASHES.into_iter().enumerate() {
        proof = c.prove(hash, &proof).unwrap();
        c.assert_proof(&proof, NON_ZERO_HASHES[0], hash, i as u64 + 1);
    }
}

#[test]
fn bad_base() {
    let c = DummyCircuit::new();
    let zero = c.prove_base(ZERO_HASH);
    assert!(unsatisfied(c.prove_unsafe(None, NON_ZERO_HASHES[0], ZERO_HASH, 0, &zero)));
}

#[test]
fn bad_height_0() {
    let c = DummyCircuit::new();
    let zero = c.prove_base(ZERO_HASH);
    assert!(unsatisfied(c.prove_unsafe(None, ZERO_HASH, ZERO_HASH, 0, &zero)));
}

#[test]
fn bad_height_2() {
    let c = DummyCircuit::new();
    let zero = c.prove_base(ZERO_HASH);
    assert!(unsatisfied(c.prove_unsafe(None, ZERO_HASH, ZERO_HASH, 2, &zero)));
}

#[test]
fn bad_height_1() {
    let c = DummyCircuit::new();
    let zero = c.prove_base(ZERO_HASH);
    let proof = c.prove(ZERO_HASH, &zero).unwrap();
    assert!(unsatisfied(c.prove_unsafe(None, ZERO_HASH, NON_ZERO_HASHES[0], 1, &proof)));
}

#[test]
fn bad_base_height_0() {
    let c = DummyCircuit::new();
    let bad = c.prove_base_unsafe(None, ZERO_HASH, ZERO_HASH, 1);
    c.assert_proof(&bad, ZERO_HASH, ZERO_HASH, 1);
    assert!(unsatisfied(c.prove_unsafe(None, ZERO_HASH, ZERO_HASH, 0, &bad)));
}

#[test]
fn bad_base_height_1() {
    let c = DummyCircuit::new();
    let bad = c.prove_base_unsafe(None, ZERO_HASH, ZERO_HASH, 1);
    assert!(unsatisfied(c.prove_unsafe(None, ZERO_HASH, ZERO_HASH, 1, &bad)));
}

#[test]
fn bad_base_verifier_match() {
    let c = DummyCircuit::new();
    let bad = c.prove_base_unsafe(Some(&dummy_verifier()), ZERO_HASH, ZERO_HASH, 0);
    assert!(unsatisfied(c.prove_unsafe(None, ZERO_HASH, ZERO_HASH, 1, &bad)));
}

#[test]
fn bad_base_verifier_mismatch() {
    let c = DummyCircuit::new();
    let bad = c.prove_base_unsafe(Some(&dummy_verifier()), ZERO_HASH, ZERO_HASH, 0);
    assert!(unsatisfied(c.prove_unsafe(Some(&block_verifier()), ZERO_HASH, ZERO_HASH, 1, &bad)));
}

/// A base state that differs from its state is no base to build on.
#[test]
fn block_core_base_must_be_its_state() {
    let c = DummyCircuit::new();
    let bad = c.prove_base_unsafe(None, ZERO_HASH, NON_ZERO_HASHES[0], 0);
    assert!(unsatisfied(c.prove(NON_ZERO_HASHES[1], &bad)));
}

// The block circuit.

fn hash_index(start: usize) -> HashOutTargetIndex {
    HashOutTargetIndex(ArrayTargetIndex([
        TargetIndex(start),
        TargetIndex(start + 1),
        TargetIndex(start + 2),
        TargetIndex(start + 3),
    ]))
}

/// Proofs of transactions: events present at 0, their hash at 1 to 4.
fn tx_circuit() -> TxCircuit {
    TxCircuit {
        events: embed::PublicIndices { hash_present: BoolTargetIndex(TargetIndex(0)), hash: hash_index(1) },
        common: CommonCircuitData { num_public_inputs: 5, cap_height: 0, id: 7 },
    }
}

/// Proofs of state deltas: the event hash at 0 to 3, the block height at
/// 4, the state hash at 5 to 8.
fn md_circuit() -> MatchDeltaCircuit {
    MatchDeltaCircuit {
        event_hash: unpruned::PublicIndices { unpruned_hash: hash_index(0) },
        block_height: propagate::PublicIndices { values: ArrayTargetIndex([TargetIndex(4)]) },
        state_hash: unpruned::PublicIndices { unpruned_hash: hash_index(5) },
        common: CommonCircuitData { num_public_inputs: 9, cap_height: 0, id: 8 },
    }
}

/// Proofs of state updates: the summary at 0 to 4, the old root at 5 to 8,
/// the new root at 9 to 12, the address at 13 and 14.
fn su_circuit() -> StateUpdateCircuit {
    StateUpdateCircuit {
        summarized: summarized::PublicIndices {
            summary_hash_present: BoolTargetIndex(TargetIndex(0)),
            summary_hash: hash_index(1),
        },
        old: unpruned::PublicIndices { unpruned_hash: hash_index(5) },
        new: unpruned::PublicIndices { unpruned_hash: hash_index(9) },
        address: verify_address::PublicIndices {
            node_present: BoolTargetIndex(TargetIndex(13)),
            node_address: TargetIndex(14),
        },
        common: CommonCircuitData { num_public_inputs: 15, cap_height: 0, id: 9 },
    }
}

fn tx_proof(events: [u64; 4]) -> RawProof {
    [1].into_iter().chain(events).collect()
}

fn md_proof(events: [u64; 4], block_height: u64, state_delta: [u64; 4]) -> RawProof {
    events.into_iter().chain([block_height]).chain(state_delta).collect()
}

fn su_proof(summary: [u64; 4], old: [u64; 4], new: [u64; 4]) -> RawProof {
    [1].into_iter().chain(summary).chain(old).chain(new).chain([1, 0]).collect()
}

fn block_circuit() -> Circuit {
    Circuit::new(&tx_circuit(), &md_circuit(), &su_circuit(), 0, BLOCK_CIRCUIT, DUMMY_CIRCUIT)
}

fn prove_block(c: &Circuit, tx: &RawProof, md: &RawProof, su: &RawProof, prev: BaseOrBlockRef) -> Result<Proof, GenerateError> {
    let mut inputs = PartialWitness::new();
    c.set_witness(&mut inputs, tx, md, su, prev).unwrap();
    let public_inputs = prove(&c.circuit, &inputs)?;
    Ok(Proof { public_inputs, indices: c.indices() })
}

fn assert_block(proof: &Proof, base_root: [u64; 4], root: [u64; 4], block_height: u64) {
    assert_eq!(proof.base_state(), base_root);
    assert_eq!(proof.state(), root);
    assert_eq!(proof.block_height(), block_height);
}

#[test]
fn verify_zero_base() {
    let c = block_circuit();
    let proof = c.prove_base(&block_verifier(), ZERO_HASH);
    assert_block(&proof, ZERO_HASH, ZERO_HASH, 0);
    let _: &Indices = &proof.indices;
}

#[test]
fn verify_non_zero_base() {
    let c = block_circuit();
    let proof = c.prove_base(&block_verifier(), NON_ZERO_HASHES[0]);
    assert_block(&proof, NON_ZERO_HASHES[0], NON_ZERO_HASHES[0], 0);
}

#[test]
fn verify() {
    let c = block_circuit();
    let state_0 = NON_ZERO_HASHES[0];
    let state_1 = NON_ZERO_HASHES[1];
    let events = NON_ZERO_HASHES[2];
    let summary = NON_ZERO_HASHES[3];
    let base = c.prove_base(&block_verifier(), state_0);
    let proof = prove_block(
        &c,
        &tx_proof(events),
        &md_proof(events, 1, summary),
        &su_proof(summary, state_0, state_1),
        BaseOrBlockRef::Base(&base),
    )
    .unwrap();
    assert_block(&proof, state_0, state_1, 1);
    assert_eq!(proof.verifier_data().circuit_digest, block_verifier().circuit_digest);

    // The next block starts from this one's state.
    let state_2 = [41, 42, 43, 44];
    let next = prove_block(
        &c,
        &tx_proof(events),
        &md_proof(events, 2, summary),
        &su_proof(summary, state_1, state_2),
        BaseOrBlockRef::Block(&proof),
    )
    .unwrap();
    assert_block(&next, state_0, state_2, 2);
}

/// A block whose parts do not agree is refused: other events, another
/// height, another summary, another old state.
#[test]
fn block_parts_must_agree() {
    let c = block_circuit();
    let (state_0, state_1) = (NON_ZERO_HASHES[0], NON_ZERO_HASHES[1]);
    let (events, summary) = (NON_ZERO_HASHES[2], NON_ZERO_HASHES[3]);
    let base = c.prove_base(&block_verifier(), state_0);
    let prove = |tx: RawProof, md: RawProof, su: RawProof| prove_block(&c, &tx, &md, &su, BaseOrBlockRef::Base(&base));
    assert!(unsatisfied(prove(tx_proof(ZERO_HASH), md_proof(events, 1, summary), su_proof(summary, state_0, state_1))));
    assert!(unsatisfied(prove(tx_proof(events), md_proof(events, 2, summary), su_proof(summary, state_0, state_1))));
    assert!(unsatisfied(prove(tx_proof(events), md_proof(events, 1, summary), su_proof(ZERO_HASH, state_0, state_1))));
    assert!(unsatisfied(prove(tx_proof(events), md_proof(events, 1, summary), su_proof(summary, state_1, state_1))));
}

#[test]
fn base_or_block_ref_holds_its_proof() {
    let c = block_circuit();
    let base = c.prove_base(&block_verifier(), ZERO_HASH);
    let as_base = BaseOrBlockRef::Base(&base);
    assert!(as_base.is_base());
    assert_eq!(as_base.get_proof().public_inputs, base.public_inputs);
    assert_eq!(as_base.indices().block.block_height, base.indices.block.block_height);
    let as_block = BaseOrBlockRef::Block(&base);
    assert!(!as_block.is_base());
}
