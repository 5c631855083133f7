use recproofs::circuit::{CircuitBuilder, PartialWitness, ProofWithPublicInputsTarget};
use recproofs::circuits::match_delta::core_circuit;
use recproofs::circuits::match_delta::core_circuit::{
    BranchSubCircuit, LeafSubCircuit, LeafWitnessValue, PublicIndices,
};
use recproofs::event::FlagSet;
use recproofs::field::ORDER;
use recproofs::generate::{generate_witness, public_values, GenerateError};
use recproofs::EventFlags;

/// A stand-in for the circuit's hash: deterministic, with field outputs.
fn hash(inputs: Vec<u64>) -> [u64; 4] {
    let mut s: [u64; 4] = [
        0x9e37_79b9_7f4a_7c15,
        0xbf58_476d_1ce4_e5b9,
        0x94d0_49bb_1331_11eb,
        inputs.len() as u64,
    ];
    for (i, x) in inputs.iter().enumerate() {
        for k in 0..4 {
            let mut z = s[k] ^ x.wrapping_add((i as u64 + 1).wrapping_mul(0x2545_f491_4f6c_dd1d));
            z = (z ^ (z >> 30)).wrapping_mul(0xbf58_476d_1ce4_e5b9);
            z = (z ^ (z >> 27)).wrapping_mul(0x94d0_49bb_1331_11eb);
            s[k] = z ^ (z >> 31) ^ (k as u64);
        }
    }
    s.map(|v| v % ORDER)
}

type Proof = Vec<u64>;

const ZERO_VAL: [u64; 4] = [0; 4];
const PROGRAM_HASH_1: [u64; 4] = [4, 8, 15, 16];
const PROGRAM_HASH_2: [u64; 4] = [2, 3, 4, 2];
const NON_ZERO_VAL_1: [u64; 4] = [3, 1, 4, 15];
const NON_ZERO_VAL_2: [u64; 4] = [42, 0, 0, 0];

fn prove(circuit: &CircuitBuilder, w: &PartialWitness) -> Result<Proof, GenerateError> {
    let vals = generate_witness(circuit, w, &hash)?;
    Ok(public_values(circuit, &vals).unwrap())
}

fn unsatisfied<T>(r: Result<T, GenerateError>) -> bool {
    matches!(r, Err(GenerateError::Unsatisfied { .. }))
}

fn flags(fs: &[EventFlags]) -> FlagSet {
    fs.iter().fold(FlagSet::empty(), |s, f| s.union(FlagSet::of(*f)))
}

struct DummyLeafCircuit {
    compare_object: LeafSubCircuit,
    circuit: CircuitBuilder,
}

impl DummyLeafCircuit {
    fn new() -> Self {
        let mut builder = CircuitBuilder::new();
        let inputs = core_circuit::default(&mut builder);
        let targets = inputs.build_leaf(&mut builder);
        let public_inputs = builder.public_inputs.clone();
        let compare_object = targets.build(&public_inputs);
        Self { compare_object, circuit: builder }
    }

    fn prove(&self, v: LeafWitnessValue) -> Result<Proof, GenerateError> {
        let mut inputs = PartialWitness::new();
        self.compare_object.set_witness(&mut inputs, v).unwrap();
        prove(&self.circuit, &inputs)
    }

    fn prove_unsafe(&self, v: LeafWitnessValue, state_hash: [u64; 4]) -> Result<Proof, GenerateError> {
        let mut inputs = PartialWitness::new();
        self.compare_object.set_witness_unsafe(&mut inputs, v, Some(state_hash)).unwrap();
        prove(&self.circuit, &inputs)
    }
}

struct DummyBranchCircuit {
    compare_object: BranchSubCircuit,
    left_proof: ProofWithPublicInputsTarget,
    right_proof: ProofWithPublicInputsTarget,
    circuit: CircuitBuilder,
}

impl DummyBranchCircuit {
    fn new(indices: &PublicIndices, child: &CircuitBuilder) -> Self {
        let mut builder = CircuitBuilder::new();
        let inputs = core_circuit::default(&mut builder);
        let n = child.num_public_inputs();
        let left_proof = builder.add_virtual_proof_with_pis(n);
        let right_proof = builder.add_virtual_proof_with_pis(n);
        let targets = inputs.build_branch(&mut builder, indices, &left_proof, &right_proof);
        let public_inputs = builder.public_inputs.clone();
        let compare_object = targets.build(indices, &public_inputs);
        Self { compare_object, left_proof, right_proof, circuit: builder }
    }

    fn prove(&self, left: &Proof, right: &Proof) -> Result<Proof, GenerateError> {
        let mut inputs = PartialWitness::new();
        inputs.set_proof_with_pis_target(&self.left_proof, left).unwrap();
        inputs.set_proof_with_pis_target(&self.right_proof, right).unwrap();
        self.compare_object.set_witness(&mut inputs);
        prove(&self.circuit, &inputs)
    }
}

fn creation() -> LeafWitnessValue {
    LeafWitnessValue {
        address: 42,
        block_height: 23,
        object_flags: flags(&[EventFlags::GiveOwnerFlag, EventFlags::TakeOwnerFlag, EventFlags::WriteFlag]),
        old_owner: ZERO_VAL,
        new_owner: PROGRAM_HASH_1,
        old_data: ZERO_VAL,
        new_data: NON_ZERO_VAL_1,
        last_updated: 0,
        old_credits: 0,
        new_credits: 150,
    }
}

#[test]
fn match_core_verify_leaf() {
    let leaf = DummyLeafCircuit::new();
    let creation = creation();
    leaf.prove(creation).unwrap();

    let write = LeafWitnessValue {
        block_height: 24,
        object_flags: FlagSet::of(EventFlags::WriteFlag),
        old_owner: PROGRAM_HASH_1,
        old_data: NON_ZERO_VAL_1,
        new_data: NON_ZERO_VAL_2,
        last_updated: 23,
        old_credits: 150,
        ..creation
    };
    leaf.prove(write).unwrap();

    let read = LeafWitnessValue {
        block_height: 25,
        object_flags: flags(&[EventFlags::ReadFlag, EventFlags::EnsureFlag]),
        old_data: NON_ZERO_VAL_2,
        last_updated: 24,
        ..write
    };
    leaf.prove(read).unwrap();

    let burn = LeafWitnessValue {
        block_height: 26,
        object_flags: FlagSet::empty(),
        last_updated: 24,
        new_credits: 130,
        ..read
    };
    leaf.prove(burn).unwrap();

    let mint = LeafWitnessValue {
        block_height: 27,
        object_flags: FlagSet::empty(),
        last_updated: 26,
        old_credits: 130,
        new_credits: 190,
        ..burn
    };
    leaf.prove(mint).unwrap();

    let deletion = LeafWitnessValue {
        block_height: 28,
        object_flags: flags(&[EventFlags::GiveOwnerFlag, EventFlags::TakeOwnerFlag, EventFlags::WriteFlag]),
        new_owner: ZERO_VAL,
        new_data: ZERO_VAL,
        last_updated: 27,
        old_credits: 190,
        new_credits: 0,
        ..burn
    };
    leaf.prove(deletion).unwrap();
}

#[test]
fn bad_creation_leaf_1() {
    let leaf = DummyLeafCircuit::new();
    let v = LeafWitnessValue { object_flags: FlagSet::of(EventFlags::GiveOwnerFlag), ..creation() };
    assert!(unsatisfied(leaf.prove(v)));
}

#[test]
fn bad_creation_leaf_2() {
    let leaf = DummyLeafCircuit::new();
    let v = LeafWitnessValue { object_flags: FlagSet::of(EventFlags::TakeOwnerFlag), ..creation() };
    assert!(unsatisfied(leaf.prove(v)));
}

#[test]
fn bad_creation_leaf_3() {
    let leaf = DummyLeafCircuit::new();
    let v = LeafWitnessValue {
        object_flags: flags(&[EventFlags::GiveOwnerFlag, EventFlags::TakeOwnerFlag]),
        old_owner: PROGRAM_HASH_1,
        ..creation()
    };
    assert!(unsatisfied(leaf.prove(v)));
}

#[test]
fn bad_creation_leaf_4() {
    let leaf = DummyLeafCircuit::new();
    let v = LeafWitnessValue {
        object_flags: flags(&[EventFlags::GiveOwnerFlag, EventFlags::TakeOwnerFlag]),
        new_owner: ZERO_VAL,
        ..creation()
    };
    assert!(unsatisfied(leaf.prove(v)));
}

/// Only creation and deletion change the owner.
#[test]
fn bad_transer_leaf() {
    let leaf = DummyLeafCircuit::new();
    let v = LeafWitnessValue {
        object_flags: flags(&[EventFlags::GiveOwnerFlag, EventFlags::TakeOwnerFlag]),
        old_owner: PROGRAM_HASH_1,
        new_owner: PROGRAM_HASH_2,
        old_data: NON_ZERO_VAL_1,
        new_data: NON_ZERO_VAL_1,
        ..creation()
    };
    assert!(unsatisfied(leaf.prove(v)));
}

/// Updates need the write flag.
#[test]
fn bad_ensure_leaf() {
    let leaf = DummyLeafCircuit::new();
    let v = LeafWitnessValue {
        object_flags: FlagSet::of(EventFlags::EnsureFlag),
        old_owner: PROGRAM_HASH_1,
        new_owner: PROGRAM_HASH_1,
        old_data: NON_ZERO_VAL_1,
        new_data: NON_ZERO_VAL_2,
        new_credits: 0,
        ..creation()
    };
    assert!(unsatisfied(leaf.prove(v)));
}

#[test]
fn bad_hash_leaf() {
    let leaf = DummyLeafCircuit::new();
    let v = LeafWitnessValue {
        object_flags: flags(&[EventFlags::GiveOwnerFlag, EventFlags::TakeOwnerFlag]),
        ..creation()
    };
    let new_hash: Vec<u64> = v
        .new_owner
        .iter()
        .copied()
        .chain([v.block_height, v.new_credits])
        .chain(v.new_data)
        .collect();
    let new_hash = hash(new_hash);
    let state_hash: Vec<u64> = [v.address - 1].into_iter().chain(ZERO_VAL).chain(new_hash).collect();
    let state_hash = hash(state_hash);
    assert!(unsatisfied(leaf.prove_unsafe(v, state_hash)));
}

/// The state hash that the circuit computes, given to it, is accepted.
#[test]
fn match_core_leaf_with_its_state_hash() {
    let leaf = DummyLeafCircuit::new();
    let v = creation();
    let old_hash = hash(
        v.old_owner.iter().copied().chain([v.last_updated, v.old_credits]).chain(v.old_data).collect(),
    );
    let new_hash = hash(
        v.new_owner.iter().copied().chain([v.block_height, v.new_credits]).chain(v.new_data).collect(),
    );
    let state_hash = hash([v.address].into_iter().chain(old_hash).chain(new_hash).collect());
    leaf.prove_unsafe(v, state_hash).unwrap();
}

#[test]
fn core_verify_branch() {
    let leaf = DummyLeafCircuit::new();
    let branch_1 = DummyBranchCircuit::new(&leaf.compare_object.indices, &leaf.circuit);
    let branch_2 = DummyBranchCircuit::new(&branch_1.compare_object.indices, &branch_1.circuit);

    let creation_1 = leaf.prove(creation()).unwrap();
    let creation_2 = LeafWitnessValue {
        address: 142,
        block_height: 123,
        object_flags: flags(&[EventFlags::GiveOwnerFlag, EventFlags::TakeOwnerFlag, EventFlags::WriteFlag]),
        old_owner: ZERO_VAL,
        new_owner: PROGRAM_HASH_2,
        old_data: ZERO_VAL,
        new_data: NON_ZERO_VAL_2,
        last_updated: 0,
        old_credits: 0,
        new_credits: 88,
    };
    let creation_2 = leaf.prove(creation_2).unwrap();

    let branch_proof_1 = branch_1.prove(&creation_1, &creation_2).unwrap();
    let branch_proof_2 = branch_1.prove(&creation_2, &creation_1).unwrap();
    branch_2.prove(&branch_proof_1, &branch_proof_2).unwrap();
    branch_2.prove(&branch_proof_2, &branch_proof_1).unwrap();
}
