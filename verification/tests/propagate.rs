use recproofs::circuit::{CircuitBuilder, PartialWitness, ProofWithPublicInputsTarget};
use recproofs::field::ORDER;
use recproofs::generate::{generate_witness, public_values, GenerateError};
use recproofs::subcircuits::propagate;
use recproofs::subcircuits::propagate::{BranchSubCircuit, LeafSubCircuit, PublicIndices};

/// A stand-in for the circuit's hash: deterministic, with field outputs.
fn hash(inputs: Vec<u64>) -> [u64; 4] {
    let mut s: [u64; 4] = [
        0x9e37_79b9_7f4a_7c15,
        0xbf58_476d_1ce4_e5b9,
        0x94d0_49bb_1331_11eb,
        inputs.len() as u64,
    ];
    for (i, x) in inputs.iter().enumerate() {
        for k in 0..4 {
            let mut z = s[k] ^ x.wrapping_add((i as u64 + 1).wrapping_mul(0x2545_f491_4f6c_dd1d));
            z = (z ^ (z >> 30)).wrapping_mul(0xbf58_476d_1ce4_e5b9);
            z = (z ^ (z >> 27)).wrapping_mul(0x94d0_49bb_1331_11eb);
            s[k] = z ^ (z >> 31) ^ (k as u64);
        }
    }
    s.map(|v| v % ORDER)
}

const ZERO_HASH: [u64; 4] = [0; 4];
const NON_ZERO_VALUES: [[u64; 4]; 2] = [[1, 2, 3, 4], [5, 6, 7, 8]];

type Proof = Vec<u64>;

fn prove(circuit: &CircuitBuilder, w: &PartialWitness) -> Result<Proof, GenerateError> {
    let vals = generate_witness(circuit, w, &hash)?;
    Ok(public_values(circuit, &vals).unwrap())
}

struct DummyLeafCircuit {
    propagate: LeafSubCircuit<4>,
    circuit: CircuitBuilder,
}

impl DummyLeafCircuit {
    fn new() -> Self {
        let mut builder = CircuitBuilder::new();
        let propagate_inputs = propagate::default::<4>(&mut builder);
        let propagate_targets = propagate_inputs.build_leaf(&mut builder);
        let public_inputs = builder.public_inputs.clone();
        let propagate = propagate_targets.build(&public_inputs);
        Self { propagate, circuit: builder }
    }

    fn prove(&self, value: [u64; 4]) -> Result<Proof, GenerateError> {
        let mut inputs = PartialWitness::new();
        self.propagate.set_witness(&mut inputs, value).unwrap();
        prove(&self.circuit, &inputs)
    }
}

struct DummyBranchCircuit {
    propagate: BranchSubCircuit<4>,
    left_proof: ProofWithPublicInputsTarget,
    right_proof: ProofWithPublicInputsTarget,
    circuit: CircuitBuilder,
}

impl DummyBranchCircuit {
    fn new(indices: &PublicIndices<4>, child: &CircuitBuilder) -> Self {
        let mut builder = CircuitBuilder::new();
        let propagate_inputs = propagate::default::<4>(&mut builder);
        let n = child.num_public_inputs();
        let left_proof = builder.add_virtual_proof_with_pis(n);
        let right_proof = builder.add_virtual_proof_with_pis(n);
        let propagate_targets =
            propagate_inputs.build_branch(&mut builder, indices, &left_proof, &right_proof);
        let public_inputs = builder.public_inputs.clone();
        let propagate = propagate_targets.build(indices, &public_inputs);
        Self { propagate, left_proof, right_proof, circuit: builder }
    }

    fn from_leaf(leaf: &DummyLeafCircuit) -> Self {
        Self::new(&leaf.propagate.indices, &leaf.circuit)
    }

    fn from_branch(branch: &Self) -> Self {
        Self::new(&branch.propagate.indices, &branch.circuit)
    }

    fn prove(&self, value: [u64; 4], left: &Proof, right: &Proof) -> Result<Proof, GenerateError> {
        let mut inputs = PartialWitness::new();
        inputs.set_proof_with_pis_target(&self.left_proof, left).unwrap();
        inputs.set_proof_with_pis_target(&self.right_proof, right).unwrap();
        self.propagate.set_witness(&mut inputs, value).unwrap();
        prove(&self.circuit, &inputs)
    }
}

struct Fixtures {
    branch_1: DummyBranchCircuit,
    branch_2: DummyBranchCircuit,
    zero_leaf: Proof,
    non_zero_leaves: Vec<Proof>,
    zero_branch: Proof,
    non_zero_branches: Vec<Proof>,
}

fn fixtures() -> Fixtures {
    let leaf = DummyLeafCircuit::new();
    let branch_1 = DummyBranchCircuit::from_leaf(&leaf);
    let branch_2 = DummyBranchCircuit::from_branch(&branch_1);
    let zero_leaf = leaf.prove(ZERO_HASH).unwrap();
    let non_zero_leaves: Vec<Proof> =
        NON_ZERO_VALUES.iter().map(|v| leaf.prove(*v).unwrap()).collect();
    let zero_branch = branch_1.prove(ZERO_HASH, &zero_leaf, &zero_leaf).unwrap();
    let non_zero_branches = (0..2)
        .map(|i| {
            branch_1
                .prove(NON_ZERO_VALUES[i], &non_zero_leaves[i], &non_zero_leaves[i])
                .unwrap()
        })
        .collect();
    Fixtures { branch_1, branch_2, zero_leaf, non_zero_leaves, zero_branch, non_zero_branches }
}

#[test]
fn propagate_bad_zero_branch() {
    let f = fixtures();
    let r = f.branch_1.prove(NON_ZERO_VALUES[0], &f.zero_leaf, &f.zero_leaf);
    assert!(matches!(r, Err(GenerateError::Unsatisfied { .. })));
}

#[test]
fn propagate_bad_non_zero_branch() {
    let f = fixtures();
    let r = f.branch_1.prove(ZERO_HASH, &f.non_zero_leaves[0], &f.non_zero_leaves[0]);
    assert!(matches!(r, Err(GenerateError::Unsatisfied { .. })));
}

#[test]
fn bad_mismatch_branch() {
    let f = fixtures();
    let r = f.branch_1.prove(ZERO_HASH, &f.zero_leaf, &f.non_zero_leaves[0]);
    assert!(matches!(r, Err(GenerateError::Unsatisfied { .. })));
}

#[test]
fn verify_zero_double_branch() {
    let f = fixtures();
    let proof = f.branch_2.prove(ZERO_HASH, &f.zero_branch, &f.zero_branch).unwrap();
    assert_eq!(proof.len(), 4);
}

#[test]
fn propagate_verify_double_branch() {
    let f = fixtures();
    for i in 0..2 {
        let proof = f
            .branch_2
            .prove(NON_ZERO_VALUES[i], &f.non_zero_branches[i], &f.non_zero_branches[i])
            .unwrap();
        let idx = &f.branch_2.propagate.indices;
        assert_eq!(idx.values.get_field(&proof), NON_ZERO_VALUES[i]);
    }
}
