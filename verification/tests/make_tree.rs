use recproofs::circuit::{CircuitBuilder, PartialWitness, ProofWithPublicInputsTarget};
use recproofs::field::ORDER;
use recproofs::generate::{generate_witness, public_values, GenerateError};
use recproofs::subcircuits::make_tree;
use recproofs::subcircuits::make_tree::{BranchSubCircuit, LeafSubCircuit, PublicIndices};

/// A stand-in for the circuit's hash: deterministic, with field outputs.
fn hash(inputs: Vec<u64>) -> [u64; 4] {
    let mut s: [u64; 4] = [
        0x9e37_79b9_7f4a_7c15,
        0xbf58_476d_1ce4_e5b9,
        0x94d0_49bb_1331_11eb,
        inputs.len() as u64,
    ];
    for (i, x) in inputs.iter().enumerate() {
        for k in 0..4 {
            let mut z = s[k] ^ x.wrapping_add((i as u64 + 1).wrapping_mul(0x2545_f491_4f6c_dd1d));
            z = (z ^ (z >> 30)).wrapping_mul(0xbf58_476d_1ce4_e5b9);
            z = (z ^ (z >> 27)).wrapping_mul(0x94d0_49bb_1331_11eb);
            s[k] = z ^ (z >> 31) ^ (k as u64);
        }
    }
    s.map(|v| v % ORDER)
}

fn hash_branch(left: &[u64; 4], right: &[u64; 4]) -> [u64; 4] {
    hash(left.iter().chain(right.iter()).copied().collect())
}

fn hash_str(v: &str) -> [u64; 4] {
    hash(v.bytes().map(u64::from).collect())
}

type Proof = Vec<u64>;

fn prove(circuit: &CircuitBuilder, w: &PartialWitness) -> Result<Proof, GenerateError> {
    let vals = generate_witness(circuit, w, &hash)?;
    Ok(public_values(circuit, &vals).unwrap())
}

struct DummyLeafCircuit {
    make_tree: LeafSubCircuit,
    circuit: CircuitBuilder,
}

impl DummyLeafCircuit {
    fn new() -> Self {
        let mut builder = CircuitBuilder::new();
        let make_tree_inputs = make_tree::default(&mut builder);
        let make_tree_targets = make_tree_inputs.build_leaf(&mut builder);
        let public_inputs = builder.public_inputs.clone();
        let make_tree = make_tree_targets.build(&public_inputs);
        Self { make_tree, circuit: builder }
    }

    fn prove(&self, present: bool, leaf_value: [u64; 4]) -> Result<Proof, GenerateError> {
        let mut inputs = PartialWitness::new();
        self.make_tree.set_witness(&mut inputs, present, leaf_value).unwrap();
        prove(&self.circuit, &inputs)
    }

    fn prove_unsafe(&self, hash: [u64; 4], leaf_value: [u64; 4]) -> Result<Proof, GenerateError> {
        let mut inputs = PartialWitness::new();
        self.make_tree.set_witness_unsafe(&mut inputs, hash, leaf_value).unwrap();
        prove(&self.circuit, &inputs)
    }
}

struct DummyBranchCircuit {
    make_tree: BranchSubCircuit,
    left_proof: ProofWithPublicInputsTarget,
    right_proof: ProofWithPublicInputsTarget,
    circuit: CircuitBuilder,
}

impl DummyBranchCircuit {
    fn new(indices: &PublicIndices, child: &CircuitBuilder) -> Self {
        let mut builder = CircuitBuilder::new();
        let make_tree_inputs = make_tree::default(&mut builder);
        let n = child.num_public_inputs();
        let left_proof = builder.add_virtual_proof_with_pis(n);
        let right_proof = builder.add_virtual_proof_with_pis(n);
        let make_tree_targets =
            make_tree_inputs.build_branch(&mut builder, indices, &left_proof, &right_proof);
        let public_inputs = builder.public_inputs.clone();
        let make_tree = make_tree_targets.build(indices, &public_inputs);
        Self { make_tree, left_proof, right_proof, circuit: builder }
    }

    fn from_leaf(leaf: &DummyLeafCircuit) -> Self {
        Self::new(&leaf.make_tree.indices, &leaf.circuit)
    }

    fn from_branch(branch: &Self) -> Self {
        Self::new(&branch.make_tree.indices, &branch.circuit)
    }

    fn prove(
        &self,
        hash: [u64; 4],
        leaf_value: [u64; 4],
        left: &Proof,
        right: &Proof,
    ) -> Result<Proof, GenerateError> {
        let mut inputs = PartialWitness::new();
        inputs.set_proof_with_pis_target(&self.left_proof, left).unwrap();
        inputs.set_proof_with_pis_target(&self.right_proof, right).unwrap();
        self.make_tree.set_witness(&mut inputs, hash, leaf_value).unwrap();
        prove(&self.circuit, &inputs)
    }
}

fn unsatisfied<T>(r: Result<T, GenerateError>) -> bool {
    matches!(r, Err(GenerateError::Unsatisfied { .. }))
}

#[test]
fn make_tree_verify_leaf() {
    let leaf = DummyLeafCircuit::new();
    let non_zero_hash = hash_str("Non-Zero Hash");
    leaf.prove(true, non_zero_hash).unwrap();
    leaf.prove(false, non_zero_hash).unwrap();
}

#[test]
fn bad_all_zero_leaf() {
    let leaf = DummyLeafCircuit::new();
    assert!(unsatisfied(leaf.prove(false, [0; 4])));
}

#[test]
fn make_tree_bad_zero_leaf() {
    let leaf = DummyLeafCircuit::new();
    let non_zero_hash = hash_str("Non-Zero Hash");
    assert!(unsatisfied(leaf.prove_unsafe(non_zero_hash, [0; 4])));
}

#[test]
fn bad_leaf_mismatch() {
    let leaf = DummyLeafCircuit::new();
    let non_zero_hash_1 = hash_str("Non-Zero Hash 1");
    let non_zero_hash_2 = hash_str("Non-Zero Hash 2");
    assert!(unsatisfied(leaf.prove_unsafe(non_zero_hash_1, non_zero_hash_2)));
}

#[test]
fn make_tree_verify_branch() {
    let leaf = DummyLeafCircuit::new();
    let branch_1 = DummyBranchCircuit::from_leaf(&leaf);
    let branch_2 = DummyBranchCircuit::from_branch(&branch_1);
    let non_zero_hash = hash_str("Non-Zero Hash");
    let branch_hash = hash_branch(&non_zero_hash, &non_zero_hash);
    let branch_hash_1 = hash_branch(&non_zero_hash, &branch_hash);

    let leaf_1_proof = leaf.prove(false, non_zero_hash).unwrap();
    let leaf_2_proof = leaf.prove(true, non_zero_hash).unwrap();
    let branch_proof_1 = branch_1
        .prove(non_zero_hash, non_zero_hash, &leaf_1_proof, &leaf_2_proof)
        .unwrap();
    let branch_proof_2 = branch_1
        .prove(branch_hash, non_zero_hash, &leaf_2_proof, &leaf_2_proof)
        .unwrap();
    let proof = branch_2
        .prove(branch_hash_1, non_zero_hash, &branch_proof_1, &branch_proof_2)
        .unwrap();
    assert_eq!(branch_2.make_tree.indices.hash.get_field(&proof), branch_hash_1);
}
