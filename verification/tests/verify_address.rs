use recproofs::circuit::{CircuitBuilder, PartialWitness, ProofWithPublicInputsTarget};
use recproofs::field::ORDER;
use recproofs::generate::{generate_witness, public_values, GenerateError};
use recproofs::subcircuits::verify_address;
use recproofs::subcircuits::verify_address::{BranchSubCircuit, LeafSubCircuit, PublicIndices};

/// A stand-in for the circuit's hash: deterministic, with field outputs.
fn hash(inputs: Vec<u64>) -> [u64; 4] {
    let mut s: [u64; 4] = [
        0x9e37_79b9_7f4a_7c15,
        0xbf58_476d_1ce4_e5b9,
        0x94d0_49bb_1331_11eb,
        inputs.len() as u64,
    ];
    for (i, x) in inputs.iter().enumerate() {
        for k in 0..4 {
            let mut z = s[k] ^ x.wrapping_add((i as u64 + 1).wrapping_mul(0x2545_f491_4f6c_dd1d));
            z = (z ^ (z >> 30)).wrapping_mul(0xbf58_476d_1ce4_e5b9);
            z = (z ^ (z >> 27)).wrapping_mul(0x94d0_49bb_1331_11eb);
            s[k] = z ^ (z >> 31) ^ (k as u64);
        }
    }
    s.map(|v| v % ORDER)
}

type Proof = Vec<u64>;

fn prove(circuit: &CircuitBuilder, w: &PartialWitness) -> Result<Proof, GenerateError> {
    let vals = generate_witness(circuit, w, &hash)?;
    Ok(public_values(circuit, &vals).unwrap())
}

struct DummyLeafCircuit {
    address: LeafSubCircuit,
    circuit: CircuitBuilder,
}

impl DummyLeafCircuit {
    fn new() -> Self {
        let mut builder = CircuitBuilder::new();
        let address_inputs = verify_address::default(&mut builder);
        let address_targets = address_inputs.build_leaf(&mut builder);
        let public_inputs = builder.public_inputs.clone();
        let address = address_targets.build(&public_inputs);
        Self { address, circuit: builder }
    }

    fn prove(&self, node_address: Option<u64>) -> Result<Proof, GenerateError> {
        let mut inputs = PartialWitness::new();
        self.address.set_witness(&mut inputs, node_address).unwrap();
        prove(&self.circuit, &inputs)
    }

    fn prove_unsafe(&self, present: bool, node_address: Option<u64>) -> Result<Proof, GenerateError> {
        let mut inputs = PartialWitness::new();
        self.address.set_witness_unsafe(&mut inputs, present, node_address).unwrap();
        prove(&self.circuit, &inputs)
    }
}

struct DummyBranchCircuit {
    address: BranchSubCircuit,
    left_proof: ProofWithPublicInputsTarget,
    right_proof: ProofWithPublicInputsTarget,
    circuit: CircuitBuilder,
}

impl DummyBranchCircuit {
    fn new(indices: &PublicIndices, child: &CircuitBuilder) -> Self {
        let mut builder = CircuitBuilder::new();
        let address_inputs = verify_address::default(&mut builder);
        let n = child.num_public_inputs();
        let left_proof = builder.add_virtual_proof_with_pis(n);
        let right_proof = builder.add_virtual_proof_with_pis(n);
        let address_targets =
            address_inputs.build_branch(&mut builder, indices, &left_proof, &right_proof);
        let public_inputs = builder.public_inputs.clone();
        let address = address_targets.build(indices, &public_inputs);
        Self { address, left_proof, right_proof, circuit: builder }
    }

    fn from_leaf(leaf: &DummyLeafCircuit) -> Self {
        Self::new(&leaf.address.indices, &leaf.circuit)
    }

    fn from_branch(branch: &Self) -> Self {
        Self::new(&branch.address.indices, &branch.circuit)
    }

    fn witness(&self, left: &Proof, right: &Proof) -> PartialWitness {
        let mut inputs = PartialWitness::new();
        inputs.set_proof_with_pis_target(&self.left_proof, left).unwrap();
        inputs.set_proof_with_pis_target(&self.right_proof, right).unwrap();
        inputs
    }

    fn prove(&self, node_address: Option<u64>, left: &Proof, right: &Proof) -> Result<Proof, GenerateError> {
        let mut inputs = self.witness(left, right);
        self.address.set_witness(&mut inputs, node_address).unwrap();
        prove(&self.circuit, &inputs)
    }

    fn prove_unsafe(
        &self,
        present: bool,
        node_address: Option<u64>,
        left: &Proof,
        right: &Proof,
    ) -> Result<Proof, GenerateError> {
        let mut inputs = self.witness(left, right);
        self.address.set_witness_unsafe(&mut inputs, present, node_address).unwrap();
        prove(&self.circuit, &inputs)
    }
}

fn unsatisfied<T>(r: Result<T, GenerateError>) -> bool {
    matches!(r, Err(GenerateError::Unsatisfied { .. }))
}

#[test]
fn verify_address_verify_leaf() {
    let leaf = DummyLeafCircuit::new();
    let proof = leaf.prove(None).unwrap();
    assert_eq!(leaf.address.indices.node_present.get_field(&proof), false);
    assert_eq!(leaf.address.indices.node_address.get_field(&proof), ORDER - 1);
    for i in 0..4 {
        let proof = leaf.prove(Some(i)).unwrap();
        assert_eq!(leaf.address.indices.node_present.get_field(&proof), true);
        assert_eq!(leaf.address.indices.node_address.get_field(&proof), i);
    }
}

#[test]
fn verify_address_bad_zero_leaf() {
    let leaf = DummyLeafCircuit::new();
    assert!(unsatisfied(leaf.prove_unsafe(true, None)));
}

#[test]
fn verify_address_bad_non_zero_leaf() {
    let leaf = DummyLeafCircuit::new();
    assert!(unsatisfied(leaf.prove_unsafe(false, Some(5))));
}

#[test]
fn verify_address_verify_branch() {
    let leaf = DummyLeafCircuit::new();
    let branch_1 = DummyBranchCircuit::from_leaf(&leaf);
    let branch_2 = DummyBranchCircuit::from_branch(&branch_1);

    // Leaf proofs
    let zero_proof = leaf.prove(None).unwrap();
    let leaf_proofs: Vec<Proof> = (0..4).map(|i| leaf.prove(Some(i)).unwrap()).collect();

    // Branch proofs
    let empty_branch_proof = branch_1.prove(None, &zero_proof, &zero_proof).unwrap();
    let left_branch_proofs: Vec<Proof> = (0..2)
        .map(|i| branch_1.prove(Some(i as u64), &leaf_proofs[i * 2], &zero_proof).unwrap())
        .collect();
    let right_branch_proofs: Vec<Proof> = (0..2)
        .map(|i| branch_1.prove(Some(i as u64), &zero_proof, &leaf_proofs[i * 2 + 1]).unwrap())
        .collect();
    let full_branch_proofs: Vec<Proof> = (0..2)
        .map(|i| {
            branch_1
                .prove(Some(i as u64), &leaf_proofs[i * 2], &leaf_proofs[i * 2 + 1])
                .unwrap()
        })
        .collect();

    // Double branch proofs
    branch_2.prove(None, &empty_branch_proof, &empty_branch_proof).unwrap();
    let branches = [left_branch_proofs, right_branch_proofs, full_branch_proofs];
    for b in &branches {
        branch_2.prove(Some(0), &b[0], &empty_branch_proof).unwrap();
        branch_2.prove(Some(0), &empty_branch_proof, &b[1]).unwrap();
        for b2 in &branches {
            let proof = branch_2.prove(Some(0), &b[0], &b2[1]).unwrap();
            assert_eq!(branch_2.address.indices.node_address.get_field(&proof), 0);
        }
    }
}

#[test]
fn bad_proof_branch() {
    let leaf = DummyLeafCircuit::new();
    let branch_1 = DummyBranchCircuit::from_leaf(&leaf);
    let zero_proof = leaf.prove(None).unwrap();
    // a leaf claiming presence without an address cannot be proven
    assert!(unsatisfied(leaf.prove_unsafe(true, None)));
    // nor can a branch over public inputs that say so
    let mut bad_proof = zero_proof.clone();
    leaf.address.indices.node_present.set_field(&mut bad_proof, true);
    assert!(unsatisfied(branch_1.prove(None, &zero_proof, &bad_proof)));
}

#[test]
fn verify_address_bad_zero_branch() {
    let leaf = DummyLeafCircuit::new();
    let branch_1 = DummyBranchCircuit::from_leaf(&leaf);
    let zero_proof = leaf.prove(None).unwrap();
    assert!(unsatisfied(branch_1.prove_unsafe(true, None, &zero_proof, &zero_proof)));
}

#[test]
fn verify_address_bad_non_zero_branch() {
    let leaf = DummyLeafCircuit::new();
    let branch_1 = DummyBranchCircuit::from_leaf(&leaf);
    let zero_proof = leaf.prove(None).unwrap();
    let non_zero_proof = leaf.prove(Some(5)).unwrap();
    assert!(unsatisfied(branch_1.prove_unsafe(false, Some(2), &zero_proof, &non_zero_proof)));
}

#[test]
fn bad_wrong_parent_branch() {
    let leaf = DummyLeafCircuit::new();
    let branch_1 = DummyBranchCircuit::from_leaf(&leaf);
    let non_zero_proof_1 = leaf.prove(Some(4)).unwrap();
    let non_zero_proof_2 = leaf.prove(Some(5)).unwrap();
    assert!(unsatisfied(branch_1.prove(Some(3), &non_zero_proof_1, &non_zero_proof_2)));
}
