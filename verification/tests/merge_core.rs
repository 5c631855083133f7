use recproofs::circuit::{CircuitBuilder, PartialWitness, ProofWithPublicInputsTarget};
use recproofs::circuits::merge::core_circuit;
use recproofs::circuits::merge::core_circuit::{BranchSubCircuit, LeafSubCircuit, PublicIndices};
use recproofs::field::ORDER;
use recproofs::generate::{generate_witness, public_values, GenerateError};

/// A stand-in for the circuit's hash: deterministic, with field outputs.
fn hash(inputs: Vec<u64>) -> [u64; 4] {
    let mut s: [u64; 4] = [
        0x9e37_79b9_7f4a_7c15,
        0xbf58_476d_1ce4_e5b9,
        0x94d0_49bb_1331_11eb,
        inputs.len() as u64,
    ];
    for (i, x) in inputs.iter().enumerate() {
        for k in 0..4 {
            let mut z = s[k] ^ x.wrapping_add((i as u64 + 1).wrapping_mul(0x2545_f491_4f6c_dd1d));
            z = (z ^ (z >> 30)).wrapping_mul(0xbf58_476d_1ce4_e5b9);
            z = (z ^ (z >> 27)).wrapping_mul(0x94d0_49bb_1331_11eb);
            s[k] = z ^ (z >> 31) ^ (k as u64);
        }
    }
    s.map(|v| v % ORDER)
}

fn hash_branch(left: &[u64; 4], right: &[u64; 4]) -> [u64; 4] {
    hash(left.iter().chain(right.iter()).copied().collect())
}

fn hash_str(v: &str) -> [u64; 4] {
    hash(v.bytes().map(u64::from).collect())
}

const ZERO_HASH: [u64; 4] = [0; 4];
const NON_ZERO_HASHES: [[u64; 4]; 4] = [[1, 2, 3, 4], [5, 6, 7, 8], [9, 10, 11, 12], [13, 14, 15, 16]];

type Proof = Vec<u64>;

fn prove(circuit: &CircuitBuilder, w: &PartialWitness) -> Result<Proof, GenerateError> {
    let vals = generate_witness(circuit, w, &hash)?;
    Ok(public_values(circuit, &vals).unwrap())
}

fn unsatisfied<T>(r: Result<T, GenerateError>) -> bool {
    matches!(r, Err(GenerateError::Unsatisfied { .. }))
}

struct DummyLeafCircuit {
    merge: LeafSubCircuit,
    circuit: CircuitBuilder,
}

impl DummyLeafCircuit {
    fn new() -> Self {
        let mut builder = CircuitBuilder::new();
        let merge_inputs = core_circuit::default(&mut builder);
        let merge_targets = merge_inputs.build_leaf(&mut builder);
        let public_inputs = builder.public_inputs.clone();
        let merge = merge_targets.build(&public_inputs);
        Self { merge, circuit: builder }
    }

    fn prove(&self, a_tree: Option<[u64; 4]>, b_tree: Option<[u64; 4]>) -> Result<Proof, GenerateError> {
        let mut inputs = PartialWitness::new();
        self.merge.set_witness(&mut inputs, a_tree, b_tree).unwrap();
        prove(&self.circuit, &inputs)
    }

    fn prove_unsafe(
        &self,
        a_present: bool,
        a_hash: [u64; 4],
        b_present: bool,
        b_hash: [u64; 4],
        merged_present: bool,
        merged_hash: Option<[u64; 4]>,
    ) -> Result<Proof, GenerateError> {
        let mut inputs = PartialWitness::new();
        self.merge
            .set_witness_unsafe(&mut inputs, a_present, a_hash, b_present, b_hash, merged_present, merged_hash)
            .unwrap();
        prove(&self.circuit, &inputs)
    }
}

struct DummyBranchCircuit {
    merge: BranchSubCircuit,
    left_proof: ProofWithPublicInputsTarget,
    right_proof: ProofWithPublicInputsTarget,
    circuit: CircuitBuilder,
}

impl DummyBranchCircuit {
    fn new(indices: &PublicIndices, child: &CircuitBuilder) -> Self {
        let mut builder = CircuitBuilder::new();
        let merge_inputs = core_circuit::default(&mut builder);
        let n = child.num_public_inputs();
        let left_proof = builder.add_virtual_proof_with_pis(n);
        let right_proof = builder.add_virtual_proof_with_pis(n);
        let merge_targets = merge_inputs.build_branch(&mut builder, indices, &left_proof, &right_proof);
        let public_inputs = builder.public_inputs.clone();
        let merge = merge_targets.build(indices, &public_inputs);
        Self { merge, left_proof, right_proof, circuit: builder }
    }

    fn from_leaf(leaf: &DummyLeafCircuit) -> Self {
        Self::new(&leaf.merge.indices, &leaf.circuit)
    }

    fn from_branch(branch: &Self) -> Self {
        Self::new(&branch.merge.indices, &branch.circuit)
    }

    fn witness(&self, left: &Proof, right: &Proof) -> PartialWitness {
        let mut inputs = PartialWitness::new();
        inputs.set_proof_with_pis_target(&self.left_proof, left).unwrap();
        inputs.set_proof_with_pis_target(&self.right_proof, right).unwrap();
        inputs
    }

    fn prove(&self, left: &Proof, right: &Proof) -> Result<Proof, GenerateError> {
        let mut inputs = self.witness(left, right);
        self.merge.set_witness(&mut inputs);
        prove(&self.circuit, &inputs)
    }

    #[allow(clippy::too_many_arguments)]
    fn prove_unsafe(
        &self,
        a_present: bool,
        a_hash: Option<[u64; 4]>,
        b_present: bool,
        b_hash: Option<[u64; 4]>,
        merged_present: bool,
        merged_hash: Option<[u64; 4]>,
        left: &Proof,
        right: &Proof,
    ) -> Result<Proof, GenerateError> {
        let mut inputs = self.witness(left, right);
        self.merge
            .set_witness_unsafe(&mut inputs, a_present, a_hash, b_present, b_hash, merged_present, merged_hash)
            .unwrap();
        prove(&self.circuit, &inputs)
    }
}

fn assert_leaf(leaf: &DummyLeafCircuit, proof: &Proof, merged: Option<[u64; 4]>) {
    let indices = &leaf.merge.indices;
    assert_eq!(indices.merged_present.get_field(proof), merged.is_some());
    assert_eq!(indices.merged_hash.get_field(proof), merged.unwrap_or_default());
}

fn assert_branch(
    branch: &DummyBranchCircuit,
    proof: &Proof,
    a_hash: Option<[u64; 4]>,
    b_hash: Option<[u64; 4]>,
    merged: Option<[u64; 4]>,
) {
    let indices = &branch.merge.indices;
    assert_eq!(indices.a_present.get_field(proof), a_hash.is_some());
    assert_eq!(indices.a_hash.get_field(proof), a_hash.unwrap_or_default());
    assert_eq!(indices.b_present.get_field(proof), b_hash.is_some());
    assert_eq!(indices.b_hash.get_field(proof), b_hash.unwrap_or_default());
    assert_eq!(indices.merged_present.get_field(proof), merged.is_some());
    assert_eq!(indices.merged_hash.get_field(proof), merged.unwrap_or_default());
}

struct Fixtures {
    leaf: DummyLeafCircuit,
    branch_1: DummyBranchCircuit,
    empty_leaf: Proof,
    left_leaf: Proof,
    right_leaf: Proof,
    both_leaf_1: (Proof, [u64; 4]),
    both_leaf_2: (Proof, [u64; 4]),
    empty_branch: Proof,
}

fn fixtures() -> Fixtures {
    let leaf = DummyLeafCircuit::new();
    let branch_1 = DummyBranchCircuit::from_leaf(&leaf);
    let empty_leaf = leaf.prove(None, None).unwrap();
    assert_leaf(&leaf, &empty_leaf, None);
    let left_zero = leaf.prove(Some(ZERO_HASH), None).unwrap();
    assert_leaf(&leaf, &left_zero, Some(ZERO_HASH));
    let right_zero = leaf.prove(None, Some(ZERO_HASH)).unwrap();
    assert_leaf(&leaf, &right_zero, Some(ZERO_HASH));
    let left_leaf = leaf.prove(Some(NON_ZERO_HASHES[0]), None).unwrap();
    assert_leaf(&leaf, &left_leaf, Some(NON_ZERO_HASHES[0]));
    let right_leaf = leaf.prove(None, Some(NON_ZERO_HASHES[1])).unwrap();
    assert_leaf(&leaf, &right_leaf, Some(NON_ZERO_HASHES[1]));
    let merged_1 = hash_branch(&NON_ZERO_HASHES[0], &NON_ZERO_HASHES[1]);
    let both_1 = leaf.prove(Some(NON_ZERO_HASHES[0]), Some(NON_ZERO_HASHES[1])).unwrap();
    assert_leaf(&leaf, &both_1, Some(merged_1));
    let merged_2 = hash_branch(&NON_ZERO_HASHES[2], &NON_ZERO_HASHES[3]);
    let both_2 = leaf.prove(Some(NON_ZERO_HASHES[2]), Some(NON_ZERO_HASHES[3])).unwrap();
    assert_leaf(&leaf, &both_2, Some(merged_2));
    let empty_branch = branch_1.prove(&empty_leaf, &empty_leaf).unwrap();
    assert_branch(&branch_1, &empty_branch, None, None, None);
    Fixtures {
        leaf,
        branch_1,
        empty_leaf,
        left_leaf,
        right_leaf,
        both_leaf_1: (both_1, merged_1),
        both_leaf_2: (both_2, merged_2),
        empty_branch,
    }
}

#[test]
fn core_verify_leaf() {
    let f = fixtures();
    let a_val = hash_str("Value Alpha");
    let b_val = hash_str("Value Beta");
    let proof = f.leaf.prove(Some(a_val), Some(b_val)).unwrap();
    assert_leaf(&f.leaf, &proof, Some(hash_branch(&a_val, &b_val)));
    let proof = f.leaf.prove(Some(ZERO_HASH), Some(ZERO_HASH)).unwrap();
    assert_leaf(&f.leaf, &proof, Some(hash_branch(&ZERO_HASH, &ZERO_HASH)));
    let proof = f.leaf.prove(Some(a_val), Some(ZERO_HASH)).unwrap();
    assert_leaf(&f.leaf, &proof, Some(hash_branch(&a_val, &ZERO_HASH)));
    let proof = f.leaf.prove(Some(ZERO_HASH), Some(b_val)).unwrap();
    assert_leaf(&f.leaf, &proof, Some(hash_branch(&ZERO_HASH, &b_val)));
}

#[test]
fn bad_leaf_empty_zero() {
    let f = fixtures();
    assert!(unsatisfied(f.leaf.prove_unsafe(false, ZERO_HASH, false, ZERO_HASH, true, None)));
}

#[test]
fn bad_leaf_empty_left() {
    let f = fixtures();
    assert!(unsatisfied(f.leaf.prove_unsafe(false, NON_ZERO_HASHES[0], false, ZERO_HASH, true, None)));
}

#[test]
fn bad_leaf_empty_right() {
    let f = fixtures();
    assert!(unsatisfied(f.leaf.prove_unsafe(false, ZERO_HASH, false, NON_ZERO_HASHES[1], true, None)));
}

#[test]
fn bad_leaf_empty_both() {
    let f = fixtures();
    assert!(unsatisfied(f.leaf.prove_unsafe(
        false,
        NON_ZERO_HASHES[0],
        false,
        NON_ZERO_HASHES[1],
        true,
        None
    )));
}

#[test]
fn bad_leaf_non_empty_left() {
    let f = fixtures();
    assert!(unsatisfied(f.leaf.prove_unsafe(false, NON_ZERO_HASHES[0], false, ZERO_HASH, false, None)));
}

#[test]
fn bad_leaf_non_empty_right() {
    let f = fixtures();
    assert!(unsatisfied(f.leaf.prove_unsafe(false, ZERO_HASH, false, NON_ZERO_HASHES[1], false, None)));
}

#[test]
fn bad_leaf_non_empty_both() {
    let f = fixtures();
    assert!(unsatisfied(f.leaf.prove_unsafe(
        false,
        NON_ZERO_HASHES[0],
        false,
        NON_ZERO_HASHES[1],
        false,
        None
    )));
}

#[test]
fn bad_leaf_forward() {
    let f = fixtures();
    assert!(unsatisfied(f.leaf.prove_unsafe(
        true,
        NON_ZERO_HASHES[0],
        false,
        ZERO_HASH,
        true,
        Some(NON_ZERO_HASHES[1])
    )));
}

#[test]
fn core_bad_leaf_hash() {
    let f = fixtures();
    assert!(unsatisfied(f.leaf.prove_unsafe(
        true,
        NON_ZERO_HASHES[0],
        true,
        NON_ZERO_HASHES[1],
        true,
        Some(NON_ZERO_HASHES[2])
    )));
}

#[test]
fn verify_branch_single_leafs_1() {
    let f = fixtures();
    let merged = hash_branch(&NON_ZERO_HASHES[0], &NON_ZERO_HASHES[1]);
    let proof = f.branch_1.prove(&f.left_leaf, &f.right_leaf).unwrap();
    assert_branch(&f.branch_1, &proof, Some(NON_ZERO_HASHES[0]), Some(NON_ZERO_HASHES[1]), Some(merged));
}

#[test]
fn verify_branch_single_leafs_2() {
    let f = fixtures();
    let merged = hash_branch(&NON_ZERO_HASHES[1], &NON_ZERO_HASHES[0]);
    let proof = f.branch_1.prove(&f.right_leaf, &f.left_leaf).unwrap();
    assert_branch(&f.branch_1, &proof, Some(NON_ZERO_HASHES[0]), Some(NON_ZERO_HASHES[1]), Some(merged));
}

#[test]
fn verify_branch_right_empty() {
    let f = fixtures();
    // (A, B) => AB and (∅, ∅) => ∅ merge to (A∅, B∅) => AB
    let proof = f.branch_1.prove(&f.both_leaf_1.0, &f.empty_leaf).unwrap();
    assert_branch(
        &f.branch_1,
        &proof,
        Some(NON_ZERO_HASHES[0]),
        Some(NON_ZERO_HASHES[1]),
        Some(f.both_leaf_1.1),
    );
}

#[test]
fn verify_branch_left_empty() {
    let f = fixtures();
    // (∅, ∅) => ∅ and (A, B) => AB merge to (∅A, ∅B) => AB
    let proof = f.branch_1.prove(&f.empty_leaf, &f.both_leaf_1.0).unwrap();
    assert_branch(
        &f.branch_1,
        &proof,
        Some(NON_ZERO_HASHES[0]),
        Some(NON_ZERO_HASHES[1]),
        Some(f.both_leaf_1.1),
    );
}

fn complex_branch(f: &Fixtures, first: &(Proof, [u64; 4]), second: &(Proof, [u64; 4]), alpha: [u64; 4], beta: [u64; 4]) {
    let merged = hash_branch(&first.1, &second.1);
    let mut proof = f.branch_1.prove(&first.0, &second.0).unwrap();
    assert_branch(&f.branch_1, &proof, Some(alpha), Some(beta), Some(merged));
    // Empty leafs have no effect
    let mut branch_next = DummyBranchCircuit::from_branch(&f.branch_1);
    let mut empty_proof = f.empty_branch.clone();
    for _ in 0..4 {
        proof = branch_next.prove(&proof, &empty_proof).unwrap();
        assert_branch(&branch_next, &proof, Some(alpha), Some(beta), Some(merged));
        empty_proof = branch_next.prove(&empty_proof, &empty_proof).unwrap();
        assert_branch(&branch_next, &empty_proof, None, None, None);
        branch_next = DummyBranchCircuit::from_branch(&branch_next);
    }
}

#[test]
fn verify_complex_branch_1() {
    let f = fixtures();
    // (A, B) => AB and (C, D) => CD merge to (AC, BD) => (AB)(CD)
    let alpha = hash_branch(&NON_ZERO_HASHES[0], &NON_ZERO_HASHES[2]);
    let beta = hash_branch(&NON_ZERO_HASHES[1], &NON_ZERO_HASHES[3]);
    complex_branch(&f, &f.both_leaf_1, &f.both_leaf_2, alpha, beta);
}

#[test]
fn verify_complex_branch_2() {
    let f = fixtures();
    // (C, D) => CD and (A, B) => AB merge to (CA, DB) => (CD)(AB)
    let alpha = hash_branch(&NON_ZERO_HASHES[2], &NON_ZERO_HASHES[0]);
    let beta = hash_branch(&NON_ZERO_HASHES[3], &NON_ZERO_HASHES[1]);
    complex_branch(&f, &f.both_leaf_2, &f.both_leaf_1, alpha, beta);
}

#[test]
fn bad_branch_empty() {
    let f = fixtures();
    assert!(unsatisfied(f.branch_1.prove_unsafe(
        false,
        None,
        false,
        None,
        true,
        None,
        &f.empty_leaf,
        &f.empty_leaf
    )));
}

#[test]
fn bad_branch_forward_left() {
    let f = fixtures();
    assert!(unsatisfied(f.branch_1.prove_unsafe(
        true,
        Some(NON_ZERO_HASHES[0]),
        false,
        None,
        true,
        Some(NON_ZERO_HASHES[1]),
        &f.left_leaf,
        &f.empty_leaf
    )));
}
