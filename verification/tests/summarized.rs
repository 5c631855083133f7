use recproofs::circuit::{CircuitBuilder, PartialWitness, ProofWithPublicInputsTarget};
use recproofs::field::ORDER;
use recproofs::generate::{generate_witness, public_values, GenerateError};
use recproofs::subcircuits::summarized;
use recproofs::subcircuits::summarized::{BranchSubCircuit, LeafSubCircuit, PublicIndices};

/// A stand-in for the circuit's hash: deterministic, with field outputs.
fn hash(inputs: Vec<u64>) -> [u64; 4] {
    let mut s: [u64; 4] = [
        0x9e37_79b9_7f4a_7c15,
        0xbf58_476d_1ce4_e5b9,
        0x94d0_49bb_1331_11eb,
        inputs.len() as u64,
    ];
    for (i, x) in inputs.iter().enumerate() {
        for k in 0..4 {
            let mut z = s[k] ^ x.wrapping_add((i as u64 + 1).wrapping_mul(0x2545_f491_4f6c_dd1d));
            z = (z ^ (z >> 30)).wrapping_mul(0xbf58_476d_1ce4_e5b9);
            z = (z ^ (z >> 27)).wrapping_mul(0x94d0_49bb_1331_11eb);
            s[k] = z ^ (z >> 31) ^ (k as u64);
        }
    }
    s.map(|v| v % ORDER)
}

fn hash_branch(left: &[u64; 4], right: &[u64; 4]) -> [u64; 4] {
    hash(left.iter().chain(right.iter()).copied().collect())
}

const ZERO_HASH: [u64; 4] = [0; 4];
const NON_ZERO_VALUES: [[u64; 4]; 2] = [[1, 2, 3, 4], [5, 6, 7, 8]];

type Proof = Vec<u64>;

fn prove(circuit: &CircuitBuilder, w: &PartialWitness) -> Result<Proof, GenerateError> {
    let vals = generate_witness(circuit, w, &hash)?;
    Ok(public_values(circuit, &vals).unwrap())
}

struct DummyLeafCircuit {
    summarized: LeafSubCircuit,
    circuit: CircuitBuilder,
}

impl DummyLeafCircuit {
    fn new() -> Self {
        let mut builder = CircuitBuilder::new();
        let summarized_inputs = summarized::default(&mut builder);
        let summarized_targets = summarized_inputs.build_leaf(&mut builder);
        let public_inputs = builder.public_inputs.clone();
        let summarized = summarized_targets.build(&public_inputs);
        Self { summarized, circuit: builder }
    }

    fn prove(&self, summary_hash: Option<[u64; 4]>) -> Result<Proof, GenerateError> {
        let mut inputs = PartialWitness::new();
        self.summarized.set_witness(&mut inputs, summary_hash).unwrap();
        prove(&self.circuit, &inputs)
    }

    fn prove_unsafe(&self, present: bool, summary_hash: [u64; 4]) -> Result<Proof, GenerateError> {
        let mut inputs = PartialWitness::new();
        self.summarized.set_witness_unsafe(&mut inputs, present, summary_hash).unwrap();
        prove(&self.circuit, &inputs)
    }
}

struct DummyBranchCircuit {
    summarized: BranchSubCircuit,
    left_proof: ProofWithPublicInputsTarget,
    right_proof: ProofWithPublicInputsTarget,
    circuit: CircuitBuilder,
}

impl DummyBranchCircuit {
    fn new(indices: &PublicIndices, child: &CircuitBuilder) -> Self {
        let mut builder = CircuitBuilder::new();
        let summarized_inputs = summarized::default(&mut builder);
        let n = child.num_public_inputs();
        let left_proof = builder.add_virtual_proof_with_pis(n);
        let right_proof = builder.add_virtual_proof_with_pis(n);
        let summarized_targets =
            summarized_inputs.build_branch(&mut builder, indices, &left_proof, &right_proof);
        let public_inputs = builder.public_inputs.clone();
        let summarized = summarized_targets.build(indices, &public_inputs);
        Self { summarized, left_proof, right_proof, circuit: builder }
    }

    fn from_leaf(leaf: &DummyLeafCircuit) -> Self {
        Self::new(&leaf.summarized.indices, &leaf.circuit)
    }

    fn from_branch(branch: &Self) -> Self {
        Self::new(&branch.summarized.indices, &branch.circuit)
    }

    fn witness(&self, left: &Proof, right: &Proof) -> PartialWitness {
        let mut inputs = PartialWitness::new();
        inputs.set_proof_with_pis_target(&self.left_proof, left).unwrap();
        inputs.set_proof_with_pis_target(&self.right_proof, right).unwrap();
        self.summarized.set_witness(&mut inputs);
        inputs
    }

    fn prove(&self, left: &Proof, right: &Proof) -> Result<Proof, GenerateError> {
        prove(&self.circuit, &self.witness(left, right))
    }

    fn prove_unsafe(
        &self,
        present: bool,
        summary_hash: [u64; 4],
        left: &Proof,
        right: &Proof,
    ) -> Result<Proof, GenerateError> {
        let mut inputs = self.witness(left, right);
        self.summarized.set_witness_unsafe(&mut inputs, present, summary_hash).unwrap();
        prove(&self.circuit, &inputs)
    }
}

fn assert_value(leaf: &DummyLeafCircuit, proof: &Proof, hash: Option<[u64; 4]>) {
    let indices = &leaf.summarized.indices;
    assert_eq!(indices.summary_hash_present.get_field(proof), hash.is_some());
    assert_eq!(indices.summary_hash.get_field(proof), hash.unwrap_or_default());
}

struct Fixtures {
    leaf: DummyLeafCircuit,
    branch_1: DummyBranchCircuit,
    branch_2: DummyBranchCircuit,
    empty_leaf: Proof,
    zero_leaf: Proof,
    non_zero_leaves: Vec<([u64; 4], Proof)>,
}

fn fixtures() -> Fixtures {
    let leaf = DummyLeafCircuit::new();
    let branch_1 = DummyBranchCircuit::from_leaf(&leaf);
    let branch_2 = DummyBranchCircuit::from_branch(&branch_1);
    let empty_leaf = leaf.prove(None).unwrap();
    assert_value(&leaf, &empty_leaf, None);
    let zero_leaf = leaf.prove(Some(ZERO_HASH)).unwrap();
    assert_value(&leaf, &zero_leaf, Some(ZERO_HASH));
    let non_zero_leaves = NON_ZERO_VALUES
        .iter()
        .map(|h| {
            let proof = leaf.prove(Some(*h)).unwrap();
            assert_value(&leaf, &proof, Some(*h));
            (*h, proof)
        })
        .collect();
    Fixtures { leaf, branch_1, branch_2, empty_leaf, zero_leaf, non_zero_leaves }
}

/// Every branch proof of the first level, with its summary.
fn branch_proofs(f: &Fixtures) -> Vec<([u64; 4], Proof)> {
    let mut out = Vec::new();
    let b = &f.branch_1;
    for zero in [(&f.empty_leaf, &f.zero_leaf), (&f.zero_leaf, &f.empty_leaf)] {
        let proof = b.prove(zero.0, zero.1).unwrap();
        assert_value(&f.leaf, &proof, Some(ZERO_HASH));
        out.push((ZERO_HASH, proof));
    }
    for (h, p) in &f.non_zero_leaves {
        let left = b.prove(p, &f.empty_leaf).unwrap();
        assert_value(&f.leaf, &left, Some(*h));
        out.push((*h, left));
        let right = b.prove(&f.empty_leaf, p).unwrap();
        assert_value(&f.leaf, &right, Some(*h));
        out.push((*h, right));
        let zero_full = b.prove(&f.zero_leaf, p).unwrap();
        assert_value(&f.leaf, &zero_full, Some(hash_branch(&ZERO_HASH, h)));
        out.push((hash_branch(&ZERO_HASH, h), zero_full));
        for (h2, p2) in &f.non_zero_leaves {
            let both = hash_branch(h, h2);
            let proof = b.prove(p, p2).unwrap();
            assert_value(&f.leaf, &proof, Some(both));
            out.push((both, proof));
        }
    }
    out
}

#[test]
fn summarized_verify_leaves() {
    let f = fixtures();
    assert_eq!(f.leaf.circuit.num_public_inputs(), 5);
    assert_eq!(f.non_zero_leaves.len(), 2);
}

#[test]
fn summarized_verify_empty_branch() {
    let f = fixtures();
    let proof = f.branch_1.prove(&f.empty_leaf, &f.empty_leaf).unwrap();
    assert_value(&f.leaf, &proof, None);
}

#[test]
fn summarized_bad_non_zero_leaf() {
    let f = fixtures();
    let r = f.leaf.prove_unsafe(false, NON_ZERO_VALUES[0]);
    assert!(matches!(r, Err(GenerateError::Unsatisfied { .. })));
}

#[test]
fn summarized_verify_double_branch() {
    let f = fixtures();
    let empty_branch = f.branch_1.prove(&f.empty_leaf, &f.empty_leaf).unwrap();
    let branches = branch_proofs(&f);
    for (hash_1, proof_1) in &branches {
        let proof = f.branch_2.prove(&empty_branch, proof_1).unwrap();
        assert_value(&f.leaf, &proof, Some(*hash_1));
        let proof = f.branch_2.prove(proof_1, &empty_branch).unwrap();
        assert_value(&f.leaf, &proof, Some(*hash_1));
        for (hash_2, proof_2) in branches.iter().take(4) {
            let proof = f.branch_2.prove(proof_1, proof_2).unwrap();
            assert_value(&f.leaf, &proof, Some(hash_branch(hash_1, hash_2)));
            let proof = f.branch_2.prove(proof_2, proof_1).unwrap();
            assert_value(&f.leaf, &proof, Some(hash_branch(hash_2, hash_1)));
        }
    }
}

#[test]
fn summarized_bad_zero_branch() {
    let f = fixtures();
    let empty_branch = f.branch_1.prove(&f.empty_leaf, &f.empty_leaf).unwrap();
    let r = f.branch_2.prove_unsafe(true, ZERO_HASH, &empty_branch, &empty_branch);
    assert!(matches!(r, Err(GenerateError::Unsatisfied { .. })));
}

#[test]
fn summarized_bad_non_zero_branch() {
    let f = fixtures();
    let (h, p) = &f.non_zero_leaves[0];
    let r = f.branch_1.prove_unsafe(false, *h, &f.empty_leaf, p);
    assert!(matches!(r, Err(GenerateError::Unsatisfied { .. })));
}

#[test]
fn summarized_bad_wrong_hash_branch() {
    let f = fixtures();
    let (h, p) = &f.non_zero_leaves[0];
    let (_, p1) = &f.non_zero_leaves[1];
    let r = f.branch_1.prove_unsafe(true, *h, p, p1);
    assert!(matches!(r, Err(GenerateError::Unsatisfied { .. })));
}
