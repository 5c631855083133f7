use recproofs::circuit::{CircuitBuilder, Op, PartialWitness, ProofWithPublicInputsTarget, VerifierOnlyCircuitData};
use recproofs::circuits::merge::embed;
use recproofs::circuits::merge::embed::MergeCircuit;
use recproofs::circuits::merge::{BranchCircuit, LeafCircuit};
use recproofs::field::ORDER;
use recproofs::generate::{generate_witness, public_values, GenerateError};

/// A stand-in for the circuit's hash: deterministic, with field outputs.
fn hash(inputs: Vec<u64>) -> [u64; 4] {
    let mut s: [u64; 4] = [
        0x9e37_79b9_7f4a_7c15,
        0xbf58_476d_1ce4_e5b9,
        0x94d0_49bb_1331_11eb,
        inputs.len() as u64,
    ];
    for (i, x) in inputs.iter().enumerate() {
        for k in 0..4 {
            let mut z = s[k] ^ x.wrapping_add((i as u64 + 1).wrapping_mul(0x2545_f491_4f6c_dd1d));
            z = (z ^ (z >> 30)).wrapping_mul(0xbf58_476d_1ce4_e5b9);
            z = (z ^ (z >> 27)).wrapping_mul(0x94d0_49bb_1331_11eb);
            s[k] = z ^ (z >> 31) ^ (k as u64);
        }
    }
    s.map(|v| v % ORDER)
}

fn hash_branch(left: &[u64; 4], right: &[u64; 4]) -> [u64; 4] {
    hash(left.iter().chain(right.iter()).copied().collect())
}

const ZERO_HASH: [u64; 4] = [0; 4];
const NON_ZERO_HASHES: [[u64; 4]; 4] = [[1, 2, 3, 4], [5, 6, 7, 8], [9, 10, 11, 12], [13, 14, 15, 16]];
/// The number by which the plans name the merge circuit.
const MERGE_CIRCUIT: usize = 1;
/// The number by which the plans name the merge leaf circuit.
const MERGE_LEAF: usize = 2;

/// The verifier data of the merge branch circuit, which every proof of the
/// tree carries: a cap of one digest.
fn branch_verifier() -> VerifierOnlyCircuitData {
    VerifierOnlyCircuitData { constants_sigmas_cap: vec![[11, 12, 13, 14]], circuit_digest: [1, 2, 3, 4] }
}

type Proof = Vec<u64>;

fn prove(circuit: &CircuitBuilder, w: &PartialWitness) -> Result<Proof, GenerateError> {
    let vals = generate_witness(circuit, w, &hash)?;
    Ok(public_values(circuit, &vals).unwrap())
}

fn unsatisfied<T>(r: Result<T, GenerateError>) -> bool {
    matches!(r, Err(GenerateError::Unsatisfied { .. }))
}

struct Merge {
    leaf: LeafCircuit,
    branch: BranchCircuit,
    empty_leaf: Proof,
    left_zero_leaf: Proof,
    right_zero_leaf: Proof,
    left_leaf: Proof,
    right_leaf: Proof,
}

impl Merge {
    fn leaf(&self, a: Option<[u64; 4]>, b: Option<[u64; 4]>) -> Result<Proof, GenerateError> {
        let mut inputs = PartialWitness::new();
        self.leaf.set_witness(&mut inputs, a, b).unwrap();
        self.leaf.unbounded.set_witness(&mut inputs, &branch_verifier()).unwrap();
        prove(&self.leaf.circuit, &inputs)
    }

    fn branch(&self, left: &Proof, right: &Proof) -> Result<Proof, GenerateError> {
        let mut inputs = PartialWitness::new();
        // both children are leaf proofs
        self.branch.set_witness(&mut inputs, true, left, true, right).unwrap();
        prove(&self.branch.circuit, &inputs)
    }

    fn assert_leaf(&self, proof: &Proof, merged: Option<[u64; 4]>) {
        let indices = &self.leaf.merge.indices;
        assert_eq!(indices.merged_present.get_field(proof), merged.is_some());
        assert_eq!(indices.merged_hash.get_field(proof), merged.unwrap_or_default());
    }

    fn assert_branch(&self, proof: &Proof, a: Option<[u64; 4]>, b: Option<[u64; 4]>, merged: Option<[u64; 4]>) {
        let indices = &self.branch.merge.indices;
        assert_eq!(indices.a_present.get_field(proof), a.is_some());
        assert_eq!(indices.a_hash.get_field(proof), a.unwrap_or_default());
        assert_eq!(indices.b_present.get_field(proof), b.is_some());
        assert_eq!(indices.b_hash.get_field(proof), b.unwrap_or_default());
        assert_eq!(indices.merged_present.get_field(proof), merged.is_some());
        assert_eq!(indices.merged_hash.get_field(proof), merged.unwrap_or_default());
    }

    fn circuit(&self) -> MergeCircuit {
        MergeCircuit {
            indices: self.branch.merge.indices,
            num_public_inputs: self.branch.circuit.num_public_inputs(),
            circuit: MERGE_CIRCUIT,
            cap_height: 0,
        }
    }
}

fn merge() -> Merge {
    let leaf = LeafCircuit::new(0, MERGE_LEAF);
    let branch = BranchCircuit::new(&leaf);
    let mut m = Merge {
        leaf,
        branch,
        empty_leaf: vec![],
        left_zero_leaf: vec![],
        right_zero_leaf: vec![],
        left_leaf: vec![],
        right_leaf: vec![],
    };
    m.empty_leaf = m.leaf(None, None).unwrap();
    m.assert_leaf(&m.empty_leaf, None);
    m.left_zero_leaf = m.leaf(Some(ZERO_HASH), None).unwrap();
    m.assert_leaf(&m.left_zero_leaf, Some(ZERO_HASH));
    m.right_zero_leaf = m.leaf(None, Some(ZERO_HASH)).unwrap();
    m.assert_leaf(&m.right_zero_leaf, Some(ZERO_HASH));
    m.left_leaf = m.leaf(Some(NON_ZERO_HASHES[0]), None).unwrap();
    m.assert_leaf(&m.left_leaf, Some(NON_ZERO_HASHES[0]));
    m.right_leaf = m.leaf(None, Some(NON_ZERO_HASHES[1])).unwrap();
    m.assert_leaf(&m.right_leaf, Some(NON_ZERO_HASHES[1]));
    m
}

#[test]
fn verify_left_zero_branch_2() {
    let m = merge();
    let proof = m.branch(&m.empty_leaf, &m.left_zero_leaf).unwrap();
    m.assert_branch(&proof, Some(ZERO_HASH), None, Some(ZERO_HASH));
}

#[test]
fn verify_right_zero_branch_2() {
    let m = merge();
    let proof = m.branch(&m.empty_leaf, &m.right_zero_leaf).unwrap();
    m.assert_branch(&proof, None, Some(ZERO_HASH), Some(ZERO_HASH));
}

#[test]
fn verify_left_branch_2() {
    let m = merge();
    let proof = m.branch(&m.empty_leaf, &m.left_leaf).unwrap();
    m.assert_branch(&proof, Some(NON_ZERO_HASHES[0]), None, Some(NON_ZERO_HASHES[0]));
}

#[test]
fn verify_right_branch_2() {
    let m = merge();
    let proof = m.branch(&m.empty_leaf, &m.right_leaf).unwrap();
    m.assert_branch(&proof, None, Some(NON_ZERO_HASHES[1]), Some(NON_ZERO_HASHES[1]));
}

#[test]
fn merge_leaf_with_a_given_merged_hash() {
    let m = merge();
    let mut inputs = PartialWitness::new();
    let merged = hash_branch(&NON_ZERO_HASHES[0], &NON_ZERO_HASHES[1]);
    m.leaf
        .set_witness_unsafe(&mut inputs, Some(NON_ZERO_HASHES[0]), Some(NON_ZERO_HASHES[1]), Some(merged))
        .unwrap();
    m.leaf.unbounded.set_witness(&mut inputs, &branch_verifier()).unwrap();
    let proof = prove(&m.leaf.circuit, &inputs).unwrap();
    m.assert_leaf(&proof, Some(merged));
    let mut inputs = PartialWitness::new();
    m.leaf
        .set_witness_unsafe(&mut inputs, Some(NON_ZERO_HASHES[0]), Some(NON_ZERO_HASHES[1]), Some(NON_ZERO_HASHES[2]))
        .unwrap();
    m.leaf.unbounded.set_witness(&mut inputs, &branch_verifier()).unwrap();
    assert!(unsatisfied(prove(&m.leaf.circuit, &inputs)));
}

// The embedding of merges in another circuit.

struct DummyLeafCircuit {
    merge: embed::LeafSubCircuit,
    circuit: CircuitBuilder,
}

impl DummyLeafCircuit {
    fn new() -> Self {
        let mut builder = CircuitBuilder::new();
        let merge_inputs = embed::default(&mut builder);
        let merge_targets = merge_inputs.build_leaf(&mut builder);
        let public_inputs = builder.public_inputs.clone();
        let merge = merge_targets.build(&public_inputs);
        Self { merge, circuit: builder }
    }

    fn prove(&self, tree: Option<[u64; 4]>) -> Result<Proof, GenerateError> {
        let mut inputs = PartialWitness::new();
        self.merge.set_witness(&mut inputs, tree).unwrap();
        prove(&self.circuit, &inputs)
    }

    fn prove_unsafe(&self, present: bool, hash: [u64; 4]) -> Result<Proof, GenerateError> {
        let mut inputs = PartialWitness::new();
        let t = &self.merge.targets.inputs;
        inputs.set_bool_target(t.hash_present, present).unwrap();
        inputs.set_hash_target(t.hash, hash).unwrap();
        prove(&self.circuit, &inputs)
    }
}

struct DummyBranchCircuit {
    merge: embed::BranchSubCircuit,
    left_proof: ProofWithPublicInputsTarget,
    right_proof: ProofWithPublicInputsTarget,
    circuit: CircuitBuilder,
}

impl DummyBranchCircuit {
    fn new(mc: &MergeCircuit, indices: &embed::PublicIndices, child: &CircuitBuilder) -> Self {
        let mut builder = CircuitBuilder::new();
        let merge_inputs = embed::default(&mut builder);
        let n = child.num_public_inputs();
        let left_proof = builder.add_virtual_proof_with_pis(n);
        let right_proof = builder.add_virtual_proof_with_pis(n);
        let merge_targets = merge_inputs.build_branch(&mut builder, mc, indices, &left_proof, &right_proof);
        let public_inputs = builder.public_inputs.clone();
        let merge = merge_targets.build(indices, &public_inputs);
        Self { merge, left_proof, right_proof, circuit: builder }
    }

    fn witness(&self, left: &Proof, right: &Proof) -> PartialWitness {
        let mut inputs = PartialWitness::new();
        inputs.set_proof_with_pis_target(&self.left_proof, left).unwrap();
        inputs.set_proof_with_pis_target(&self.right_proof, right).unwrap();
        inputs
    }

    fn prove(&self, merged_proof: &Proof, left: &Proof, right: Option<&Proof>) -> Result<Proof, GenerateError> {
        let mut inputs = self.witness(left, right.unwrap_or(left));
        self.merge.set_witness(&mut inputs, right.is_none(), merged_proof).unwrap();
        prove(&self.circuit, &inputs)
    }

    fn prove_unsafe(
        &self,
        partial: bool,
        merged_proof: &Proof,
        present: bool,
        hash: [u64; 4],
        left: &Proof,
        right: &Proof,
    ) -> Result<Proof, GenerateError> {
        let mut inputs = self.witness(left, right);
        self.merge.set_witness_unsafe(&mut inputs, partial, merged_proof, present, hash).unwrap();
        prove(&self.circuit, &inputs)
    }
}

struct Embed {
    m: Merge,
    leaf: DummyLeafCircuit,
    branch_1: DummyBranchCircuit,
    branch_2: DummyBranchCircuit,
    empty_leaf: Proof,
    bad_empty_leaf: Proof,
    zero_leaf: Proof,
    non_zero_leaf_1: Proof,
    non_zero_leaf_2: Proof,
    empty_branch: Proof,
    left_branch: Proof,
    right_branch: Proof,
    both_branch: Proof,
    left_zero_branch: Proof,
    right_zero_branch: Proof,
}

fn assert_embedded(leaf: &DummyLeafCircuit, proof: &Proof, hash: Option<[u64; 4]>) {
    let indices = &leaf.merge.indices;
    assert_eq!(indices.hash_present.get_field(proof), hash.is_some());
    assert_eq!(indices.hash.get_field(proof), hash.unwrap_or_default());
}

fn embed_fixtures() -> Embed {
    let m = merge();
    let mc = m.circuit();
    let leaf = DummyLeafCircuit::new();
    let branch_1 = DummyBranchCircuit::new(&mc, &leaf.merge.indices, &leaf.circuit);
    let branch_2 = DummyBranchCircuit::new(&mc, &branch_1.merge.indices, &branch_1.circuit);
    let empty_leaf = leaf.prove(None).unwrap();
    assert_embedded(&leaf, &empty_leaf, None);
    // Non-correspondence is allowed here
    let bad_empty_leaf = leaf.prove_unsafe(false, NON_ZERO_HASHES[2]).unwrap();
    let zero_leaf = leaf.prove(Some(ZERO_HASH)).unwrap();
    assert_embedded(&leaf, &zero_leaf, Some(ZERO_HASH));
    let non_zero_leaf_1 = leaf.prove(Some(NON_ZERO_HASHES[0])).unwrap();
    let non_zero_leaf_2 = leaf.prove(Some(NON_ZERO_HASHES[1])).unwrap();
    let merge_empty = m.branch(&m.empty_leaf, &m.empty_leaf).unwrap();
    let merge_left = m.branch(&m.left_leaf, &m.empty_leaf).unwrap();
    m.assert_branch(&merge_left, Some(NON_ZERO_HASHES[0]), None, Some(NON_ZERO_HASHES[0]));
    let merge_right = m.branch(&m.right_leaf, &m.empty_leaf).unwrap();
    let merge_both = m.branch(&m.left_leaf, &m.right_leaf).unwrap();
    m.assert_branch(
        &merge_both,
        Some(NON_ZERO_HASHES[0]),
        Some(NON_ZERO_HASHES[1]),
        Some(hash_branch(&NON_ZERO_HASHES[0], &NON_ZERO_HASHES[1])),
    );
    let left_zero_branch = m.branch(&m.left_zero_leaf, &m.empty_leaf).unwrap();
    let right_zero_branch = m.branch(&m.right_zero_leaf, &m.empty_leaf).unwrap();

    let empty_branch = branch_1.prove(&merge_empty, &empty_leaf, Some(&empty_leaf)).unwrap();
    assert_embedded(&leaf, &empty_branch, None);
    let partial = branch_1.prove(&merge_empty, &empty_leaf, None).unwrap();
    assert_embedded(&leaf, &partial, None);
    let partial_bad = branch_1
        .prove_unsafe(true, &merge_empty, false, ZERO_HASH, &empty_leaf, &bad_empty_leaf)
        .unwrap();
    assert_embedded(&leaf, &partial_bad, None);
    let left_branch = branch_1.prove(&merge_left, &non_zero_leaf_1, Some(&empty_leaf)).unwrap();
    assert_embedded(&leaf, &left_branch, Some(NON_ZERO_HASHES[0]));
    let left_partial = branch_1.prove(&merge_left, &non_zero_leaf_1, None).unwrap();
    assert_embedded(&leaf, &left_partial, Some(NON_ZERO_HASHES[0]));
    let right_branch = branch_1.prove(&merge_right, &empty_leaf, Some(&non_zero_leaf_2)).unwrap();
    assert_embedded(&leaf, &right_branch, Some(NON_ZERO_HASHES[1]));
    Embed {
        m,
        leaf,
        branch_1,
        branch_2,
        empty_leaf,
        bad_empty_leaf,
        zero_leaf,
        non_zero_leaf_1,
        non_zero_leaf_2,
        empty_branch: merge_empty,
        left_branch,
        right_branch,
        both_branch: merge_both,
        left_zero_branch,
        right_zero_branch,
    }
}

#[test]
fn verify_both_branch() {
    let e = embed_fixtures();
    let proof = e.branch_1.prove(&e.both_branch, &e.non_zero_leaf_1, Some(&e.non_zero_leaf_2)).unwrap();
    assert_embedded(&e.leaf, &proof, Some(hash_branch(&NON_ZERO_HASHES[0], &NON_ZERO_HASHES[1])));
}

#[test]
fn verify_both_double_branch() {
    let e = embed_fixtures();
    let proof = e.branch_2.prove(&e.both_branch, &e.left_branch, Some(&e.right_branch)).unwrap();
    assert_embedded(&e.leaf, &proof, Some(hash_branch(&NON_ZERO_HASHES[0], &NON_ZERO_HASHES[1])));
    assert_eq!(e.m.branch.merge.indices, e.m.circuit().indices);
}

#[test]
fn bad_branch_empty_1() {
    let e = embed_fixtures();
    assert!(unsatisfied(e.branch_1.prove(&e.empty_branch, &e.empty_leaf, Some(&e.zero_leaf))));
}

#[test]
fn bad_branch_empty_2() {
    let e = embed_fixtures();
    assert!(unsatisfied(e.branch_1.prove(&e.empty_branch, &e.empty_leaf, Some(&e.bad_empty_leaf))));
}

#[test]
fn bad_branch_empty_3() {
    let e = embed_fixtures();
    assert!(unsatisfied(e.branch_1.prove(&e.empty_branch, &e.bad_empty_leaf, Some(&e.empty_leaf))));
}

#[test]
fn bad_branch_empty_4() {
    let e = embed_fixtures();
    assert!(unsatisfied(e.branch_1.prove(&e.empty_branch, &e.bad_empty_leaf, None)));
}

#[test]
fn bad_branch_empty_5() {
    let e = embed_fixtures();
    assert!(unsatisfied(e.branch_1.prove(&e.left_zero_branch, &e.empty_leaf, Some(&e.empty_leaf))));
}

#[test]
fn bad_branch_empty_6() {
    let e = embed_fixtures();
    assert!(unsatisfied(e.branch_1.prove(&e.right_zero_branch, &e.empty_leaf, Some(&e.empty_leaf))));
}

#[test]
fn bad_right_partial_branch_1() {
    let e = embed_fixtures();
    let merge_right = e.m.branch(&e.m.right_leaf, &e.m.empty_leaf).unwrap();
    assert!(unsatisfied(e.branch_1.prove(&merge_right, &e.empty_leaf, None)));
}

#[test]
fn bad_right_partial_branch_2() {
    let e = embed_fixtures();
    let merge_right = e.m.branch(&e.m.right_leaf, &e.m.empty_leaf).unwrap();
    assert!(unsatisfied(e.branch_1.prove(&merge_right, &e.non_zero_leaf_2, None)));
}

#[test]
fn bad_branch_pair() {
    let e = embed_fixtures();
    assert!(unsatisfied(e.branch_1.prove_unsafe(
        false,
        &e.both_branch,
        true,
        hash_branch(&NON_ZERO_HASHES[1], &NON_ZERO_HASHES[0]),
        &e.non_zero_leaf_1,
        &e.non_zero_leaf_2
    )));
}

/// The branch verifies both of its children.
#[test]
fn merge_branch_verifies_both_children() {
    let m = merge();
    let verified = m.branch.circuit.ops.iter().filter(|op| matches!(op, Op::VerifyProof { .. })).count();
    assert_eq!(verified, 2);
    let leaf_verified = m.leaf.circuit.ops.iter().filter(|op| matches!(op, Op::VerifyProof { .. })).count();
    assert_eq!(leaf_verified, 0);
}

/// Every proof carries the branch circuit's verifier data, and the branch
/// passes its children's on.
#[test]
fn merge_proofs_carry_the_branch_verifier() {
    let m = merge();
    let v = branch_verifier();
    let idx = &m.leaf.unbounded.indices.verifier;
    let leaf_carried = idx.get_field(&m.left_leaf);
    assert_eq!(leaf_carried.circuit_digest, v.circuit_digest);
    assert_eq!(leaf_carried.constants_sigmas_cap, v.constants_sigmas_cap);
    let proof = m.branch(&m.left_leaf, &m.right_leaf).unwrap();
    let branch_carried = m.branch.unbounded.indices.verifier.get_field(&proof);
    assert_eq!(branch_carried.circuit_digest, v.circuit_digest);
    assert_eq!(branch_carried.constants_sigmas_cap, v.constants_sigmas_cap);
}

/// A child that carries other verifier data, a proof of another tree, is
/// refused.
#[test]
fn merge_branch_refuses_a_child_of_another_tree() {
    let m = merge();
    let mut inputs = PartialWitness::new();
    m.leaf.set_witness(&mut inputs, None, Some(NON_ZERO_HASHES[1])).unwrap();
    let other = VerifierOnlyCircuitData { constants_sigmas_cap: vec![[21, 22, 23, 24]], circuit_digest: [1, 2, 3, 4] };
    m.leaf.unbounded.set_witness(&mut inputs, &other).unwrap();
    let stranger = prove(&m.leaf.circuit, &inputs).unwrap();
    assert!(unsatisfied(m.branch(&m.left_leaf, &stranger)));
}

/// The branch's witness gives each child's flag and public inputs.
#[test]
fn merge_branch_witness_gives_the_children() {
    let m = merge();
    let mut inputs = PartialWitness::new();
    m.branch.set_witness(&mut inputs, true, &m.left_leaf, false, &m.right_leaf).unwrap();
    let t = &m.branch.unbounded.targets;
    assert_eq!(inputs.try_get_target(t.left_is_leaf.target), Some(1));
    assert_eq!(inputs.try_get_target(t.right_is_leaf.target), Some(0));
    assert_eq!(inputs.try_get_target(t.left_proof.public_inputs[3]), Some(m.left_leaf[3]));
    assert_eq!(inputs.try_get_target(t.right_proof.public_inputs[7]), Some(m.right_leaf[7]));
    // the same children again are accepted, other flags are not
    assert!(m.branch.set_witness(&mut inputs, true, &m.left_leaf, false, &m.right_leaf).is_ok());
    assert!(m.branch.set_witness(&mut inputs, false, &m.left_leaf, false, &m.right_leaf).is_err());
}
