use recproofs::circuit::{CircuitBuilder, PartialWitness, ProofWithPublicInputsTarget};
use recproofs::field::ORDER;
use recproofs::generate::{generate_witness, public_values, GenerateError};
use recproofs::subcircuits::unpruned;
use recproofs::subcircuits::unpruned::{
    BranchSubCircuit, LeafSubCircuit, OnlyFull, PartialAllowed, PublicIndices,
};

/// A stand-in for the circuit's hash: deterministic, with field outputs.
fn hash(inputs: Vec<u64>) -> [u64; 4] {
    let mut s: [u64; 4] = [
        0x9e37_79b9_7f4a_7c15,
        0xbf58_476d_1ce4_e5b9,
        0x94d0_49bb_1331_11eb,
        inputs.len() as u64,
    ];
    for (i, x) in inputs.iter().enumerate() {
        for k in 0..4 {
            let mut z = s[k] ^ x.wrapping_add((i as u64 + 1).wrapping_mul(0x2545_f491_4f6c_dd1d));
            z = (z ^ (z >> 30)).wrapping_mul(0xbf58_476d_1ce4_e5b9);
            z = (z ^ (z >> 27)).wrapping_mul(0x94d0_49bb_1331_11eb);
            s[k] = z ^ (z >> 31) ^ (k as u64);
        }
    }
    s.map(|v| v % ORDER)
}

fn hash_branch(left: &[u64; 4], right: &[u64; 4]) -> [u64; 4] {
    hash(left.iter().chain(right.iter()).copied().collect())
}

const ZERO_HASH: [u64; 4] = [0; 4];
const NON_ZERO_VALUES: [[u64; 4]; 2] = [[1, 2, 3, 4], [5, 6, 7, 8]];

fn hash_branch_bytes(left: &[u64; 4], right: &[u64; 4]) -> [u64; 4] {
    hash(left.iter().chain(right.iter()).flat_map(|v| v.to_le_bytes()).map(u64::from).collect())
}

type Proof = Vec<u64>;

fn prove(circuit: &CircuitBuilder, w: &PartialWitness) -> Result<Proof, GenerateError> {
    let vals = generate_witness(circuit, w, &hash)?;
    Ok(public_values(circuit, &vals).unwrap())
}

struct DummyLeafCircuit {
    unpruned: LeafSubCircuit,
    circuit: CircuitBuilder,
}

impl DummyLeafCircuit {
    fn new() -> Self {
        let mut builder = CircuitBuilder::new();
        let unpruned_inputs = unpruned::default(&mut builder);
        let unpruned_targets = unpruned_inputs.build_leaf(&mut builder);
        let public_inputs = builder.public_inputs.clone();
        let unpruned = unpruned_targets.build(&public_inputs);
        Self { unpruned, circuit: builder }
    }

    fn prove(&self, unpruned_hash: [u64; 4]) -> Result<Proof, GenerateError> {
        let mut inputs = PartialWitness::new();
        self.unpruned.set_witness(&mut inputs, unpruned_hash).unwrap();
        prove(&self.circuit, &inputs)
    }
}

struct Proofs {
    left: ProofWithPublicInputsTarget,
    right: ProofWithPublicInputsTarget,
}

impl Proofs {
    fn new(builder: &mut CircuitBuilder, child: &CircuitBuilder) -> Self {
        let n = child.num_public_inputs();
        Proofs {
            left: builder.add_virtual_proof_with_pis(n),
            right: builder.add_virtual_proof_with_pis(n),
        }
    }

    fn witness(&self, left: &Proof, right: &Proof) -> PartialWitness {
        let mut inputs = PartialWitness::new();
        inputs.set_proof_with_pis_target(&self.left, left).unwrap();
        inputs.set_proof_with_pis_target(&self.right, right).unwrap();
        inputs
    }
}

struct FullBranchCircuit {
    unpruned: BranchSubCircuit<OnlyFull>,
    proofs: Proofs,
    circuit: CircuitBuilder,
    vm_hash: bool,
}

impl FullBranchCircuit {
    fn new(indices: &PublicIndices, child: &CircuitBuilder, vm_hash: bool) -> Self {
        let mut builder = CircuitBuilder::new();
        let unpruned_inputs = unpruned::default(&mut builder);
        let proofs = Proofs::new(&mut builder, child);
        let unpruned_targets = unpruned_inputs.build_branch(
            &mut builder,
            indices,
            &proofs.left,
            &proofs.right,
            vm_hash,
        );
        let public_inputs = builder.public_inputs.clone();
        let unpruned = unpruned_targets.build(indices, &public_inputs);
        Self { unpruned, proofs, circuit: builder, vm_hash }
    }

    fn hash(&self, l: &[u64; 4], r: &[u64; 4]) -> [u64; 4] {
        if self.vm_hash {
            hash_branch_bytes(l, r)
        } else {
            hash_branch(l, r)
        }
    }

    fn prove(&self, left: &Proof, right: &Proof) -> Result<Proof, GenerateError> {
        let mut inputs = self.proofs.witness(left, right);
        self.unpruned.set_witness(&mut inputs);
        prove(&self.circuit, &inputs)
    }

    fn prove_unsafe(&self, hash: [u64; 4], left: &Proof, right: &Proof) -> Result<Proof, GenerateError> {
        let mut inputs = self.proofs.witness(left, right);
        self.unpruned.set_witness_unsafe(&mut inputs, hash).unwrap();
        prove(&self.circuit, &inputs)
    }
}

struct PartialBranchCircuit {
    unpruned: BranchSubCircuit<PartialAllowed>,
    proofs: Proofs,
    circuit: CircuitBuilder,
}

impl PartialBranchCircuit {
    fn new(indices: &PublicIndices, child: &CircuitBuilder) -> Self {
        let mut builder = CircuitBuilder::new();
        let unpruned_inputs = unpruned::default(&mut builder);
        let proofs = Proofs::new(&mut builder, child);
        let unpruned_targets = unpruned_inputs.build_extended_branch(
            &mut builder,
            indices,
            &proofs.left,
            &proofs.right,
            false,
        );
        let public_inputs = builder.public_inputs.clone();
        let unpruned = unpruned_targets.build(indices, &public_inputs);
        Self { unpruned, proofs, circuit: builder }
    }

    fn hash(&self, l: &[u64; 4], r: Option<&[u64; 4]>) -> [u64; 4] {
        match r {
            Some(r) => hash_branch(l, r),
            None => *l,
        }
    }

    fn prove(&self, left: &Proof, right: Option<&Proof>) -> Result<Proof, GenerateError> {
        let mut inputs = self.proofs.witness(left, right.unwrap_or(left));
        self.unpruned.set_witness(&mut inputs, right.is_none()).unwrap();
        prove(&self.circuit, &inputs)
    }

    fn prove_unsafe(
        &self,
        hash: [u64; 4],
        left: &Proof,
        right: Option<&Proof>,
    ) -> Result<Proof, GenerateError> {
        let mut inputs = self.proofs.witness(left, right.unwrap_or(left));
        self.unpruned.set_witness_unsafe(&mut inputs, hash, right.is_none()).unwrap();
        prove(&self.circuit, &inputs)
    }
}

fn assert_value(leaf: &DummyLeafCircuit, proof: &Proof, hash: [u64; 4]) {
    assert_eq!(leaf.unpruned.indices.unpruned_hash.get_field(proof), hash);
}

struct Fixtures {
    leaf: DummyLeafCircuit,
    zero_leaf: Proof,
    non_zero_leaves: Vec<([u64; 4], Proof)>,
}

fn fixtures() -> Fixtures {
    let leaf = DummyLeafCircuit::new();
    let zero_leaf = leaf.prove(ZERO_HASH).unwrap();
    assert_value(&leaf, &zero_leaf, ZERO_HASH);
    let non_zero_leaves = NON_ZERO_VALUES
        .iter()
        .map(|h| {
            let proof = leaf.prove(*h).unwrap();
            assert_value(&leaf, &proof, *h);
            (*h, proof)
        })
        .collect();
    Fixtures { leaf, zero_leaf, non_zero_leaves }
}

fn full_helper(
    f: &Fixtures,
    branch: &FullBranchCircuit,
    l: (&[u64; 4], &Proof),
    r: (&[u64; 4], &Proof),
) -> ([u64; 4], Proof) {
    let hash = branch.hash(l.0, r.0);
    let proof = branch.prove(l.1, r.1).unwrap();
    assert_value(&f.leaf, &proof, hash);
    (hash, proof)
}

/// The zero branch, one left, one right and one full branch proof.
fn full_branches(f: &Fixtures, branch: &FullBranchCircuit) -> Vec<([u64; 4], Proof)> {
    let z = (&ZERO_HASH, &f.zero_leaf);
    let (h0, p0) = &f.non_zero_leaves[0];
    let (h1, p1) = &f.non_zero_leaves[1];
    vec![
        full_helper(f, branch, z, z),
        full_helper(f, branch, (h0, p0), z),
        full_helper(f, branch, z, (h0, p0)),
        full_helper(f, branch, (h0, p0), (h1, p1)),
    ]
}

fn double_branch(vm_hash: bool) {
    let f = fixtures();
    let branch_1 = FullBranchCircuit::new(&f.leaf.unpruned.indices, &f.leaf.circuit, vm_hash);
    let branch_2 = FullBranchCircuit::new(&branch_1.unpruned.indices, &branch_1.circuit, vm_hash);
    let branches = full_branches(&f, &branch_1);
    for (hash_1, proof_1) in &branches {
        for (hash_2, proof_2) in &branches {
            full_helper(&f, &branch_2, (hash_1, proof_1), (hash_2, proof_2));
            full_helper(&f, &branch_2, (hash_2, proof_2), (hash_1, proof_1));
        }
    }
}

#[test]
fn unpruned_verify_double_branch() {
    double_branch(false);
}

#[test]
fn verify_double_vm_branch() {
    double_branch(true);
}

#[test]
fn unpruned_bad_wrong_hash_branch() {
    let f = fixtures();
    let branch_1 = FullBranchCircuit::new(&f.leaf.unpruned.indices, &f.leaf.circuit, false);
    let r = branch_1.prove_unsafe(
        f.non_zero_leaves[0].0,
        &f.non_zero_leaves[0].1,
        &f.non_zero_leaves[1].1,
    );
    assert!(matches!(r, Err(GenerateError::Unsatisfied { .. })));
}

#[test]
fn bad_wrong_hash_vm_branch() {
    let f = fixtures();
    let branch_1 = FullBranchCircuit::new(&f.leaf.unpruned.indices, &f.leaf.circuit, true);
    let r = branch_1.prove_unsafe(
        f.non_zero_leaves[0].0,
        &f.non_zero_leaves[0].1,
        &f.non_zero_leaves[1].1,
    );
    assert!(matches!(r, Err(GenerateError::Unsatisfied { .. })));
}

fn partial_helper(
    f: &Fixtures,
    branch: &PartialBranchCircuit,
    l: (&[u64; 4], &Proof),
    r: Option<(&[u64; 4], &Proof)>,
) -> ([u64; 4], Proof) {
    let hash = branch.hash(l.0, r.map(|r| r.0));
    let proof = branch.prove(l.1, r.map(|r| r.1)).unwrap();
    assert_value(&f.leaf, &proof, hash);
    (hash, proof)
}

#[test]
fn verify_double_partial_branch() {
    let f = fixtures();
    let par_1 = PartialBranchCircuit::new(&f.leaf.unpruned.indices, &f.leaf.circuit);
    let par_2 = PartialBranchCircuit::new(&par_1.unpruned.indices, &par_1.circuit);
    let z = (&ZERO_HASH, &f.zero_leaf);
    let (h0, p0) = &f.non_zero_leaves[0];
    let (h1, p1) = &f.non_zero_leaves[1];
    let branches = vec![
        partial_helper(&f, &par_1, z, None),
        partial_helper(&f, &par_1, z, Some(z)),
        partial_helper(&f, &par_1, (h0, p0), None),
        partial_helper(&f, &par_1, z, Some((h0, p0))),
        partial_helper(&f, &par_1, (h0, p0), Some((h1, p1))),
    ];
    for (hash_1, proof_1) in &branches {
        partial_helper(&f, &par_2, (hash_1, proof_1), None);
        for (hash_2, proof_2) in &branches {
            partial_helper(&f, &par_2, (hash_1, proof_1), Some((hash_2, proof_2)));
            partial_helper(&f, &par_2, (hash_2, proof_2), Some((hash_1, proof_1)));
        }
    }
}

#[test]
fn bad_wrong_hash_partial_branch_1() {
    let f = fixtures();
    let par_1 = PartialBranchCircuit::new(&f.leaf.unpruned.indices, &f.leaf.circuit);
    let r = par_1.prove_unsafe(
        f.non_zero_leaves[0].0,
        &f.non_zero_leaves[0].1,
        Some(&f.non_zero_leaves[1].1),
    );
    assert!(matches!(r, Err(GenerateError::Unsatisfied { .. })));
}

#[test]
fn bad_wrong_hash_partial_branch_2() {
    let f = fixtures();
    let par_1 = PartialBranchCircuit::new(&f.leaf.unpruned.indices, &f.leaf.circuit);
    let r = par_1.prove_unsafe(f.non_zero_leaves[0].0, &f.non_zero_leaves[1].1, None);
    assert!(matches!(r, Err(GenerateError::Unsatisfied { .. })));
}
