use recproofs::circuit::{CircuitBuilder, PartialWitness};
use recproofs::circuits::state_update::{AddressPresent, BranchCircuit, Indices, LeafCircuit, Proof};
use recproofs::field::ORDER;
use recproofs::generate::{generate_witness, public_values, GenerateError};

/// A stand-in for the circuit's hash: deterministic, with field outputs.
fn hash(inputs: Vec<u64>) -> [u64; 4] {
    let mut s: [u64; 4] = [
        0x9e37_79b9_7f4a_7c15,
        0xbf58_476d_1ce4_e5b9,
        0x94d0_49bb_1331_11eb,
        inputs.len() as u64,
    ];
    for (i, x) in inputs.iter().enumerate() {
        for k in 0..4 {
            let mut z = s[k] ^ x.wrapping_add((i as u64 + 1).wrapping_mul(0x2545_f491_4f6c_dd1d));
            z = (z ^ (z >> 30)).wrapping_mul(0xbf58_476d_1ce4_e5b9);
            z = (z ^ (z >> 27)).wrapping_mul(0x94d0_49bb_1331_11eb);
            s[k] = z ^ (z >> 31) ^ (k as u64);
        }
    }
    s.map(|v| v % ORDER)
}

fn hash_branch(left: &[u64; 4], right: &[u64; 4]) -> [u64; 4] {
    hash(left.iter().chain(right.iter()).copied().collect())
}

fn summarize(address: u64, old: [u64; 4], new: [u64; 4]) -> [u64; 4] {
    hash([address].into_iter().chain(old).chain(new).collect())
}

const ZERO_HASH: [u64; 4] = [0; 4];
const NON_ZERO_HASHES: [[u64; 4]; 2] = [[1, 2, 3, 4], [5, 6, 7, 8]];
const NEG_ONE: u64 = ORDER - 1;

const ADDRESS_A: usize = 2;
const ADDRESS_B: usize = 4;
const ADDRESS_C: usize = 5;
const ADDRESS_D: usize = 6;
const ADDRESS_E: usize = 7;

fn zero_obj_hash() -> [u64; 4] {
    hash(vec![0; 10])
}

/// The hashes of the objects of the tree before and after the update: `A`
/// is written, `B` deleted, `C` created, `D` read and `E` left alone.
fn leaf_hashes() -> ([[u64; 4]; 8], [[u64; 4]; 8]) {
    let z = zero_obj_hash();
    let mut old = [z; 8];
    let mut new = [z; 8];
    old[ADDRESS_A] = [11, 12, 13, 14];
    new[ADDRESS_A] = [15, 16, 17, 18];
    old[ADDRESS_B] = [21, 22, 23, 24];
    new[ADDRESS_C] = [31, 32, 33, 34];
    old[ADDRESS_D] = [41, 42, 43, 44];
    new[ADDRESS_D] = [41, 42, 43, 44];
    old[ADDRESS_E] = [51, 52, 53, 54];
    new[ADDRESS_E] = [51, 52, 53, 54];
    (old, new)
}

fn level(hashes: &[[u64; 4]]) -> Vec<[u64; 4]> {
    hashes.chunks(2).map(|c| hash_branch(&c[0], &c[1])).collect()
}

fn prove(circuit: &CircuitBuilder, w: &PartialWitness, indices: Indices) -> Result<Proof, GenerateError> {
    let vals = generate_witness(circuit, w, &hash)?;
    Ok(Proof { public_inputs: public_values(circuit, &vals).unwrap(), indices })
}

fn unsatisfied<T>(r: Result<T, GenerateError>) -> bool {
    matches!(r, Err(GenerateError::Unsatisfied { .. }))
}

fn leaf_indices(leaf: &LeafCircuit) -> Indices {
    Indices {
        summarized: leaf.summarized.indices,
        old: leaf.old.indices,
        new: leaf.new.indices,
        address: leaf.address.indices,
    }
}

fn branch_indices(branch: &BranchCircuit) -> Indices {
    Indices {
        summarized: branch.summarized.indices,
        old: branch.old.indices,
        new: branch.new.indices,
        address: branch.address.indices,
    }
}

fn prove_leaf(leaf: &LeafCircuit, old: [u64; 4], new: [u64; 4], address: Option<u64>) -> Result<Proof, GenerateError> {
    let mut inputs = PartialWitness::new();
    leaf.set_witness(&mut inputs, old, new, address).unwrap();
    prove(&leaf.circuit, &inputs, leaf_indices(leaf))
}

fn prove_leaf_unsafe(
    leaf: &LeafCircuit,
    old: [u64; 4],
    new: [u64; 4],
    summary: Option<[u64; 4]>,
    address: Option<u64>,
) -> Result<Proof, GenerateError> {
    let mut inputs = PartialWitness::new();
    leaf.set_witness_unsafe(&mut inputs, old, new, summary, address).unwrap();
    prove(&leaf.circuit, &inputs, leaf_indices(leaf))
}

fn prove_branch(branch: &BranchCircuit, left: &Proof, right: &Proof) -> Result<Proof, GenerateError> {
    let mut inputs = PartialWitness::new();
    branch.bounded.set_witness(&mut inputs, &left.public_inputs, &right.public_inputs).unwrap();
    branch.set_witness_unsafe(&mut inputs, None, None, None, AddressPresent::from(())).unwrap();
    prove(&branch.circuit, &inputs, branch_indices(branch))
}

fn assert_proof(proof: &Proof, old: [u64; 4], new: [u64; 4], summary_address: Option<([u64; 4], u64)>) {
    assert_eq!(proof.old_root(), old);
    assert_eq!(proof.new(), new);
    assert_eq!(proof.summary_present(), summary_address.is_some());
    assert_eq!(proof.summary(), summary_address.unwrap_or_default().0);
    assert_eq!(proof.address_present(), summary_address.is_some());
    assert_eq!(proof.address(), summary_address.map_or(NEG_ONE, |x| x.1));
}

#[test]
fn bad_leaf_create() {
    let leaf = LeafCircuit::new(0, 1);
    assert!(unsatisfied(prove_leaf(&leaf, ZERO_HASH, NON_ZERO_HASHES[0], None)));
}

#[test]
fn bad_leaf_update() {
    let leaf = LeafCircuit::new(0, 1);
    let summary = summarize(42, ZERO_HASH, NON_ZERO_HASHES[1]);
    let r = prove_leaf_unsafe(&leaf, NON_ZERO_HASHES[0], NON_ZERO_HASHES[1], Some(summary), Some(42));
    assert!(unsatisfied(r));
}

#[test]
fn bad_leaf_non_update() {
    let leaf = LeafCircuit::new(0, 1);
    let summary = summarize(42, ZERO_HASH, NON_ZERO_HASHES[0]);
    let r = prove_leaf_unsafe(&leaf, NON_ZERO_HASHES[0], NON_ZERO_HASHES[0], Some(summary), Some(42));
    assert!(unsatisfied(r));
}

#[test]
fn bad_leaf_address() {
    let leaf = LeafCircuit::new(0, 1);
    let summary = summarize(41, ZERO_HASH, NON_ZERO_HASHES[0]);
    let r = prove_leaf_unsafe(&leaf, ZERO_HASH, NON_ZERO_HASHES[0], Some(summary), Some(42));
    assert!(unsatisfied(r));
}

/// A summary that is the hash of the address and the hashes is accepted.
#[test]
fn state_update_leaf_with_its_summary() {
    let leaf = LeafCircuit::new(0, 1);
    let summary = summarize(42, ZERO_HASH, NON_ZERO_HASHES[0]);
    let proof = prove_leaf_unsafe(&leaf, ZERO_HASH, NON_ZERO_HASHES[0], Some(summary), Some(42)).unwrap();
    assert_proof(&proof, ZERO_HASH, NON_ZERO_HASHES[0], Some((summary, 42)));
}

struct Tree {
    branch_3: BranchCircuit,
    left_double: Proof,
    right_double: Proof,
}

/// Proves the leaves, the branches over them and the two halves of the
/// tree, checking each proof on the way.
fn tree() -> Tree {
    let leaf = LeafCircuit::new(0, 1);
    let branch_1 = BranchCircuit::from_leaf(&leaf, 2);
    let branch_2 = BranchCircuit::from_branch(&branch_1, 3);
    let branch_3 = BranchCircuit::from_branch(&branch_2, 4);
    assert_eq!(leaf.old.indices, branch_1.old.indices);
    assert_eq!(leaf.new.indices, branch_2.new.indices);
    assert_eq!(leaf.summarized.indices, branch_3.summarized.indices);
    assert_eq!(leaf.address.indices, branch_3.address.indices);

    let (old, new) = leaf_hashes();
    let z = zero_obj_hash();
    let summary = |a: usize| summarize(a as u64, old[a], new[a]);

    let empty = prove_leaf(&leaf, z, z, None).unwrap();
    assert_proof(&empty, z, z, None);
    let mut leaves = Vec::new();
    for a in [ADDRESS_A, ADDRESS_B, ADDRESS_C, ADDRESS_D] {
        let proof = prove_leaf(&leaf, old[a], new[a], Some(a as u64)).unwrap();
        assert_proof(&proof, old[a], new[a], Some((summary(a), a as u64)));
        leaves.push(proof);
    }
    assert_eq!(old[ADDRESS_D], new[ADDRESS_D]);
    let e_ignored = prove_leaf(&leaf, old[ADDRESS_E], new[ADDRESS_E], None).unwrap();
    assert_proof(&e_ignored, old[ADDRESS_E], new[ADDRESS_E], None);

    let old_1 = level(&old);
    let new_1 = level(&new);
    let empty_branch = prove_branch(&branch_1, &empty, &empty).unwrap();
    let empty_branch_hash = hash_branch(&z, &z);
    assert_proof(&empty_branch, empty_branch_hash, empty_branch_hash, None);
    let a_branch = prove_branch(&branch_1, &leaves[0], &empty).unwrap();
    assert_proof(
        &a_branch,
        old_1[ADDRESS_A / 2],
        new_1[ADDRESS_A / 2],
        Some((summary(ADDRESS_A), ADDRESS_A as u64 / 2)),
    );
    let bc_branch = prove_branch(&branch_1, &leaves[1], &leaves[2]).unwrap();
    let bc_summary = hash_branch(&summary(ADDRESS_B), &summary(ADDRESS_C));
    assert_proof(&bc_branch, old_1[ADDRESS_B / 2], new_1[ADDRESS_B / 2], Some((bc_summary, ADDRESS_B as u64 / 2)));
    let de_branch = prove_branch(&branch_1, &leaves[3], &e_ignored).unwrap();
    assert_proof(
        &de_branch,
        old_1[ADDRESS_D / 2],
        new_1[ADDRESS_D / 2],
        Some((summary(ADDRESS_D), ADDRESS_D as u64 / 2)),
    );

    let old_2 = level(&old_1);
    let new_2 = level(&new_1);
    let left_double = prove_branch(&branch_2, &empty_branch, &a_branch).unwrap();
    assert_proof(
        &left_double,
        old_2[ADDRESS_A / 4],
        new_2[ADDRESS_A / 4],
        Some((summary(ADDRESS_A), ADDRESS_A as u64 / 4)),
    );
    let right_double = prove_branch(&branch_2, &bc_branch, &de_branch).unwrap();
    let bcd_summary = hash_branch(&bc_summary, &summary(ADDRESS_D));
    assert_proof(&right_double, old_2[ADDRESS_B / 4], new_2[ADDRESS_B / 4], Some((bcd_summary, ADDRESS_B as u64 / 4)));
    Tree { branch_3, left_double, right_double }
}

#[test]
fn state_update_verify_root() {
    let t = tree();
    let (old, new) = leaf_hashes();
    let old_root = level(&level(&level(&old)))[0];
    let new_root = level(&level(&level(&new)))[0];
    let root = prove_branch(&t.branch_3, &t.left_double, &t.right_double).unwrap();
    let summary = |a: usize| summarize(a as u64, old[a], new[a]);
    let bcd = hash_branch(&hash_branch(&summary(ADDRESS_B), &summary(ADDRESS_C)), &summary(ADDRESS_D));
    let root_summary = hash_branch(&summary(ADDRESS_A), &bcd);
    assert_proof(&root, old_root, new_root, Some((root_summary, 0)));
}

#[test]
fn bad_root_address() {
    let t = tree();
    assert!(unsatisfied(prove_branch(&t.branch_3, &t.right_double, &t.left_double)));
}

/// Giving the leaf's values again is fine; other values are refused.
#[test]
fn state_update_leaf_witness_conflicts() {
    let leaf = LeafCircuit::new(0, 1);
    let mut inputs = PartialWitness::new();
    leaf.set_witness(&mut inputs, ZERO_HASH, NON_ZERO_HASHES[0], Some(3)).unwrap();
    assert!(leaf.set_witness(&mut inputs, ZERO_HASH, NON_ZERO_HASHES[0], Some(3)).is_ok());
    assert!(leaf.set_witness(&mut inputs, ZERO_HASH, NON_ZERO_HASHES[1], Some(3)).is_err());
    assert!(leaf.set_witness(&mut inputs, ZERO_HASH, NON_ZERO_HASHES[0], None).is_err());
}
