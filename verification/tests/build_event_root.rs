use recproofs::circuit::{CircuitBuilder, PartialWitness, VerifierOnlyCircuitData};
use recproofs::circuits::build_event_root::{BranchCircuit, Indices, LeafCircuit, Proof};
use recproofs::field::ORDER;
use recproofs::generate::{generate_witness, public_values, GenerateError};
use recproofs::{Event, EventType};

/// The number by which the plans name the event root leaf circuit.
const EVENT_LEAF: usize = 1;

/// The verifier data of the event root branch circuit, which every proof of
/// the tree carries: a cap of one digest.
fn branch_verifier() -> VerifierOnlyCircuitData {
    VerifierOnlyCircuitData { constants_sigmas_cap: vec![[11, 12, 13, 14]], circuit_digest: [1, 2, 3, 4] }
}

/// A stand-in for the circuit's hash: deterministic, with field outputs.
fn hash(inputs: Vec<u64>) -> [u64; 4] {
    let mut s: [u64; 4] = [
        0x9e37_79b9_7f4a_7c15,
        0xbf58_476d_1ce4_e5b9,
        0x94d0_49bb_1331_11eb,
        inputs.len() as u64,
    ];
    for (i, x) in inputs.iter().enumerate() {
        for k in 0..4 {
            let mut z = s[k] ^ x.wrapping_add((i as u64 + 1).wrapping_mul(0x2545_f491_4f6c_dd1d));
            z = (z ^ (z >> 30)).wrapping_mul(0xbf58_476d_1ce4_e5b9);
            z = (z ^ (z >> 27)).wrapping_mul(0x94d0_49bb_1331_11eb);
            s[k] = z ^ (z >> 31) ^ (k as u64);
        }
    }
    s.map(|v| v % ORDER)
}

fn hash_branch(left: &[u64; 4], right: &[u64; 4]) -> [u64; 4] {
    hash(left.iter().chain(right.iter()).copied().collect())
}

fn hash_branch_bytes(left: &[u64; 4], right: &[u64; 4]) -> [u64; 4] {
    hash(left.iter().chain(right.iter()).flat_map(|v| v.to_le_bytes()).map(u64::from).collect())
}

fn event_hash(e: Event) -> [u64; 4] {
    hash(e.bytes())
}

fn event_byte_wise_hash(e: Event) -> [u64; 4] {
    hash(e.byte_wise_bytes())
}

const PROGRAM_HASH_1: [u64; 4] = [4, 8, 15, 16];
const PROGRAM_HASH_2: [u64; 4] = [2, 3, 4, 2];
const ZERO_VAL: [u64; 4] = [0; 4];

fn read(owner: [u64; 4]) -> Event {
    Event { address: 42, owner, ty: EventType::Read, value: ZERO_VAL }
}

fn prove(circuit: &CircuitBuilder, w: &PartialWitness, indices: Indices) -> Result<Proof, GenerateError> {
    let vals = generate_witness(circuit, w, &hash)?;
    Ok(Proof { public_inputs: public_values(circuit, &vals).unwrap(), indices })
}

fn unsatisfied<T>(r: Result<T, GenerateError>) -> bool {
    matches!(r, Err(GenerateError::Unsatisfied { .. }))
}

struct Circuits {
    leaf: LeafCircuit,
    branch: BranchCircuit,
}

impl Circuits {
    fn new() -> Self {
        let leaf = LeafCircuit::new(0, EVENT_LEAF);
        let branch = BranchCircuit::new(&leaf);
        assert_eq!(leaf.hash.indices, branch.hash.indices);
        assert_eq!(leaf.vm_hash.indices, branch.vm_hash.indices);
        Circuits { leaf, branch }
    }

    fn indices(&self) -> Indices {
        Indices {
            hash: self.leaf.hash.indices,
            vm_hash: self.leaf.vm_hash.indices,
            event_owner: self.leaf.event_owner.indices,
        }
    }

    fn leaf_unsafe(&self, event: Event, h: Option<[u64; 4]>, vm: Option<[u64; 4]>) -> Result<Proof, GenerateError> {
        let mut inputs = PartialWitness::new();
        self.leaf.set_witness_unsafe(&mut inputs, event, h, vm).unwrap();
        self.leaf.unbounded.set_witness(&mut inputs, &branch_verifier()).unwrap();
        prove(&self.leaf.circuit, &inputs, self.indices())
    }

    fn leaf(&self, event: Event) -> Proof {
        let proof = self.leaf_unsafe(event, None, None).unwrap();
        assert_eq!(proof.hash(), event_hash(event));
        assert_eq!(proof.vm_hash(), event_byte_wise_hash(event));
        assert_eq!(proof.event_owner(), event.owner);
        proof
    }

    /// The children, each with whether it is a leaf proof; an absent right
    /// child is the left one again.
    fn branch_witness(&self, left: (&Proof, bool), right: Option<(&Proof, bool)>) -> PartialWitness {
        let mut inputs = PartialWitness::new();
        let (right, right_is_leaf) = right.unwrap_or(left);
        self.branch
            .unbounded
            .set_witness(&mut inputs, left.1, &left.0.public_inputs, right_is_leaf, &right.public_inputs)
            .unwrap();
        inputs
    }

    fn branch(&self, left: (&Proof, bool), right: Option<(&Proof, bool)>) -> Result<Proof, GenerateError> {
        let mut inputs = self.branch_witness(left, right);
        self.branch.set_witness(&mut inputs, right.is_none()).unwrap();
        prove(&self.branch.circuit, &inputs, self.indices())
    }
}

#[test]
fn event_root_branch_hashes_its_children() {
    let c = Circuits::new();
    let write = Event { address: 7, owner: PROGRAM_HASH_1, ty: EventType::Write, value: [3, 1, 4, 15] };
    let credit = Event { address: 7, owner: PROGRAM_HASH_1, ty: EventType::CreditDelta, value: [300, 0, 0, 1] };
    let left = c.leaf(write);
    let right = c.leaf(credit);
    let proof = c.branch((&left, true), Some((&right, true))).unwrap();
    assert_eq!(proof.hash(), hash_branch(&left.hash(), &right.hash()));
    assert_eq!(proof.vm_hash(), hash_branch_bytes(&left.vm_hash(), &right.vm_hash()));
    assert_eq!(proof.event_owner(), PROGRAM_HASH_1);
    // A partial branch passes its one child's hashes on.
    let partial = c.branch((&proof, false), None).unwrap();
    assert_eq!(partial.hash(), proof.hash());
    assert_eq!(partial.vm_hash(), proof.vm_hash());
}

/// The hashes of the children, given as they are, are accepted.
#[test]
fn event_root_branch_with_its_hashes() {
    let c = Circuits::new();
    let left = c.leaf(read(PROGRAM_HASH_1));
    let right = c.leaf(Event { address: 43, ..read(PROGRAM_HASH_1) });
    let mut inputs = c.branch_witness((&left, true), Some((&right, true)));
    let h = hash_branch(&left.hash(), &right.hash());
    let vm = hash_branch_bytes(&left.vm_hash(), &right.vm_hash());
    c.branch.set_witness_unsafe(&mut inputs, false, h, vm, None).unwrap();
    let proof = prove(&c.branch.circuit, &inputs, c.indices()).unwrap();
    assert_eq!(proof.hash(), h);
    assert_eq!(proof.event_owner(), PROGRAM_HASH_1);
}

#[test]
fn build_event_root_bad_leaf_hash() {
    let c = Circuits::new();
    let read_0 = read(PROGRAM_HASH_1);
    let read_1 = read(PROGRAM_HASH_2);
    let r = c.leaf_unsafe(read_1, Some(event_hash(read_0)), Some(event_byte_wise_hash(read_0)));
    assert!(unsatisfied(r));
    // The hashes of the event itself are accepted.
    c.leaf_unsafe(read_1, Some(event_hash(read_1)), Some(event_byte_wise_hash(read_1))).unwrap();
}

#[test]
fn bad_program_match() {
    let c = Circuits::new();
    let read_0 = read(PROGRAM_HASH_1);
    let read_1 = read(PROGRAM_HASH_2);
    let read_proof_1 = c.leaf(read_0);
    let read_proof_2 = c.leaf(read_1);
    let branch_1_hash = hash_branch(&event_hash(read_0), &event_hash(read_1));
    let branch_1_bytes_hash = hash_branch_bytes(&event_byte_wise_hash(read_0), &event_byte_wise_hash(read_1));

    let mut inputs = c.branch_witness((&read_proof_1, true), Some((&read_proof_2, true)));
    c.branch
        .set_witness_unsafe(&mut inputs, false, branch_1_hash, branch_1_bytes_hash, Some(PROGRAM_HASH_1))
        .unwrap();
    assert!(unsatisfied(prove(&c.branch.circuit, &inputs, c.indices())));
}
