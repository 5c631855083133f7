use recproofs::circuit::{CircuitBuilder, CommonCircuitData, PartialWitness, VerifierOnlyCircuitData};
use recproofs::circuits::accumulate_delta::core_circuit::PublicIndices as PartialIndices;
use recproofs::circuits::match_delta::{
    AccumulateDeltaCircuit, BranchCircuit, Indices, LeafCircuit, LeafWitnessValue, Proof,
};
use recproofs::event::FlagSet;
use recproofs::field::ORDER;
use recproofs::generate::{generate_witness, public_values, GenerateError};
use recproofs::indices::{ArrayTargetIndex, HashOutTargetIndex, TargetIndex};
use recproofs::subcircuits::unpruned;
use recproofs::EventFlags;

/// The number by which the plans name the match leaf circuit.
const MATCH_LEAF: usize = 2;

/// The verifier data of the match branch circuit, which every proof of the
/// tree carries: a cap of one digest.
fn branch_verifier() -> VerifierOnlyCircuitData {
    VerifierOnlyCircuitData { constants_sigmas_cap: vec![[11, 12, 13, 14]], circuit_digest: [1, 2, 3, 4] }
}

/// A stand-in for the circuit's hash: deterministic, with field outputs.
fn hash(inputs: Vec<u64>) -> [u64; 4] {
    let mut s: [u64; 4] = [
        0x9e37_79b9_7f4a_7c15,
        0xbf58_476d_1ce4_e5b9,
        0x94d0_49bb_1331_11eb,
        inputs.len() as u64,
    ];
    for (i, x) in inputs.iter().enumerate() {
        for k in 0..4 {
            let mut z = s[k] ^ x.wrapping_add((i as u64 + 1).wrapping_mul(0x2545_f491_4f6c_dd1d));
            z = (z ^ (z >> 30)).wrapping_mul(0xbf58_476d_1ce4_e5b9);
            z = (z ^ (z >> 27)).wrapping_mul(0x94d0_49bb_1331_11eb);
            s[k] = z ^ (z >> 31) ^ (k as u64);
        }
    }
    s.map(|v| v % ORDER)
}

fn hash_branch(left: &[u64; 4], right: &[u64; 4]) -> [u64; 4] {
    hash(left.iter().chain(right.iter()).copied().collect())
}

fn prove(circuit: &CircuitBuilder, w: &PartialWitness, indices: Indices) -> Result<Proof, GenerateError> {
    let vals = generate_witness(circuit, w, &hash)?;
    Ok(Proof { public_inputs: public_values(circuit, &vals).unwrap(), indices })
}

fn unsatisfied<T>(r: Result<T, GenerateError>) -> bool {
    matches!(r, Err(GenerateError::Unsatisfied { .. }))
}

fn flags(fs: &[EventFlags]) -> FlagSet {
    fs.iter().fold(FlagSet::empty(), |s, f| s.union(FlagSet::of(*f)))
}

const ZERO_VAL: [u64; 4] = [0; 4];
const PROGRAM_HASHES: [[u64; 4]; 3] = [[31, 41, 59, 26], [53, 58, 97, 93], [23, 84, 62, 64]];
const NON_ZERO_VALUES: [[u64; 4]; 3] = [[3, 1, 4, 15], [9, 2, 6, 5], [3, 5, 8, 9]];
/// The number by which the plans name the accumulation circuit.
const ACCUMULATE_CIRCUIT: usize = 3;

fn array_index(start: usize) -> ArrayTargetIndex<TargetIndex, 4> {
    ArrayTargetIndex([TargetIndex(start), TargetIndex(start + 1), TargetIndex(start + 2), TargetIndex(start + 3)])
}

/// Proofs of accumulated events: the event hash at 0 to 3, then the partial
/// object: address, flags, owners, data and the credit delta.
fn accumulate_circuit() -> AccumulateDeltaCircuit {
    AccumulateDeltaCircuit {
        event_hash: unpruned::PublicIndices { unpruned_hash: HashOutTargetIndex(array_index(0)) },
        partial_state: PartialIndices {
            address: TargetIndex(4),
            object_flags: TargetIndex(5),
            old_owner: array_index(6),
            new_owner: array_index(10),
            old_data: array_index(14),
            new_data: array_index(18),
            credit_delta: TargetIndex(22),
        },
        common: CommonCircuitData { num_public_inputs: 23, cap_height: 0, id: ACCUMULATE_CIRCUIT },
    }
}

/// One object's events and the update of its state.
struct Object {
    address: u64,
    events: [u64; 4],
    flags: FlagSet,
    v: LeafWitnessValue,
}

impl Object {
    /// The public inputs of the proof of the object's events.
    fn accumulated(&self) -> Vec<u64> {
        let delta = (self.v.new_credits + ORDER - self.v.old_credits) % ORDER;
        let mut p = self.events.to_vec();
        p.push(self.address);
        p.push(self.flags.bits as u64);
        p.extend(self.v.old_owner);
        p.extend(self.v.new_owner);
        p.extend(self.v.old_data);
        p.extend(self.v.new_data);
        p.push(delta);
        p
    }

    /// The summary of the state update of the object.
    fn summary(&self) -> [u64; 4] {
        let v = &self.v;
        let deleted = v.new_owner == ZERO_VAL;
        let updated = self.flags.intersects(flags(&[EventFlags::GiveOwnerFlag, EventFlags::WriteFlag]))
            || v.old_credits != v.new_credits;
        let new_last_updated = if deleted { 0 } else if updated { v.block_height } else { v.last_updated };
        let old = hash(v.old_owner.iter().copied().chain([v.last_updated, v.old_credits]).chain(v.old_data).collect());
        let new = hash(v.new_owner.iter().copied().chain([new_last_updated, v.new_credits]).chain(v.new_data).collect());
        hash([self.address].into_iter().chain(old).chain(new).collect())
    }
}

fn objects() -> [Object; 4] {
    let owner_change = flags(&[EventFlags::GiveOwnerFlag, EventFlags::TakeOwnerFlag, EventFlags::WriteFlag]);
    let base = LeafWitnessValue {
        block_height: 1,
        last_updated: 0,
        old_owner: ZERO_VAL,
        new_owner: ZERO_VAL,
        old_data: ZERO_VAL,
        new_data: ZERO_VAL,
        old_credits: 0,
        new_credits: 0,
    };
    [
        // A is written.
        Object {
            address: 2,
            events: [101, 102, 103, 104],
            flags: FlagSet::of(EventFlags::WriteFlag),
            v: LeafWitnessValue {
                old_owner: PROGRAM_HASHES[0],
                new_owner: PROGRAM_HASHES[0],
                old_data: NON_ZERO_VALUES[0],
                new_data: NON_ZERO_VALUES[1],
                old_credits: 50,
                new_credits: 50,
                ..base
            },
        },
        // B is deleted.
        Object {
            address: 4,
            events: [201, 202, 203, 204],
            flags: owner_change,
            v: LeafWitnessValue {
                old_owner: PROGRAM_HASHES[1],
                old_data: NON_ZERO_VALUES[2],
                old_credits: 100,
                ..base
            },
        },
        // C is created.
        Object {
            address: 5,
            events: [301, 302, 303, 304],
            flags: owner_change,
            v: LeafWitnessValue {
                new_owner: PROGRAM_HASHES[2],
                new_data: NON_ZERO_VALUES[0],
                new_credits: 300,
                ..base
            },
        },
        // D is read.
        Object {
            address: 6,
            events: [401, 402, 403, 404],
            flags: flags(&[EventFlags::ReadFlag, EventFlags::EnsureFlag]),
            v: LeafWitnessValue {
                old_owner: PROGRAM_HASHES[2],
                new_owner: PROGRAM_HASHES[2],
                old_data: NON_ZERO_VALUES[1],
                new_data: NON_ZERO_VALUES[1],
                old_credits: 7,
                new_credits: 7,
                ..base
            },
        },
    ]
}

struct Circuits {
    leaf: LeafCircuit,
    branch: BranchCircuit,
}

impl Circuits {
    fn new() -> Self {
        let leaf = LeafCircuit::new(&accumulate_circuit(), 0, MATCH_LEAF);
        let branch = BranchCircuit::new(&leaf);
        assert_eq!(leaf.event_hash.indices, branch.event_hash.indices);
        assert_eq!(leaf.state_hash.indices, branch.state_hash.indices);
        assert_eq!(leaf.block_height.indices, branch.block_height.indices);
        Circuits { leaf, branch }
    }

    fn indices(&self) -> Indices {
        Indices {
            event_hash: self.leaf.event_hash.indices,
            state_hash: self.leaf.state_hash.indices,
            compare_delta: self.leaf.compare_delta.indices,
            block_height: self.leaf.block_height.indices,
        }
    }

    fn leaf_with(&self, accumulated: &[u64], v: LeafWitnessValue) -> Result<Proof, GenerateError> {
        let mut inputs = PartialWitness::new();
        inputs.set_proof_with_pis_target(&self.leaf.targets.accumulate_event, accumulated).unwrap();
        self.leaf.set_witness(&mut inputs, v).unwrap();
        self.leaf.unbounded.set_witness(&mut inputs, &branch_verifier()).unwrap();
        prove(&self.leaf.circuit, &inputs, self.indices())
    }

    fn leaf(&self, o: &Object) -> Proof {
        let proof = self.leaf_with(&o.accumulated(), o.v).unwrap();
        assert_proof(&proof, 1, o.events, o.summary());
        proof
    }

    /// Proves a branch over the children, each with whether it is a leaf
    /// proof; an absent right child is the left one again.
    fn branch(&self, left: (&Proof, bool), right: Option<(&Proof, bool)>) -> Result<Proof, GenerateError> {
        let partial = right.is_none();
        let (right, right_is_leaf) = right.unwrap_or(left);
        let mut inputs = PartialWitness::new();
        self.branch
            .unbounded
            .set_witness(&mut inputs, left.1, &left.0.public_inputs, right_is_leaf, &right.public_inputs)
            .unwrap();
        self.branch.set_witness(&mut inputs, partial).unwrap();
        prove(&self.branch.circuit, &inputs, self.indices())
    }
}

fn assert_proof(proof: &Proof, block_height: u64, event_hash: [u64; 4], state_hash: [u64; 4]) {
    assert_eq!(proof.block_height(), block_height);
    assert_eq!(proof.events(), event_hash);
    assert_eq!(proof.state_hash(), state_hash);
}

#[test]
fn verify_branch_one_abcd() {
    let c = Circuits::new();
    let [a, b, cc, d] = objects();
    let (a_leaf, b_leaf, c_leaf, d_leaf) = (c.leaf(&a), c.leaf(&b), c.leaf(&cc), c.leaf(&d));

    let bc = c.branch((&b_leaf, true), Some((&c_leaf, true))).unwrap();
    let bc_events = hash_branch(&b.events, &cc.events);
    let bc_summary = hash_branch(&b.summary(), &cc.summary());
    assert_proof(&bc, 1, bc_events, bc_summary);

    let bcd = c.branch((&bc, false), Some((&d_leaf, true))).unwrap();
    let bcd_events = hash_branch(&bc_events, &d.events);
    let bcd_summary = hash_branch(&bc_summary, &d.summary());
    assert_proof(&bcd, 1, bcd_events, bcd_summary);

    let abcd = c.branch((&a_leaf, true), Some((&bcd, false))).unwrap();
    let root_events = hash_branch(&a.events, &bcd_events);
    let root_summary = hash_branch(&a.summary(), &bcd_summary);
    assert_proof(&abcd, 1, root_events, root_summary);

    let one = c.branch((&abcd, false), None).unwrap();
    assert_proof(&one, 1, root_events, root_summary);
}

/// A state update that is not what the events accumulate to is refused:
/// another credit change, other data written.
#[test]
fn match_leaf_needs_the_accumulated_delta() {
    let c = Circuits::new();
    let [a, _, _, _] = objects();
    let more_credits = LeafWitnessValue { new_credits: 60, ..a.v };
    assert!(unsatisfied(c.leaf_with(&a.accumulated(), more_credits)));
    let other_data = LeafWitnessValue { new_data: NON_ZERO_VALUES[2], ..a.v };
    assert!(unsatisfied(c.leaf_with(&a.accumulated(), other_data)));
}

/// Children of different block heights are refused.
#[test]
fn match_branch_needs_one_height() {
    let c = Circuits::new();
    let [a, b, _, _] = objects();
    let a_leaf = c.leaf(&a);
    let later = Object { v: LeafWitnessValue { block_height: 2, ..b.v }, ..b };
    let b_leaf = c.leaf_with(&later.accumulated(), later.v).unwrap();
    assert!(unsatisfied(c.branch((&a_leaf, true), Some((&b_leaf, true)))));
}
