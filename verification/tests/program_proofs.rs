use recproofs::circuit::{CircuitBuilder, CommonCircuitData, PartialWitness, VerifierOnlyCircuitData};
use recproofs::circuits::build_event_root;
use recproofs::circuits::merge::embed::MergeCircuit;
use recproofs::circuits::merge::{BranchCircuit as MergeBranch, LeafCircuit as MergeLeaf};
use recproofs::circuits::verify_program;
use recproofs::circuits::verify_program::core_circuit::{EventRootCircuit, ProgramPublicIndices};
use recproofs::circuits::verify_tx;
use recproofs::circuits::verify_tx::core_circuit::ProgramSetCircuit;
use recproofs::field::ORDER;
use recproofs::generate::{generate_witness, public_values, GenerateError};
use recproofs::{Event, EventType};

/// A stand-in for the circuit's hash: deterministic, with field outputs.
fn hash(inputs: Vec<u64>) -> [u64; 4] {
    let mut s: [u64; 4] = [
        0x9e37_79b9_7f4a_7c15,
        0xbf58_476d_1ce4_e5b9,
        0x94d0_49bb_1331_11eb,
        inputs.len() as u64,
    ];
    for (i, x) in inputs.iter().enumerate() {
        for k in 0..4 {
            let mut z = s[k] ^ x.wrapping_add((i as u64 + 1).wrapping_mul(0x2545_f491_4f6c_dd1d));
            z = (z ^ (z >> 30)).wrapping_mul(0xbf58_476d_1ce4_e5b9);
            z = (z ^ (z >> 27)).wrapping_mul(0x94d0_49bb_1331_11eb);
            s[k] = z ^ (z >> 31) ^ (k as u64);
        }
    }
    s.map(|v| v % ORDER)
}

fn hash_branch(left: &[u64; 4], right: &[u64; 4]) -> [u64; 4] {
    hash(left.iter().chain(right.iter()).copied().collect())
}

fn hash_branch_bytes(left: &[u64; 4], right: &[u64; 4]) -> [u64; 4] {
    hash(left.iter().chain(right.iter()).flat_map(|v| v.to_le_bytes()).map(u64::from).collect())
}

type Proof = Vec<u64>;

fn prove(circuit: &CircuitBuilder, w: &PartialWitness) -> Result<Proof, GenerateError> {
    let vals = generate_witness(circuit, w, &hash)?;
    Ok(public_values(circuit, &vals).unwrap())
}

fn unsatisfied<T>(r: Result<T, GenerateError>) -> bool {
    matches!(r, Err(GenerateError::Unsatisfied { .. }))
}

const ZERO_VAL: [u64; 4] = [0; 4];
const PROGRAM_HASHES: [[u64; 4]; 3] = [[31, 41, 59, 26], [53, 58, 97, 93], [23, 84, 62, 64]];
const NON_ZERO_VALUES: [[u64; 4]; 2] = [[3, 1, 4, 15], [9, 2, 6, 5]];
const CALL_LISTS: [[u64; 4]; 2] = [[7, 7, 1, 0], [8, 1, 0, 2]];
/// The number by which the plans name the merge circuit.
const MERGE_CIRCUIT: usize = 1;
/// The number by which the plans name the program circuits.
const PROGRAM_CIRCUIT: usize = 2;
/// The number by which the plans name the event root circuit.
const EVENT_ROOT_CIRCUIT: usize = 3;
/// The number by which the plans name the merge leaf circuit.
const MERGE_LEAF: usize = 8;
/// The number by which the plans name the program leaf circuit.
const PROGRAM_LEAF: usize = 9;
/// The number by which the plans name the transaction leaf circuit.
const TX_LEAF: usize = 10;
/// The number by which the plans name the event root leaf circuit.
const EVENT_ROOT_LEAF: usize = 7;
/// The number by which the plans name the program set circuit.
const PROGRAM_SET_CIRCUIT: usize = 4;

/// Where a program proof holds its public inputs.
const PROGRAM_INDICES: ProgramPublicIndices = ProgramPublicIndices {
    program_hash: [0, 1, 2, 3],
    events_present: 4,
    event_root: [5, 6, 7, 8],
    call_list: [9, 10, 11, 12],
    cast_root: [13, 14, 15, 16],
};

/// The program identifier of a program, the "mock" program without one.
fn program_id(pid: Option<usize>) -> [u64; 4] {
    pid.map_or(ZERO_VAL, |p| PROGRAM_HASHES[p])
}

/// The root of the program identifiers of a transaction: its mock program,
/// a program of its own, then the shared program `2`.
fn cast_root(tx: usize) -> [u64; 4] {
    let first = hash_branch_bytes(&program_id(None), &program_id(Some(tx)));
    hash_branch_bytes(&first, &program_id(Some(2)))
}

fn verifier_data(pid: Option<usize>) -> VerifierOnlyCircuitData {
    let d = pid.map_or(0, |p| p as u64 + 1);
    VerifierOnlyCircuitData { constants_sigmas_cap: vec![[d, 1, 2, 3]], circuit_digest: [d, 5, 6, 7] }
}

/// The public inputs of a proof of a program.
fn program_proof(pid: Option<usize>, event_root: Option<[u64; 4]>, call_list: [u64; 4], cast_root: [u64; 4]) -> Proof {
    let mut p = program_id(pid).to_vec();
    p.push(event_root.is_some() as u64);
    p.extend(event_root.unwrap_or_default());
    p.extend(call_list);
    p.extend(cast_root);
    p
}

/// A proof of the events of a program, with its two hashes.
struct Events {
    proof: Proof,
    hash: [u64; 4],
    vm_hash: [u64; 4],
}

struct Merge {
    leaf: MergeLeaf,
    branch: MergeBranch,
}

impl Merge {
    fn leaf(&self, a: Option<[u64; 4]>, b: Option<[u64; 4]>) -> Proof {
        let mut inputs = PartialWitness::new();
        self.leaf.set_witness(&mut inputs, a, b).unwrap();
        self.leaf.unbounded.set_witness(&mut inputs, &verifier_data(None)).unwrap();
        prove(&self.leaf.circuit, &inputs).unwrap()
    }

    /// The proof that `a` and `b` merge.
    fn merge(&self, a: [u64; 4], b: Option<[u64; 4]>) -> Proof {
        let left = self.leaf(Some(a), None);
        let right = self.leaf(None, b);
        let mut inputs = PartialWitness::new();
        self.branch.set_witness(&mut inputs, true, &left, true, &right).unwrap();
        prove(&self.branch.circuit, &inputs).unwrap()
    }

    fn circuit(&self) -> MergeCircuit {
        MergeCircuit {
            indices: self.branch.merge.indices,
            num_public_inputs: self.branch.circuit.num_public_inputs(),
            circuit: MERGE_CIRCUIT,
            cap_height: 0,
        }
    }
}

struct Fixture {
    event_leaf: build_event_root::LeafCircuit,
    event_branch: build_event_root::BranchCircuit,
    merge: Merge,
    leaf: verify_program::LeafCircuit,
    branch: verify_program::BranchCircuit,
}

impl Fixture {
    fn new() -> Self {
        let event_leaf = build_event_root::LeafCircuit::new(0, EVENT_ROOT_LEAF);
        let event_branch = build_event_root::BranchCircuit::new(&event_leaf);
        assert_eq!(event_leaf.circuit.num_public_inputs(), event_branch.circuit.num_public_inputs());
        let merge_leaf = MergeLeaf::new(0, MERGE_LEAF);
        let merge_branch = MergeBranch::new(&merge_leaf);
        let merge = Merge { leaf: merge_leaf, branch: merge_branch };
        let common = CommonCircuitData { num_public_inputs: 17, cap_height: 0, id: PROGRAM_CIRCUIT };
        let event_root = EventRootCircuit {
            event_owner: event_leaf.event_owner.indices,
            hash: event_leaf.hash.indices,
            vm_hash: event_leaf.vm_hash.indices,
            common: CommonCircuitData {
                num_public_inputs: event_branch.circuit.num_public_inputs(),
                cap_height: 0,
                id: EVENT_ROOT_CIRCUIT,
            },
        };
        let leaf = verify_program::LeafCircuit::new(&PROGRAM_INDICES, &common, &event_root, 0, PROGRAM_LEAF);
        let branch = verify_program::BranchCircuit::new(&merge.circuit(), &leaf);
        assert_eq!(leaf.events.indices, branch.events.indices);
        assert_eq!(leaf.program_id.indices, branch.program_id.indices);
        Fixture { event_leaf, event_branch, merge, leaf, branch }
    }

    /// Proves the root of two events of one owner.
    fn events(&self, a: Event, b: Event) -> Events {
        let leaf = |e: Event| {
            let mut inputs = PartialWitness::new();
            self.event_leaf.set_witness(&mut inputs, e).unwrap();
            self.event_leaf.unbounded.set_witness(&mut inputs, &verifier_data(None)).unwrap();
            prove(&self.event_leaf.circuit, &inputs).unwrap()
        };
        let (left, right) = (leaf(a), leaf(b));
        let mut inputs = PartialWitness::new();
        self.event_branch.unbounded.set_witness(&mut inputs, true, &left, true, &right).unwrap();
        self.event_branch.set_witness(&mut inputs, false).unwrap();
        let proof = prove(&self.event_branch.circuit, &inputs).unwrap();
        let root = self.event_leaf.hash.indices.unpruned_hash.get_field(&proof);
        let vm_root = self.event_leaf.vm_hash.indices.unpruned_hash.get_field(&proof);
        assert_eq!(root, hash_branch(&hash(a.bytes()), &hash(b.bytes())));
        Events { proof, hash: root, vm_hash: vm_root }
    }

    fn leaf_with(
        &self,
        events: &Proof,
        vm_hash: [u64; 4],
        program: Option<usize>,
        verifier: Option<usize>,
        call_list: [u64; 4],
        cast_root: [u64; 4],
    ) -> Result<Proof, GenerateError> {
        let pp = program_proof(program, Some(vm_hash), call_list, cast_root);
        let mut inputs = PartialWitness::new();
        self.leaf.set_witness(&mut inputs, &verifier_data(verifier), &pp, events).unwrap();
        self.leaf.unbounded.set_witness(&mut inputs, &verifier_data(None)).unwrap();
        prove(&self.leaf.circuit, &inputs)
    }

    fn leaf(&self, events: &Events, program: Option<usize>, tx: usize) -> Proof {
        let proof = self
            .leaf_with(&events.proof, events.vm_hash, program, program, CALL_LISTS[tx], cast_root(tx))
            .unwrap();
        self.assert_value(&proof, Some(events.hash), program_id(program));
        proof
    }

    /// Proves a branch over the children, each with whether it is a leaf
    /// proof.
    fn branch(&self, merge: &Proof, left: (&Proof, bool), right: Option<(&Proof, bool)>) -> Result<Proof, GenerateError> {
        let mut inputs = PartialWitness::new();
        let right_is_leaf = right.map_or(left.1, |r| r.1);
        self.branch
            .set_witness(&mut inputs, merge, left.1, left.0, right_is_leaf, right.map(|v| v.0.as_slice()))
            .unwrap();
        prove(&self.branch.circuit, &inputs)
    }

    fn assert_value(&self, proof: &Proof, events: Option<[u64; 4]>, pid: [u64; 4]) {
        let indices = &self.leaf.events.indices;
        assert_eq!(indices.hash_present.get_field(proof), events.is_some());
        assert_eq!(indices.hash.get_field(proof), events.unwrap_or_default());
        assert_eq!(self.leaf.program_id.indices.unpruned_hash.get_field(proof), pid);
    }

    fn events_hash(&self, proof: &Proof) -> [u64; 4] {
        self.leaf.events.indices.hash.get_field(proof)
    }
}

fn event(owner: Option<usize>, address: u64, ty: EventType, value: [u64; 4]) -> Event {
    Event { address, owner: program_id(owner), ty, value }
}

/// The events of each program in each transaction.
struct TxEvents {
    pm: Events,
    p: Events,
    p2: Events,
}

fn tx_events(f: &Fixture, tx: usize) -> TxEvents {
    let p = Some(tx);
    let base = 10 * tx as u64;
    TxEvents {
        pm: f.events(
            event(None, base + 5, EventType::CreditDelta, [300, 0, 0, 0]),
            event(None, base + 5, EventType::GiveOwner, PROGRAM_HASHES[2]),
        ),
        p: f.events(
            event(p, base + 2, EventType::Write, NON_ZERO_VALUES[1]),
            event(p, base + 2, EventType::CreditDelta, [300, 0, 0, 1]),
        ),
        p2: f.events(
            event(Some(2), base + 2, EventType::Read, ZERO_VAL),
            event(Some(2), base + 6, EventType::Ensure, NON_ZERO_VALUES[0]),
        ),
    }
}

/// The proofs of one transaction: the leaves, the branch of the mock
/// program and the transaction's own, and the branch of the transaction.
struct Tx {
    events: TxEvents,
    pm_leaf: Proof,
    p_leaf: Proof,
    p2_leaf: Proof,
    pm_p_branch: Proof,
    branch: Proof,
}

fn tx(f: &Fixture, tx: usize) -> Tx {
    let events = tx_events(f, tx);
    let pm_leaf = f.leaf(&events.pm, None, tx);
    let p_leaf = f.leaf(&events.p, Some(tx), tx);
    let p2_leaf = f.leaf(&events.p2, Some(2), tx);

    let pm_p_hash = hash_branch(&events.pm.hash, &events.p.hash);
    let merge = f.merge.merge(events.pm.hash, Some(events.p.hash));
    let pm_p_branch = f.branch(&merge, (&pm_leaf, true), Some((&p_leaf, true))).unwrap();
    let pm_p_cast = hash_branch_bytes(&program_id(None), &program_id(Some(tx)));
    f.assert_value(&pm_p_branch, Some(pm_p_hash), pm_p_cast);

    let merge = f.merge.merge(pm_p_hash, Some(events.p2.hash));
    let branch = f.branch(&merge, (&pm_p_branch, false), Some((&p2_leaf, true))).unwrap();
    f.assert_value(&branch, Some(hash_branch(&pm_p_hash, &events.p2.hash)), cast_root(tx));
    Tx { events, pm_leaf, p_leaf, p2_leaf, pm_p_branch, branch }
}

#[test]
fn verify_partial_branch_1() {
    let f = Fixture::new();
    let t1 = tx(&f, 1);
    let merge = f.merge.merge(t1.events.p2.hash, None);
    let proof = f.branch(&merge, (&t1.p2_leaf, true), None).unwrap();
    f.assert_value(&proof, Some(t1.events.p2.hash), PROGRAM_HASHES[2]);
}

#[test]
fn verify_partial_branch_2() {
    let f = Fixture::new();
    let t1 = tx(&f, 1);
    let pm_p_hash = f.events_hash(&t1.pm_p_branch);
    let merge = f.merge.merge(pm_p_hash, None);
    let proof = f.branch(&merge, (&t1.pm_p_branch, false), None).unwrap();
    let pm_p_cast = hash_branch_bytes(&program_id(None), &program_id(Some(1)));
    f.assert_value(&proof, Some(pm_p_hash), pm_p_cast);
}

#[test]
fn bad_branch_hash_merge_1() {
    let f = Fixture::new();
    let t0 = tx(&f, 0);
    let merge = f.merge.merge(t0.events.pm.hash, Some(t0.events.p.hash));
    assert!(unsatisfied(f.branch(&merge, (&t0.p_leaf, true), Some((&t0.pm_leaf, true)))));
}

#[test]
fn bad_branch_hash_merge_2() {
    let f = Fixture::new();
    let t0 = tx(&f, 0);
    let pm_p_hash = f.events_hash(&t0.pm_p_branch);
    let merge = f.merge.merge(pm_p_hash, Some(t0.events.p2.hash));
    assert!(unsatisfied(f.branch(&merge, (&t0.p2_leaf, true), Some((&t0.pm_p_branch, false)))));
}

#[test]
fn bad_branch_call_list() {
    let f = Fixture::new();
    let t0 = tx(&f, 0);
    let bad_call = f
        .leaf_with(&t0.events.pm.proof, t0.events.pm.vm_hash, None, None, NON_ZERO_VALUES[0], cast_root(0))
        .unwrap();
    let merge = f.merge.merge(t0.events.pm.hash, Some(t0.events.p.hash));
    assert!(unsatisfied(f.branch(&merge, (&bad_call, true), Some((&t0.p_leaf, true)))));
}

#[test]
fn bad_leaf_wrong_events_1() {
    let f = Fixture::new();
    let (t0, t1) = (tx_events(&f, 0), tx_events(&f, 1));
    let r = f.leaf_with(&t0.pm.proof, t1.pm.vm_hash, None, None, CALL_LISTS[0], cast_root(0));
    assert!(unsatisfied(r));
}

#[test]
fn bad_leaf_wrong_events_2() {
    let f = Fixture::new();
    let t0 = tx_events(&f, 0);
    let r = f.leaf_with(&t0.pm.proof, t0.p2.vm_hash, None, None, CALL_LISTS[0], cast_root(0));
    assert!(unsatisfied(r));
}

#[test]
fn bad_leaf_wrong_events_3() {
    let f = Fixture::new();
    let (t0, t1) = (tx_events(&f, 0), tx_events(&f, 1));
    // The events' own hash, with another transaction's vm hash.
    let r = f.leaf_with(&t0.pm.proof, t1.pm.vm_hash, None, None, CALL_LISTS[0], cast_root(0));
    assert!(unsatisfied(r));
    assert_ne!(t0.pm.hash, t1.pm.hash);
}

#[test]
fn bad_leaf_wrong_events_4() {
    let f = Fixture::new();
    let (t0, t1) = (tx_events(&f, 0), tx_events(&f, 1));
    // The proof is made, but its events are those of the proof it verifies,
    // not the other transaction's.
    let proof = f.leaf_with(&t0.pm.proof, t0.pm.vm_hash, None, None, CALL_LISTS[0], cast_root(0)).unwrap();
    assert_eq!(f.events_hash(&proof), t0.pm.hash);
    assert_ne!(f.events_hash(&proof), t1.pm.hash);
}

// The transactions.

fn program_set(f: &Fixture) -> ProgramSetCircuit {
    ProgramSetCircuit {
        events: f.branch.events.indices,
        cast_root: f.branch.cast_root.indices,
        program_id: f.branch.program_id.indices,
        common: CommonCircuitData {
            num_public_inputs: f.branch.circuit.num_public_inputs(),
            cap_height: 0,
            id: PROGRAM_SET_CIRCUIT,
        },
    }
}

fn assert_tx(proof: &verify_tx::Proof, events: Option<[u64; 4]>) {
    assert_eq!(proof.events_present(), events.is_some());
    assert_eq!(proof.events(), events.unwrap_or_default());
}

#[test]
fn verify_partial_branch() {
    let f = Fixture::new();
    let leaf = verify_tx::LeafCircuit::new(&program_set(&f), 0, TX_LEAF);
    let branch = verify_tx::BranchCircuit::new(&f.merge.circuit(), &leaf);
    assert_eq!(leaf.events.indices, branch.events.indices);

    let mut tx_leaves = Vec::new();
    let mut tx_hashes = Vec::new();
    for t in [0, 1] {
        let t = tx(&f, t);
        let mut inputs = PartialWitness::new();
        leaf.set_witness(&mut inputs, &t.branch).unwrap();
        leaf.unbounded.set_witness(&mut inputs, &verifier_data(None)).unwrap();
        let public_inputs = prove(&leaf.circuit, &inputs).unwrap();
        let proof = verify_tx::Proof { public_inputs, indices: leaf.indices() };
        let hash = f.events_hash(&t.branch);
        assert_tx(&proof, Some(hash));
        tx_leaves.push(proof);
        tx_hashes.push(hash);
    }

    let both = f.merge.merge(tx_hashes[0], Some(tx_hashes[1]));
    let mut inputs = PartialWitness::new();
    branch
        .set_witness(&mut inputs, &both, true, &tx_leaves[0].public_inputs, true, Some(tx_leaves[1].public_inputs.as_slice()))
        .unwrap();
    let public_inputs = prove(&branch.circuit, &inputs).unwrap();
    let proof = verify_tx::Proof { public_inputs, indices: branch.indices() };
    assert_tx(&proof, Some(hash_branch(&tx_hashes[0], &tx_hashes[1])));

    let one = f.merge.merge(tx_hashes[1], None);
    let mut inputs = PartialWitness::new();
    branch.set_witness(&mut inputs, &one, true, &tx_leaves[1].public_inputs, true, None).unwrap();
    let public_inputs = prove(&branch.circuit, &inputs).unwrap();
    let proof = verify_tx::Proof { public_inputs, indices: branch.indices() };
    assert_tx(&proof, Some(tx_hashes[1]));
}

/// A transaction whose cast list root is not the root of its program
/// identifiers is refused.
#[test]
fn verify_tx_leaf_needs_the_cast_root() {
    let f = Fixture::new();
    let leaf = verify_tx::LeafCircuit::new(&program_set(&f), 0, TX_LEAF);
    let events = tx_events(&f, 0);
    let bad_cast = NON_ZERO_VALUES[1];
    let pm = f.leaf_with(&events.pm.proof, events.pm.vm_hash, None, None, CALL_LISTS[0], bad_cast).unwrap();
    let mut inputs = PartialWitness::new();
    leaf.set_witness(&mut inputs, &pm).unwrap();
    leaf.unbounded.set_witness(&mut inputs, &verifier_data(None)).unwrap();
    assert!(unsatisfied(prove(&leaf.circuit, &inputs)));
}
