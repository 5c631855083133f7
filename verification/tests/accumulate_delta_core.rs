use recproofs::circuit::{CircuitBuilder, PartialWitness, ProofWithPublicInputsTarget};
use recproofs::circuits::accumulate_delta::core_circuit;
use recproofs::circuits::accumulate_delta::core_circuit::{
    BranchSubCircuit, BranchWitnessValue, LeafSubCircuit, LeafWitnessValue, PublicIndices,
};
use recproofs::event::FlagSet;
use recproofs::field::ORDER;
use recproofs::generate::{generate_witness, public_values, GenerateError};
use recproofs::{Event, EventFlags, EventType};

/// A stand-in for the circuit's hash: deterministic, with field outputs.
fn hash(inputs: Vec<u64>) -> [u64; 4] {
    let mut s: [u64; 4] = [
        0x9e37_79b9_7f4a_7c15,
        0xbf58_476d_1ce4_e5b9,
        0x94d0_49bb_1331_11eb,
        inputs.len() as u64,
    ];
    for (i, x) in inputs.iter().enumerate() {
        for k in 0..4 {
            let mut z = s[k] ^ x.wrapping_add((i as u64 + 1).wrapping_mul(0x2545_f491_4f6c_dd1d));
            z = (z ^ (z >> 30)).wrapping_mul(0xbf58_476d_1ce4_e5b9);
            z = (z ^ (z >> 27)).wrapping_mul(0x94d0_49bb_1331_11eb);
            s[k] = z ^ (z >> 31) ^ (k as u64);
        }
    }
    s.map(|v| v % ORDER)
}

type Proof = Vec<u64>;

const ZERO_VAL: [u64; 4] = [0; 4];
const PROGRAM_HASHES: [[u64; 4]; 3] = [[31, 41, 59, 26], [53, 58, 97, 93], [23, 84, 62, 64]];
const NON_ZERO_VALUES: [[u64; 4]; 5] =
    [[3, 1, 4, 15], [9, 2, 6, 5], [3, 5, 8, 9], [7, 9, 3, 2], [3, 8, 4, 6]];
const ADDRESS_A: u64 = 2;
const ADDRESS_C: u64 = 5;

const EVENT_T0_PM_C_CREDIT: Event =
    Event { address: ADDRESS_C, owner: ZERO_VAL, ty: EventType::CreditDelta, value: [300, 0, 0, 0] };
const EVENT_T0_PM_C_GIVE: Event =
    Event { address: ADDRESS_C, owner: ZERO_VAL, ty: EventType::GiveOwner, value: PROGRAM_HASHES[2] };
const EVENT_T0_P0_A_WRITE: Event = Event {
    address: ADDRESS_A,
    owner: PROGRAM_HASHES[0],
    ty: EventType::Write,
    value: NON_ZERO_VALUES[3],
};
const EVENT_T0_P0_A_CREDIT: Event = Event {
    address: ADDRESS_A,
    owner: PROGRAM_HASHES[0],
    ty: EventType::CreditDelta,
    value: [300, 0, 0, 1],
};
const EVENT_T0_P2_A_READ: Event =
    Event { address: ADDRESS_A, owner: PROGRAM_HASHES[2], ty: EventType::Read, value: ZERO_VAL };
const EVENT_T0_P2_A_ENSURE: Event = Event {
    address: ADDRESS_A,
    owner: PROGRAM_HASHES[2],
    ty: EventType::Ensure,
    value: NON_ZERO_VALUES[3],
};
const EVENT_T0_P2_C_TAKE: Event =
    Event { address: ADDRESS_C, owner: PROGRAM_HASHES[2], ty: EventType::TakeOwner, value: ZERO_VAL };

fn prove(circuit: &CircuitBuilder, w: &PartialWitness) -> Result<Proof, GenerateError> {
    let vals = generate_witness(circuit, w, &hash)?;
    Ok(public_values(circuit, &vals).unwrap())
}

fn flags(fs: &[EventFlags]) -> FlagSet {
    fs.iter().fold(FlagSet::empty(), |s, f| s.union(FlagSet::of(*f)))
}

struct DummyLeafCircuit {
    state_from_events: LeafSubCircuit,
    circuit: CircuitBuilder,
}

impl DummyLeafCircuit {
    fn new() -> Self {
        let mut builder = CircuitBuilder::new();
        let inputs = core_circuit::default(&mut builder);
        let targets = inputs.build_leaf(&mut builder);
        let public_inputs = builder.public_inputs.clone();
        let state_from_events = targets.build(&public_inputs);
        Self { state_from_events, circuit: builder }
    }

    fn prove(&self, event: Event) -> Result<Proof, GenerateError> {
        let mut inputs = PartialWitness::new();
        self.state_from_events.set_witness(&mut inputs, event).unwrap();
        prove(&self.circuit, &inputs)
    }

    fn prove_unsafe(&self, v: LeafWitnessValue) -> Result<Proof, GenerateError> {
        let mut inputs = PartialWitness::new();
        self.state_from_events.set_witness_unsafe(&mut inputs, v).unwrap();
        prove(&self.circuit, &inputs)
    }
}

struct DummyBranchCircuit {
    state_from_events: BranchSubCircuit,
    left_proof: ProofWithPublicInputsTarget,
    right_proof: ProofWithPublicInputsTarget,
    circuit: CircuitBuilder,
}

impl DummyBranchCircuit {
    fn new(indices: &PublicIndices, child: &CircuitBuilder) -> Self {
        let mut builder = CircuitBuilder::new();
        let inputs = core_circuit::default(&mut builder);
        let n = child.num_public_inputs();
        let left_proof = builder.add_virtual_proof_with_pis(n);
        let right_proof = builder.add_virtual_proof_with_pis(n);
        let targets = inputs.build_branch(&mut builder, indices, &left_proof, &right_proof);
        let public_inputs = builder.public_inputs.clone();
        let state_from_events = targets.build(indices, &public_inputs);
        Self { state_from_events, left_proof, right_proof, circuit: builder }
    }

    fn witness(&self, left: &Proof, right: Option<&Proof>) -> PartialWitness {
        let mut inputs = PartialWitness::new();
        inputs.set_proof_with_pis_target(&self.left_proof, left).unwrap();
        inputs.set_proof_with_pis_target(&self.right_proof, right.unwrap_or(left)).unwrap();
        inputs
    }

    fn prove(&self, v: BranchWitnessValue, left: &Proof, right: Option<&Proof>) -> Result<Proof, GenerateError> {
        let mut inputs = self.witness(left, right);
        self.state_from_events.set_witness(&mut inputs, right.is_none(), v).unwrap();
        prove(&self.circuit, &inputs)
    }

    fn prove_implicit(&self, left: &Proof, right: Option<&Proof>) -> Result<Proof, GenerateError> {
        let mut inputs = self.witness(left, right);
        match right {
            None => self.state_from_events.set_witness_from_proof(&mut inputs, left).unwrap(),
            Some(r) => self.state_from_events.set_witness_from_proofs(&mut inputs, left, r).unwrap(),
        }
        prove(&self.circuit, &inputs)
    }
}

struct Fixtures {
    leaf: DummyLeafCircuit,
    branches: [DummyBranchCircuit; 2],
}

fn fixtures() -> Fixtures {
    let leaf = DummyLeafCircuit::new();
    let b0 = DummyBranchCircuit::new(&leaf.state_from_events.indices, &leaf.circuit);
    let b1 = DummyBranchCircuit::new(&b0.state_from_events.indices, &b0.circuit);
    Fixtures { leaf, branches: [b0, b1] }
}

#[allow(clippy::too_many_arguments)]
fn assert_leaf(
    f: &Fixtures,
    proof: &Proof,
    address: u64,
    object_flags: FlagSet,
    old_owner: Option<[u64; 4]>,
    new_owner: Option<[u64; 4]>,
    old_data: Option<[u64; 4]>,
    new_data: Option<[u64; 4]>,
    credit_delta: Option<u64>,
) {
    let indices = &f.leaf.state_from_events.indices;
    assert_eq!(indices.address.get_field(proof), address);
    assert_eq!(indices.object_flags.get_field(proof), object_flags.bits as u64);
    assert_eq!(indices.old_owner.get_field(proof), old_owner.unwrap_or_default());
    assert_eq!(indices.new_owner.get_field(proof), new_owner.unwrap_or_default());
    assert_eq!(indices.old_data.get_field(proof), old_data.unwrap_or_default());
    assert_eq!(indices.new_data.get_field(proof), new_data.unwrap_or_default());
    assert_eq!(indices.credit_delta.get_field(proof), credit_delta.unwrap_or_default());
}

struct Leaves {
    write: Proof,
    read: Proof,
    ensure: Proof,
    give: Proof,
    take: Proof,
    credit_plus: Proof,
    credit_minus: Proof,
}

fn leaves(f: &Fixtures) -> Leaves {
    let e = EVENT_T0_P0_A_WRITE;
    let write = f.leaf.prove(e).unwrap();
    assert_leaf(f, &write, e.address, flags(&[EventFlags::WriteFlag]), Some(e.owner), None, None, Some(e.value), None);
    let e = EVENT_T0_P2_A_READ;
    let read = f.leaf.prove(e).unwrap();
    assert_leaf(f, &read, e.address, flags(&[EventFlags::ReadFlag]), None, None, Some(e.value), None, None);
    let e = EVENT_T0_P2_A_ENSURE;
    let ensure = f.leaf.prove(e).unwrap();
    assert_leaf(f, &ensure, e.address, flags(&[EventFlags::EnsureFlag]), None, None, None, Some(e.value), None);
    let e = EVENT_T0_PM_C_GIVE;
    let give = f.leaf.prove(e).unwrap();
    assert_leaf(f, &give, e.address, flags(&[EventFlags::GiveOwnerFlag]), Some(e.owner), Some(e.value), None, None, None);
    let e = EVENT_T0_P2_C_TAKE;
    let take = f.leaf.prove(e).unwrap();
    assert_leaf(f, &take, e.address, flags(&[EventFlags::TakeOwnerFlag]), Some(e.value), Some(e.owner), None, None, None);
    let e = EVENT_T0_PM_C_CREDIT;
    let credit_plus = f.leaf.prove(e).unwrap();
    assert_leaf(f, &credit_plus, e.address, FlagSet::empty(), Some(e.owner), None, None, None, Some(300));
    let e = EVENT_T0_P0_A_CREDIT;
    let credit_minus = f.leaf.prove(e).unwrap();
    assert_leaf(f, &credit_minus, e.address, FlagSet::empty(), Some(e.owner), None, None, None, Some(ORDER - 300));
    Leaves { write, read, ensure, give, take, credit_plus, credit_minus }
}

fn leaf_test_helper(owner: [u64; 4], ty: EventType, value: [u64; 4], f: impl FnOnce(&mut LeafWitnessValue, [u64; 4], [u64; 4])) -> Result<Proof, GenerateError> {
    let fx = fixtures();
    let mut event = LeafWitnessValue::from_event(Event { owner, ty, address: 200, value });
    f(&mut event, owner, value);
    fx.leaf.prove_unsafe(event)
}

fn unsatisfied<T>(r: Result<T, GenerateError>) -> bool {
    matches!(r, Err(GenerateError::Unsatisfied { .. }))
}

#[test]
fn accumulate_core_verify_leaves() {
    let f = fixtures();
    let l = leaves(&f);
    assert_eq!(l.credit_minus.len(), 19);
    assert_eq!(l.write.len(), 19);
}

#[test]
fn bad_write_leaf_1() {
    assert!(unsatisfied(leaf_test_helper(PROGRAM_HASHES[0], EventType::Write, [3, 1, 4, 15], |event, _, _| {
        event.object_flags = flags(&[EventFlags::EnsureFlag]);
    })));
}

#[test]
fn bad_write_leaf_2() {
    assert!(unsatisfied(leaf_test_helper(PROGRAM_HASHES[0], EventType::Write, [3, 1, 4, 15], |event, _, _| {
        event.object_flags = flags(&[EventFlags::GiveOwnerFlag]);
    })));
}

#[test]
fn bad_write_leaf_3() {
    assert!(unsatisfied(leaf_test_helper(PROGRAM_HASHES[0], EventType::Write, [3, 1, 4, 15], |event, _, _| {
        event.object_flags = flags(&[EventFlags::EnsureFlag, EventFlags::WriteFlag]);
    })));
}

#[test]
fn bad_write_leaf_4() {
    assert!(unsatisfied(leaf_test_helper(PROGRAM_HASHES[0], EventType::Write, [3, 1, 4, 15], |event, _, _| {
        event.credit_delta = 5;
    })));
}

#[test]
fn bad_ensure_leaf_1() {
    assert!(unsatisfied(leaf_test_helper(PROGRAM_HASHES[0], EventType::Ensure, [3, 1, 4, 15], |event, _, _| {
        event.object_flags = flags(&[EventFlags::WriteFlag]);
    })));
}

#[test]
fn bad_give_leaf_1() {
    assert!(unsatisfied(leaf_test_helper(PROGRAM_HASHES[0], EventType::GiveOwner, [3, 1, 4, 15], |event, owner, _| {
        event.new_owner = owner;
    })));
}

#[test]
fn bad_give_leaf_2() {
    assert!(unsatisfied(leaf_test_helper(PROGRAM_HASHES[0], EventType::GiveOwner, [3, 1, 4, 15], |event, _, value| {
        event.old_owner = value;
    })));
}

#[test]
fn bad_credit_leaf_1() {
    assert!(unsatisfied(leaf_test_helper(PROGRAM_HASHES[0], EventType::CreditDelta, [13, 0, 0, 0], |event, _, _| {
        event.credit_delta *= -1;
    })));
}

#[test]
fn bad_credit_leaf_sign() {
    assert!(unsatisfied(leaf_test_helper(PROGRAM_HASHES[0], EventType::CreditDelta, [13, 0, 0, 1], |event, _, _| {
        event.event_value[3] = 12;
    })));
}

struct EventData {
    owner: [u64; 4],
    ty: EventType,
    value: [u64; 4],
}

fn construct(f: &Fixtures, d: &EventData, modify: &mut dyn FnMut(&mut LeafWitnessValue)) -> (BranchWitnessValue, Proof) {
    let mut event = LeafWitnessValue::from_event(Event { address: 200, owner: d.owner, ty: d.ty, value: d.value });
    modify(&mut event);
    let proof = f.leaf.prove_unsafe(event).unwrap();
    (BranchWitnessValue::from(event), proof)
}

fn merge(
    f: &Fixtures,
    height: usize,
    l: (BranchWitnessValue, Proof),
    r: (BranchWitnessValue, Proof),
    modify: &mut dyn FnMut(&mut BranchWitnessValue),
) -> Result<(BranchWitnessValue, Proof), GenerateError> {
    let mut event = BranchWitnessValue::from_branches(l.0, r.0);
    modify(&mut event);
    let proof = f.branches[height].prove(event, &l.1, Some(&r.1))?;
    Ok((event, proof))
}

fn four_events() -> [EventData; 4] {
    [
        EventData { owner: [4, 8, 15, 16], ty: EventType::Write, value: [3, 1, 4, 15] },
        EventData { owner: [2, 3, 4, 2], ty: EventType::Read, value: [1, 6, 180, 33] },
        EventData { owner: [2, 3, 4, 2], ty: EventType::Ensure, value: [3, 1, 4, 15] },
        EventData { owner: [2, 3, 4, 2], ty: EventType::Ensure, value: [3, 1, 4, 15] },
    ]
}

#[test]
fn bad_branch_mismatch_address_1() {
    let f = fixtures();
    let mut i = 0;
    let mut leaf = |event: &mut LeafWitnessValue| {
        // Alter the address of the last two events
        if matches!(i, 2 | 3) {
            event.address += 10;
        }
        i += 1;
    };
    let evs = four_events();
    let ls: Vec<_> = evs.iter().map(|d| construct(&f, d, &mut leaf)).collect();
    let left = merge(&f, 0, ls[0].clone(), ls[1].clone(), &mut |_| {}).unwrap();
    let right = merge(&f, 0, ls[2].clone(), ls[3].clone(), &mut |_| {}).unwrap();
    assert!(unsatisfied(merge(&f, 1, left, right, &mut |_| {})));
}

#[test]
fn bad_branch_mismatch_address_2() {
    let f = fixtures();
    let evs = four_events();
    let ls: Vec<_> = evs.iter().map(|d| construct(&f, d, &mut |_| {})).collect();
    let mut i = 0;
    let mut branch = |event: &mut BranchWitnessValue| {
        // Mess up the final address
        if i == 2 {
            event.address += 10;
        }
        i += 1;
    };
    let left = merge(&f, 0, ls[0].clone(), ls[1].clone(), &mut branch).unwrap();
    let right = merge(&f, 0, ls[2].clone(), ls[3].clone(), &mut branch).unwrap();
    assert!(unsatisfied(merge(&f, 1, left, right, &mut branch)));
}

#[test]
fn bad_branch_double_write() {
    let f = fixtures();
    let d = EventData { owner: [4, 8, 15, 16], ty: EventType::Write, value: [3, 1, 4, 15] };
    let l = construct(&f, &d, &mut |_| {});
    let r = construct(&f, &d, &mut |_| {});
    assert!(unsatisfied(merge(&f, 0, l, r, &mut |_| {})));
}

#[test]
fn bad_branch_double_credit_sum() {
    let f = fixtures();
    let l = construct(&f, &EventData { owner: [4, 8, 15, 16], ty: EventType::CreditDelta, value: [13, 0, 0, 0] }, &mut |_| {});
    let r = construct(&f, &EventData { owner: [4, 8, 15, 16], ty: EventType::CreditDelta, value: [8, 0, 0, 1] }, &mut |_| {});
    assert!(unsatisfied(merge(&f, 0, l, r, &mut |event| {
        assert_eq!(event.credit_delta, 5);
        event.credit_delta += 10;
    })));
}

fn read_write_witness() -> BranchWitnessValue {
    BranchWitnessValue {
        address: ADDRESS_A,
        object_flags: flags(&[EventFlags::ReadFlag, EventFlags::WriteFlag]),
        old_owner: PROGRAM_HASHES[0],
        new_owner: ZERO_VAL,
        old_data: ZERO_VAL,
        new_data: NON_ZERO_VALUES[3],
        credit_delta: 0,
    }
}

fn branch_fixtures(f: &Fixtures, l: &Leaves) -> (Proof, Proof) {
    let b = &f.branches[0];
    let witness = read_write_witness();
    b.prove(witness, &l.read, Some(&l.write)).unwrap();
    b.prove(witness, &l.write, Some(&l.read)).unwrap();
    b.prove_implicit(&l.read, Some(&l.write)).unwrap();
    let read_write = b.prove_implicit(&l.write, Some(&l.read)).unwrap();
    let witness = BranchWitnessValue {
        address: ADDRESS_A,
        object_flags: flags(&[EventFlags::EnsureFlag]),
        old_owner: ZERO_VAL,
        new_owner: ZERO_VAL,
        old_data: ZERO_VAL,
        new_data: NON_ZERO_VALUES[3],
        credit_delta: 0,
    };
    b.prove(witness, &l.ensure, Some(&l.ensure)).unwrap();
    let ensure = b.prove_implicit(&l.ensure, Some(&l.ensure)).unwrap();
    (read_write, ensure)
}

#[test]
fn verify_left_branches() {
    let f = fixtures();
    let l = leaves(&f);
    for leaf in [&l.write, &l.read, &l.ensure, &l.give, &l.take, &l.credit_plus, &l.credit_minus] {
        let proof = f.branches[0].prove_implicit(leaf, None).unwrap();
        assert_eq!(&proof, leaf);
    }
}

#[test]
fn verify_left_double_branch() {
    let f = fixtures();
    let l = leaves(&f);
    let (read_write, ensure) = branch_fixtures(&f, &l);
    for branch in [&read_write, &ensure] {
        f.branches[1].prove_implicit(branch, None).unwrap();
    }
}

#[test]
fn core_verify_double_branch() {
    let f = fixtures();
    let l = leaves(&f);
    let (read_write, ensure) = branch_fixtures(&f, &l);
    let witness = BranchWitnessValue {
        object_flags: flags(&[EventFlags::ReadFlag, EventFlags::WriteFlag, EventFlags::EnsureFlag]),
        ..read_write_witness()
    };
    let b = &f.branches[1];
    b.prove(witness, &read_write, Some(&ensure)).unwrap();
    b.prove(witness, &ensure, Some(&read_write)).unwrap();
    b.prove_implicit(&read_write, Some(&ensure)).unwrap();
    let proof = b.prove_implicit(&ensure, Some(&read_write)).unwrap();
    let idx = &f.leaf.state_from_events.indices;
    assert_eq!(idx.object_flags.get_field(&proof), 7);
    assert_eq!(idx.new_data.get_field(&proof), NON_ZERO_VALUES[3]);
    assert_eq!(idx.old_owner.get_field(&proof), PROGRAM_HASHES[0]);
}

#[test]
fn branch_witness_from_proofs_leaves_address_unset() {
    let f = fixtures();
    let l = leaves(&f);
    let b = &f.branches[0];
    let sc = &b.state_from_events;
    let mut w = PartialWitness::new();
    sc.set_witness_from_proofs(&mut w, &l.write, &l.read).unwrap();
    assert_eq!(w.try_get_target(sc.targets.inputs.address), None);
    assert_eq!(w.try_get_target(sc.targets.partial.target), Some(0));
    let mut w = PartialWitness::new();
    sc.set_witness_from_proof(&mut w, &l.write).unwrap();
    assert_eq!(w.try_get_target(sc.targets.inputs.address), None);
    assert_eq!(w.try_get_target(sc.targets.partial.target), Some(1));
}

#[test]
fn branch_from_proofs_is_from_branches() {
    let f = fixtures();
    let l = leaves(&f);
    let vw = BranchWitnessValue::from(LeafWitnessValue::from_event(EVENT_T0_P0_A_WRITE));
    let vc = BranchWitnessValue::from(LeafWitnessValue::from_event(EVENT_T0_P0_A_CREDIT));
    let merged = BranchWitnessValue::from_branches(vw, vc);
    let implicit = f.branches[0].prove_implicit(&l.write, Some(&l.credit_minus)).unwrap();
    let explicit = f.branches[0].prove(merged, &l.write, Some(&l.credit_minus)).unwrap();
    assert_eq!(implicit, explicit);
    let indices = &f.branches[0].state_from_events.indices;
    assert_eq!(merged.credit_delta, -300);
    assert_eq!(indices.credit_delta.get_field(&implicit), ORDER - 300);
    assert_eq!(indices.object_flags.get_field(&implicit), flags(&[EventFlags::WriteFlag]).bits as u64);
    assert_eq!(indices.new_data.get_field(&implicit), EVENT_T0_P0_A_WRITE.value);
}
