use recproofs::circuit::{PartialWitness, Target};
use recproofs::circuits::accumulate_delta::core_circuit::{
    BranchWitnessValue, LeafWitnessValue,
};
use recproofs::circuits::accumulate_delta::{BranchCircuit, LeafCircuit};
use recproofs::event::FlagSet;
use recproofs::field::ORDER;
use recproofs::{Event, EventFlags, EventType};

const PROGRAM_0: [u64; 4] = [31, 41, 59, 26];
const PROGRAM_2: [u64; 4] = [23, 84, 62, 64];
const VALUE_3: [u64; 4] = [3, 1, 4, 1];
const ADDRESS_A: u64 = 2;
/// The number by which the plans name the leaf circuit.
const ACCUMULATE_LEAF: usize = 1;

fn event(owner: [u64; 4], ty: EventType, value: [u64; 4]) -> Event {
    Event { owner, ty, address: ADDRESS_A, value }
}

#[test]
fn leaf_value_of_a_write() {
    let v = LeafWitnessValue::from_event(event(PROGRAM_0, EventType::Write, VALUE_3));
    assert_eq!(v.object_flags.bits, EventFlags::WriteFlag.bit());
    assert_eq!(v.old_owner, PROGRAM_0);
    assert_eq!(v.new_owner, [0; 4]);
    assert_eq!(v.old_data, [0; 4]);
    assert_eq!(v.new_data, VALUE_3);
    assert_eq!(v.credit_delta, 0);
    assert_eq!(v.event_ty, 0);
}

#[test]
fn leaf_value_of_owner_changes() {
    let give = LeafWitnessValue::from_event(event(PROGRAM_0, EventType::GiveOwner, PROGRAM_2));
    assert_eq!(give.object_flags.bits, 8);
    assert_eq!((give.old_owner, give.new_owner), (PROGRAM_0, PROGRAM_2));
    let take = LeafWitnessValue::from_event(event(PROGRAM_2, EventType::TakeOwner, PROGRAM_0));
    assert_eq!(take.object_flags.bits, 16);
    assert_eq!((take.old_owner, take.new_owner), (PROGRAM_0, PROGRAM_2));
}

#[test]
fn leaf_value_of_reads_and_ensures() {
    let read = LeafWitnessValue::from_event(event(PROGRAM_2, EventType::Read, VALUE_3));
    assert_eq!(read.object_flags.bits, 4);
    assert_eq!((read.old_data, read.new_data), (VALUE_3, [0; 4]));
    assert_eq!((read.old_owner, read.new_owner), ([0; 4], [0; 4]));
    let ensure = LeafWitnessValue::from_event(event(PROGRAM_2, EventType::Ensure, VALUE_3));
    assert_eq!(ensure.object_flags.bits, 2);
    assert_eq!((ensure.old_data, ensure.new_data), ([0; 4], VALUE_3));
}

#[test]
fn leaf_value_of_credits() {
    let plus = LeafWitnessValue::from_event(event([0; 4], EventType::CreditDelta, [300, 0, 0, 0]));
    assert_eq!(plus.credit_delta, 300);
    assert_eq!(plus.object_flags.bits, 0);
    assert_eq!(plus.old_owner, [0; 4]);
    let minus = LeafWitnessValue::from_event(event(PROGRAM_0, EventType::CreditDelta, [300, 0, 0, 1]));
    assert_eq!(minus.credit_delta, -300);
    assert_eq!(minus.old_owner, PROGRAM_0);
    assert_eq!(minus.event_ty, 5);
    // an amount above `i64::MAX` reads as a negative `i64`
    let wrapped = LeafWitnessValue::from_event(event([0; 4], EventType::CreditDelta, [u64::MAX - 1, 0, 0, 0]));
    assert_eq!(wrapped.credit_delta, -2);
}

#[test]
fn branch_value_merges_children() {
    let write = LeafWitnessValue::from_event(event(PROGRAM_0, EventType::Write, VALUE_3));
    let read = LeafWitnessValue::from_event(event(PROGRAM_2, EventType::Read, [0; 4]));
    let credit = LeafWitnessValue::from_event(event(PROGRAM_0, EventType::CreditDelta, [300, 0, 0, 1]));
    let wr = BranchWitnessValue::from_branches(
        BranchWitnessValue::from(write),
        BranchWitnessValue::from(read),
    );
    assert_eq!(wr.object_flags.bits, 5);
    assert_eq!(wr.old_owner, PROGRAM_0);
    assert_eq!(wr.new_owner, [0; 4]);
    assert_eq!(wr.old_data, [0; 4]);
    assert_eq!(wr.new_data, VALUE_3);
    let all = BranchWitnessValue::from_branches(wr, BranchWitnessValue::from(credit));
    assert_eq!(all.object_flags.bits, 5);
    assert_eq!(all.credit_delta, -300);
    assert_eq!(all.address, ADDRESS_A);
    let twice = BranchWitnessValue::from_branches(all, all);
    assert_eq!(twice.credit_delta, -600);
}

#[test]
fn branch_value_of_nothing_is_zero() {
    let empty = BranchWitnessValue {
        address: 1,
        object_flags: FlagSet::empty(),
        old_owner: [5; 4],
        new_owner: [5; 4],
        old_data: [5; 4],
        new_data: [5; 4],
        credit_delta: 7,
    };
    let m = BranchWitnessValue::from_branches(empty, empty);
    assert_eq!(m.old_owner, [0; 4]);
    assert_eq!(m.new_data, [0; 4]);
    assert_eq!(m.credit_delta, 14);
}

fn value_of(w: &PartialWitness, t: Target) -> Option<u64> {
    w.try_get_target(t)
}

#[test]
fn leaf_circuit_witness() {
    let leaf = LeafCircuit::new(0, ACCUMULATE_LEAF);
    // the event hash, the partial object, then the branch circuit's
    // verifier data: 4 + 19 + 8 public inputs
    assert_eq!(leaf.circuit.num_public_inputs(), 31);
    assert_eq!(leaf.partial_state.indices.address.0, 4);
    assert_eq!(leaf.partial_state.indices.credit_delta.0, 22);
    let mut w = PartialWitness::new();
    leaf.set_witness(&mut w, ADDRESS_A, PROGRAM_0, EventType::CreditDelta, [300, 0, 0, 1])
        .unwrap();
    let t = &leaf.partial_state.targets;
    assert_eq!(value_of(&w, t.inputs.credit_delta), Some(ORDER - 300));
    assert_eq!(value_of(&w, t.inputs.object_flags), Some(0));
    assert_eq!(value_of(&w, t.inputs.address), Some(ADDRESS_A));
    assert_eq!(value_of(&w, t.event_ty), Some(5));
    assert_eq!(value_of(&w, t.inputs.old_owner[1]), Some(41));
    // a second, different event is refused
    assert!(leaf
        .set_witness(&mut w, ADDRESS_A, PROGRAM_0, EventType::Write, VALUE_3)
        .is_err());
}

#[test]
fn branch_circuit_witness_from_proofs() {
    let leaf = LeafCircuit::new(0, ACCUMULATE_LEAF);
    let branch = BranchCircuit::new(&leaf);
    assert_eq!(branch.circuit.num_public_inputs(), 31);
    let idx = leaf.partial_state.indices;
    let mut left = vec![0u64; 23];
    let mut right = vec![0u64; 23];
    left[idx.object_flags.0] = 1; // write
    right[idx.object_flags.0] = 4; // read
    idx.old_owner.set_field(&mut left, PROGRAM_0);
    idx.new_data.set_field(&mut left, VALUE_3);
    idx.old_data.set_field(&mut right, [9, 9, 9, 9]);
    left[idx.credit_delta.0] = 5;
    right[idx.credit_delta.0] = ORDER - 2;
    let mut w = PartialWitness::new();
    branch.set_witness(&mut w, &left, Some(&right)).unwrap();
    let t = &branch.partial_state.targets;
    assert_eq!(value_of(&w, t.inputs.object_flags), Some(5));
    assert_eq!(value_of(&w, t.inputs.credit_delta), Some(3));
    assert_eq!(value_of(&w, t.inputs.old_owner[0]), Some(31));
    assert_eq!(value_of(&w, t.inputs.new_data[2]), Some(4));
    assert_eq!(value_of(&w, t.inputs.old_data[3]), Some(9));
    assert_eq!(value_of(&w, t.inputs.new_owner[0]), Some(0));
    assert_eq!(value_of(&w, t.partial.target), Some(0));
    assert_eq!(value_of(&w, branch.event_hash.targets.extension.partial.target), Some(0));

    let mut w = PartialWitness::new();
    branch.set_witness(&mut w, &left, None).unwrap();
    assert_eq!(value_of(&w, t.inputs.object_flags), Some(1));
    assert_eq!(value_of(&w, t.inputs.credit_delta), Some(5));
    assert_eq!(value_of(&w, t.partial.target), Some(1));
}
