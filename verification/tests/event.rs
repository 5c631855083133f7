use recproofs::event::{to_le_bytes, u64_to_field, FlagSet, ALL_FLAGS};
use recproofs::field::ORDER;
use recproofs::{Event, EventFlags, EventType};

#[test]
fn event_type_codes() {
    assert_eq!(EventType::Write.code(), 0);
    assert_eq!(EventType::Ensure.code(), 1);
    assert_eq!(EventType::Read.code(), 2);
    assert_eq!(EventType::GiveOwner.code(), 3);
    assert_eq!(EventType::TakeOwner.code(), 4);
    assert_eq!(EventType::CreditDelta.code(), 5);
    assert_eq!(EventType::from_code(3), Some(EventType::GiveOwner));
    assert_eq!(EventType::from_code(6), None);
}

#[test]
fn event_flag_positions() {
    assert_eq!(EventFlags::count(), 5);
    assert_eq!(EventFlags::WriteFlag.index(), 0);
    assert_eq!(EventFlags::ReadFlag.index(), 2);
    assert_eq!(EventFlags::TakeOwnerFlag.index(), 4);
    assert_eq!(EventFlags::GiveOwnerFlag.bit(), 8);
}

#[test]
fn flag_sets() {
    let w = FlagSet::of(EventFlags::WriteFlag);
    let r = FlagSet::of(EventFlags::ReadFlag);
    let wr = w.union(r);
    assert_eq!(wr.bits, 5);
    assert_eq!(wr.len(), 2);
    assert!(wr.intersects(r));
    assert!(!w.intersects(r));
    assert_eq!(FlagSet::empty().len(), 0);
    assert_eq!(FlagSet::from_bits(ALL_FLAGS).map(|s| s.len()), Some(5));
    assert_eq!(FlagSet::from_bits(0x20), None);
}

#[test]
fn event_bytes_in_hash_order() {
    let e = Event { owner: [1, 2, 3, 4], ty: EventType::Read, address: 7, value: [5, 6, 7, 8] };
    assert_eq!(e.bytes(), vec![1, 2, 3, 4, 2, 7, 5, 6, 7, 8]);
    assert_eq!(e.vm_bytes(), vec![2, 7, 5, 6, 7, 8]);
    let big = Event { owner: [0; 4], ty: EventType::Write, address: ORDER + 3, value: [0; 4] };
    assert_eq!(big.bytes()[5], 3);
}

#[test]
fn event_byte_wise_bytes() {
    let e = Event {
        owner: [9; 4],
        ty: EventType::GiveOwner,
        address: 0x0102,
        value: [0x0a0b0c, 0, 0, 1],
    };
    let b = e.byte_wise_bytes();
    assert_eq!(b.len(), 48);
    assert_eq!(&b[0..8], &[3, 0, 0, 0, 0, 0, 0, 0]);
    assert_eq!(&b[8..16], &[2, 1, 0, 0, 0, 0, 0, 0]);
    assert_eq!(&b[16..24], &[0x0c, 0x0b, 0x0a, 0, 0, 0, 0, 0]);
    assert_eq!(&b[40..48], &[1, 0, 0, 0, 0, 0, 0, 0]);
}

#[test]
fn field_elements_of_u64() {
    assert_eq!(u64_to_field(5), 5);
    assert_eq!(u64_to_field(ORDER), 0);
    assert_eq!(u64_to_field(u64::MAX), u64::MAX - ORDER);
    assert_eq!(to_le_bytes(0x0807060504030201), vec![1, 2, 3, 4, 5, 6, 7, 8]);
}
