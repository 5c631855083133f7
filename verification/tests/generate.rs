use recproofs::circuit::{BoolTarget, CircuitBuilder, Op, PartialWitness, Target};
use recproofs::field::ORDER;
use recproofs::generate::{generate_witness, GenerateError};
use recproofs::gadgets::at_least_one_true;

/// Plans without hashes never call the hash function.
fn no_hash(_inputs: Vec<u64>) -> [u64; 4] {
    panic!("a plan without hashes hashed")
}

#[test]
fn generate_divides() {
    let mut b = CircuitBuilder::new();
    let x = b.add_virtual_target();
    let y = b.add_virtual_target();
    let q = b.div(x, y);
    let mut w = PartialWitness::new();
    w.set_target(x, 6).unwrap();
    w.set_target(y, 3).unwrap();
    let vals = generate_witness(&b, &w, &no_hash).unwrap();
    assert_eq!(vals[q.index], 2);
}

#[test]
fn generate_divides_in_the_field() {
    let mut b = CircuitBuilder::new();
    let x = b.add_virtual_target();
    let y = b.add_virtual_target();
    let q = b.div(x, y);
    let mut w = PartialWitness::new();
    w.set_target(x, 1).unwrap();
    w.set_target(y, 2).unwrap();
    let vals = generate_witness(&b, &w, &no_hash).unwrap();
    // the inverse of two is (p + 1) / 2
    assert_eq!(vals[q.index], (ORDER - 1) / 2 + 1);
}

#[test]
fn generate_division_by_zero_is_unsatisfied() {
    let mut b = CircuitBuilder::new();
    let x = b.add_virtual_target();
    let y = b.add_virtual_target();
    let _q = b.div(x, y);
    let mut w = PartialWitness::new();
    w.set_target(x, 1).unwrap();
    w.set_target(y, 0).unwrap();
    assert_eq!(
        generate_witness(&b, &w, &no_hash),
        Err(GenerateError::Unsatisfied { op: 2 })
    );
}

#[test]
fn generate_missing_value() {
    let mut b = CircuitBuilder::new();
    let x = b.add_virtual_target();
    let y = b.add_virtual_target();
    let _s = b.add(x, y);
    let mut w = PartialWitness::new();
    w.set_target(x, 1).unwrap();
    assert_eq!(
        generate_witness(&b, &w, &no_hash),
        Err(GenerateError::Missing { target: y })
    );
}

#[test]
fn generate_connect_gives_the_value() {
    let mut b = CircuitBuilder::new();
    let x = b.add_virtual_target();
    let y = b.add_virtual_target();
    b.connect(x, y);
    let s = b.add(x, y);
    let mut w = PartialWitness::new();
    w.set_target(x, 21).unwrap();
    let vals = generate_witness(&b, &w, &no_hash).unwrap();
    assert_eq!(vals[y.index], 21);
    assert_eq!(vals[s.index], 42);
}

#[test]
fn generate_connect_conflict_is_unsatisfied() {
    let mut b = CircuitBuilder::new();
    let x = b.add_virtual_target();
    let c = b.constant(2);
    b.connect(x, c);
    let mut w = PartialWitness::new();
    w.set_target(x, 1).unwrap();
    assert_eq!(
        generate_witness(&b, &w, &no_hash),
        Err(GenerateError::Unsatisfied { op: 2 })
    );
}

#[test]
fn generate_witness_value_not_in_field() {
    let mut b = CircuitBuilder::new();
    let x = b.add_virtual_target();
    let mut w = PartialWitness::new();
    w.set_target(x, ORDER).unwrap();
    assert_eq!(
        generate_witness(&b, &w, &no_hash),
        Err(GenerateError::NotCanonical { op: 0 })
    );
}

#[test]
fn generate_reference_beyond_plan_is_malformed() {
    let mut b = CircuitBuilder::new();
    let x = b.add_virtual_target();
    b.ops.push(Op::AssertBool { b: Target { index: 7 } });
    let mut w = PartialWitness::new();
    w.set_target(x, 1).unwrap();
    assert_eq!(
        generate_witness(&b, &w, &no_hash),
        Err(GenerateError::Malformed { op: 1 })
    );
}

#[test]
fn generate_split_low_high() {
    let mut b = CircuitBuilder::new();
    let x = b.add_virtual_target();
    let (low, high) = b.split_low_high(x, 8, 16);
    let mut w = PartialWitness::new();
    w.set_target(x, 0x1234).unwrap();
    let vals = generate_witness(&b, &w, &no_hash).unwrap();
    assert_eq!(vals[low.index], 0x34);
    assert_eq!(vals[high.index], 0x12);
}

#[test]
fn generate_split_low_high_too_wide_is_unsatisfied() {
    let mut b = CircuitBuilder::new();
    let x = b.add_virtual_target();
    let (_low, _high) = b.split_low_high(x, 4, 8);
    let mut w = PartialWitness::new();
    w.set_target(x, 0x1234).unwrap();
    assert_eq!(
        generate_witness(&b, &w, &no_hash),
        Err(GenerateError::Unsatisfied { op: 3 })
    );
}

#[test]
fn generate_split_le_bits() {
    let mut b = CircuitBuilder::new();
    let x = b.add_virtual_target();
    let bits = b.split_le(x, 4);
    let mut w = PartialWitness::new();
    w.set_target(x, 0b1010).unwrap();
    let vals = generate_witness(&b, &w, &no_hash).unwrap();
    let got: Vec<u64> = bits.iter().map(|t| vals[t.target.index]).collect();
    assert_eq!(got, vec![0, 1, 0, 1]);
}

#[test]
fn generate_split_le_too_few_bits_is_unsatisfied() {
    let mut b = CircuitBuilder::new();
    let x = b.add_virtual_target();
    let bits = b.split_le(x, 2);
    let mut w = PartialWitness::new();
    w.set_target(x, 5).unwrap();
    assert_eq!(
        generate_witness(&b, &w, &no_hash),
        Err(GenerateError::Unsatisfied { op: bits.len() + 1 })
    );
}

#[test]
fn generate_arithmetic() {
    let mut b = CircuitBuilder::new();
    let x = b.add_virtual_target();
    let y = b.add_virtual_target();
    let d = b.sub(x, y);
    let m = b.mul_const_add(3, x, y);
    let k = b.add_const(y, 5);
    let t = b.add_virtual_bool_target_safe();
    let s = b.select(t, x, y);
    let e: BoolTarget = b.is_equal(x, y);
    let mut w = PartialWitness::new();
    w.set_target(x, 2).unwrap();
    w.set_target(y, 7).unwrap();
    w.set_bool_target(t, false).unwrap();
    let vals = generate_witness(&b, &w, &no_hash).unwrap();
    assert_eq!(vals[d.index], ORDER - 5);
    assert_eq!(vals[m.index], 13);
    assert_eq!(vals[k.index], 12);
    assert_eq!(vals[s.index], 7);
    assert_eq!(vals[e.target.index], 0);
}

#[test]
fn at_least_one_true_of_nothing_adds_nothing() {
    let mut b = CircuitBuilder::new();
    let _ = b.add_virtual_target();
    at_least_one_true(&mut b, vec![]);
    assert_eq!(b.ops.len(), 1);
}

#[test]
fn at_least_one_true_rejects_all_false() {
    let mut b = CircuitBuilder::new();
    let x = b.add_virtual_bool_target_safe();
    let y = b.add_virtual_bool_target_safe();
    at_least_one_true(&mut b, vec![x, y]);
    let mut w = PartialWitness::new();
    w.set_bool_target(x, false).unwrap();
    w.set_bool_target(y, true).unwrap();
    assert!(generate_witness(&b, &w, &no_hash).is_ok());
    let mut w = PartialWitness::new();
    w.set_bool_target(x, false).unwrap();
    w.set_bool_target(y, false).unwrap();
    assert!(matches!(generate_witness(&b, &w, &no_hash), Err(GenerateError::Unsatisfied { .. })));
}
