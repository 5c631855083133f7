use recproofs::circuit::{BoolTarget, HashOutTarget, PartialWitness, Target, WitnessConflict};

fn t(i: usize) -> Target {
    Target { index: i }
}

#[test]
fn witness_keeps_values() {
    let mut w = PartialWitness::new();
    assert_eq!(w.try_get_target(t(1)), None);
    assert_eq!(w.set_target(t(1), 7), Ok(()));
    assert_eq!(w.try_get_target(t(1)), Some(7));
    // the same value again is fine
    assert_eq!(w.set_target(t(1), 7), Ok(()));
    assert_eq!(w.try_get_target(t(1)), Some(7));
}

#[test]
fn witness_refuses_a_second_value() {
    let mut w = PartialWitness::new();
    w.set_target(t(3), 1).unwrap();
    assert_eq!(w.set_target(t(3), 2), Err(WitnessConflict { target: t(3) }));
    assert_eq!(w.try_get_target(t(3)), Some(1));
}

#[test]
fn witness_arrays_and_bools() {
    let mut w = PartialWitness::new();
    let h = HashOutTarget { elements: [t(0), t(1), t(2), t(3)] };
    w.set_hash_target(h, [10, 11, 12, 13]).unwrap();
    assert_eq!(w.try_get_target(t(2)), Some(12));
    w.set_bool_target(BoolTarget { target: t(4) }, true).unwrap();
    assert_eq!(w.try_get_target(t(4)), Some(1));
    assert!(w.set_bool_target(BoolTarget { target: t(4) }, false).is_err());
    w.set_target_arr(&[t(5), t(6)], &[1, 2]).unwrap();
    assert_eq!(w.try_get_target(t(6)), Some(2));
}

#[test]
fn witness_array_with_a_repeated_target() {
    let mut w = PartialWitness::new();
    // one target twice with one value fits
    assert!(w.set_target_arr(&[t(7), t(7)], &[5, 5]).is_ok());
    // one target twice with two values does not
    let mut w2 = PartialWitness::new();
    assert_eq!(w2.set_target_arr(&[t(8), t(8)], &[5, 6]), Err(WitnessConflict { target: t(8) }));
    // nor does a target that already holds another value
    assert!(w.set_hash_target(HashOutTarget { elements: [t(7), t(9), t(10), t(11)] }, [4, 0, 0, 0]).is_err());
}
