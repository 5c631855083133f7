use recproofs::circuit::{
    BoolTarget, HashOutTarget, MerkleCapTarget, Target, VerifierCircuitTarget, VerifierOnlyCircuitData,
};
use recproofs::circuits::verify_program::core_circuit::ProgramPublicIndices;
use recproofs::indices::{
    ArrayTargetIndex, BoolTargetIndex, HashOutTargetIndex, TargetIndex, VecTargetIndex,
    VerifierCircuitTargetIndex,
};

fn t(i: usize) -> Target {
    Target { index: i }
}

fn pis() -> Vec<Target> {
    (0..10).map(|i| t(100 + i)).collect()
}

#[test]
fn target_index_finds_first_position() {
    let mut p = pis();
    p.push(t(103));
    let i = TargetIndex::new(&p, t(103));
    assert_eq!(i, TargetIndex(3));
    assert_eq!(i.get_target(&p), t(103));
}

#[test]
fn target_index_set_then_get() {
    let i = TargetIndex(2);
    let mut values = vec![0u64, 1, 2, 3];
    i.set_field(&mut values, 42);
    assert_eq!(values, vec![0, 1, 42, 3]);
    assert_eq!(i.get_field(&values), 42);
    let mut targets = pis();
    i.set_target(&mut targets, t(7));
    assert_eq!(i.get_target(&targets), t(7));
    assert_eq!(targets[3], t(103));
}

#[test]
fn bool_target_index() {
    let p = pis();
    let i = BoolTargetIndex::new(&p, BoolTarget { target: t(105) });
    assert_eq!(i, BoolTargetIndex(TargetIndex(5)));
    assert_eq!(i.get_target(&p), BoolTarget { target: t(105) });
    let mut values = vec![0u64; 6];
    i.set_field(&mut values, true);
    assert_eq!(values[5], 1);
    assert!(i.get_field(&values));
}

#[test]
fn array_and_hash_indices() {
    let p = pis();
    let a = ArrayTargetIndex::<TargetIndex, 3>::new(&p, &[t(104), t(101), t(109)]);
    assert_eq!(a.0, [TargetIndex(4), TargetIndex(1), TargetIndex(9)]);
    assert_eq!(a.get_target(&p), [t(104), t(101), t(109)]);
    let mut values = vec![0u64; 10];
    a.set_field(&mut values, [7, 8, 9]);
    assert_eq!(a.get_field(&values), [7, 8, 9]);

    let h = HashOutTargetIndex::new(&p, HashOutTarget { elements: [t(100), t(102), t(104), t(106)] });
    let got = h.get_target(&p);
    assert_eq!(got.elements, [t(100), t(102), t(104), t(106)]);
    let mut values = vec![0u64; 10];
    h.set_field(&mut values, [1, 2, 3, 4]);
    assert_eq!(values, vec![1, 0, 2, 0, 3, 0, 4, 0, 0, 0]);
    assert_eq!(h.get_field(&values), [1, 2, 3, 4]);
}

#[test]
fn vec_index() {
    let p = pis();
    let v = VecTargetIndex::<TargetIndex>::new(&p, &[t(108), t(100)]);
    assert_eq!(v.0, vec![TargetIndex(8), TargetIndex(0)]);
    assert_eq!(v.get_target(&p), vec![t(108), t(100)]);
    let values: Vec<u64> = (0..10).collect();
    assert_eq!(v.get_field(&values), vec![8, 0]);
}

#[test]
fn program_indices_set_then_get() {
    let idx = ProgramPublicIndices {
        program_hash: [0, 1, 2, 3],
        events_present: 4,
        event_root: [5, 6, 7, 8],
        call_list: [9, 10, 11, 12],
        cast_root: [13, 14, 15, 16],
    };
    let mut values = vec![0u64; 17];
    idx.set_program_hash(&mut values, [31, 41, 59, 26]);
    idx.set_events_present(&mut values, 1);
    idx.set_event_root(&mut values, [1, 2, 3, 4]);
    idx.set_call_list(&mut values, [86, 7, 5, 309]);
    idx.set_cast_root(&mut values, [9, 9, 9, 9]);
    assert_eq!(idx.get_program_hash(&values), [31, 41, 59, 26]);
    assert_eq!(idx.get_events_present(&values), 1);
    assert_eq!(idx.get_event_root(&values), [1, 2, 3, 4]);
    assert_eq!(idx.get_call_list(&values), [86, 7, 5, 309]);
    assert_eq!(idx.get_cast_root(&values), [9, 9, 9, 9]);
}

#[test]
fn verifier_index_set_and_get() {
    let idx = VerifierCircuitTargetIndex {
        circuit_digest: HashOutTargetIndex(ArrayTargetIndex([TargetIndex(5), TargetIndex(6), TargetIndex(7), TargetIndex(8)])),
        constants_sigmas_cap: vec![HashOutTargetIndex(ArrayTargetIndex([
            TargetIndex(0),
            TargetIndex(1),
            TargetIndex(2),
            TargetIndex(3),
        ]))],
    };
    let v = VerifierOnlyCircuitData { constants_sigmas_cap: vec![[1, 2, 3, 4]], circuit_digest: [5, 6, 7, 8] };
    let mut pis = vec![0u64; 10];
    idx.set_field(&mut pis, &v);
    assert_eq!(pis, vec![1, 2, 3, 4, 0, 5, 6, 7, 8, 0]);
    let back = idx.get_field(&pis);
    assert_eq!(back.circuit_digest, v.circuit_digest);
    assert_eq!(back.constants_sigmas_cap, v.constants_sigmas_cap);
}

#[test]
fn verifier_index_set_target() {
    let h = |a: usize| HashOutTarget { elements: [t(a), t(a + 1), t(a + 2), t(a + 3)] };
    let target = VerifierCircuitTarget { constants_sigmas_cap: MerkleCapTarget(vec![h(104)]), circuit_digest: h(100) };
    let idx = VerifierCircuitTargetIndex::new(&pis(), &target);
    let mut other: Vec<Target> = (0..10).map(|i| t(200 + i)).collect();
    let replacement = VerifierCircuitTarget { constants_sigmas_cap: MerkleCapTarget(vec![h(304)]), circuit_digest: h(300) };
    idx.set_target(&mut other, replacement);
    let back = idx.get_target(&other);
    assert_eq!(back.circuit_digest.elements, h(300).elements);
    assert_eq!(back.constants_sigmas_cap.0.len(), 1);
    assert_eq!(back.constants_sigmas_cap.0[0].elements, h(304).elements);
    assert_eq!(other[8], t(208));
}

#[test]
fn vec_index_set() {
    let p = pis();
    let v = VecTargetIndex::<TargetIndex>::new(&p, &[t(108), t(100)]);
    let mut values = vec![0u64; 10];
    v.set_field(&mut values, vec![5, 6]);
    assert_eq!(values, vec![6, 0, 0, 0, 0, 0, 0, 0, 5, 0]);
    assert_eq!(v.get_field(&values), vec![5, 6]);
    // as far as both go
    v.set_field(&mut values, vec![9]);
    assert_eq!(v.get_field(&values), vec![9, 6]);
    let mut targets = p.clone();
    v.set_target(&mut targets, vec![t(1), t(2)]);
    assert_eq!(v.get_target(&targets), vec![t(1), t(2)]);
}
