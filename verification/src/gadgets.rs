//! Small circuits shared by the subcircuits: comparisons and selections of
//! digests, boolean reductions and event hashing.
use vstd::prelude::*;

use crate::circuit::{
    all_below, env_set, hash_in_field, holds, closed, completes, lemma_completes_trans, lemma_completes_weaken, lemma_push_completes, lemma_total_ext_completes,
    lemma_total_ext_push, lemma_total_ext_trans, plan_sat, same_below, total_ext, BoolTarget,
    CircuitBuilder, Env, HashOutTarget, MerkleCapTarget, Op, Target, VerifierCircuitTarget,
};
use crate::field::{fmod, lemma_fmod_small, p};

verus! {

/// All four targets hold booleans.
pub open spec fn all_bool4(e: Env, b: [BoolTarget; 4]) -> bool {
    forall|i: int| 0 <= i < 4 ==> #[trigger] e.is_bool(b[i].target)
}

/// All four targets hold one.
pub open spec fn all_true4(e: Env, b: [BoolTarget; 4]) -> bool {
    forall|i: int| 0 <= i < 4 ==> #[trigger] e.truth(b[i].target)
}

/// One of the four targets holds one.
pub open spec fn any_true4(e: Env, b: [BoolTarget; 4]) -> bool {
    exists|i: int| 0 <= i < 4 && #[trigger] e.truth(b[i].target)
}

/// The values of two arrays of targets are equal, element by element.
pub open spec fn same_vals<const N: usize>(e: Env, a: [Target; N], b: [Target; N]) -> bool {
    forall|i: int| 0 <= i < N ==> #[trigger] e.val(a[i]) == e.val(b[i])
}

/// All values of an array of targets are zero.
pub open spec fn all_zero<const N: usize>(e: Env, a: [Target; N]) -> bool {
    forall|i: int| 0 <= i < N ==> #[trigger] e.val(a[i]) == 0
}

/// `and`s four booleans together, pairwise.
pub fn and_helper(builder: &mut CircuitBuilder, bools: [BoolTarget; 4]) -> (r: BoolTarget)
    ensures
        final(builder).grows(*old(builder)),
        forall|e: Env|
            e.valid() && #[trigger] final(builder).sat(e) ==> e.val(r.target) == fmod(
                fmod(e.val(bools[0].target) * e.val(bools[1].target)) * fmod(
                    e.val(bools[2].target) * e.val(bools[3].target),
                ),
            ),
        forall|e: Env|
            e.valid() && #[trigger] final(builder).sat(e) && all_bool4(e, bools) ==> e.is_bool(
                r.target,
            ) && (e.truth(r.target) <==> all_true4(e, bools)),
        r.target.index < final(builder).ops@.len(),
        (forall|i: int| 0 <= i < 4 ==> (#[trigger] bools[i]).target.index < old(builder).ops@.len())
            ==> total_ext(old(builder).ops@, final(builder).ops@),
{
    let ghost b0 = *builder;
    let b01 = builder.and(bools[0], bools[1]);
    let ghost b1 = *builder;
    let b23 = builder.and(bools[2], bools[3]);
    let ghost b2 = *builder;
    let r = builder.and(b01, b23);
    proof {
        if forall|i: int| 0 <= i < 4 ==> (#[trigger] bools[i]).target.index < b0.ops@.len() {
            assert(bools[0].target.index < b0.ops@.len() && bools[1].target.index < b0.ops@.len());
            assert(bools[2].target.index < b0.ops@.len() && bools[3].target.index < b0.ops@.len());
            lemma_total_ext_push(b0.ops@, Op::And { a: bools[0].target, b: bools[1].target });
            lemma_total_ext_push(b1.ops@, Op::And { a: bools[2].target, b: bools[3].target });
            lemma_total_ext_push(b2.ops@, Op::And { a: b01.target, b: b23.target });
            lemma_total_ext_trans(b0.ops@, b1.ops@, b2.ops@);
            lemma_total_ext_trans(b0.ops@, b2.ops@, builder.ops@);
        }
    }
    proof {
        assert forall|e: Env|
            e.valid() && #[trigger] builder.sat(e) && all_bool4(e, bools) implies e.is_bool(
            r.target,
        ) && (e.truth(r.target) <==> all_true4(e, bools)) by {
            assert(e.is_bool(bools[0].target) && e.is_bool(bools[1].target));
            assert(e.is_bool(bools[2].target) && e.is_bool(bools[3].target));
            if !all_true4(e, bools) {
                let i = choose|i: int| 0 <= i < 4 && !#[trigger] e.truth(bools[i].target);
                assert(!e.truth(bools[i].target));
            }
        }
    }
    r
}

/// `or`s four booleans together, pairwise.
pub fn or_helper(builder: &mut CircuitBuilder, bools: [BoolTarget; 4]) -> (r: BoolTarget)
    ensures
        final(builder).grows(*old(builder)),
        forall|e: Env|
            e.valid() && #[trigger] final(builder).sat(e) && all_bool4(e, bools) ==> e.is_bool(
                r.target,
            ) && (e.truth(r.target) <==> any_true4(e, bools)),
{
    let b01 = builder.or(bools[0], bools[1]);
    let b23 = builder.or(bools[2], bools[3]);
    let r = builder.or(b01, b23);
    proof {
        assert forall|e: Env|
            e.valid() && #[trigger] builder.sat(e) && all_bool4(e, bools) implies e.is_bool(
            r.target,
        ) && (e.truth(r.target) <==> any_true4(e, bools)) by {
            assert(e.is_bool(bools[0].target) && e.is_bool(bools[1].target));
            assert(e.is_bool(bools[2].target) && e.is_bool(bools[3].target));
            if e.truth(bools[0].target) {
                assert(any_true4(e, bools));
            }
            if e.truth(bools[1].target) {
                assert(any_true4(e, bools));
            }
            if e.truth(bools[2].target) {
                assert(any_true4(e, bools));
            }
            if e.truth(bools[3].target) {
                assert(any_true4(e, bools));
            }
        }
    }
    r
}

/// One when the two arrays hold equal values, element by element.
pub fn are_equal(builder: &mut CircuitBuilder, a: [Target; 4], b: [Target; 4]) -> (r: BoolTarget)
    ensures
        final(builder).grows(*old(builder)),
        forall|e: Env|
            e.valid() && #[trigger] final(builder).sat(e) ==> e.is_bool(r.target) && (e.truth(
                r.target,
            ) <==> same_vals(e, a, b)),
{
    let e0 = builder.is_equal(a[0], b[0]);
    let e1 = builder.is_equal(a[1], b[1]);
    let e2 = builder.is_equal(a[2], b[2]);
    let e3 = builder.is_equal(a[3], b[3]);
    let eqs = [e0, e1, e2, e3];
    let r = and_helper(builder, eqs);
    proof {
        assert forall|e: Env| e.valid() && #[trigger] builder.sat(e) implies e.is_bool(r.target) && (
        e.truth(r.target) <==> same_vals(e, a, b)) by {
            assert(all_bool4(e, eqs));
            if all_true4(e, eqs) {
                assert forall|i: int| 0 <= i < 4 implies #[trigger] e.val(a[i]) == e.val(b[i]) by {
                    assert(e.truth(eqs[i].target));
                }
            }
            if same_vals(e, a, b) {
                assert forall|i: int| 0 <= i < 4 implies #[trigger] e.truth(eqs[i].target) by {
                    assert(e.val(a[i]) == e.val(b[i]));
                }
            }
        }
    }
    r
}

/// One when the two digests are equal.
pub fn hashes_equal(builder: &mut CircuitBuilder, h0: HashOutTarget, h1: HashOutTarget) -> (r:
    BoolTarget)
    ensures
        final(builder).grows(*old(builder)),
        forall|e: Env|
            e.valid() && #[trigger] final(builder).sat(e) ==> e.is_bool(r.target) && (e.truth(
                r.target,
            ) <==> same_vals(e, h0.elements, h1.elements)),
{
    are_equal(builder, h0.elements, h1.elements)
}

/// One when some element of the digest is not zero.
pub fn hash_is_nonzero(builder: &mut CircuitBuilder, h0: HashOutTarget) -> (r: BoolTarget)
    ensures
        final(builder).grows(*old(builder)),
        forall|e: Env|
            e.valid() && #[trigger] final(builder).sat(e) ==> e.is_bool(r.target) && (e.truth(
                r.target,
            ) <==> !all_zero(e, h0.elements)),
{
    let a = h0.elements;
    let n0 = builder.is_nonzero(a[0]);
    let n1 = builder.is_nonzero(a[1]);
    let n2 = builder.is_nonzero(a[2]);
    let n3 = builder.is_nonzero(a[3]);
    let ns = [n0, n1, n2, n3];
    let r = or_helper(builder, ns);
    proof {
        assert forall|e: Env| e.valid() && #[trigger] builder.sat(e) implies e.is_bool(r.target) && (
        e.truth(r.target) <==> !all_zero(e, a)) by {
            assert(all_bool4(e, ns));
            if any_true4(e, ns) {
                let i = choose|i: int| 0 <= i < 4 && #[trigger] e.truth(ns[i].target);
                assert(e.val(a[i]) != 0);
            }
            if !all_zero(e, a) {
                let i = choose|i: int| 0 <= i < 4 && #[trigger] e.val(a[i]) != 0;
                assert(e.truth(ns[i].target));
            }
        }
    }
    r
}

/// One when every element of the array is zero.
pub fn are_zero(builder: &mut CircuitBuilder, a: [Target; 4]) -> (r: BoolTarget)
    ensures
        final(builder).grows(*old(builder)),
        old(builder).ops@.len() <= final(builder).ops@.len(),
        forall|e: Env|
            e.valid() && #[trigger] final(builder).sat(e) ==> e.is_bool(r.target) && (e.truth(
                r.target,
            ) <==> all_zero(e, a)),
        r.target.index < final(builder).ops@.len(),
        (forall|i: int| 0 <= i < 4 ==> (#[trigger] a[i]).index < old(builder).ops@.len()) ==> total_ext(
            old(builder).ops@,
            final(builder).ops@,
        ),
{
    let ghost g0 = *builder;
    let n0 = builder.is_nonzero(a[0]);
    let ghost g1 = *builder;
    let z0 = builder.not(n0);
    let ghost g2 = *builder;
    let n1 = builder.is_nonzero(a[1]);
    let ghost g3 = *builder;
    let z1 = builder.not(n1);
    let ghost g4 = *builder;
    let n2 = builder.is_nonzero(a[2]);
    let ghost g5 = *builder;
    let z2 = builder.not(n2);
    let ghost g6 = *builder;
    let n3 = builder.is_nonzero(a[3]);
    let ghost g7 = *builder;
    let z3 = builder.not(n3);
    let ghost g8 = *builder;
    let zs = [z0, z1, z2, z3];
    let r = and_helper(builder, zs);
    proof {
        if forall|i: int| 0 <= i < 4 ==> (#[trigger] a[i]).index < g0.ops@.len() {
            assert(a[0].index < g0.ops@.len() && a[1].index < g0.ops@.len());
            assert(a[2].index < g0.ops@.len() && a[3].index < g0.ops@.len());
            lemma_total_ext_push(g1.ops@, Op::Not { b: n0.target });
            lemma_total_ext_trans(g0.ops@, g1.ops@, g2.ops@);
            lemma_total_ext_trans(g0.ops@, g2.ops@, g3.ops@);
            lemma_total_ext_push(g3.ops@, Op::Not { b: n1.target });
            lemma_total_ext_trans(g0.ops@, g3.ops@, g4.ops@);
            lemma_total_ext_trans(g0.ops@, g4.ops@, g5.ops@);
            lemma_total_ext_push(g5.ops@, Op::Not { b: n2.target });
            lemma_total_ext_trans(g0.ops@, g5.ops@, g6.ops@);
            lemma_total_ext_trans(g0.ops@, g6.ops@, g7.ops@);
            lemma_total_ext_push(g7.ops@, Op::Not { b: n3.target });
            lemma_total_ext_trans(g0.ops@, g7.ops@, g8.ops@);
            assert(forall|i: int| 0 <= i < 4 ==> (#[trigger] zs[i]).target.index < g8.ops@.len());
            lemma_total_ext_trans(g0.ops@, g8.ops@, builder.ops@);
        }
    }
    proof {
        assert forall|e: Env| e.valid() && #[trigger] builder.sat(e) implies e.is_bool(r.target) && (
        e.truth(r.target) <==> all_zero(e, a)) by {
            assert(all_bool4(e, zs));
            if all_true4(e, zs) {
                assert forall|i: int| 0 <= i < 4 implies #[trigger] e.val(a[i]) == 0 by {
                    assert(e.truth(zs[i].target));
                }
            }
            if all_zero(e, a) {
                assert forall|i: int| 0 <= i < 4 implies #[trigger] e.truth(zs[i].target) by {
                    assert(e.val(a[i]) == 0);
                }
            }
        }
    }
    r
}

/// One when every element of the digest is zero.
pub fn hash_is_zero(builder: &mut CircuitBuilder, h0: HashOutTarget) -> (r: BoolTarget)
    ensures
        final(builder).grows(*old(builder)),
        old(builder).ops@.len() <= final(builder).ops@.len(),
        forall|e: Env|
            e.valid() && #[trigger] final(builder).sat(e) ==> e.is_bool(r.target) && (e.truth(
                r.target,
            ) <==> all_zero(e, h0.elements)),
        r.target.index < final(builder).ops@.len(),
        (forall|i: int| 0 <= i < 4 ==> (#[trigger] h0.elements[i]).index < old(builder).ops@.len())
            ==> total_ext(old(builder).ops@, final(builder).ops@),
{
    are_zero(builder, h0.elements)
}

/// `if b { h0 } else { h1 }`, element by element.
pub fn select_hash(builder: &mut CircuitBuilder, b: BoolTarget, h0: HashOutTarget, h1: HashOutTarget) -> (r:
    HashOutTarget)
    ensures
        final(builder).grows(*old(builder)),
        forall|e: Env|
            e.valid() && #[trigger] final(builder).sat(e) && e.is_bool(b.target) ==> same_vals(
                e,
                r.elements,
                if e.truth(b.target) {
                    h0.elements
                } else {
                    h1.elements
                },
            ),
        forall|k: int| 0 <= k < 4 ==> (#[trigger] r.elements[k]).index < final(builder).ops@.len(),
        b.target.index < old(builder).ops@.len() && all_below(h0.elements@, old(builder).ops@.len())
            && all_below(h1.elements@, old(builder).ops@.len()) ==> total_ext(
            old(builder).ops@,
            final(builder).ops@,
        ),
{
    let ghost g0 = *builder;
    let s0 = builder.select(b, h0.elements[0], h1.elements[0]);
    let ghost g1 = *builder;
    let s1 = builder.select(b, h0.elements[1], h1.elements[1]);
    let ghost g2 = *builder;
    let s2 = builder.select(b, h0.elements[2], h1.elements[2]);
    let ghost g3 = *builder;
    let s3 = builder.select(b, h0.elements[3], h1.elements[3]);
    let r = HashOutTarget { elements: [s0, s1, s2, s3] };
    proof {
        if b.target.index < g0.ops@.len() && all_below(h0.elements@, g0.ops@.len()) && all_below(
            h1.elements@,
            g0.ops@.len(),
        ) {
            assert(h0.elements@[0] == h0.elements[0] && h1.elements@[0] == h1.elements[0]);
            assert(h0.elements@[1] == h0.elements[1] && h1.elements@[1] == h1.elements[1]);
            assert(h0.elements@[2] == h0.elements[2] && h1.elements@[2] == h1.elements[2]);
            assert(h0.elements@[3] == h0.elements[3] && h1.elements@[3] == h1.elements[3]);
            lemma_total_ext_push(g0.ops@, Op::Select { b: b.target, x: h0.elements[0], y: h1.elements[0] });
            lemma_total_ext_push(g1.ops@, Op::Select { b: b.target, x: h0.elements[1], y: h1.elements[1] });
            lemma_total_ext_push(g2.ops@, Op::Select { b: b.target, x: h0.elements[2], y: h1.elements[2] });
            lemma_total_ext_push(g3.ops@, Op::Select { b: b.target, x: h0.elements[3], y: h1.elements[3] });
            lemma_total_ext_trans(g0.ops@, g1.ops@, g2.ops@);
            lemma_total_ext_trans(g0.ops@, g2.ops@, g3.ops@);
            lemma_total_ext_trans(g0.ops@, g3.ops@, builder.ops@);
        }
    }
    proof {
        assert forall|e: Env|
            e.valid() && #[trigger] builder.sat(e) && e.is_bool(b.target) implies same_vals(
            e,
            r.elements,
            if e.truth(b.target) {
                h0.elements
            } else {
                h1.elements
            },
        ) by {
            let t = if e.truth(b.target) {
                h0.elements
            } else {
                h1.elements
            };
            assert forall|i: int| 0 <= i < 4 implies #[trigger] e.val(r.elements[i]) == e.val(
                t[i],
            ) by {
                if i == 0 {
                } else if i == 1 {
                } else if i == 2 {
                } else {
                }
            }
        }
    }
    r
}

/// `if b { cap0 } else { cap1 }`, digest by digest; the caps have the same
/// length.
pub fn select_cap(
    builder: &mut CircuitBuilder,
    b: BoolTarget,
    cap0: &MerkleCapTarget,
    cap1: &MerkleCapTarget,
) -> (r: MerkleCapTarget)
    requires
        cap0.0@.len() == cap1.0@.len(),
    ensures
        final(builder).grows(*old(builder)),
        r.0@.len() == cap0.0@.len(),
        forall|e: Env|
            e.valid() && #[trigger] final(builder).sat(e) && e.is_bool(b.target) ==> forall|k: int|
                #![trigger r.0@[k]]
                0 <= k < r.0@.len() ==> same_vals(
                    e,
                    r.0@[k].elements,
                    if e.truth(b.target) {
                        cap0.0@[k].elements
                    } else {
                        cap1.0@[k].elements
                    },
                ),
{
    let mut r: Vec<HashOutTarget> = Vec::new();
    let mut k: usize = 0;
    while k < cap0.0.len()
        invariant
            k <= cap0.0@.len(),
            cap0.0@.len() == cap1.0@.len(),
            r@.len() == k,
            builder.grows(*old(builder)),
            forall|e: Env|
                e.valid() && #[trigger] builder.sat(e) && e.is_bool(b.target) ==> forall|j: int|
                    #![trigger r@[j]]
                    0 <= j < k ==> same_vals(
                        e,
                        r@[j].elements,
                        if e.truth(b.target) {
                            cap0.0@[j].elements
                        } else {
                            cap1.0@[j].elements
                        },
                    ),
        decreases cap0.0@.len() - k,
    {
        let h = select_hash(builder, b, cap0.0[k], cap1.0[k]);
        r.push(h);
        k = k + 1;
    }
    MerkleCapTarget(r)
}

/// `if b { v0 } else { v1 }` for verifier data with caps of the same length.
pub fn select_verifier(
    builder: &mut CircuitBuilder,
    b: BoolTarget,
    v0: &VerifierCircuitTarget,
    v1: &VerifierCircuitTarget,
) -> (r: VerifierCircuitTarget)
    requires
        v0.constants_sigmas_cap.0@.len() == v1.constants_sigmas_cap.0@.len(),
    ensures
        final(builder).grows(*old(builder)),
        r.constants_sigmas_cap.0@.len() == v0.constants_sigmas_cap.0@.len(),
        forall|e: Env|
            e.valid() && #[trigger] final(builder).sat(e) && e.is_bool(b.target) ==> {
                &&& same_vals(
                    e,
                    r.circuit_digest.elements,
                    if e.truth(b.target) {
                        v0.circuit_digest.elements
                    } else {
                        v1.circuit_digest.elements
                    },
                )
                &&& forall|k: int|
                    #![trigger r.constants_sigmas_cap.0@[k]]
                    0 <= k < r.constants_sigmas_cap.0@.len() ==> same_vals(
                        e,
                        r.constants_sigmas_cap.0@[k].elements,
                        if e.truth(b.target) {
                            v0.constants_sigmas_cap.0@[k].elements
                        } else {
                            v1.constants_sigmas_cap.0@[k].elements
                        },
                    )
            },
{
    let cap = select_cap(builder, b, &v0.constants_sigmas_cap, &v1.constants_sigmas_cap);
    let digest = select_hash(builder, b, v0.circuit_digest, v1.circuit_digest);
    VerifierCircuitTarget { constants_sigmas_cap: cap, circuit_digest: digest }
}

/// The sequence of the values of two digests, one after the other.
pub open spec fn pair_vals(e: Env, l: [Target; 4], r: [Target; 4]) -> Seq<int> {
    e.vals(l@ + r@)
}

/// Hashes left and right together when both are present, and otherwise
/// forwards their element-wise sum (an absent side is zero).
pub fn hash_or_forward(
    builder: &mut CircuitBuilder,
    left_present: BoolTarget,
    left: [Target; 4],
    right_present: BoolTarget,
    right: [Target; 4],
) -> (r: HashOutTarget)
    ensures
        final(builder).grows(*old(builder)),
        forall|e: Env|
            e.valid() && #[trigger] final(builder).sat(e) && e.is_bool(left_present.target)
                && e.is_bool(right_present.target) ==> forall|i: int|
                0 <= i < 4 ==> #[trigger] e.val(r.elements[i]) == if e.truth(left_present.target)
                    && e.truth(right_present.target) {
                    e.hash(pair_vals(e, left, right))[i]
                } else {
                    fmod(e.val(left[i]) + e.val(right[i]))
                },
        forall|k: int| 0 <= k < 4 ==> (#[trigger] r.elements[k]).index < final(builder).ops@.len(),
        old(builder).ops@.len() <= final(builder).ops@.len(),
        left_present.target.index < old(builder).ops@.len() && right_present.target.index < old(
            builder,
        ).ops@.len() && all_below(left@, old(builder).ops@.len()) && all_below(
            right@,
            old(builder).ops@.len(),
        ) ==> completes(
            old(builder).ops@,
            final(builder).ops@,
            |e: Env| hash_in_field(e, pair_vals(e, left, right)),
        ),
        left_present.target.index < old(builder).ops@.len() && right_present.target.index < old(
            builder,
        ).ops@.len() && all_below(left@, old(builder).ops@.len()) && all_below(
            right@,
            old(builder).ops@.len(),
        ) && closed(old(builder).ops@) ==> closed(final(builder).ops@),
{
    let ghost h0 = *builder;
    let both_present = builder.and(left_present, right_present);
    let ghost h1 = *builder;
    let mut inputs: Vec<Target> = Vec::new();
    inputs.push(left[0]);
    inputs.push(left[1]);
    inputs.push(left[2]);
    inputs.push(left[3]);
    inputs.push(right[0]);
    inputs.push(right[1]);
    inputs.push(right[2]);
    inputs.push(right[3]);
    assert(inputs@ =~= left@ + right@);
    let ghost ins = inputs@;
    let hash_both = builder.hash_n_to_hash_no_pad(inputs);
    let ghost h2 = *builder;
    let a0 = builder.add(left[0], right[0]);
    let ghost h3 = *builder;
    let a1 = builder.add(left[1], right[1]);
    let ghost h4 = *builder;
    let a2 = builder.add(left[2], right[2]);
    let ghost h5 = *builder;
    let a3 = builder.add(left[3], right[3]);
    let ghost h6 = *builder;
    let hash_absent = HashOutTarget { elements: [a0, a1, a2, a3] };
    let r = select_hash(builder, both_present, hash_both, hash_absent);
    proof {
        assert(h6.ops@.len() == h6.ops.len());
        assert(builder.ops@.len() == builder.ops.len());
        let m = h0.ops@.len();
        if left_present.target.index < m && right_present.target.index < m && all_below(left@, m)
            && all_below(right@, m) {
            let pre = |e: Env| hash_in_field(e, pair_vals(e, left, right));
            let t = |e: Env| true;
            let pre_h = |e: Env| hash_in_field(e, e.vals(ins));
            lemma_total_ext_push(h0.ops@, Op::And { a: left_present.target, b: right_present.target });
            lemma_total_ext_completes(h0.ops@, h1.ops@);
            lemma_completes_weaken(h0.ops@, h1.ops@, t, pre);
            assert(all_below(ins, h1.ops@.len())) by {
                assert forall|k: int| 0 <= k < ins.len() implies (#[trigger] ins[k]).index < h1.ops@.len() by {
                    if k < 4 {
                        assert(ins[k] == left@[k]);
                    } else {
                        assert(ins[k] == right@[k - 4]);
                    }
                }
            }
            assert forall|e: Env, e2: Env|
                #![trigger pre(e), pre_h(e2)]
                e.valid() && plan_sat(h0.ops@, e) && pre(e) && e2.valid() && plan_sat(h1.ops@, e2)
                    && same_below(e, e2, m) implies pre_h(e2) by {
                assert(all_below(ins, m)) by {
                    assert forall|k: int| 0 <= k < ins.len() implies (#[trigger] ins[k]).index < m by {
                        if k < 4 {
                            assert(ins[k] == left@[k]);
                        } else {
                            assert(ins[k] == right@[k - 4]);
                        }
                    }
                }
                crate::circuit::lemma_vals_frame(e, e2, m, ins);
                assert(ins == left@ + right@);
                assert(e.vals(ins) == pair_vals(e, left, right));
                assert(e2.h == e.h);
                assert forall|k: int| 0 <= k < 4 implies 0 <= #[trigger] e2.hash(e2.vals(ins))[k] < p() by {
                    assert(0 <= e.hash(pair_vals(e, left, right))[k] < p());
                }
            }
            lemma_completes_trans(h0.ops@, h1.ops@, h2.ops@, pre, pre_h);
            assert(left@[0] == left[0] && right@[0] == right[0]);
            assert(left@[1] == left[1] && right@[1] == right[1]);
            assert(left@[2] == left[2] && right@[2] == right[2]);
            assert(left@[3] == left[3] && right@[3] == right[3]);
            lemma_total_ext_push(h2.ops@, Op::Add { x: left[0], y: right[0] });
            lemma_total_ext_push(h3.ops@, Op::Add { x: left[1], y: right[1] });
            lemma_total_ext_push(h4.ops@, Op::Add { x: left[2], y: right[2] });
            lemma_total_ext_push(h5.ops@, Op::Add { x: left[3], y: right[3] });
            lemma_total_ext_trans(h2.ops@, h3.ops@, h4.ops@);
            lemma_total_ext_trans(h2.ops@, h4.ops@, h5.ops@);
            lemma_total_ext_trans(h2.ops@, h5.ops@, h6.ops@);
            assert(forall|k: int| 0 <= k < 4 ==> (#[trigger] hash_both.elements@[k]).index < h6.ops@.len());
            assert(forall|k: int| 0 <= k < 4 ==> (#[trigger] hash_absent.elements@[k]).index < h6.ops@.len());
            lemma_total_ext_trans(h2.ops@, h6.ops@, builder.ops@);
            lemma_total_ext_completes(h2.ops@, builder.ops@);
            lemma_completes_trans(h0.ops@, h2.ops@, builder.ops@, pre, t);
        }
    }
    proof {
        assert forall|e: Env|
            e.valid() && #[trigger] builder.sat(e) && e.is_bool(left_present.target) && e.is_bool(
                right_present.target,
            ) implies forall|i: int|
            0 <= i < 4 ==> #[trigger] e.val(r.elements[i]) == if e.truth(left_present.target)
                && e.truth(right_present.target) {
                e.hash(pair_vals(e, left, right))[i]
            } else {
                fmod(e.val(left[i]) + e.val(right[i]))
            } by {
            assert(e.is_bool(both_present.target));
            assert forall|i: int| 0 <= i < 4 implies #[trigger] e.val(r.elements[i]) == if e.truth(
                left_present.target,
            ) && e.truth(right_present.target) {
                e.hash(pair_vals(e, left, right))[i]
            } else {
                fmod(e.val(left[i]) + e.val(right[i]))
            } by {
                if e.truth(both_present.target) {
                    assert(e.val(r.elements[i]) == e.val(hash_both.elements[i]));
                } else {
                    assert(e.val(r.elements[i]) == e.val(hash_absent.elements[i]));
                    if i == 0 {
                    } else if i == 1 {
                    } else if i == 2 {
                    } else {
                    }
                }
            }
        }
    }
    r
}

/// The sum of the values of some targets, in the field.
pub open spec fn sum_vals(e: Env, ts: Seq<BoolTarget>) -> int
    decreases ts.len(),
{
    if ts.len() == 0 {
        0
    } else {
        fmod(sum_vals(e, ts.drop_last()) + e.val(ts.last().target))
    }
}

/// The plain sum of the values of some targets.
pub open spec fn int_sum(e: Env, ts: Seq<BoolTarget>) -> int
    decreases ts.len(),
{
    if ts.len() == 0 {
        0
    } else {
        int_sum(e, ts.drop_last()) + e.val(ts.last().target)
    }
}

/// With booleans, the plain sum is zero only when none is one, and it is
/// at most the number of targets.
proof fn lemma_int_sum_bools(e: Env, ts: Seq<BoolTarget>)
    requires
        forall|i: int| 0 <= i < ts.len() ==> #[trigger] e.is_bool(ts[i].target),
    ensures
        0 <= int_sum(e, ts) <= ts.len(),
        int_sum(e, ts) == 0 ==> forall|i: int| 0 <= i < ts.len() ==> !#[trigger] e.truth(
            ts[i].target,
        ),
    decreases ts.len(),
{
    if ts.len() > 0 {
        let init = ts.drop_last();
        assert forall|i: int| 0 <= i < init.len() implies #[trigger] e.is_bool(init[i].target) by {
            assert(init[i] == ts[i]);
        }
        lemma_int_sum_bools(e, init);
        assert(e.is_bool(ts[ts.len() - 1].target));
        if int_sum(e, ts) == 0 {
            assert forall|i: int| 0 <= i < ts.len() implies !#[trigger] e.truth(ts[i].target) by {
                if i < ts.len() - 1 {
                    assert(init[i] == ts[i]);
                }
            }
        }
    }
}

/// The field sum is the plain sum reduced.
proof fn lemma_sum_vals(e: Env, ts: Seq<BoolTarget>)
    requires
        e.valid(),
    ensures
        sum_vals(e, ts) == fmod(int_sum(e, ts)),
    decreases ts.len(),
{
    if ts.len() == 0 {
        lemma_fmod_small(0);
    } else {
        lemma_sum_vals(e, ts.drop_last());
        vstd::arithmetic::div_mod::lemma_add_mod_noop(
            int_sum(e, ts.drop_last()),
            e.val(ts.last().target),
            p(),
        );
        lemma_fmod_small(e.val(ts.last().target));
    }
}

/// Every target is among the first `n`.
pub open spec fn all_bool_below(ts: Seq<BoolTarget>, n: nat) -> bool {
    forall|i: int| 0 <= i < ts.len() ==> (#[trigger] ts[i]).target.index < n
}

/// The sum of targets below `n` is the same in environments that agree below
/// `n`.
pub proof fn lemma_sum_vals_frame(e1: Env, e2: Env, n: nat, ts: Seq<BoolTarget>)
    requires
        same_below(e1, e2, n),
        all_bool_below(ts, n),
    ensures
        sum_vals(e1, ts) == sum_vals(e2, ts),
    decreases ts.len(),
{
    if ts.len() > 0 {
        let t = ts.drop_last();
        assert forall|i: int| 0 <= i < t.len() implies (#[trigger] t[i]).target.index < n by {
            assert(t[i] == ts[i]);
        }
        lemma_sum_vals_frame(e1, e2, n, t);
        assert(ts.last().target.index < n);
        assert((e1.w)(ts.last().target) == (e2.w)(ts.last().target));
    }
}

/// Two booleans of which one is true have a non-zero sum.
pub proof fn lemma_two_sum(e: Env, a: BoolTarget, b: BoolTarget)
    requires
        e.is_bool(a.target),
        e.is_bool(b.target),
        e.truth(a.target) || e.truth(b.target),
    ensures
        sum_vals(e, seq![a, b]) != 0,
{
    let s = seq![a, b];
    assert(s.drop_last() =~= seq![a]);
    assert(seq![a].drop_last() =~= Seq::<BoolTarget>::empty());
    assert(sum_vals(e, Seq::<BoolTarget>::empty()) == 0);
    assert(seq![a].last() == a && s.last() == b);
    lemma_fmod_small(e.val(a.target));
    lemma_fmod_small(e.val(a.target) + e.val(b.target));
    assert(sum_vals(e, seq![a]) == fmod(0 + e.val(a.target)));
    assert(sum_vals(e, s) == fmod(sum_vals(e, seq![a]) + e.val(b.target)));
}

/// Requires that some target holds a non-zero sum: with booleans, that one of
/// them is true. Adds nothing when there are no targets.
pub fn at_least_one_true(builder: &mut CircuitBuilder, targets: Vec<BoolTarget>)
    ensures
        final(builder).grows(*old(builder)),
        old(builder).ops@.len() <= final(builder).ops@.len(),
        all_bool_below(targets@, old(builder).ops@.len()) ==> completes(
            old(builder).ops@,
            final(builder).ops@,
            |e: Env| sum_vals(e, targets@) != 0,
        ),
        all_bool_below(targets@, old(builder).ops@.len()) && closed(old(builder).ops@) ==> closed(
            final(builder).ops@,
        ),
        targets@.len() == 0 ==> *final(builder) == *old(builder),
        targets@.len() > 0 ==> forall|e: Env|
            e.valid() && #[trigger] final(builder).sat(e) ==> sum_vals(e, targets@) != 0,
        targets@.len() > 0 ==> forall|e: Env|
            e.valid() && #[trigger] final(builder).sat(e) && targets@.len() < p() && (forall|i: int|
                0 <= i < targets@.len() ==> #[trigger] e.is_bool(targets@[i].target)) ==> exists|
                i: int,
            |
                0 <= i < targets@.len() && #[trigger] e.truth(targets@[i].target),
{
    let ghost b0 = *builder;
    if targets.len() == 0 {
        proof {
            if closed(b0.ops@) {
                assert forall|e: Env|
                    e.valid() && #[trigger] plan_sat(b0.ops@, e) && (|e: Env| sum_vals(e, targets@) != 0)(e)
                    implies exists|e2: Env|
                    e2.valid() && #[trigger] plan_sat(b0.ops@, e2) && same_below(e, e2, b0.ops@.len()) by {
                    assert(same_below(e, e, b0.ops@.len()));
                }
            }
        }
        return ;
    }
    let first = targets[0];
    let mut total = first.target;
    let mut k: usize = 1;
    proof {
        assert(b0.ops@.subrange(0, b0.ops@.len() as int) =~= b0.ops@);
        if all_bool_below(targets@, b0.ops@.len()) {
            assert(targets@[0].target.index < b0.ops@.len());
        }
        assert(targets@.subrange(0, 1).drop_last() =~= Seq::<BoolTarget>::empty());
        assert forall|e: Env| e.valid() && #[trigger] builder.sat(e) implies e.val(total)
            == sum_vals(e, targets@.subrange(0, 1)) by {
            let s1 = targets@.subrange(0, 1);
            assert(sum_vals(e, s1.drop_last()) == 0);
            assert(s1.last() == first);
            lemma_fmod_small(e.val(total));
        }
    }
    while k < targets.len()
        invariant
            1 <= k <= targets@.len(),
            builder.grows(*old(builder)),
            b0 == *old(builder),
            all_bool_below(targets@, b0.ops@.len()) ==> total.index < builder.ops@.len(),
            b0.ops@.len() <= builder.ops@.len(),
            all_bool_below(targets@, b0.ops@.len()) ==> total_ext(b0.ops@, builder.ops@),
            forall|e: Env|
                e.valid() && #[trigger] builder.sat(e) ==> e.val(total) == sum_vals(
                    e,
                    targets@.subrange(0, k as int),
                ),
        decreases targets@.len() - k,
    {
        let t = targets[k];
        let ghost bk = *builder;
        let ghost prev = total;
        total = builder.add(total, t.target);
        proof {
            assert(targets@.subrange(0, k + 1).drop_last() =~= targets@.subrange(0, k as int));
            if all_bool_below(targets@, b0.ops@.len()) {
                assert(targets@[k as int].target.index < b0.ops@.len());
                assert(bk.ops@.len() == bk.ops.len());
                lemma_total_ext_push(bk.ops@, Op::Add { x: prev, y: t.target });
                lemma_total_ext_trans(b0.ops@, bk.ops@, builder.ops@);
            }
        }
        k = k + 1;
    }
    let ghost bl = *builder;
    let _ = builder.div(total, total);
    proof {
        assert(builder.ops@.len() == builder.ops.len());
        if all_bool_below(targets@, b0.ops@.len()) {
            let pre = |e: Env| sum_vals(e, targets@) != 0;
            let t = |e: Env| true;
            let pre3 = |e: Env| e.val(total) != 0;
            assert forall|e: Env| #![trigger pre3(e)] e.valid() && pre3(e) implies 0 <= (|e: Env| 1int)(e)
                < p() && holds(
                Op::Div { x: total, y: total },
                bl.ops@.len() as int,
                env_set(e, bl.ops@.len(), (|e: Env| 1int)(e)),
            ) by {
                let e2 = env_set(e, bl.ops@.len(), 1);
                assert(crate::circuit::target_at(bl.ops@.len() as int).index == bl.ops@.len());
                assert(total.index != bl.ops@.len());
                assert(e2.val(total) == e.val(total));
                assert(e2.val(crate::circuit::target_at(bl.ops@.len() as int)) == 1);
                assert(0 <= (e.w)(total) < p());
                lemma_fmod_small(e.val(total));
                assert(1 * e.val(total) == e.val(total));
                assert(holds(Op::Div { x: total, y: total }, bl.ops@.len() as int, e2));
            }
            lemma_push_completes(bl.ops@, builder.ops@, Op::Div { x: total, y: total }, |e: Env| 1int, pre3);
            lemma_total_ext_completes(b0.ops@, bl.ops@);
            lemma_completes_weaken(b0.ops@, bl.ops@, t, pre);
            assert forall|e: Env, e2: Env|
                #![trigger pre(e), pre3(e2)]
                e.valid() && plan_sat(b0.ops@, e) && pre(e) && e2.valid() && plan_sat(bl.ops@, e2)
                    && same_below(e, e2, b0.ops@.len()) implies pre3(e2) by {
                assert(bl.sat(e2));
                assert(targets@.subrange(0, targets@.len() as int) =~= targets@);
                assert(e2.val(total) == sum_vals(e2, targets@));
                lemma_sum_vals_frame(e, e2, b0.ops@.len(), targets@);
            }
            lemma_completes_trans(b0.ops@, bl.ops@, builder.ops@, pre, pre3);
        }
    }
    proof {
        assert(targets@.subrange(0, targets@.len() as int) =~= targets@);
        assert forall|e: Env|
            e.valid() && #[trigger] builder.sat(e) && targets@.len() < p() && (forall|i: int|
                0 <= i < targets@.len() ==> #[trigger] e.is_bool(
                    targets@[i].target,
                )) implies exists|i: int|
            0 <= i < targets@.len() && #[trigger] e.truth(targets@[i].target) by {
            lemma_int_sum_bools(e, targets@);
            lemma_sum_vals(e, targets@);
            if int_sum(e, targets@) == 0 {
                lemma_fmod_small(0);
            } else {
                lemma_fmod_small(int_sum(e, targets@));
                if forall|i: int| 0 <= i < targets@.len() ==> !#[trigger] e.truth(targets@[i].target) {
                    lemma_int_sum_zero(e, targets@);
                }
            }
        }
    }
}

/// Booleans none of which is one sum to zero.
proof fn lemma_int_sum_zero(e: Env, ts: Seq<BoolTarget>)
    requires
        forall|i: int| 0 <= i < ts.len() ==> #[trigger] e.is_bool(ts[i].target),
        forall|i: int| 0 <= i < ts.len() ==> !#[trigger] e.truth(ts[i].target),
    ensures
        int_sum(e, ts) == 0,
    decreases ts.len(),
{
    if ts.len() > 0 {
        let init = ts.drop_last();
        assert forall|i: int| 0 <= i < init.len() implies #[trigger] e.is_bool(init[i].target)
            && !e.truth(init[i].target) by {
            assert(init[i] == ts[i]);
        }
        lemma_int_sum_zero(e, init);
        assert(e.is_bool(ts[ts.len() - 1].target) && !e.truth(ts[ts.len() - 1].target));
    }
}

/// What `maybe_connect` accepts: the flag is a boolean, and when it is one
/// the two arrays hold the same values.
pub open spec fn maybe_same<const N: usize>(e: Env, x: [Target; N], maybe_v: BoolTarget, v: [Target; N]) -> bool {
    e.is_bool(maybe_v.target) && (e.truth(maybe_v.target) ==> same_vals(e, x, v))
}

/// Connects `x` to `v`, element by element, when `maybe_v` is one.
pub fn maybe_connect<const N: usize>(
    builder: &mut CircuitBuilder,
    x: [Target; N],
    maybe_v: BoolTarget,
    v: [Target; N],
)
    ensures
        final(builder).grows(*old(builder)),
        forall|e: Env|
            e.valid() && #[trigger] final(builder).sat(e) ==> forall|i: int|
                0 <= i < N ==> #[trigger] e.val(x[i]) == fmod(
                    e.val(maybe_v.target) * e.val(v[i]) - e.val(maybe_v.target) * e.val(x[i])
                        + e.val(x[i]),
                ),
        forall|e: Env|
            e.valid() && #[trigger] final(builder).sat(e) && e.truth(maybe_v.target) ==> same_vals(
                e,
                x,
                v,
            ),
        old(builder).ops@.len() <= final(builder).ops@.len(),
        maybe_v.target.index < old(builder).ops@.len() && all_below(x@, old(builder).ops@.len())
            && all_below(v@, old(builder).ops@.len()) ==> completes(
            old(builder).ops@,
            final(builder).ops@,
            |e: Env| maybe_same(e, x, maybe_v, v),
        ),
        maybe_v.target.index < old(builder).ops@.len() && all_below(x@, old(builder).ops@.len())
            && all_below(v@, old(builder).ops@.len()) && closed(old(builder).ops@) ==> closed(
            final(builder).ops@,
        ),
{
    let ghost o = builder.ops@;
    let ghost n0 = o.len();
    let ghost below = maybe_v.target.index < n0 && all_below(x@, n0) && all_below(v@, n0);
    let ghost pre = |e: Env| maybe_same(e, x, maybe_v, v);
    proof {
        if below && closed(o) {
            assert forall|e: Env| e.valid() && #[trigger] plan_sat(o, e) && pre(e) implies exists|e2: Env|
                e2.valid() && #[trigger] plan_sat(o, e2) && same_below(e, e2, n0) by {
                assert(same_below(e, e, n0));
            }
        }
    }
    let mut k: usize = 0;
    while k < N
        invariant
            k <= N,
            builder.grows(*old(builder)),
            o == old(builder).ops@,
            n0 == o.len(),
            below == (maybe_v.target.index < n0 && all_below(x@, n0) && all_below(v@, n0)),
            pre == (|e: Env| maybe_same(e, x, maybe_v, v)),
            n0 <= builder.ops@.len(),
            builder.ops@.len() == builder.ops.len(),
            below ==> completes(o, builder.ops@, pre),
            below && closed(o) ==> closed(builder.ops@),
            forall|e: Env|
                e.valid() && #[trigger] builder.sat(e) ==> forall|i: int|
                    0 <= i < k ==> #[trigger] e.val(x[i]) == fmod(
                        e.val(maybe_v.target) * e.val(v[i]) - e.val(maybe_v.target) * e.val(x[i])
                            + e.val(x[i]),
                    ),
        decreases N - k,
    {
        let ghost c0 = *builder;
        let child = builder.select(maybe_v, v[k], x[k]);
        let ghost c1 = *builder;
        builder.connect(x[k], child);
        proof {
            assert(c1.ops@.len() == c1.ops.len());
            assert(builder.ops@.len() == builder.ops.len());
            if below {
                let (xk, vk) = (x[k as int], v[k as int]);
                assert(x@[k as int] == xk && v@[k as int] == vk);
                let t = |e: Env| true;
                let pre_k = |e: Env| e.val(xk) == e.val(child);
                lemma_total_ext_push(c0.ops@, Op::Select { b: maybe_v.target, x: vk, y: xk });
                lemma_total_ext_completes(c0.ops@, c1.ops@);
                lemma_completes_trans(o, c0.ops@, c1.ops@, pre, t);
                assert forall|e: Env| #![trigger pre_k(e)] e.valid() && pre_k(e) implies 0 <= 0int < p() && holds(
                    Op::Connect { x: xk, y: child },
                    c1.ops@.len() as int,
                    env_set(e, c1.ops@.len(), 0int),
                ) by {
                    let e2 = env_set(e, c1.ops@.len(), 0int);
                    assert(e2.val(xk) == e.val(xk));
                    assert(e2.val(child) == e.val(child));
                }
                lemma_push_completes(c1.ops@, builder.ops@, Op::Connect { x: xk, y: child }, |e: Env| 0int, pre_k);
                assert forall|e: Env, e2: Env|
                    #![trigger pre(e), pre_k(e2)]
                    e.valid() && plan_sat(o, e) && pre(e) && e2.valid() && plan_sat(c1.ops@, e2)
                        && same_below(e, e2, n0) implies pre_k(e2) by {
                    assert(c1.sat(e2));
                    assert((e.w)(xk) == (e2.w)(xk));
                    assert((e.w)(vk) == (e2.w)(vk));
                    assert((e.w)(maybe_v.target) == (e2.w)(maybe_v.target));
                    let (bv, xv, vv) = (e2.val(maybe_v.target), e2.val(xk), e2.val(vk));
                    assert(e2.val(child) == fmod(bv * vv - bv * xv + xv));
                    if bv == 1 {
                        assert(e.val(xk) == e.val(vk));
                        assert(bv * vv - bv * xv + xv == vv);
                        lemma_fmod_small(vv);
                    } else {
                        assert(bv == 0);
                        assert(bv * vv - bv * xv + xv == xv);
                        lemma_fmod_small(xv);
                    }
                }
                lemma_completes_trans(o, c1.ops@, builder.ops@, pre, pre_k);
            }
        }
        k = k + 1;
    }
    proof {
        assert forall|e: Env|
            e.valid() && #[trigger] builder.sat(e) && e.truth(maybe_v.target) implies same_vals(
            e,
            x,
            v,
        ) by {
            assert forall|i: int| 0 <= i < N implies #[trigger] e.val(x[i]) == e.val(v[i]) by {
                let (b, vi, xi) = (e.val(maybe_v.target), e.val(v[i]), e.val(x[i]));
                assert(b * vi - b * xi + xi == vi);
                lemma_fmod_small(vi);
            }
        }
    }
}

/// Connects `x` to `y`, element by element.
pub fn connect_arrays<const N: usize>(builder: &mut CircuitBuilder, x: [Target; N], y: [Target; N])
    ensures
        final(builder).grows(*old(builder)),
        forall|e: Env| #[trigger] final(builder).sat(e) ==> same_vals(e, x, y),
{
    let mut k: usize = 0;
    while k < N
        invariant
            k <= N,
            builder.grows(*old(builder)),
            forall|e: Env| #[trigger]
                builder.sat(e) ==> forall|i: int|
                    0 <= i < k ==> #[trigger] e.val(x[i]) == e.val(y[i]),
        decreases N - k,
    {
        builder.connect(x[k], y[k]);
        k = k + 1;
    }
}

/// `if b { 0 } else { x }`.
pub fn zero_if(builder: &mut CircuitBuilder, b: BoolTarget, x: Target) -> (r: Target)
    ensures
        final(builder).grows(*old(builder)),
        forall|e: Env|
            e.valid() && #[trigger] final(builder).sat(e) && e.is_bool(b.target) ==> e.val(r) == (
            if e.truth(b.target) {
                0
            } else {
                e.val(x)
            }),
{
    let zero = builder.zero();
    builder.select(b, zero, x)
}

/// `if b { false } else { x }`.
pub fn false_if(builder: &mut CircuitBuilder, b: BoolTarget, x: BoolTarget) -> (r: BoolTarget)
    ensures
        final(builder).grows(*old(builder)),
        forall|e: Env|
            e.valid() && #[trigger] final(builder).sat(e) && e.is_bool(b.target) ==> e.val(
                r.target,
            ) == (if e.truth(b.target) {
                0
            } else {
                e.val(x.target)
            }),
{
    BoolTarget::new_unsafe(zero_if(builder, b, x.target))
}

/// `if b { ZERO } else { h }`, element by element.
pub fn zero_hash_if(builder: &mut CircuitBuilder, b: BoolTarget, h: HashOutTarget) -> (r:
    HashOutTarget)
    ensures
        final(builder).grows(*old(builder)),
        forall|e: Env|
            e.valid() && #[trigger] final(builder).sat(e) && e.is_bool(b.target) ==> forall|i: int|
                0 <= i < 4 ==> #[trigger] e.val(r.elements[i]) == (if e.truth(b.target) {
                    0
                } else {
                    e.val(h.elements[i])
                }),
{
    let zero = builder.zero();
    let zeros = HashOutTarget { elements: [zero, zero, zero, zero] };
    let r = select_hash(builder, b, zeros, h);
    proof {
        assert forall|e: Env|
            e.valid() && #[trigger] builder.sat(e) && e.is_bool(b.target) implies forall|i: int|
            0 <= i < 4 ==> #[trigger] e.val(r.elements[i]) == (if e.truth(b.target) {
                0
            } else {
                e.val(h.elements[i])
            }) by {
            assert forall|i: int| 0 <= i < 4 implies #[trigger] e.val(r.elements[i]) == (if e.truth(
                b.target,
            ) {
                0
            } else {
                e.val(h.elements[i])
            }) by {
                if e.truth(b.target) {
                    assert(e.val(r.elements[i]) == e.val(zeros.elements[i]));
                } else {
                    assert(e.val(r.elements[i]) == e.val(h.elements[i]));
                }
            }
        }
    }
    r
}

/// The digest of an event: owner, kind, address and value, in that order.
pub fn hash_event(
    builder: &mut CircuitBuilder,
    owner: [Target; 4],
    ty: Target,
    address: Target,
    value: [Target; 4],
) -> (r: HashOutTarget)
    ensures
        final(builder).grows(*old(builder)),
        forall|e: Env| #[trigger]
            final(builder).sat(e) ==> forall|k: int|
                0 <= k < 4 ==> #[trigger] e.val(r.elements[k]) == e.hash(
                    e.vals(owner@ + seq![ty, address] + value@),
                )[k],
{
    let mut inputs: Vec<Target> = Vec::new();
    inputs.push(owner[0]);
    inputs.push(owner[1]);
    inputs.push(owner[2]);
    inputs.push(owner[3]);
    inputs.push(ty);
    inputs.push(address);
    inputs.push(value[0]);
    inputs.push(value[1]);
    inputs.push(value[2]);
    inputs.push(value[3]);
    assert(inputs@ =~= owner@ + seq![ty, address] + value@);
    builder.hash_n_to_hash_no_pad(inputs)
}

/// `256^n`.
pub open spec fn pow256(n: nat) -> int
    decreases n,
{
    if n == 0 {
        1
    } else {
        256 * pow256((n - 1) as nat)
    }
}

/// The value of little-endian base-256 digits.
pub open spec fn le_value(s: Seq<int>) -> int
    decreases s.len(),
{
    if s.len() == 0 {
        0
    } else {
        s[0] + 256 * le_value(s.drop_first())
    }
}

/// Appending a digit adds it times the weight of its position.
pub proof fn lemma_le_value_push(s: Seq<int>, c: int)
    ensures
        le_value(s.push(c)) == le_value(s) + pow256(s.len()) * c,
    decreases s.len(),
{
    if s.len() == 0 {
        assert(s.push(c).drop_first() =~= Seq::<int>::empty());
        assert(le_value(Seq::<int>::empty()) == 0);
        assert(le_value(s.push(c)) == c + 256 * le_value(s.push(c).drop_first()));
        assert(pow256(0) == 1);
        assert(le_value(s) == 0);
    } else {
        let t = s.drop_first();
        assert(s.push(c).drop_first() =~= t.push(c));
        assert(s.push(c)[0] == s[0]);
        lemma_le_value_push(t, c);
        let (a, w) = (le_value(t), pow256(t.len()));
        assert(pow256(s.len()) == 256 * w);
        assert(le_value(s) == s[0] + 256 * a);
        assert(le_value(s.push(c)) == s[0] + 256 * (a + w * c));
        assert(256 * (a + w * c) == 256 * a + (256 * w) * c) by (nonlinear_arith);
    }
}

/// Replacing the last digit `c` by the two digits `lo, hi` with
/// `c = lo + 256 * hi` in the field keeps the value in the field.
proof fn lemma_le_value_split(s: Seq<int>, c: int, lo: int, hi: int)
    requires
        fmod(c) == fmod(lo + 256 * hi),
    ensures
        fmod(le_value(s.push(c))) == fmod(le_value(s.push(lo).push(hi))),
{
    lemma_le_value_push(s, c);
    lemma_le_value_push(s, lo);
    lemma_le_value_push(s.push(lo), hi);
    let w = pow256(s.len());
    assert(pow256(s.push(lo).len()) == 256 * w);
    vstd::arithmetic::mul::lemma_mul_is_associative(256, w, hi);
    vstd::arithmetic::mul::lemma_mul_is_commutative(256, w);
    vstd::arithmetic::mul::lemma_mul_is_associative(w, 256, hi);
    vstd::arithmetic::mul::lemma_mul_is_distributive_add(w, lo, 256 * hi);
    assert(le_value(s.push(lo).push(hi)) == le_value(s) + w * (lo + 256 * hi));
    vstd::arithmetic::div_mod::lemma_mul_mod_noop_right(w, c, p());
    vstd::arithmetic::div_mod::lemma_mul_mod_noop_right(w, lo + 256 * hi, p());
    vstd::arithmetic::div_mod::lemma_add_mod_noop(le_value(s), w * c, p());
    vstd::arithmetic::div_mod::lemma_add_mod_noop(le_value(s), w * (lo + 256 * hi), p());
}

/// Splits a target into eight little-endian bytes: each below 256, with the
/// field value of their base-256 number equal to the target's value.
pub fn split_bytes(builder: &mut CircuitBuilder, source: Target) -> (r: [Target; 8])
    ensures
        final(builder).grows(*old(builder)),
        forall|e: Env|
            e.valid() && #[trigger] final(builder).sat(e) ==> (forall|k: int|
                0 <= k < 8 ==> #[trigger] e.val(r[k]) < 256) && fmod(le_value(e.vals(r@)))
                == e.val(source),
{
    let mut r = [source;8];
    let mut cur = source;
    let mut i: usize = 0;
    proof {
        vstd::arithmetic::power2::lemma2_to64();
        assert forall|e: Env| e.valid() && #[trigger] builder.sat(e) implies fmod(
            le_value(e.vals(r@.subrange(0, 0)).push(e.val(cur))),
        ) == e.val(source) by {
            assert(e.vals(r@.subrange(0, 0)).push(e.val(cur)) =~= seq![e.val(source)]);
            assert(le_value(seq![e.val(source)].drop_first()) == 0);
            lemma_fmod_small(e.val(source));
        }
    }
    while i < 7
        invariant
            i <= 7,
            builder.grows(*old(builder)),
            vstd::arithmetic::power2::pow2(8) == 256,
            forall|e: Env|
                e.valid() && #[trigger] builder.sat(e) ==> {
                    &&& forall|k: int| 0 <= k < i ==> #[trigger] e.val(r[k]) < 256
                    &&& i > 0 ==> e.val(cur) < vstd::arithmetic::power2::pow2((64 - 8 * i) as nat)
                    &&& fmod(le_value(e.vals(r@.subrange(0, i as int)).push(e.val(cur)))) == e.val(
                        source,
                    )
                },
        decreases 7 - i,
    {
        let ghost prev = r;
        let (lo, rest) = builder.split_low_high(cur, 8, 64 - 8 * i);
        r[i] = lo;
        proof {
            assert forall|e: Env| e.valid() && #[trigger] builder.sat(e) implies {
                &&& forall|k: int| 0 <= k < i + 1 ==> #[trigger] e.val(r[k]) < 256
                &&& e.val(rest) < vstd::arithmetic::power2::pow2((64 - 8 * (i + 1)) as nat)
                &&& fmod(le_value(e.vals(r@.subrange(0, i + 1)).push(e.val(rest)))) == e.val(
                    source,
                )
            } by {
                assert forall|k: int| 0 <= k < i + 1 implies #[trigger] e.val(r[k]) < 256 by {
                    if k < i {
                        assert(r[k] == prev[k]);
                    }
                }
                let s = e.vals(r@.subrange(0, i as int));
                assert(s == e.vals(prev@.subrange(0, i as int)));
                assert(e.vals(r@.subrange(0, i + 1)) =~= s.push(e.val(lo)));
                vstd::arithmetic::mul::lemma_mul_is_commutative(e.val(rest), 256);
                lemma_le_value_split(s, e.val(cur), e.val(lo), e.val(rest));
                lemma_fmod_small(e.val(cur));
            }
        }
        cur = rest;
        i = i + 1;
    }
    let ghost prev = r;
    r[7] = cur;
    proof {
        assert(r@.subrange(0, 7) == prev@.subrange(0, 7));
        assert forall|e: Env| e.valid() && #[trigger] builder.sat(e) implies (forall|k: int|
            0 <= k < 8 ==> #[trigger] e.val(r[k]) < 256) && fmod(le_value(e.vals(r@))) == e.val(
            source,
        ) by {
            assert(r@ =~= r@.subrange(0, 7).push(cur));
            assert(e.vals(r@) =~= e.vals(prev@.subrange(0, 7)).push(e.val(cur)));
            assert forall|k: int| 0 <= k < 8 implies #[trigger] e.val(r[k]) < 256 by {
                if k < 7 {
                    assert(r[k] == prev[k]);
                }
            }
        }
    }
    r
}

/// The byte values of some inputs: eight digits below 256 for each input,
/// whose base-256 number is the input's value in the field.
pub open spec fn byte_decomposition(vals: Seq<int>, bytes: Seq<int>) -> bool {
    &&& bytes.len() == 8 * vals.len()
    &&& forall|j: int| 0 <= j < bytes.len() ==> 0 <= #[trigger] bytes[j] < 256
    &&& forall|j: int|
        0 <= j < vals.len() ==> fmod(le_value(#[trigger] bytes.subrange(8 * j, 8 * j + 8)))
            == vals[j]
}

/// The digest of the bytes of the inputs: each input is split into eight
/// little-endian bytes, and the bytes are hashed in order.
pub fn byte_wise_hash(builder: &mut CircuitBuilder, inputs: Vec<Target>) -> (r: HashOutTarget)
    requires
        8 * inputs@.len() <= usize::MAX,
    ensures
        final(builder).grows(*old(builder)),
        forall|e: Env|
            e.valid() && #[trigger] final(builder).sat(e) ==> exists|bytes: Seq<int>|
                byte_decomposition(e.vals(inputs@), bytes) && forall|k: int|
                    0 <= k < 4 ==> #[trigger] e.val(r.elements[k]) == e.hash(bytes)[k],
{
    let mut bytes: Vec<Target> = Vec::new();
    let mut j: usize = 0;
    while j < inputs.len()
        invariant
            j <= inputs@.len(),
            8 * inputs@.len() <= usize::MAX,
            bytes@.len() == 8 * j,
            builder.grows(*old(builder)),
            forall|e: Env|
                e.valid() && #[trigger] builder.sat(e) ==> byte_decomposition(
                    e.vals(inputs@.subrange(0, j as int)),
                    e.vals(bytes@),
                ),
        decreases inputs@.len() - j,
    {
        let bs = split_bytes(builder, inputs[j]);
        let ghost prev = bytes@;
        let mut k: usize = 0;
        while k < 8
            invariant
                k <= 8,
                j < inputs@.len(),
                8 * inputs@.len() <= usize::MAX,
                bytes@.len() == 8 * j + k,
                bytes@.subrange(0, 8 * j as int) == prev,
                forall|m: int| 0 <= m < k ==> #[trigger] bytes@[8 * j + m] == bs[m],
            decreases 8 - k,
        {
            bytes.push(bs[k]);
            k = k + 1;
        }
        proof {
            assert forall|m: int| 0 <= m < 8 implies #[trigger] bytes@.subrange(
                8 * j as int,
                8 * j + 8,
            )[m] == bs@[m] by {
                assert(bytes@[8 * j + m] == bs[m]);
            }
            assert(bytes@.subrange(8 * j as int, 8 * j + 8) =~= bs@);
            assert forall|e: Env| e.valid() && #[trigger] builder.sat(e) implies byte_decomposition(
                e.vals(inputs@.subrange(0, j + 1)),
                e.vals(bytes@),
            ) by {
                let vs = e.vals(inputs@.subrange(0, j + 1));
                let bv = e.vals(bytes@);
                let pv = e.vals(prev);
                assert(byte_decomposition(e.vals(inputs@.subrange(0, j as int)), pv));
                assert forall|m: int| 0 <= m < bv.len() implies 0 <= #[trigger] bv[m] < 256 by {
                    if m < 8 * j {
                        assert(bv[m] == pv[m]);
                    } else {
                        assert(bv[m] == e.val(bs[m - 8 * j]));
                    }
                }
                assert forall|m: int| 0 <= m < vs.len() implies fmod(
                    le_value(#[trigger] bv.subrange(8 * m, 8 * m + 8)),
                ) == vs[m] by {
                    if m < j {
                        assert(bv.subrange(8 * m, 8 * m + 8) =~= pv.subrange(8 * m, 8 * m + 8));
                    } else {
                        assert(bv.subrange(8 * m, 8 * m + 8) =~= e.vals(bs@));
                    }
                }
            }
        }
        j = j + 1;
    }
    let ghost all = bytes@;
    let r = builder.hash_n_to_hash_no_pad(bytes);
    proof {
        assert(inputs@.subrange(0, inputs@.len() as int) =~= inputs@);
        assert forall|e: Env| e.valid() && #[trigger] builder.sat(e) implies exists|bytes: Seq<int>|
            byte_decomposition(e.vals(inputs@), bytes) && forall|k: int|
                0 <= k < 4 ==> #[trigger] e.val(r.elements[k]) == e.hash(bytes)[k] by {
            assert(byte_decomposition(e.vals(inputs@), e.vals(all)));
        }
    }
    r
}

/// The digest of the bytes of an event's kind, address and value.
pub fn byte_wise_hash_event(
    builder: &mut CircuitBuilder,
    ty: Target,
    address: Target,
    value: [Target; 4],
) -> (r: HashOutTarget)
    ensures
        final(builder).grows(*old(builder)),
        forall|e: Env|
            e.valid() && #[trigger] final(builder).sat(e) ==> exists|bytes: Seq<int>|
                byte_decomposition(e.vals(seq![ty, address] + value@), bytes) && forall|k: int|
                    0 <= k < 4 ==> #[trigger] e.val(r.elements[k]) == e.hash(bytes)[k],
{
    let mut inputs: Vec<Target> = Vec::new();
    inputs.push(ty);
    inputs.push(address);
    inputs.push(value[0]);
    inputs.push(value[1]);
    inputs.push(value[2]);
    inputs.push(value[3]);
    assert(inputs@ =~= seq![ty, address] + value@);
    byte_wise_hash(builder, inputs)
}

/// Two verifier data have the same values, digest by digest.
pub open spec fn same_verifier(e: Env, a: VerifierCircuitTarget, b: VerifierCircuitTarget) -> bool {
    &&& same_vals(e, a.circuit_digest.elements, b.circuit_digest.elements)
    &&& a.constants_sigmas_cap.0@.len() == b.constants_sigmas_cap.0@.len()
    &&& forall|k: int|
        #![trigger a.constants_sigmas_cap.0@[k]]
        0 <= k < a.constants_sigmas_cap.0@.len() ==> same_vals(
            e,
            a.constants_sigmas_cap.0@[k].elements,
            b.constants_sigmas_cap.0@[k].elements,
        )
}

/// `connect_verifier_data(a, b)`: the digests of both verifier data are
/// equal, one by one.
pub fn connect_verifier_data(
    builder: &mut CircuitBuilder,
    a: &VerifierCircuitTarget,
    b: &VerifierCircuitTarget,
)
    requires
        a.constants_sigmas_cap.0@.len() == b.constants_sigmas_cap.0@.len(),
    ensures
        final(builder).grows(*old(builder)),
        forall|e: Env| #[trigger] final(builder).sat(e) ==> same_verifier(e, *a, *b),
{
    builder.connect_hashes(a.circuit_digest, b.circuit_digest);
    let mut k: usize = 0;
    while k < a.constants_sigmas_cap.0.len()
        invariant
            k <= a.constants_sigmas_cap.0@.len(),
            a.constants_sigmas_cap.0@.len() == b.constants_sigmas_cap.0@.len(),
            builder.grows(*old(builder)),
            forall|e: Env| #[trigger]
                builder.sat(e) ==> same_vals(
                    e,
                    a.circuit_digest.elements,
                    b.circuit_digest.elements,
                ),
            forall|e: Env| #[trigger]
                builder.sat(e) ==> forall|j: int|
                    #![trigger a.constants_sigmas_cap.0@[j]]
                    0 <= j < k ==> same_vals(
                        e,
                        a.constants_sigmas_cap.0@[j].elements,
                        b.constants_sigmas_cap.0@[j].elements,
                    ),
        decreases a.constants_sigmas_cap.0@.len() - k,
    {
        let ha = a.constants_sigmas_cap.0[k];
        let hb = b.constants_sigmas_cap.0[k];
        builder.connect_hashes(ha, hb);
        k = k + 1;
    }
}

} // verus!
