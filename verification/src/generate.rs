//! Generating the values of every target of a plan from a witness, and
//! checking that they satisfy every operation of the plan.
//!
//! The values of the targets that operations produce are computed in the
//! order of the plan: virtual targets take their values from the witness,
//! digests come from the hash function given, and the results of the other
//! operations from their inputs. Then each operation's relation is checked
//! on the values. What is checked is the plan's own meaning (see
//! `circuit::holds`); a proof of a plan's circuit is made where the plan is
//! replayed on a prover.
use vstd::arithmetic::div_mod::*;
use vstd::arithmetic::power::*;
use vstd::arithmetic::power2::pow2;
use vstd::prelude::*;

use crate::circuit::{
    bits_value, holds, plan_sat, target_at, CircuitBuilder, Env, Op, PartialWitness, Target,
};
use crate::field::{fmod, is_canonical, lemma_fmod_small, p, ORDER};

verus! {

/// The value of a target among generated values: zero beyond them.
pub open spec fn val_of(vals: Seq<u64>, t: Target) -> int {
    if t.index < vals.len() {
        vals[t.index as int] as int
    } else {
        0
    }
}

/// The environment of generated values, with the hash function `h`, the
/// verifier data `vk` and the proofs that verify `pf`.
pub open spec fn env_with(
    vals: Seq<u64>,
    h: spec_fn(Seq<int>) -> Seq<int>,
    vk: spec_fn(usize) -> Seq<int>,
    pf: spec_fn(usize, Seq<int>, Seq<int>) -> bool,
) -> Env {
    Env { w: |t: Target| val_of(vals, t), h, vk, pf }
}

/// The environment of generated values, with the hash function `h` (and no
/// verifier data: for reading the operations that do not recurse).
pub open spec fn env_of(vals: Seq<u64>, h: spec_fn(Seq<int>) -> Seq<int>) -> Env {
    env_with(vals, h, |c: usize| Seq::<int>::empty(), |c: usize, v: Seq<int>, q: Seq<int>| true)
}

/// An operation of recursion: verifier data or the verification of a proof.
pub open spec fn is_recursion(op: Op) -> bool {
    op is ConstantVerifierData || op is VerifyProof
}

/// Every verifier data of the plan has, among the values, the values of
/// `vk`, and every proof the plan verifies is one that `pf` accepts.
pub open spec fn recursion_agrees(
    ops: Seq<Op>,
    vals: Seq<u64>,
    vk: spec_fn(usize) -> Seq<int>,
    pf: spec_fn(usize, Seq<int>, Seq<int>) -> bool,
) -> bool {
    forall|i: int|
        0 <= i < ops.len() ==> match #[trigger] ops[i] {
            Op::ConstantVerifierData { circuit, targets } => targets@.map_values(
                |t: Target| val_of(vals, t),
            ) == vk(circuit),
            Op::VerifyProof { public_inputs, verifier, common } => pf(
                common,
                verifier@.map_values(|t: Target| val_of(vals, t)),
                public_inputs@.map_values(|t: Target| val_of(vals, t)),
            ),
            _ => true,
        }
}

/// Every hash operation of the plan gives, on the values hashed, the
/// values of its outputs under the hash function `h`.
pub open spec fn hashes_agree(
    ops: Seq<Op>,
    vals: Seq<u64>,
    h: spec_fn(Seq<int>) -> Seq<int>,
) -> bool {
    forall|i: int|
        0 <= i < ops.len() ==> match #[trigger] ops[i] {
            Op::Hash { inputs, outputs } => forall|k: int|
                0 <= k < 4 ==> #[trigger] val_of(vals, outputs[k]) == h(
                    inputs@.map_values(|t: Target| val_of(vals, t)),
                )[k],
            _ => true,
        }
}

/// Why values could not be generated, or do not satisfy the plan.
#[derive(Clone, Copy, PartialEq, Eq, Debug)]
pub enum GenerateError {
    /// The witness gives no value to this virtual target.
    Missing { target: Target },
    /// A value given or hashed is not a field element.
    NotCanonical { op: usize },
    /// The operation at this position refers to a target beyond the plan.
    Malformed { op: usize },
    /// The relation of the operation at this position does not hold.
    Unsatisfied { op: usize },
}

/// `2^n`, for `n` up to 64.
fn pow2_u128(n: usize) -> (r: u128)
    requires
        n <= 64,
    ensures
        r == pow2(n as nat),
        r <= 0x1_0000_0000_0000_0000,
{
    let mut r: u128 = 1;
    let mut i: usize = 0;
    proof {
        vstd::arithmetic::power2::lemma2_to64();
    }
    while i < n
        invariant
            i <= n <= 64,
            r == pow2(i as nat),
            r <= 0x1_0000_0000_0000_0000,
            pow2(64) == 0x1_0000_0000_0000_0000,
        decreases n - i,
    {
        proof {
            vstd::arithmetic::power2::lemma_pow2_unfold((i + 1) as nat);
            if i + 1 < 64 {
                vstd::arithmetic::power2::lemma_pow2_strictly_increases((i + 1) as nat, 64);
            }
        }
        r = r * 2;
        i = i + 1;
    }
    r
}

/// The value of a target, which must be among the values.
fn value(vals: &Vec<u64>, t: Target, op: usize) -> (r: Result<u64, GenerateError>)
    ensures
        r matches Ok(v) ==> t.index < vals@.len() && v == vals@[t.index as int],
        r is Err ==> t.index >= vals@.len() && r == Err::<u64, GenerateError>(
            GenerateError::Malformed { op },
        ),
{
    if t.index < vals.len() {
        Ok(vals[t.index])
    } else {
        Err(GenerateError::Malformed { op })
    }
}

/// All values are field elements.
pub open spec fn all_canonical(vals: Seq<u64>) -> bool {
    forall|j: int| 0 <= j < vals.len() ==> is_canonical(#[trigger] vals[j])
}

/// An operation whose result is a field expression of its inputs.
pub open spec fn is_arith(op: Op) -> bool {
    match op {
        Op::Constant { .. } | Op::Add { .. } | Op::Sub { .. } | Op::Mul { .. }
        | Op::MulConstAdd { .. } | Op::AddConst { .. } | Op::Not { .. } | Op::And { .. }
        | Op::Or { .. } | Op::Select { .. } | Op::IsEqual { .. } => true,
        _ => false,
    }
}

/// Every target whose value the check of the operation reads is among the
/// first `n` (a digest is checked against the hash function elsewhere, and
/// the other operations without a relation read nothing).
pub open spec fn reads_in(op: Op, n: nat) -> bool {
    match op {
        Op::Add { x, y } => x.index < n && y.index < n,
        Op::Sub { x, y } => x.index < n && y.index < n,
        Op::Mul { x, y } => x.index < n && y.index < n,
        Op::MulConstAdd { x, y, .. } => x.index < n && y.index < n,
        Op::IsEqual { x, y } => x.index < n && y.index < n,
        Op::Div { x, y } => x.index < n && y.index < n,
        Op::Connect { x, y } => x.index < n && y.index < n,
        Op::AddConst { x, .. } => x.index < n,
        Op::Not { b } => b.index < n,
        Op::And { a, b } => a.index < n && b.index < n,
        Op::Or { a, b } => a.index < n && b.index < n,
        Op::Select { b, x, y } => b.index < n && x.index < n && y.index < n,
        Op::AssertBool { b } => b.index < n,
        Op::RangeCheck { x, .. } => x.index < n,
        Op::SplitLe { x, bits } => x.index < n && forall|k: int|
            0 <= k < bits@.len() ==> (#[trigger] bits@[k]).index < n,
        Op::SplitLowHigh { x, low, high, .. } => x.index < n && low.index < n && high.index < n,
        _ => true,
    }
}

/// The relation of the operation at position `i` holds on the values,
/// whatever the hash function.
pub open spec fn holds_on(op: Op, i: int, vals: Seq<u64>) -> bool {
    forall|
        h: spec_fn(Seq<int>) -> Seq<int>,
        vk: spec_fn(usize) -> Seq<int>,
        pf: spec_fn(usize, Seq<int>, Seq<int>) -> bool,
    | holds(op, i, #[trigger] env_with(vals, h, vk, pf))
}

/// A field element for a constant that may exceed the order.
fn reduce(c: u64) -> (r: u64)
    ensures
        is_canonical(r),
        r == fmod(c as int),
{
    if c >= ORDER {
        proof {
            crate::field::lemma_fmod_sub_once(c as int);
        }
        c - ORDER
    } else {
        proof {
            lemma_fmod_small(c as int);
        }
        c
    }
}

/// Checks the relation of an arithmetic operation (one whose result is a
/// field expression of its inputs).
#[verifier::rlimit(60)]
fn check_arith(op: &Op, i: usize, vals: &Vec<u64>) -> (r: Result<bool, GenerateError>)
    requires
        i < vals@.len(),
        all_canonical(vals@),
    ensures
        !is_arith(*op) ==> r == Ok::<bool, GenerateError>(false),
        is_arith(*op) ==> (r is Err <==> !reads_in(*op, vals@.len())),
        r is Err ==> r == Err::<bool, GenerateError>(GenerateError::Malformed { op: i }),
        r matches Ok(b) ==> (is_arith(*op) ==> (b <==> holds_on(*op, i as int, vals@))),
{
    let out = vals[i];
    let ghost o = out as int;
    let ghost e0 = env_of(vals@, |s: Seq<int>| s);
    assert(is_canonical(out));
    match op {
        Op::Constant { c } => Ok(out == *c),
        Op::Add { x, y } => {
            let a = value(vals, *x, i)?;
            let b = value(vals, *y, i)?;
            Ok(out == crate::field::add(a, b))
        },
        Op::Sub { x, y } => {
            let a = value(vals, *x, i)?;
            let b = value(vals, *y, i)?;
            Ok(out == crate::field::sub(a, b))
        },
        Op::Mul { x, y } => {
            let a = value(vals, *x, i)?;
            let b = value(vals, *y, i)?;
            Ok(out == crate::field::mul(a, b))
        },
        Op::MulConstAdd { c, x, y } => {
            let a = value(vals, *x, i)?;
            let b = value(vals, *y, i)?;
            let cr = reduce(*c);
            let m = crate::field::mul(cr, a);
            let s = crate::field::add(m, b);
            proof {
                lemma_mul_mod_noop_left(*c as int, a as int, p());
                lemma_add_mod_noop(*c * a, b as int, p());
                lemma_fmod_small(b as int);
                lemma_mod_twice(*c * a, p());
            }
            Ok(out == s)
        },
        Op::AddConst { x, c } => {
            let a = value(vals, *x, i)?;
            let cr = reduce(*c);
            proof {
                lemma_add_mod_noop(a as int, *c as int, p());
                lemma_fmod_small(a as int);
            }
            Ok(out == crate::field::add(a, cr))
        },
        Op::Not { b } => {
            let v = value(vals, *b, i)?;
            Ok(out == crate::field::sub(1, v))
        },
        Op::And { a, b } => {
            let u = value(vals, *a, i)?;
            let v = value(vals, *b, i)?;
            Ok(out == crate::field::mul(u, v))
        },
        Op::Or { a, b } => {
            let u = value(vals, *a, i)?;
            let v = value(vals, *b, i)?;
            let s = crate::field::add(u, v);
            let m = crate::field::mul(u, v);
            let d = crate::field::sub(s, m);
            proof {
                lemma_sub_mod_noop(u + v, u * v, p());
            }
            Ok(out == d)
        },
        Op::Select { b, x, y } => {
            let c = value(vals, *b, i)?;
            let u = value(vals, *x, i)?;
            let v = value(vals, *y, i)?;
            let m1 = crate::field::mul(c, u);
            let m2 = crate::field::mul(c, v);
            let d = crate::field::sub(m1, m2);
            let s = crate::field::add(d, v);
            proof {
                lemma_sub_mod_noop(c * u, c * v, p());
                lemma_add_mod_noop(c * u - c * v, v as int, p());
                lemma_fmod_small(v as int);
                lemma_mod_twice(c * u - c * v, p());
            }
            Ok(out == s)
        },
        Op::IsEqual { x, y } => {
            let a = value(vals, *x, i)?;
            let b = value(vals, *y, i)?;
            Ok(out == if a == b {
                1
            } else {
                0
            })
        },
        _ => Ok(false),
    }
}

/// The value of bits, read from the last: the first bit and twice the
/// value of the rest.
proof fn lemma_bits_value_step(s: Seq<int>, k: int)
    requires
        0 <= k < s.len(),
    ensures
        bits_value(s.subrange(k, s.len() as int)) == s[k] + 2 * bits_value(
            s.subrange(k + 1, s.len() as int),
        ),
{
    let t = s.subrange(k, s.len() as int);
    assert(t.drop_first() =~= s.subrange(k + 1, s.len() as int));
}

/// The value of boolean bits is not negative.
proof fn lemma_bits_value_nonneg(s: Seq<int>)
    requires
        forall|j: int| 0 <= j < s.len() ==> #[trigger] s[j] == 0 || s[j] == 1,
    ensures
        bits_value(s) >= 0,
    decreases s.len(),
{
    if s.len() > 0 {
        let t = s.drop_first();
        assert forall|j: int| 0 <= j < t.len() implies #[trigger] t[j] == 0 || t[j] == 1 by {
            assert(t[j] == s[j + 1]);
        }
        lemma_bits_value_nonneg(t);
    }
}

/// Dropping low boolean bits does not raise their value.
proof fn lemma_bits_value_suffix(s: Seq<int>, k: int)
    requires
        0 <= k <= s.len(),
        forall|j: int| 0 <= j < s.len() ==> #[trigger] s[j] == 0 || s[j] == 1,
    ensures
        bits_value(s.subrange(k, s.len() as int)) <= bits_value(s),
    decreases k,
{
    if k == 0 {
        assert(s.subrange(0, s.len() as int) =~= s);
    } else {
        lemma_bits_value_step(s, k - 1);
        let t = s.subrange(k, s.len() as int);
        assert forall|j: int| 0 <= j < t.len() implies #[trigger] t[j] == 0 || t[j] == 1 by {
            assert(t[j] == s[k + j]);
        }
        lemma_bits_value_nonneg(t);
        lemma_bits_value_suffix(s, k - 1);
    }
}

/// Checks that the bits are boolean and that, little-endian, they are the
/// value of `x`.
#[verifier::rlimit(60)]
fn check_split_le(x: Target, bits: &Vec<Target>, i: usize, vals: &Vec<u64>) -> (r: Result<
    bool,
    GenerateError,
>)
    requires
        all_canonical(vals@),
    ensures
        r is Err <==> !reads_in(Op::SplitLe { x, bits: *bits }, vals@.len()),
        r is Err ==> r == Err::<bool, GenerateError>(GenerateError::Malformed { op: i }),
        r matches Ok(b) ==> (b <==> holds_on(Op::SplitLe { x, bits: *bits }, i as int, vals@)),
{
    let xv = value(vals, x, i)?;
    let ghost bvals = bits@.map_values(|t: Target| val_of(vals@, t));
    let ghost e0 = env_of(vals@, |s: Seq<int>| s);
    let n = bits.len();
    let mut k: usize = 0;
    while k < n
        invariant
            k <= n == bits@.len(),
            x.index < vals@.len(),
            forall|j: int| 0 <= j < k ==> (#[trigger] bits@[j]).index < vals@.len(),
        decreases n - k,
    {
        if bits[k].index >= vals.len() {
            proof {
                let o = Op::SplitLe { x, bits: *bits };
                assert(bits@[k as int].index >= vals@.len());
                assert(!(forall|j: int|
                    0 <= j < bits@.len() ==> (#[trigger] bits@[j]).index < vals@.len()));
                assert(o->bits == *bits);
            }
            return Err(GenerateError::Malformed { op: i });
        }
        k = k + 1;
    }
    proof {
        assert(e0.vals(bits@) =~= bvals);
    }
    let mut k: usize = 0;
    while k < n
        invariant
            k <= n == bits@.len() == bvals.len(),
            bvals == bits@.map_values(|t: Target| val_of(vals@, t)),
            e0 == env_of(vals@, |s: Seq<int>| s),
            e0.vals(bits@) == bvals,
            x.index < vals@.len(),
            xv == vals@[x.index as int],
            forall|j: int| 0 <= j < n ==> (#[trigger] bits@[j]).index < vals@.len(),
            forall|j: int| 0 <= j < k ==> #[trigger] bvals[j] == 0 || bvals[j] == 1,
        decreases n - k,
    {
        let b = vals[bits[k].index];
        if b != 0 && b != 1 {
            proof {
                assert(bvals[k as int] == b);
                assert(!e0.is_bool(bits@[k as int]));
            }
            return Ok(false);
        }
        k = k + 1;
    }
    let mut acc: u128 = 0;
    let mut k: usize = n;
    proof {
        assert(bvals.subrange(n as int, n as int) =~= Seq::<int>::empty());
    }
    while k > 0
        invariant
            k <= n == bits@.len() == bvals.len(),
            bvals == bits@.map_values(|t: Target| val_of(vals@, t)),
            e0 == env_of(vals@, |s: Seq<int>| s),
            e0.vals(bits@) == bvals,
            x.index < vals@.len(),
            xv == vals@[x.index as int],
            forall|j: int| 0 <= j < n ==> (#[trigger] bits@[j]).index < vals@.len(),
            forall|j: int| 0 <= j < n ==> #[trigger] bvals[j] == 0 || bvals[j] == 1,
            acc == bits_value(bvals.subrange(k as int, n as int)),
            acc <= xv,
        decreases k,
    {
        k = k - 1;
        let b = vals[bits[k].index];
        proof {
            lemma_bits_value_step(bvals, k as int);
        }
        acc = 2 * acc + b as u128;
        if acc > xv as u128 {
            proof {
                lemma_bits_value_suffix(bvals, k as int);
            }
            return Ok(false);
        }
    }
    proof {
        assert(bvals.subrange(0, n as int) =~= bvals);
        if acc == xv {
            assert forall|
                h: spec_fn(Seq<int>) -> Seq<int>,
                vk: spec_fn(usize) -> Seq<int>,
                pf: spec_fn(usize, Seq<int>, Seq<int>) -> bool,
            | holds(Op::SplitLe { x, bits: *bits }, i as int, #[trigger] env_with(vals@, h, vk, pf)) by {
                let e = env_with(vals@, h, vk, pf);
                assert(e.vals(bits@) =~= bvals);
                assert forall|j: int| 0 <= j < bits@.len() implies #[trigger] e.is_bool(bits@[j]) by {
                    assert(bvals[j] == val_of(vals@, bits@[j]));
                }
            }
        }
    }
    Ok(acc == xv as u128)
}

/// Checks that `low` and `high` are below their bounds and that
/// `high * 2^n_log + low` is, in the field, the value of `x`. A split whose
/// low part is wider than the whole is refused.
#[verifier::rlimit(60)]
fn check_split_low_high(
    x: Target,
    n_log: usize,
    num_bits: usize,
    low: Target,
    high: Target,
    i: usize,
    vals: &Vec<u64>,
) -> (r: Result<bool, GenerateError>)
    requires
        all_canonical(vals@),
    ensures
        r is Err <==> !reads_in(
            Op::SplitLowHigh { x, n_log, num_bits, low, high },
            vals@.len(),
        ),
        r is Err ==> r == Err::<bool, GenerateError>(GenerateError::Malformed { op: i }),
        r matches Ok(b) ==> (n_log <= num_bits ==> (b <==> holds_on(
            Op::SplitLowHigh { x, n_log, num_bits, low, high },
            i as int,
            vals@,
        ))),
        r matches Ok(b) ==> (n_log > num_bits ==> !b),
{
    let xv = value(vals, x, i)?;
    let lv = value(vals, low, i)?;
    let hv = value(vals, high, i)?;
    let ghost e0 = env_of(vals@, |s: Seq<int>| s);
    if n_log > num_bits {
        return Ok(false);
    }
    let m = num_bits - n_log;
    proof {
        vstd::arithmetic::power2::lemma2_to64();
        if n_log > 64 {
            vstd::arithmetic::power2::lemma_pow2_strictly_increases(64, n_log as nat);
        }
        if m > 64 {
            vstd::arithmetic::power2::lemma_pow2_strictly_increases(64, m as nat);
        }
    }
    if n_log < 64 && lv as u128 >= pow2_u128(n_log) {
        return Ok(false);
    }
    if m < 64 && hv as u128 >= pow2_u128(m) {
        return Ok(false);
    }
    let t = pow_mod(2, n_log as u64);
    let f = crate::field::add(crate::field::mul(hv, t), lv);
    proof {
        let pw = pow(2, n_log as nat);
        vstd::arithmetic::power2::lemma_pow2(n_log as nat);
        lemma_mul_mod_noop_right(hv as int, pw, p());
        lemma_add_mod_noop(hv * pw, lv as int, p());
        lemma_fmod_small(lv as int);
        lemma_mod_twice(hv * pw, p());
        assert(f == fmod(hv * pow2(n_log as nat) + lv));
    }
    Ok(f == xv)
}

/// Checks the relation of the operation at position `i` on the values.
fn check_op(op: &Op, i: usize, vals: &Vec<u64>) -> (r: Result<bool, GenerateError>)
    requires
        i < vals@.len(),
        all_canonical(vals@),
    ensures
        r is Err <==> !reads_in(*op, vals@.len()),
        r is Err ==> r == Err::<bool, GenerateError>(GenerateError::Malformed { op: i }),
        *op is Hash || is_recursion(*op) ==> r == Ok::<bool, GenerateError>(true),
        r matches Ok(b) ==> (*op !is Hash && !is_recursion(*op) && !(*op matches Op::SplitLowHigh { n_log, num_bits, .. }
            && n_log > num_bits) ==> (b <==> holds_on(*op, i as int, vals@))),
        r matches Ok(b) ==> (*op matches Op::SplitLowHigh { n_log, num_bits, .. } && n_log
            > num_bits ==> !b),
{
    let ghost e0 = env_of(vals@, |s: Seq<int>| s);
    match op {
        Op::VirtualTarget | Op::Output | Op::ConstantVerifierData { .. } | Op::VerifyProof {
            ..
        } | Op::Hash { .. } => Ok(true),
        Op::Div { x, y } => {
            let a = value(vals, *x, i)?;
            let b = value(vals, *y, i)?;
            Ok(b != 0 && crate::field::mul(vals[i], b) == a)
        },
        Op::Connect { x, y } => {
            let a = value(vals, *x, i)?;
            let b = value(vals, *y, i)?;
            Ok(a == b)
        },
        Op::AssertBool { b } => {
            let v = value(vals, *b, i)?;
            Ok(v == 0 || v == 1)
        },
        Op::RangeCheck { x, n_log } => {
            let v = value(vals, *x, i)?;
            proof {
                vstd::arithmetic::power2::lemma2_to64();
                if *n_log > 64 {
                    vstd::arithmetic::power2::lemma_pow2_strictly_increases(64, *n_log as nat);
                }
            }
            if *n_log >= 64 {
                Ok(true)
            } else {
                Ok((v as u128) < pow2_u128(*n_log))
            }
        },
        Op::SplitLe { x, bits } => check_split_le(*x, bits, i, vals),
        Op::SplitLowHigh { x, n_log, num_bits, low, high } => check_split_low_high(
            *x,
            *n_log,
            *num_bits,
            *low,
            *high,
            i,
            vals,
        ),
        _ => check_arith(op, i, vals),
    }
}

/// Gives the target the value, which must be a field element.
fn put(vals: &mut Vec<u64>, t: Target, v: u64, op: usize) -> (r: Result<(), GenerateError>)
    requires
        all_canonical(old(vals)@),
    ensures
        all_canonical(final(vals)@),
        r is Ok <==> t.index < old(vals)@.len() && is_canonical(v),
        r is Ok ==> final(vals)@ == old(vals)@.update(t.index as int, v),
        r is Err ==> final(vals)@ == old(vals)@,
        r is Err ==> r == Err::<(), GenerateError>(
            if t.index < old(vals)@.len() {
                GenerateError::NotCanonical { op }
            } else {
                GenerateError::Malformed { op }
            },
        ),
{
    if t.index >= vals.len() {
        return Err(GenerateError::Malformed { op });
    }
    if v >= ORDER {
        return Err(GenerateError::NotCanonical { op });
    }
    vals.set(t.index, v);
    Ok(())
}

/// One step of exponentiation by squaring: halving the exponent, squaring
/// the base and, for an odd exponent, multiplying the base into the
/// accumulator keeps `acc * base^e` in the field.
proof fn lemma_square_step(r: int, b: int, k: nat)
    requires
        k > 0,
    ensures
        fmod((if k % 2 == 1 { fmod(r * b) } else { r }) * pow(fmod(b * b), k / 2)) == fmod(
            r * pow(b, k),
        ),
{
    let h: nat = k / 2;
    let pp = p();
    assert(pp > 0);
    let r2 = if k % 2 == 1 {
        fmod(r * b)
    } else {
        r
    };
    lemma_pow_mod_noop(b * b, h, pp);
    lemma_square_is_pow2(b);
    lemma_pow_multiplies(b, 2, h);
    lemma_mul_mod_noop_right(r2, pow(fmod(b * b), h), pp);
    lemma_mul_mod_noop_right(r2, pow(b * b, h), pp);
    assert(fmod(r2 * pow(fmod(b * b), h)) == fmod(r2 * pow(b, 2 * h)));
    if k % 2 == 1 {
        assert(k == 2 * h + 1);
        lemma_mul_mod_noop_left(r * b, pow(b, 2 * h), pp);
        lemma_pow_adds(b, 1, 2 * h);
        lemma_pow1(b);
        vstd::arithmetic::mul::lemma_mul_is_associative(r, b, pow(b, 2 * h));
        assert(pow(b, (1 + 2 * h) as nat) == b * pow(b, 2 * h));
        assert((1 + 2 * h) as nat == k);
    } else {
        assert(k == 2 * h);
    }
}

/// `base^e` in the field, by squaring.
fn pow_mod(base: u64, e: u64) -> (r: u64)
    requires
        is_canonical(base),
    ensures
        is_canonical(r),
        r == fmod(pow(base as int, e as nat)),
{
    let mut result: u64 = 1;
    let mut b: u64 = base;
    let mut k: u64 = e;
    proof {
        lemma_pow0(base as int);
        assert(fmod(1 * pow(base as int, e as nat)) == fmod(pow(base as int, e as nat)));
    }
    while k > 0
        invariant
            is_canonical(result),
            is_canonical(b),
            fmod(result * pow(b as int, k as nat)) == fmod(pow(base as int, e as nat)),
        decreases k,
    {
        proof {
            lemma_square_step(result as int, b as int, k as nat);
        }
        if k % 2 == 1 {
            result = crate::field::mul(result, b);
        }
        b = crate::field::mul(b, b);
        k = k / 2;
    }
    proof {
        lemma_pow0(b as int);
        lemma_fmod_small(result as int);
    }
    result
}

/// `y^(p-2)`, the inverse of a nonzero field element (by Fermat's little
/// theorem; nothing here relies on it: a division is checked by
/// multiplying back).
fn inverse(y: u64) -> (r: u64)
    requires
        is_canonical(y),
    ensures
        is_canonical(r),
        r == fmod(pow(y as int, (ORDER - 2) as nat)),
{
    pow_mod(y, ORDER - 2)
}

/// Whether the value of the target is known.
pub open spec fn known_at(known: Seq<bool>, t: Target) -> bool {
    t.index < known.len() && known[t.index as int]
}

/// The target is among the values, and its value is known.
fn is_known(known: &Vec<bool>, t: Target) -> (r: bool)
    ensures
        r == known_at(known@, t),
{
    t.index < known.len() && known[t.index]
}

/// Gives the target the value, which must be a field element, and marks it
/// known.
fn learn(vals: &mut Vec<u64>, known: &mut Vec<bool>, t: Target, v: u64, op: usize) -> (r: Result<
    (),
    GenerateError,
>)
    requires
        all_canonical(old(vals)@),
        old(known)@.len() == old(vals)@.len(),
    ensures
        final(known)@.len() == final(vals)@.len(),
        all_canonical(final(vals)@),
        r is Ok <==> t.index < old(vals)@.len() && is_canonical(v),
        r is Ok ==> final(vals)@ == old(vals)@.update(t.index as int, v) && final(known)@
            == old(known)@.update(t.index as int, true),
        r is Err ==> final(vals)@ == old(vals)@ && final(known)@ == old(known)@,
        r is Err ==> r == Err::<(), GenerateError>(
            if t.index < old(vals)@.len() {
                GenerateError::NotCanonical { op }
            } else {
                GenerateError::Malformed { op }
            },
        ),
{
    put(vals, t, v, op)?;
    known.set(t.index, true);
    Ok(())
}

/// Bit `k` of `v`.
pub open spec fn bit_at(v: u64, k: int) -> u64 {
    ((v as nat / pow2(k as nat)) % 2) as u64
}

/// The value the witness gives the target, or zero.
pub open spec fn given_or_zero(witness: PartialWitness, t: Target) -> u64 {
    if witness.view_map().contains_key(t) {
        witness.view_map()[t]
    } else {
        0
    }
}

/// The result of an operation whose one result is a field expression of
/// its inputs (a quotient is the product by the divisor's `p-2`-th power).
pub open spec fn result_of(op: Op, v: Seq<u64>) -> int {
    match op {
        Op::Constant { c } => c as int,
        Op::Add { x, y } => fmod(val_of(v, x) + val_of(v, y)),
        Op::Sub { x, y } => fmod(val_of(v, x) - val_of(v, y)),
        Op::Mul { x, y } => fmod(val_of(v, x) * val_of(v, y)),
        Op::MulConstAdd { c, x, y } => fmod(c * val_of(v, x) + val_of(v, y)),
        Op::AddConst { x, c } => fmod(val_of(v, x) + c),
        Op::Div { x, y } => fmod(val_of(v, x) * pow(val_of(v, y), (ORDER - 2) as nat)),
        Op::Not { b } => fmod(1 - val_of(v, b)),
        Op::And { a, b } => fmod(val_of(v, a) * val_of(v, b)),
        Op::Or { a, b } => fmod(val_of(v, a) + val_of(v, b) - val_of(v, a) * val_of(v, b)),
        Op::Select { b, x, y } => fmod(
            val_of(v, b) * val_of(v, x) - val_of(v, b) * val_of(v, y) + val_of(v, y),
        ),
        Op::IsEqual { x, y } => if val_of(v, x) == val_of(v, y) {
            1
        } else {
            0
        },
        _ => 0,
    }
}

/// Whether the operation at position `i` can be evaluated: the inputs it
/// needs are known (for a virtual target, the witness gives it a value;
/// for a connection, one side is known).
pub open spec fn ready(op: Op, i: int, known: Seq<bool>, witness: PartialWitness) -> bool {
    match op {
        Op::VirtualTarget => witness.view_map().contains_key(target_at(i)),
        Op::Add { x, y } => known_at(known, x) && known_at(known, y),
        Op::Sub { x, y } => known_at(known, x) && known_at(known, y),
        Op::Mul { x, y } => known_at(known, x) && known_at(known, y),
        Op::IsEqual { x, y } => known_at(known, x) && known_at(known, y),
        Op::MulConstAdd { x, y, .. } => known_at(known, x) && known_at(known, y),
        Op::Div { x, y } => known_at(known, x) && known_at(known, y),
        Op::Connect { x, y } => known_at(known, x) || known_at(known, y),
        Op::AddConst { x, .. } => known_at(known, x),
        Op::Not { b } => known_at(known, b),
        Op::And { a, b } => known_at(known, a) && known_at(known, b),
        Op::Or { a, b } => known_at(known, a) && known_at(known, b),
        Op::Select { b, x, y } => known_at(known, b) && known_at(known, x) && known_at(known, y),
        Op::SplitLe { x, .. } => known_at(known, x),
        Op::SplitLowHigh { x, .. } => known_at(known, x),
        Op::Hash { inputs, .. } => forall|k: int|
            0 <= k < inputs@.len() ==> known_at(known, #[trigger] inputs@[k]),
        _ => true,
    }
}

/// The constant of the operation is no field element: its evaluation is
/// refused before anything is written.
pub open spec fn refused(op: Op) -> bool {
    match op {
        Op::MulConstAdd { c, .. } => c >= ORDER,
        Op::AddConst { c, .. } => c >= ORDER,
        _ => false,
    }
}

/// The targets to which evaluating a ready operation other than a hash
/// gives values, in order, and those values.
pub open spec fn effect(op: Op, i: int, vals: Seq<u64>, known: Seq<bool>, witness: PartialWitness) -> (
    Seq<Target>,
    Seq<u64>,
) {
    let here = target_at(i);
    match op {
        Op::VirtualTarget => (seq![here], seq![witness.view_map()[here]]),
        Op::Constant { c } => (seq![here], seq![c]),
        Op::Connect { x, y } => if known_at(known, x) && !known_at(known, y) {
            (seq![y], seq![vals[x.index as int]])
        } else if known_at(known, y) && !known_at(known, x) {
            (seq![x], seq![vals[y.index as int]])
        } else {
            (seq![], seq![])
        },
        Op::SplitLe { x, bits } => (
            bits@,
            Seq::new(bits@.len(), |k: int| bit_at(vals[x.index as int], k)),
        ),
        Op::SplitLowHigh { x, n_log, low, high, .. } => (
            seq![low, high],
            seq![
                (vals[x.index as int] as nat % pow2(n_log as nat)) as u64,
                (vals[x.index as int] as nat / pow2(n_log as nat)) as u64,
            ],
        ),
        Op::ConstantVerifierData { targets, .. } => (
            targets@,
            targets@.map_values(|t: Target| given_or_zero(witness, t)),
        ),
        Op::Output | Op::AssertBool { .. } | Op::RangeCheck { .. } | Op::VerifyProof { .. }
        | Op::Hash { .. } => (seq![], seq![]),
        _ => (seq![here], seq![result_of(op, vals) as u64]),
    }
}

/// The values after the first `k` of the targets `ts` are given the values
/// `vs`, in order: a target given twice keeps the later value.
pub open spec fn writes(vals: Seq<u64>, ts: Seq<Target>, vs: Seq<u64>, k: nat) -> Seq<u64>
    decreases k,
{
    if k == 0 {
        vals
    } else {
        writes(vals, ts, vs, (k - 1) as nat).update(ts[k - 1].index as int, vs[k - 1])
    }
}

/// What is known after the first `k` of the targets `ts` are learnt.
pub open spec fn marks(known: Seq<bool>, ts: Seq<Target>, k: nat) -> Seq<bool>
    decreases k,
{
    if k == 0 {
        known
    } else {
        marks(known, ts, (k - 1) as nat).update(ts[k - 1].index as int, true)
    }
}

/// Each of the first `k` targets is among the `n` values, and its value a
/// field element.
pub open spec fn writes_ok(n: nat, ts: Seq<Target>, vs: Seq<u64>, k: nat) -> bool {
    forall|j: int| 0 <= j < k ==> (#[trigger] ts[j]).index < n && is_canonical(vs[j])
}

/// The outcome `r` and the values and knowledge `vals1`, `known1` after
/// writing `vs` to `ts` from `vals`, `known`: the writing fails exactly
/// when one of them is out of place, and otherwise gives every target its
/// value.
pub open spec fn written(
    vals: Seq<u64>,
    known: Seq<bool>,
    ts: Seq<Target>,
    vs: Seq<u64>,
    vals1: Seq<u64>,
    known1: Seq<bool>,
    r: Result<bool, GenerateError>,
) -> bool {
    &&& (r is Err <==> !writes_ok(vals.len(), ts, vs, ts.len()))
    &&& (r is Ok ==> r == Ok::<bool, GenerateError>(true) && vals1 == writes(vals, ts, vs, ts.len())
        && known1 == marks(known, ts, ts.len()))
}

/// One more write extends the writes so far.
proof fn lemma_write_one(
    vals: Seq<u64>,
    known: Seq<bool>,
    ts: Seq<Target>,
    vs: Seq<u64>,
    k: nat,
)
    requires
        k < ts.len(),
    ensures
        writes(vals, ts, vs, k + 1) == writes(vals, ts, vs, k).update(ts[k as int].index as int, vs[k as int]),
        marks(known, ts, k + 1) == marks(known, ts, k).update(ts[k as int].index as int, true),
{
}

/// Evaluates the operation at position `i` if its inputs are known: gives
/// its results their values. Returns whether it was evaluated.
#[verifier::rlimit(80)]
#[verifier::loop_isolation(false)]
fn evaluate<H: Fn(Vec<u64>) -> [u64; 4]>(
    op: &Op,
    i: usize,
    vals: &mut Vec<u64>,
    known: &mut Vec<bool>,
    witness: &PartialWitness,
    hasher: &H,
) -> (r: Result<bool, GenerateError>)
    requires
        i < old(vals)@.len(),
        old(known)@.len() == old(vals)@.len(),
        all_canonical(old(vals)@),
        forall|v: Vec<u64>| call_requires(*hasher, (v,)),
    ensures
        final(vals)@.len() == old(vals)@.len(),
        final(known)@.len() == old(known)@.len(),
        all_canonical(final(vals)@),
        r matches Ok(b) ==> b == ready(*op, i as int, old(known)@, *witness),
        !ready(*op, i as int, old(known)@, *witness) ==> r == Ok::<bool, GenerateError>(false)
            && final(vals)@ == old(vals)@ && final(known)@ == old(known)@,
        r matches Err(e) ==> e == (GenerateError::Malformed { op: i }) || e == (
        GenerateError::NotCanonical { op: i }),
        ready(*op, i as int, old(known)@, *witness) && refused(*op) ==> (r is Err),
        ready(*op, i as int, old(known)@, *witness) && *op !is Hash && !refused(*op) ==> written(
            old(vals)@,
            old(known)@,
            effect(*op, i as int, old(vals)@, old(known)@, *witness).0,
            effect(*op, i as int, old(vals)@, old(known)@, *witness).1,
            final(vals)@,
            final(known)@,
            r,
        ),
        ready(*op, i as int, old(known)@, *witness) ==> (*op matches Op::Hash { inputs, outputs }
            ==> (exists|v: Vec<u64>, out: [u64; 4]|
            v@ == inputs@.map_values(|t: Target| old(vals)@[t.index as int]) && #[trigger]
            call_ensures(*hasher, (v,), out) && written(
                old(vals)@,
                old(known)@,
                outputs@,
                out@,
                final(vals)@,
                final(known)@,
                r,
            ))),
{
    let here = Target { index: i };
    let ghost vals0 = vals@;
    let ghost known0 = known@;
    proof {
        lemma_write_one(vals0, known0, seq![here], seq![0u64], 0);
    }
    match op {
        Op::VirtualTarget => match witness.try_get_target(here) {
            Some(v) => {
                proof {
                    lemma_write_one(vals0, known0, seq![here], seq![v], 0);
                }
                learn(vals, known, here, v, i)?;
                Ok(true)
            },
            None => Ok(false),
        },
        Op::Output | Op::AssertBool { .. } | Op::RangeCheck { .. } | Op::VerifyProof { .. } => Ok(
            true,
        ),
        Op::Div { x, y } => {
            if !(is_known(known, *x) && is_known(known, *y)) {
                return Ok(false);
            }
            let a = vals[x.index];
            let b = vals[y.index];
            let inv = inverse(b);
            let v = crate::field::mul(a, inv);
            proof {
                lemma_mul_mod_noop_right(a as int, pow(b as int, (ORDER - 2) as nat), p());
                lemma_write_one(vals0, known0, seq![here], seq![v], 0);
            }
            learn(vals, known, here, v, i)?;
            Ok(true)
        },
        Op::Connect { x, y } => {
            if is_known(known, *x) && !is_known(known, *y) {
                let v = vals[x.index];
                proof {
                    lemma_write_one(vals0, known0, seq![*y], seq![v], 0);
                }
                learn(vals, known, *y, v, i)?;
                Ok(true)
            } else if is_known(known, *y) && !is_known(known, *x) {
                let v = vals[y.index];
                proof {
                    lemma_write_one(vals0, known0, seq![*x], seq![v], 0);
                }
                learn(vals, known, *x, v, i)?;
                Ok(true)
            } else {
                Ok(is_known(known, *x) && is_known(known, *y))
            }
        },
        Op::Constant { c } => {
            proof {
                lemma_write_one(vals0, known0, seq![here], seq![*c], 0);
            }
            learn(vals, known, here, *c, i)?;
            Ok(true)
        },
        Op::Add { x, y } | Op::Sub { x, y } | Op::Mul { x, y } | Op::IsEqual { x, y } => {
            if !(is_known(known, *x) && is_known(known, *y)) {
                return Ok(false);
            }
            let a = vals[x.index];
            let b = vals[y.index];
            let v = match op {
                Op::Add { .. } => crate::field::add(a, b),
                Op::Sub { .. } => crate::field::sub(a, b),
                Op::Mul { .. } => crate::field::mul(a, b),
                _ => if a == b {
                    1
                } else {
                    0
                },
            };
            proof {
                lemma_write_one(vals0, known0, seq![here], seq![v], 0);
            }
            learn(vals, known, here, v, i)?;
            Ok(true)
        },
        Op::MulConstAdd { c, x, y } => {
            if !(is_known(known, *x) && is_known(known, *y)) {
                return Ok(false);
            }
            if *c >= ORDER {
                return Err(GenerateError::NotCanonical { op: i });
            }
            let a = vals[x.index];
            let b = vals[y.index];
            let m = crate::field::mul(*c, a);
            let v = crate::field::add(m, b);
            proof {
                lemma_add_mod_noop(*c * a, b as int, p());
                lemma_fmod_small(b as int);
                lemma_mod_twice(*c * a, p());
                lemma_write_one(vals0, known0, seq![here], seq![v], 0);
            }
            learn(vals, known, here, v, i)?;
            Ok(true)
        },
        Op::AddConst { x, c } => {
            if !is_known(known, *x) {
                return Ok(false);
            }
            if *c >= ORDER {
                return Err(GenerateError::NotCanonical { op: i });
            }
            let v = crate::field::add(vals[x.index], *c);
            proof {
                lemma_write_one(vals0, known0, seq![here], seq![v], 0);
            }
            learn(vals, known, here, v, i)?;
            Ok(true)
        },
        Op::Not { b } => {
            if !is_known(known, *b) {
                return Ok(false);
            }
            let v = crate::field::sub(1, vals[b.index]);
            proof {
                lemma_write_one(vals0, known0, seq![here], seq![v], 0);
            }
            learn(vals, known, here, v, i)?;
            Ok(true)
        },
        Op::And { a, b } | Op::Or { a, b } => {
            if !(is_known(known, *a) && is_known(known, *b)) {
                return Ok(false);
            }
            let u = vals[a.index];
            let w = vals[b.index];
            let m = crate::field::mul(u, w);
            let v = match op {
                Op::And { .. } => m,
                _ => crate::field::sub(crate::field::add(u, w), m),
            };
            proof {
                lemma_sub_mod_noop(u + w, u * w, p());
                lemma_write_one(vals0, known0, seq![here], seq![v], 0);
            }
            learn(vals, known, here, v, i)?;
            Ok(true)
        },
        Op::Select { b, x, y } => {
            if !(is_known(known, *b) && is_known(known, *x) && is_known(known, *y)) {
                return Ok(false);
            }
            let c = vals[b.index];
            let u = vals[x.index];
            let w = vals[y.index];
            let d = crate::field::sub(crate::field::mul(c, u), crate::field::mul(c, w));
            let v = crate::field::add(d, w);
            proof {
                lemma_sub_mod_noop(c * u, c * w, p());
                lemma_add_mod_noop(c * u - c * w, w as int, p());
                lemma_fmod_small(w as int);
                lemma_mod_twice(c * u - c * w, p());
                lemma_write_one(vals0, known0, seq![here], seq![v], 0);
            }
            learn(vals, known, here, v, i)?;
            Ok(true)
        },
        Op::SplitLe { x, bits } => {
            if !is_known(known, *x) {
                return Ok(false);
            }
            let xv = vals[x.index];
            let ghost vs = Seq::new(bits@.len(), |k: int| bit_at(xv, k));
            let mut k: usize = 0;
            while k < bits.len()
                invariant
                    k <= bits@.len() == vs.len(),
                    vals0.len() == known0.len(),
                    vals0 == old(vals)@,
                    known0 == old(known)@,
                    vs == Seq::new(bits@.len(), |k: int| bit_at(xv, k)),
                    vals@ == writes(vals0, bits@, vs, k as nat),
                    known@ == marks(known0, bits@, k as nat),
                    writes_ok(vals0.len(), bits@, vs, k as nat),
                    known@.len() == vals@.len() == vals0.len(),
                    all_canonical(vals@),
                decreases bits@.len() - k,
            {
                let bit: u64 = if k < 64 {
                    (xv >> (k as u64)) & 1
                } else {
                    0
                };
                proof {
                    lemma_bit(xv, k as int);
                    lemma_write_one(vals0, known0, bits@, vs, k as nat);
                }
                learn(vals, known, bits[k], bit, i)?;
                k = k + 1;
            }
            Ok(true)
        },
        Op::SplitLowHigh { x, n_log, low, high, .. } => {
            if !is_known(known, *x) {
                return Ok(false);
            }
            let xv = vals[x.index];
            proof {
                vstd::arithmetic::power2::lemma2_to64();
                vstd::arithmetic::power2::lemma_pow2_pos(*n_log as nat);
                if *n_log > 64 {
                    vstd::arithmetic::power2::lemma_pow2_strictly_increases(64, *n_log as nat);
                }
            }
            let (lo, hi): (u64, u64) = if *n_log < 64 {
                let m: u128 = pow2_u128(*n_log);
                proof {
                    vstd::bits::lemma_u64_shr_is_div(xv, *n_log as u64);
                }
                (((xv as u128) % m) as u64, xv >> (*n_log as u64))
            } else {
                proof {
                    lemma_small_mod(xv as nat, pow2(*n_log as nat));
                    lemma_basic_div(xv as int, pow2(*n_log as nat) as int);
                }
                (xv, 0)
            };
            let ghost ts = seq![*low, *high];
            let ghost vs = seq![lo, hi];
            proof {
                lemma_div_is_ordered_by_denominator(xv as int, 1, pow2(*n_log as nat) as int);
                lemma_mod_bound(xv as int, pow2(*n_log as nat) as int);
                lemma_write_one(vals0, known0, ts, vs, 0);
            }
            learn(vals, known, *low, lo, i)?;
            proof {
                lemma_write_one(vals0, known0, ts, vs, 1);
            }
            learn(vals, known, *high, hi, i)?;
            Ok(true)
        },
        Op::Hash { inputs, outputs } => {
            let mut ins: Vec<u64> = Vec::new();
            let mut k: usize = 0;
            while k < inputs.len()
                invariant
                    k <= inputs@.len(),
                    vals@ == vals0,
                    known@ == known0,
                    vals0 == old(vals)@,
                    known0 == old(known)@,
                    all_canonical(vals0),
                    known@.len() == vals@.len(),
                    forall|j: int| 0 <= j < k ==> known_at(known0, #[trigger] inputs@[j]),
                    ins@ == inputs@.take(k as int).map_values(|t: Target| vals0[t.index as int]),
                decreases inputs@.len() - k,
            {
                if !is_known(known, inputs[k]) {
                    return Ok(false);
                }
                ins.push(vals[inputs[k].index]);
                proof {
                    assert(inputs@.take(k + 1) == inputs@.take(k as int).push(inputs@[k as int]));
                }
                k = k + 1;
            }
            proof {
                assert(inputs@.take(k as int) == inputs@);
            }
            let ghost ins0 = ins;
            let out = hasher(ins);
            let mut k: usize = 0;
            while k < 4
                invariant
                    k <= 4,
                    vals0.len() == known0.len(),
                    vals0 == old(vals)@,
                    known0 == old(known)@,
                    vals@ == writes(vals0, outputs@, out@, k as nat),
                    known@ == marks(known0, outputs@, k as nat),
                    writes_ok(vals0.len(), outputs@, out@, k as nat),
                    known@.len() == vals@.len() == vals0.len(),
                    all_canonical(vals@),
                decreases 4 - k,
            {
                proof {
                    lemma_write_one(vals0, known0, outputs@, out@, k as nat);
                }
                learn(vals, known, outputs[k], out[k], i)?;
                k = k + 1;
            }
            Ok(true)
        },
        Op::ConstantVerifierData { targets, .. } => {
            let ghost vs = targets@.map_values(|t: Target| given_or_zero(*witness, t));
            let mut k: usize = 0;
            while k < targets.len()
                invariant
                    k <= targets@.len() == vs.len(),
                    vals0.len() == known0.len(),
                    vals0 == old(vals)@,
                    known0 == old(known)@,
                    vs == targets@.map_values(|t: Target| given_or_zero(*witness, t)),
                    vals@ == writes(vals0, targets@, vs, k as nat),
                    known@ == marks(known0, targets@, k as nat),
                    writes_ok(vals0.len(), targets@, vs, k as nat),
                    known@.len() == vals@.len() == vals0.len(),
                    all_canonical(vals@),
                decreases targets@.len() - k,
            {
                let v = match witness.try_get_target(targets[k]) {
                    Some(v) => v,
                    None => 0,
                };
                proof {
                    lemma_write_one(vals0, known0, targets@, vs, k as nat);
                }
                learn(vals, known, targets[k], v, i)?;
                k = k + 1;
            }
            Ok(true)
        },
    }
}

/// Bit `k` of a `u64`, as a shift and a mask, or zero past its width.
proof fn lemma_bit(v: u64, k: int)
    requires
        0 <= k,
    ensures
        k < 64 ==> (v >> (k as u64)) & 1 == bit_at(v, k),
        k >= 64 ==> bit_at(v, k) == 0,
{
    vstd::arithmetic::power2::lemma2_to64();
    if k < 64 {
        vstd::bits::lemma_u64_shr_is_div(v, k as u64);
        let q: u64 = v >> (k as u64);
        assert(q & 1 == q % 2) by (bit_vector);
    } else {
        if k > 64 {
            vstd::arithmetic::power2::lemma_pow2_strictly_increases(64, k as nat);
        }
        lemma_basic_div(v as int, pow2(k as nat) as int);
    }
}

/// No operation of the plan is a hash: the values of such a plan are
/// computed without the hash function.
pub open spec fn no_hash(ops: Seq<Op>) -> bool {
    forall|i: int| 0 <= i < ops.len() ==> !(#[trigger] ops[i] is Hash)
}

/// The state of the computation of values: the values so far, which
/// targets are known, which operations are done, whether the current pass
/// has done anything, and the position of an operation whose evaluation
/// failed.
pub ghost struct GenState {
    pub vals: Seq<u64>,
    pub known: Seq<bool>,
    pub done: Seq<bool>,
    pub progress: bool,
    pub failed: Option<int>,
}

/// The state before the first pass over a plan of `n` operations.
pub open spec fn gen_init(n: nat) -> GenState {
    GenState {
        vals: Seq::new(n, |k: int| 0u64),
        known: Seq::new(n, |k: int| false),
        done: Seq::new(n, |k: int| false),
        progress: true,
        failed: None,
    }
}

/// The state after the operation at position `i` is visited: an operation
/// not done whose inputs are known writes its results, becomes done, and
/// its own target becomes known (a reserved position becomes known when
/// the operation it is reserved for writes it).
pub open spec fn gen_step(op: Op, i: int, witness: PartialWitness, s: GenState) -> GenState {
    if s.done[i] || !ready(op, i, s.known, witness) {
        s
    } else {
        let e = effect(op, i, s.vals, s.known, witness);
        if refused(op) || !writes_ok(s.vals.len(), e.0, e.1, e.0.len()) {
            GenState {
                vals: s.vals,
                known: s.known,
                done: s.done,
                progress: s.progress,
                failed: Some(i),
            }
        } else {
            let known1 = marks(s.known, e.0, e.0.len());
            GenState {
                vals: writes(s.vals, e.0, e.1, e.0.len()),
                known: if op is Output {
                    known1
                } else {
                    known1.update(i, true)
                },
                done: s.done.update(i, true),
                progress: true,
                failed: None,
            }
        }
    }
}

/// The state after the first `j` operations of a pass are visited; a
/// failure ends the pass.
pub open spec fn gen_pass(ops: Seq<Op>, witness: PartialWitness, s: GenState, j: nat) -> GenState
    decreases j,
{
    if j == 0 {
        s
    } else {
        let t = gen_pass(ops, witness, s, (j - 1) as nat);
        if t.failed is Some {
            t
        } else {
            gen_step(ops[j - 1], j - 1, witness, t)
        }
    }
}

/// The state after `k` passes, each over the whole plan, as long as the
/// previous pass did something and nothing failed.
pub open spec fn gen_run(ops: Seq<Op>, witness: PartialWitness, s: GenState, k: nat) -> GenState
    decreases k,
{
    if k == 0 {
        s
    } else {
        let prev = gen_run(ops, witness, s, (k - 1) as nat);
        if prev.failed is Some || !prev.progress {
            prev
        } else {
            gen_pass(
                ops,
                witness,
                GenState {
                    vals: prev.vals,
                    known: prev.known,
                    done: prev.done,
                    progress: false,
                    failed: None,
                },
                ops.len(),
            )
        }
    }
}

/// The state in which the computation of the values of a plan ends: after
/// as many passes as the plan has operations (each pass that does anything
/// finishes an operation).
pub open spec fn gen_final(ops: Seq<Op>, witness: PartialWitness) -> GenState {
    gen_run(ops, witness, gen_init(ops.len()), ops.len())
}

/// Every target is known.
pub open spec fn all_known(known: Seq<bool>) -> bool {
    forall|j: int| 0 <= j < known.len() ==> #[trigger] known[j]
}

/// What the computation of the values of a plan returns: the failure of an
/// operation's evaluation, the first target left unknown, or the values.
pub open spec fn computes(ops: Seq<Op>, witness: PartialWitness, r: Result<Vec<u64>, GenerateError>) -> bool {
    let st = gen_final(ops, witness);
    match st.failed {
        Some(i) => r matches Err(e) && (e == GenerateError::Malformed { op: i as usize } || e
            == GenerateError::NotCanonical { op: i as usize }),
        None => if all_known(st.known) {
            r matches Ok(v) && v@ == st.vals
        } else {
            r matches Err(GenerateError::Missing { target }) && target.index < st.known.len()
                && !st.known[target.index as int] && forall|j: int|
                0 <= j < target.index ==> #[trigger] st.known[j]
        },
    }
}

/// A failure ends the rest of a pass.
proof fn lemma_pass_failed(ops: Seq<Op>, witness: PartialWitness, s: GenState, j: nat, m: nat)
    requires
        j <= m,
        gen_pass(ops, witness, s, j).failed is Some,
    ensures
        gen_pass(ops, witness, s, m) == gen_pass(ops, witness, s, j),
    decreases m - j,
{
    if j < m {
        lemma_pass_failed(ops, witness, s, j, (m - 1) as nat);
    }
}

/// Once a pass fails or does nothing, no later pass runs.
proof fn lemma_run_stops(ops: Seq<Op>, witness: PartialWitness, s: GenState, k: nat, m: nat)
    requires
        k <= m,
        gen_run(ops, witness, s, k).failed is Some || !gen_run(ops, witness, s, k).progress,
    ensures
        gen_run(ops, witness, s, m) == gen_run(ops, witness, s, k),
    decreases m - k,
{
    if k < m {
        lemma_run_stops(ops, witness, s, k, (m - 1) as nat);
    }
}

/// Computes the value of each target: each operation is evaluated once
/// its inputs are known, and connected targets share their values, pass
/// after pass over the plan until a pass learns nothing new.
#[verifier::rlimit(80)]
fn compute<H: Fn(Vec<u64>) -> [u64; 4]>(
    circuit: &CircuitBuilder,
    witness: &PartialWitness,
    hasher: &H,
) -> (r: Result<Vec<u64>, GenerateError>)
    requires
        forall|v: Vec<u64>| call_requires(*hasher, (v,)),
    ensures
        r matches Ok(vals) ==> vals@.len() == circuit.ops@.len() && all_canonical(vals@),
        no_hash(circuit.ops@) ==> computes(circuit.ops@, *witness, r),
{
    let n = circuit.ops.len();
    let ghost ops = circuit.ops@;
    let mut vals: Vec<u64> = Vec::new();
    let mut known: Vec<bool> = Vec::new();
    let mut done: Vec<bool> = Vec::new();
    while vals.len() < n
        invariant
            vals@.len() <= n,
            known@.len() == vals@.len(),
            done@.len() == vals@.len(),
            all_canonical(vals@),
            vals@ == Seq::new(vals@.len(), |k: int| 0u64),
            known@ == Seq::new(vals@.len(), |k: int| false),
            done@ == Seq::new(vals@.len(), |k: int| false),
        decreases n - vals@.len(),
    {
        vals.push(0);
        known.push(false);
        done.push(false);
        proof {
            assert(vals@ =~= Seq::new(vals@.len(), |k: int| 0u64));
            assert(known@ =~= Seq::new(vals@.len(), |k: int| false));
            assert(done@ =~= Seq::new(vals@.len(), |k: int| false));
        }
    }
    let mut progress = true;
    let mut passes: usize = 0;
    let ghost init = gen_init(n as nat);
    proof {
        assert(GenState { vals: vals@, known: known@, done: done@, progress, failed: None } == gen_run(ops, *witness, init, 0));
    }
    while progress && passes < n
        invariant
            n == circuit.ops@.len(),
            ops == circuit.ops@,
            init == gen_init(n as nat),
            vals@.len() == n,
            known@.len() == n,
            done@.len() == n,
            passes <= n,
            all_canonical(vals@),
            forall|v: Vec<u64>| call_requires(*hasher, (v,)),
            no_hash(ops) ==> (GenState { vals: vals@, known: known@, done: done@, progress, failed: None })
                == gen_run(ops, *witness, init, passes as nat),
        decreases n - passes,
    {
        let ghost start = GenState { vals: vals@, known: known@, done: done@, progress: false, failed: None };
        progress = false;
        let mut i: usize = 0;
        while i < n
            invariant
                n == circuit.ops@.len(),
                ops == circuit.ops@,
                init == gen_init(n as nat),
                vals@.len() == n,
                known@.len() == n,
                done@.len() == n,
                i <= n,
                passes < n,
                all_canonical(vals@),
                forall|v: Vec<u64>| call_requires(*hasher, (v,)),
                no_hash(ops) ==> gen_run(ops, *witness, init, passes as nat).failed is None
                    && gen_run(ops, *witness, init, passes as nat).progress,
                no_hash(ops) ==> start == (GenState {
                    vals: gen_run(ops, *witness, init, passes as nat).vals,
                    known: gen_run(ops, *witness, init, passes as nat).known,
                    done: gen_run(ops, *witness, init, passes as nat).done,
                    progress: false,
                    failed: None,
                }),
                no_hash(ops) ==> (GenState { vals: vals@, known: known@, done: done@, progress, failed: None })
                    == gen_pass(ops, *witness, start, i as nat),
            decreases n - i,
        {
            let ghost before = GenState { vals: vals@, known: known@, done: done@, progress, failed: None };
            if !done[i] {
                let ev = evaluate(&circuit.ops[i], i, &mut vals, &mut known, witness, hasher);
                match ev {
                    Err(e) => {
                        proof {
                            if no_hash(ops) {
                                assert(!(ops[i as int] is Hash));
                                assert(gen_pass(ops, *witness, start, (i + 1) as nat).failed == Some(i as int));
                                lemma_pass_failed(ops, *witness, start, (i + 1) as nat, n as nat);
                                assert(gen_run(ops, *witness, init, (passes + 1) as nat).failed == Some(i as int));
                                lemma_run_stops(ops, *witness, init, (passes + 1) as nat, n as nat);
                            }
                        }
                        return Err(e);
                    },
                    Ok(did) => {
                        if did {
                            done.set(i, true);
                            progress = true;
                            // an operation that produces no target has nothing to learn
                            if !matches!(circuit.ops[i], Op::Output) {
                                known.set(i, true);
                            }
                        }
                    },
                }
            }
            proof {
                if no_hash(ops) {
                    assert(!(ops[i as int] is Hash));
                    assert(gen_pass(ops, *witness, start, (i + 1) as nat) == gen_step(ops[i as int], i as int, *witness, before));
                }
            }
            i = i + 1;
        }
        passes = passes + 1;
    }
    proof {
        if no_hash(ops) {
            if !progress {
                lemma_run_stops(ops, *witness, init, passes as nat, n as nat);
            }
        }
    }
    proof {
        if no_hash(ops) {
            assert(gen_final(ops, *witness).failed is None);
            assert(gen_final(ops, *witness).known == known@);
            assert(gen_final(ops, *witness).vals == vals@);
        }
    }
    let mut i: usize = 0;
    while i < n
        invariant
            known@.len() == n,
            i <= n,
            ops == circuit.ops@,
            no_hash(ops) ==> gen_final(ops, *witness).failed is None && gen_final(ops, *witness).known
                == known@ && gen_final(ops, *witness).vals == vals@,
            forall|j: int| 0 <= j < i ==> #[trigger] known@[j],
        decreases n - i,
    {
        if !known[i] {
            return Err(GenerateError::Missing { target: Target { index: i } });
        }
        i = i + 1;
    }
    Ok(vals)
}

/// The check of the operation at position `i` passes on the values: what
/// it reads is among them and its relation holds (a digest is checked
/// against the hash function elsewhere; a split whose low part is wider
/// than the whole is refused).
pub open spec fn op_passes(op: Op, i: int, vals: Seq<u64>) -> bool {
    &&& reads_in(op, vals.len())
    &&& match op {
        Op::Hash { .. } | Op::ConstantVerifierData { .. } | Op::VerifyProof { .. } => true,
        Op::SplitLowHigh { n_log, num_bits, .. } => n_log <= num_bits && holds_on(op, i, vals),
        _ => holds_on(op, i, vals),
    }
}

/// The witness gives the target at position `i` no other value than the
/// one generated.
pub open spec fn agrees(witness: PartialWitness, i: int, vals: Seq<u64>) -> bool {
    witness.view_map().contains_key(target_at(i)) ==> witness.view_map()[target_at(i)] == vals[i]
}

/// The error of a failed check of the operation at position `i`.
pub open spec fn check_error(op: Op, i: int, vals: Seq<u64>) -> GenerateError {
    if !reads_in(op, vals.len()) {
        GenerateError::Malformed { op: i as usize }
    } else {
        GenerateError::Unsatisfied { op: i as usize }
    }
}

/// What generating the values of a plan returns: the error of their
/// computation, the error of the first operation whose check fails, or the
/// values.
pub open spec fn generates(ops: Seq<Op>, witness: PartialWitness, r: Result<Vec<u64>, GenerateError>) -> bool {
    let st = gen_final(ops, witness);
    if st.failed is Some || !all_known(st.known) {
        computes(ops, witness, r)
    } else if forall|i: int|
        0 <= i < ops.len() ==> op_passes(#[trigger] ops[i], i, st.vals) && agrees(witness, i, st.vals) {
        r matches Ok(v) && v@ == st.vals
    } else {
        exists|i: int|
            0 <= i < ops.len() && !(op_passes(#[trigger] ops[i], i, st.vals) && agrees(
                witness,
                i,
                st.vals,
            )) && (forall|j: int|
                0 <= j < i ==> op_passes(#[trigger] ops[j], j, st.vals) && agrees(witness, j, st.vals))
                && r == Err::<Vec<u64>, GenerateError>(check_error(ops[i], i, st.vals))
    }
}

/// Generates the value of every target of the plan: virtual targets take
/// the values the witness gives them, or those of the targets they are
/// connected to; digests are what `hasher` gives on the values hashed;
/// every other result is computed from its inputs (a verifier data constant
/// takes the witness's values, or zero). Then checks every operation of the
/// plan on the values, and that every value the witness gives is the one
/// generated. On success the values satisfy the plan with any hash
/// function that agrees with `hasher` on what was hashed.
#[verifier::rlimit(40)]
pub fn generate_witness<H: Fn(Vec<u64>) -> [u64; 4]>(
    circuit: &CircuitBuilder,
    witness: &PartialWitness,
    hasher: &H,
) -> (r: Result<Vec<u64>, GenerateError>)
    requires
        forall|v: Vec<u64>| call_requires(*hasher, (v,)),
    ensures
        r matches Ok(vals) ==> {
            &&& vals@.len() == circuit.ops@.len()
            &&& all_canonical(vals@)
            &&& forall|
                h: spec_fn(Seq<int>) -> Seq<int>,
                vk: spec_fn(usize) -> Seq<int>,
                pf: spec_fn(usize, Seq<int>, Seq<int>) -> bool,
            | #[trigger] env_with(vals@, h, vk, pf).valid()
            &&& forall|j: int|
                0 <= j < vals@.len() && witness.view_map().contains_key(target_at(j))
                    ==> witness.has(target_at(j), #[trigger] vals@[j])
            &&& forall|
                h: spec_fn(Seq<int>) -> Seq<int>,
                vk: spec_fn(usize) -> Seq<int>,
                pf: spec_fn(usize, Seq<int>, Seq<int>) -> bool,
            |
                hashes_agree(circuit.ops@, vals@, h) && recursion_agrees(circuit.ops@, vals@, vk, pf)
                    ==> #[trigger] circuit.sat(env_with(vals@, h, vk, pf))
        },
        no_hash(circuit.ops@) ==> generates(circuit.ops@, *witness, r),
{
    let ghost ops = circuit.ops@;
    let ghost st = gen_final(ops, *witness);
    let vals = match compute(circuit, witness, hasher) {
        Ok(v) => v,
        Err(e) => {
            return Err(e);
        },
    };
    let n = circuit.ops.len();
    let mut i: usize = 0;
    while i < n
        invariant
            n == circuit.ops@.len() == vals@.len(),
            all_canonical(vals@),
            forall|j: int|
                #![trigger circuit.ops@[j]]
                0 <= j < i && circuit.ops@[j] !is Hash && !is_recursion(circuit.ops@[j])
                    ==> holds_on(circuit.ops@[j], j, vals@),
            forall|j: int|
                0 <= j < i && witness.view_map().contains_key(target_at(j)) ==> witness.has(
                    target_at(j),
                    #[trigger] vals@[j],
                ),
            ops == circuit.ops@,
            st == gen_final(ops, *witness),
            no_hash(ops) ==> st.failed is None && all_known(st.known) && vals@ == st.vals,
            forall|j: int|
                0 <= j < i ==> op_passes(#[trigger] ops[j], j, vals@) && agrees(*witness, j, vals@),
        decreases n - i,
    {
        let ok = match check_op(&circuit.ops[i], i, &vals) {
            Ok(b) => b,
            Err(e) => {
                proof {
                    assert(!op_passes(ops[i as int], i as int, vals@));
                }
                return Err(e);
            },
        };
        if !ok {
            proof {
                assert(!op_passes(ops[i as int], i as int, vals@));
            }
            return Err(GenerateError::Unsatisfied { op: i });
        }
        assert(op_passes(ops[i as int], i as int, vals@));
        // what the witness gives a target must be what was generated
        if let Some(v) = witness.try_get_target(Target { index: i }) {
            if v != vals[i] {
                proof {
                    assert(!agrees(*witness, i as int, vals@));
                }
                return Err(GenerateError::Unsatisfied { op: i });
            }
        }
        i = i + 1;
    }
    proof {
        assert forall|
            h: spec_fn(Seq<int>) -> Seq<int>,
            vk: spec_fn(usize) -> Seq<int>,
            pf: spec_fn(usize, Seq<int>, Seq<int>) -> bool,
        | #[trigger] env_with(vals@, h, vk, pf).valid() by {
            let e = env_with(vals@, h, vk, pf);
            assert forall|t: Target| 0 <= #[trigger] (e.w)(t) < p() by {
                if t.index < vals@.len() {
                    assert(is_canonical(vals@[t.index as int]));
                }
            }
        }
        assert forall|
            h: spec_fn(Seq<int>) -> Seq<int>,
            vk: spec_fn(usize) -> Seq<int>,
            pf: spec_fn(usize, Seq<int>, Seq<int>) -> bool,
        |
            hashes_agree(circuit.ops@, vals@, h) && recursion_agrees(
                circuit.ops@,
                vals@,
                vk,
                pf,
            ) implies #[trigger] circuit.sat(env_with(vals@, h, vk, pf)) by {
            let e = env_with(vals@, h, vk, pf);
            assert forall|j: int| 0 <= j < circuit.ops@.len() implies #[trigger] holds(
                circuit.ops@[j],
                j,
                e,
            ) by {
                match circuit.ops@[j] {
                    Op::Hash { inputs, outputs } => {
                        assert(e.vals(inputs@) =~= inputs@.map_values(|t: Target| val_of(vals@, t)));
                        assert(holds(circuit.ops@[j], j, e));
                    },
                    Op::ConstantVerifierData { circuit: c, targets } => {
                        assert(e.vals(targets@) =~= targets@.map_values(|t: Target| val_of(vals@, t)));
                        assert(holds(circuit.ops@[j], j, e));
                    },
                    Op::VerifyProof { public_inputs, verifier, common } => {
                        assert(e.vals(verifier@) =~= verifier@.map_values(|t: Target| val_of(vals@, t)));
                        assert(e.vals(public_inputs@) =~= public_inputs@.map_values(
                            |t: Target| val_of(vals@, t),
                        ));
                        assert(holds(circuit.ops@[j], j, e));
                    },
                    _ => {
                        assert(holds_on(circuit.ops@[j], j, vals@));
                        assert(holds(circuit.ops@[j], j, e));
                    },
                }
            }
        }
    }
    Ok(vals)
}

/// The values of the plan's public inputs, in order; `None` when one of
/// them is beyond the values.
pub fn public_values(circuit: &CircuitBuilder, vals: &Vec<u64>) -> (r: Option<Vec<u64>>)
    ensures
        r is Some <==> forall|k: int|
            0 <= k < circuit.public_inputs@.len() ==> (#[trigger] circuit.public_inputs@[k]).index
                < vals@.len(),
        r matches Some(v) ==> v@.len() == circuit.public_inputs@.len() && forall|k: int|
            0 <= k < v@.len() ==> #[trigger] v@[k] == vals@[circuit.public_inputs@[k].index as int],
{
    let mut r: Vec<u64> = Vec::new();
    let mut k: usize = 0;
    while k < circuit.public_inputs.len()
        invariant
            k <= circuit.public_inputs@.len(),
            r@.len() == k,
            forall|j: int| 0 <= j < k ==> (#[trigger] circuit.public_inputs@[j]).index < vals@.len(),
            forall|j: int|
                0 <= j < k ==> #[trigger] r@[j] == vals@[circuit.public_inputs@[j].index as int],
        decreases circuit.public_inputs@.len() - k,
    {
        let t = circuit.public_inputs[k];
        if t.index >= vals.len() {
            return None;
        }
        r.push(vals[t.index]);
        k = k + 1;
    }
    Some(r)
}

} // verus!
