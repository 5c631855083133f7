//! A plan of a plonky2 circuit: the targets it allocates, the gadget calls it
//! makes on a circuit builder, in order, and the public inputs it registers.
//!
//! Each operation of the plan stands for one call on plonky2's
//! `CircuitBuilder`; the meaning of an operation is the relation that the
//! constraints of that call enforce between the values of its targets. A plan
//! is satisfied by an environment (an assignment of field values to targets
//! together with a hash function) when every one of its operations holds.
use vstd::arithmetic::power2::pow2;
use vstd::prelude::*;

use crate::field::{fmod, is_canonical, lemma_fmod_range, lemma_fmod_small, p, ORDER};

verus! {

/// A location holding a field element in the circuit.
///
/// Its index is the position, in the plan, of the operation that produced it.
#[derive(Clone, Copy, PartialEq, Eq, Debug, Structural)]
pub struct Target {
    pub index: usize,
}

/// A target whose value is meant to be `0` or `1`.
#[derive(Clone, Copy, PartialEq, Eq, Debug, Structural)]
pub struct BoolTarget {
    pub target: Target,
}

impl BoolTarget {
    /// Wraps a target without constraining it to be boolean.
    pub fn new_unsafe(target: Target) -> (r: BoolTarget)
        ensures
            r.target == target,
    {
        BoolTarget { target }
    }
}

/// The four targets of a hash digest.
#[derive(Clone, Copy, Debug)]
pub struct HashOutTarget {
    pub elements: [Target; 4],
}

impl HashOutTarget {
    /// Builds a digest target from its four elements.
    pub fn from(elements: [Target; 4]) -> (r: HashOutTarget)
        ensures
            r.elements == elements,
    {
        HashOutTarget { elements }
    }
}

/// The digests of a Merkle cap.
#[derive(Clone, Debug)]
pub struct MerkleCapTarget(pub Vec<HashOutTarget>);

/// The targets of a circuit's verifier data.
#[derive(Clone, Debug)]
pub struct VerifierCircuitTarget {
    /// The cap of the commitment to the constant and permutation polynomials.
    pub constants_sigmas_cap: MerkleCapTarget,
    /// The digest of the circuit.
    pub circuit_digest: HashOutTarget,
}

/// The public inputs of a proof that a circuit verifies.
#[derive(Clone, Debug)]
pub struct ProofWithPublicInputsTarget {
    pub public_inputs: Vec<Target>,
}

/// One call on the circuit builder.
///
/// An operation at position `i` that produces a single target produces the
/// target of index `i`; an operation with several results names them, and
/// each of them is reserved by an `Output` operation placed before it.
pub enum Op {
    /// `add_virtual_target`: a fresh unconstrained target.
    VirtualTarget,
    /// A position reserved for a result of a later operation.
    Output,
    /// `constant(c)`.
    Constant { c: u64 },
    /// `add(x, y)`.
    Add { x: Target, y: Target },
    /// `sub(x, y)`.
    Sub { x: Target, y: Target },
    /// `mul(x, y)`.
    Mul { x: Target, y: Target },
    /// `mul_const_add(c, x, y)`, that is `c * x + y`.
    MulConstAdd { c: u64, x: Target, y: Target },
    /// `add_const(x, c)`.
    AddConst { x: Target, c: u64 },
    /// `div(x, y)`.
    Div { x: Target, y: Target },
    /// `not(b)`, that is `1 - b`.
    Not { b: Target },
    /// `and(a, b)`, that is `a * b`.
    And { a: Target, b: Target },
    /// `or(a, b)`, that is `a + b - a * b`.
    Or { a: Target, b: Target },
    /// `select(b, x, y)`, that is `b * x - b * y + y`.
    Select { b: Target, x: Target, y: Target },
    /// `is_equal(x, y)`.
    IsEqual { x: Target, y: Target },
    /// `connect(x, y)`.
    Connect { x: Target, y: Target },
    /// `assert_bool(b)`.
    AssertBool { b: Target },
    /// `range_check(x, n_log)`.
    RangeCheck { x: Target, n_log: usize },
    /// `split_le(x, bits.len())`, with the little-endian bits as results.
    SplitLe { x: Target, bits: Vec<Target> },
    /// `split_low_high(x, n_log, num_bits)`, with `(low, high)` as results.
    SplitLowHigh { x: Target, n_log: usize, num_bits: usize, low: Target, high: Target },
    /// `hash_n_to_hash_no_pad(inputs)`, with the digest as result.
    Hash { inputs: Vec<Target>, outputs: [Target; 4] },
    /// `constant_verifier_data` of the circuit numbered `circuit`, with the
    /// circuit digest and then the cap's digests, flattened, as results: they
    /// hold that circuit's verifier data (`Env::verifier_data`).
    ConstantVerifierData { circuit: usize, targets: Vec<Target> },
    /// `verify_proof`: a proof, whose public inputs are these targets, of a
    /// circuit of the shape numbered `common`, verifies against the verifier
    /// data held by `verifier` (the circuit digest and then the cap's digests,
    /// flattened). Its relation is that the environment accepts the proof
    /// (`Env::verified`); what the proof itself proves is the child
    /// circuit's own relation.
    VerifyProof { public_inputs: Vec<Target>, verifier: Vec<Target>, common: usize },
}

/// An environment in which a plan is read: the value of every target, the
/// hash function of the circuit, the verifier data of each circuit the plan
/// names, and which proofs verify: `pf(common, verifier, public_inputs)`
/// holds when a proof of a circuit of the shape numbered `common`, with
/// these public inputs, verifies against this verifier data.
pub ghost struct Env {
    pub w: spec_fn(Target) -> int,
    pub h: spec_fn(Seq<int>) -> Seq<int>,
    pub vk: spec_fn(usize) -> Seq<int>,
    pub pf: spec_fn(usize, Seq<int>, Seq<int>) -> bool,
}

impl Env {
    /// The value of a target.
    pub open spec fn val(self, t: Target) -> int {
        (self.w)(t)
    }

    /// The values of a sequence of targets.
    pub open spec fn vals(self, ts: Seq<Target>) -> Seq<int> {
        ts.map_values(|t: Target| self.val(t))
    }

    /// The hash of a sequence of values.
    pub open spec fn hash(self, vs: Seq<int>) -> Seq<int> {
        (self.h)(vs)
    }

    /// The verifier data of the circuit numbered `circuit`, flattened.
    pub open spec fn verifier_data(self, circuit: usize) -> Seq<int> {
        (self.vk)(circuit)
    }

    /// A proof of a circuit of the shape numbered `common`, with these
    /// public inputs, verifies against this verifier data.
    pub open spec fn verified(self, common: usize, verifier: Seq<int>, public_inputs: Seq<int>) -> bool {
        (self.pf)(common, verifier, public_inputs)
    }

    /// Every value is a field element.
    pub open spec fn valid(self) -> bool {
        forall|t: Target| 0 <= #[trigger] (self.w)(t) < p()
    }

    /// The target holds `0` or `1`.
    pub open spec fn is_bool(self, t: Target) -> bool {
        self.val(t) == 0 || self.val(t) == 1
    }

    /// The target holds `1`.
    pub open spec fn truth(self, t: Target) -> bool {
        self.val(t) == 1
    }

    /// The values of a digest target.
    pub open spec fn hash_val(self, h: HashOutTarget) -> Seq<int> {
        self.vals(h.elements@)
    }

    /// The four values of a digest target are zero.
    pub open spec fn hash_is_zero(self, h: HashOutTarget) -> bool {
        forall|i: int| 0 <= i < 4 ==> #[trigger] self.val(h.elements[i]) == 0
    }
}

/// The digest (four elements) of values.
pub open spec fn digest(e: Env, vs: Seq<int>) -> Seq<int> {
    Seq::new(4, |k: int| e.hash(vs)[k])
}

/// The values of a digest target are the digest of the hashed values.
pub proof fn lemma_digest_vals(e: Env, h: HashOutTarget, vs: Seq<int>)
    requires
        forall|k: int| 0 <= k < 4 ==> #[trigger] e.val(h.elements[k]) == e.hash(vs)[k],
    ensures
        e.vals(h.elements@) == digest(e, vs),
{
    assert(e.vals(h.elements@) =~= digest(e, vs));
}

/// What verifying a proof needs to know of the circuit it is of: the number
/// of its public inputs, the height of its cap, and the number by which the
/// plan names it (its shape, and its verifier data where that is constant).
#[derive(Clone, Copy, PartialEq, Eq, Debug)]
pub struct CommonCircuitData {
    pub num_public_inputs: usize,
    pub cap_height: usize,
    pub id: usize,
}

/// The target produced by the operation at position `i`.
pub open spec fn target_at(i: int) -> Target {
    Target { index: i as usize }
}

/// The value of little-endian bits.
pub open spec fn bits_value(bits: Seq<int>) -> int
    decreases bits.len(),
{
    if bits.len() == 0 {
        0
    } else {
        bits[0] + 2 * bits_value(bits.drop_first())
    }
}

/// The relation that the operation at position `i` enforces.
pub open spec fn holds(op: Op, i: int, e: Env) -> bool {
    let out = e.val(target_at(i));
    match op {
        Op::VirtualTarget => true,
        Op::Output => true,
        Op::Constant { c } => out == c,
        Op::Add { x, y } => out == fmod(e.val(x) + e.val(y)),
        Op::Sub { x, y } => out == fmod(e.val(x) - e.val(y)),
        Op::Mul { x, y } => out == fmod(e.val(x) * e.val(y)),
        Op::MulConstAdd { c, x, y } => out == fmod(c * e.val(x) + e.val(y)),
        Op::AddConst { x, c } => out == fmod(e.val(x) + c),
        Op::Div { x, y } => e.val(y) != 0 && fmod(out * e.val(y)) == e.val(x),
        Op::Not { b } => out == fmod(1 - e.val(b)),
        Op::And { a, b } => out == fmod(e.val(a) * e.val(b)),
        Op::Or { a, b } => out == fmod(e.val(a) + e.val(b) - e.val(a) * e.val(b)),
        Op::Select { b, x, y } => out == fmod(e.val(b) * e.val(x) - e.val(b) * e.val(y) + e.val(y)),
        Op::IsEqual { x, y } => out == (if e.val(x) == e.val(y) { 1int } else { 0int }),
        Op::Connect { x, y } => e.val(x) == e.val(y),
        Op::AssertBool { b } => e.is_bool(b),
        Op::RangeCheck { x, n_log } => e.val(x) < pow2(n_log as nat),
        Op::SplitLe { x, bits } => {
            &&& forall|k: int| 0 <= k < bits@.len() ==> #[trigger] e.is_bool(bits@[k])
            &&& bits_value(e.vals(bits@)) == e.val(x)
        },
        Op::SplitLowHigh { x, n_log, num_bits, low, high } => {
            &&& e.val(low) < pow2(n_log as nat)
            &&& e.val(high) < pow2((num_bits - n_log) as nat)
            &&& fmod(e.val(high) * pow2(n_log as nat) + e.val(low)) == e.val(x)
        },
        Op::Hash { inputs, outputs } => forall|k: int|
            0 <= k < 4 ==> #[trigger] e.val(outputs[k]) == e.hash(e.vals(inputs@))[k],
        Op::ConstantVerifierData { circuit, targets } => e.vals(targets@) == e.verifier_data(circuit),
        Op::VerifyProof { public_inputs, verifier, common } => e.verified(
            common,
            e.vals(verifier@),
            e.vals(public_inputs@),
        ),
    }
}

/// Every operation of the plan holds in the environment.
pub open spec fn plan_sat(ops: Seq<Op>, e: Env) -> bool {
    forall|i: int| 0 <= i < ops.len() ==> #[trigger] holds(ops[i], i, e)
}

/// Every target the operation refers to is among the first `n`.
pub open spec fn refs_below(op: Op, n: nat) -> bool {
    match op {
        Op::VirtualTarget | Op::Output | Op::Constant { .. } => true,
        Op::Add { x, y } => x.index < n && y.index < n,
        Op::Sub { x, y } => x.index < n && y.index < n,
        Op::Mul { x, y } => x.index < n && y.index < n,
        Op::MulConstAdd { x, y, .. } => x.index < n && y.index < n,
        Op::IsEqual { x, y } => x.index < n && y.index < n,
        Op::Div { x, y } => x.index < n && y.index < n,
        Op::Connect { x, y } => x.index < n && y.index < n,
        Op::AddConst { x, .. } => x.index < n,
        Op::Not { b } => b.index < n,
        Op::And { a, b } => a.index < n && b.index < n,
        Op::Or { a, b } => a.index < n && b.index < n,
        Op::Select { b, x, y } => b.index < n && x.index < n && y.index < n,
        Op::AssertBool { b } => b.index < n,
        Op::RangeCheck { x, .. } => x.index < n,
        Op::SplitLe { x, bits } => x.index < n && all_below(bits@, n),
        Op::SplitLowHigh { x, low, high, .. } => x.index < n && low.index < n && high.index < n,
        Op::Hash { inputs, outputs } => all_below(inputs@, n) && all_below(outputs@, n),
        Op::ConstantVerifierData { targets, .. } => all_below(targets@, n),
        Op::VerifyProof { public_inputs, verifier, .. } => all_below(public_inputs@, n)
            && all_below(verifier@, n),
    }
}

/// Every target is among the first `n`.
pub open spec fn all_below(ts: Seq<Target>, n: nat) -> bool {
    forall|k: int| 0 <= k < ts.len() ==> (#[trigger] ts[k]).index < n
}

/// The operations of a plan refer only to targets of the plan.
pub open spec fn closed(ops: Seq<Op>) -> bool {
    forall|i: int| 0 <= i < ops.len() ==> refs_below(#[trigger] ops[i], ops.len())
}

/// Two environments agree on the first `n` targets, the hash function, the
/// verifier data and the proofs that verify.
pub open spec fn same_below(e1: Env, e2: Env, n: nat) -> bool {
    &&& e1.h == e2.h
    &&& e1.vk == e2.vk
    &&& e1.pf == e2.pf
    &&& forall|t: Target| t.index < n ==> #[trigger] (e1.w)(t) == (e2.w)(t)
}

/// The environment with the target of index `n` given the value `v`.
pub open spec fn env_set(e: Env, n: nat, v: int) -> Env {
    Env { w: |t: Target| if t.index == n { v } else { (e.w)(t) }, h: e.h, vk: e.vk, pf: e.pf }
}

/// Every valid environment in which `old` holds and `pre` holds can be
/// changed, at targets from the end of `old` on, into a valid one in which
/// `new` holds: `new` rejects nothing that `old` and `pre` accept.
pub open spec fn completes(old: Seq<Op>, new: Seq<Op>, pre: spec_fn(Env) -> bool) -> bool {
    closed(old) ==> forall|e: Env|
        e.valid() && #[trigger] plan_sat(old, e) && pre(e) ==> exists|e2: Env|
            e2.valid() && #[trigger] plan_sat(new, e2) && same_below(e, e2, old.len())
}

/// Values of targets below `n` are the same in environments that agree
/// below `n`.
pub proof fn lemma_vals_frame(e1: Env, e2: Env, n: nat, ts: Seq<Target>)
    requires
        same_below(e1, e2, n),
        all_below(ts, n),
    ensures
        e1.vals(ts) == e2.vals(ts),
{
    assert forall|k: int| 0 <= k < ts.len() implies e1.vals(ts)[k] == e2.vals(ts)[k] by {
        assert(ts[k].index < n);
    }
    assert(e1.vals(ts) =~= e2.vals(ts));
}

/// The relation of an operation reads only the targets it refers to and its
/// own.
pub proof fn lemma_holds_frame(op: Op, i: int, e1: Env, e2: Env, n: nat)
    requires
        0 <= i < n,
        refs_below(op, n),
        same_below(e1, e2, n),
    ensures
        holds(op, i, e1) == holds(op, i, e2),
{
    assert(target_at(i).index < n);
    assert(e1.val(target_at(i)) == e2.val(target_at(i)));
    match op {
        Op::SplitLe { x, bits } => {
            assert(e1.val(x) == e2.val(x));
            lemma_vals_frame(e1, e2, n, bits@);
            assert forall|k: int| 0 <= k < bits@.len() implies (#[trigger] e1.is_bool(bits@[k]))
                == e2.is_bool(bits@[k]) by {
                assert(bits@[k].index < n);
            }
            if forall|k: int| 0 <= k < bits@.len() ==> #[trigger] e1.is_bool(bits@[k]) {
                assert forall|k: int| 0 <= k < bits@.len() implies #[trigger] e2.is_bool(bits@[k]) by {
                    assert(e1.is_bool(bits@[k]));
                }
            }
            if forall|k: int| 0 <= k < bits@.len() ==> #[trigger] e2.is_bool(bits@[k]) {
                assert forall|k: int| 0 <= k < bits@.len() implies #[trigger] e1.is_bool(bits@[k]) by {
                    assert(e2.is_bool(bits@[k]));
                }
            }

        },
        Op::Hash { inputs, outputs } => {
            lemma_vals_frame(e1, e2, n, inputs@);
            assert forall|k: int| 0 <= k < 4 implies #[trigger] e1.val(outputs[k]) == e2.val(
                outputs[k],
            ) by {
                assert(outputs@[k] == outputs[k]);
                assert(outputs@[k].index < n);
            }
            let (v1, v2) = (e1.vals(inputs@), e2.vals(inputs@));
            if holds(op, i, e1) {
                assert forall|k: int| 0 <= k < 4 implies #[trigger] e2.val(outputs[k]) == e2.hash(v2)[k] by {
                    assert(e1.val(outputs[k]) == e1.hash(v1)[k]);
                }
            }
            if holds(op, i, e2) {
                assert forall|k: int| 0 <= k < 4 implies #[trigger] e1.val(outputs[k]) == e1.hash(v1)[k] by {
                    assert(e2.val(outputs[k]) == e2.hash(v2)[k]);
                }
            }
        },
        Op::ConstantVerifierData { targets, .. } => {
            lemma_vals_frame(e1, e2, n, targets@);
            assert(holds(op, i, e1) == holds(op, i, e2));
        },
        Op::VerifyProof { public_inputs, verifier, .. } => {
            lemma_vals_frame(e1, e2, n, public_inputs@);
            lemma_vals_frame(e1, e2, n, verifier@);
            assert(holds(op, i, e1) == holds(op, i, e2));
        },
        Op::SplitLowHigh { x, low, high, .. } => {
            assert((e1.w)(x) == (e2.w)(x));
            assert((e1.w)(low) == (e2.w)(low));
            assert((e1.w)(high) == (e2.w)(high));
        },
        _ => {
            assert(holds(op, i, e1) == holds(op, i, e2));
        },
    }
}

/// A closed plan holds in environments that agree on its targets alike.
pub proof fn lemma_sat_frame(ops: Seq<Op>, e1: Env, e2: Env)
    requires
        closed(ops),
        same_below(e1, e2, ops.len()),
    ensures
        plan_sat(ops, e1) == plan_sat(ops, e2),
{
    assert forall|i: int| 0 <= i < ops.len() implies #[trigger] holds(ops[i], i, e1) == holds(
        ops[i],
        i,
        e2,
    ) by {
        lemma_holds_frame(ops[i], i, e1, e2, ops.len());
    }
    if plan_sat(ops, e1) {
        assert forall|i: int| 0 <= i < ops.len() implies #[trigger] holds(ops[i], i, e2) by {
            assert(holds(ops[i], i, e1));
        }
    }
    if plan_sat(ops, e2) {
        assert forall|i: int| 0 <= i < ops.len() implies #[trigger] holds(ops[i], i, e1) by {
            assert(holds(ops[i], i, e2));
        }
    }
}

/// Pushing an operation that refers to targets of a closed plan gives a
/// closed plan.
pub proof fn lemma_closed_push(ops: Seq<Op>, op: Op)
    requires
        closed(ops),
        refs_below(op, ops.len()),
    ensures
        closed(ops.push(op)),
{
    let n = ops.len();
    assert forall|i: int| 0 <= i < n + 1 implies refs_below(#[trigger] ops.push(op)[i], n + 1) by {
        let o = ops.push(op)[i];
        if i < n {
            assert(o == ops[i]);
            assert(refs_below(o, n));
        }
        match o {
            Op::SplitLe { bits, .. } => {
                assert(forall|k: int| 0 <= k < bits@.len() ==> (#[trigger] bits@[k]).index < n);
            },
            Op::Hash { inputs, outputs } => {
                assert(forall|k: int| 0 <= k < inputs@.len() ==> (#[trigger] inputs@[k]).index < n);
                assert(forall|k: int| 0 <= k < outputs@.len() ==> (#[trigger] outputs@[k]).index < n);
            },
            Op::ConstantVerifierData { targets, .. } => {
                assert(forall|k: int| 0 <= k < targets@.len() ==> (#[trigger] targets@[k]).index < n);
            },
            Op::VerifyProof { public_inputs, verifier, .. } => {
                assert(forall|k: int|
                    0 <= k < public_inputs@.len() ==> (#[trigger] public_inputs@[k]).index < n);
                assert(forall|k: int| 0 <= k < verifier@.len() ==> (#[trigger] verifier@[k]).index < n);
            },
            _ => {},
        }
    }
}

/// A closed plan with one more operation, whose result takes the value `v`:
/// the environment with that value still holds the plan, and holds the
/// operation when its relation holds there.
pub proof fn lemma_push_value(ops: Seq<Op>, op: Op, e: Env, v: int)
    requires
        closed(ops),
        refs_below(op, ops.len()),
        e.valid(),
        plan_sat(ops, e),
        0 <= v < p(),
        holds(op, ops.len() as int, env_set(e, ops.len(), v)),
    ensures
        env_set(e, ops.len(), v).valid(),
        plan_sat(ops.push(op), env_set(e, ops.len(), v)),
        same_below(e, env_set(e, ops.len(), v), ops.len()),
        closed(ops.push(op)),
{
    let n = ops.len();
    let e2 = env_set(e, n, v);
    assert forall|t: Target| 0 <= #[trigger] (e2.w)(t) < p() by {
        if t.index != n {
            assert((e2.w)(t) == (e.w)(t));
        }
    }
    assert forall|t: Target| t.index < n implies #[trigger] e.val(t) == e2.val(t) by {}
    lemma_sat_frame(ops, e, e2);
    assert forall|i: int| 0 <= i < n + 1 implies #[trigger] holds(ops.push(op)[i], i, e2) by {
        if i < n {
            assert(ops.push(op)[i] == ops[i]);
            assert(holds(ops[i], i, e2));
        }
    }
    lemma_closed_push(ops, op);
}

/// A plan with one more operation whose result can always be given a field
/// value that meets its relation completes what the plan accepts.
pub proof fn lemma_push_completes(
    old: Seq<Op>,
    new: Seq<Op>,
    op: Op,
    v: spec_fn(Env) -> int,
    pre: spec_fn(Env) -> bool,
)
    requires
        new == old.push(op),
        new.len() <= usize::MAX,
        refs_below(op, old.len()),
        forall|e: Env|
            #![trigger pre(e)]
            e.valid() && pre(e) ==> 0 <= v(e) < p() && holds(
                op,
                old.len() as int,
                env_set(e, old.len(), v(e)),
            ),
    ensures
        completes(old, new, pre),
        closed(old) ==> closed(new),
{
    let n = old.len();
    if closed(old) {
        assert forall|e: Env| e.valid() && #[trigger] plan_sat(old, e) && pre(e) implies exists|e2: Env|
            e2.valid() && #[trigger] plan_sat(new, e2) && same_below(e, e2, n) by {
            let e2 = env_set(e, n, v(e));
            lemma_push_value(old, op, e, v(e));
        }
        lemma_closed_push(old, op);
    }
}

/// The hash of the values is four field elements.
pub open spec fn hash_in_field(e: Env, vs: Seq<int>) -> bool {
    forall|k: int| 0 <= k < 4 ==> 0 <= #[trigger] e.hash(vs)[k] < p()
}

/// The environment with the targets of indices `n` to `n + 3` given the
/// hash of the values `vs`.
pub open spec fn env_set_hash(e: Env, n: nat, vs: Seq<int>) -> Env {
    Env {
        w: |t: Target|
            if n <= t.index < n + 4 {
                e.hash(vs)[t.index - n]
            } else {
                (e.w)(t)
            },
        h: e.h,
        vk: e.vk,
        pf: e.pf,
    }
}

/// Four reserved positions followed by a hash into them reject nothing
/// whose hash is four field elements.
pub proof fn lemma_hash_completes(old: Seq<Op>, new: Seq<Op>, inputs: Seq<Target>, outputs: [Target; 4])
    requires
        new.len() <= usize::MAX,
        new.len() == old.len() + 5,
        new.subrange(0, old.len() as int) == old,
        forall|k: int| old.len() <= k < old.len() + 4 ==> #[trigger] new[k] == Op::Output,
        new[old.len() + 4int] matches Op::Hash { inputs: i, outputs: o } && i@ == inputs && o == outputs,
        forall|k: int| 0 <= k < 4 ==> #[trigger] outputs[k] == target_at(old.len() + k),
        all_below(inputs, old.len()),
    ensures
        completes(old, new, |e: Env| hash_in_field(e, e.vals(inputs))),
        closed(old) ==> closed(new),
{
    let n = old.len();
    let pre = |e: Env| hash_in_field(e, e.vals(inputs));
    assert forall|k: int| 0 <= k < 4 implies (#[trigger] outputs[k]).index == n + k by {
        assert(outputs[k] == target_at(n + k));
    }
    if closed(old) {
        assert forall|i: int| 0 <= i < new.len() implies refs_below(#[trigger] new[i], new.len()) by {
            if i < n {
                assert(new[i] == old[i]);
                assert(refs_below(old[i], n));
                lemma_refs_below_mono(old[i], n, new.len());
            } else if i == n + 4 {
                assert(outputs@[0] == outputs[0] && outputs@[1] == outputs[1]);
                assert(outputs@[2] == outputs[2] && outputs@[3] == outputs[3]);
                match new[i] {
                    Op::Hash { inputs: hi, outputs: ho } => {
                        assert(forall|k: int| 0 <= k < hi@.len() ==> (#[trigger] hi@[k]).index < n);
                        assert(forall|k: int| 0 <= k < 4 ==> (#[trigger] ho@[k]).index < n + 4);
                    },
                    _ => {},
                }
            } else {
                assert(new[i] == Op::Output);
            }
        }
        assert forall|e: Env| e.valid() && #[trigger] plan_sat(old, e) && pre(e) implies exists|e2: Env|
            e2.valid() && #[trigger] plan_sat(new, e2) && same_below(e, e2, n) by {
            let vs = e.vals(inputs);
            let e2 = env_set_hash(e, n, vs);
            assert forall|t: Target| 0 <= #[trigger] (e2.w)(t) < p() by {
                if n <= t.index < n + 4 {
                    let k: int = t.index - n;
                    assert(0 <= k < 4);
                    assert(0 <= e.hash(vs)[k] < p());
                } else {
                    assert((e2.w)(t) == (e.w)(t));
                }
            }
            assert forall|t: Target| t.index < n implies #[trigger] (e.w)(t) == (e2.w)(t) by {}
            assert(same_below(e, e2, n));
            lemma_sat_frame(old, e, e2);
            lemma_vals_frame(e, e2, n, inputs);
            assert forall|i: int| 0 <= i < new.len() implies #[trigger] holds(new[i], i, e2) by {
                if i < n {
                    assert(new[i] == old[i]);
                    assert(holds(old[i], i, e2));
                } else if i == n + 4 {
                    assert forall|k: int| 0 <= k < 4 implies #[trigger] e2.val(outputs[k]) == e2.hash(
                        e2.vals(inputs),
                    )[k] by {
                        assert(outputs[k].index == n + k);
                    }
                } else {
                    assert(new[i] == Op::Output);
                }
            }
            assert(e2.valid() && plan_sat(new, e2) && same_below(e, e2, n));
        }
    }
}

/// What refers to targets below `n` refers to targets below any larger bound.
pub proof fn lemma_refs_below_mono(op: Op, n: nat, m: nat)
    requires
        refs_below(op, n),
        n <= m,
    ensures
        refs_below(op, m),
{
    match op {
        Op::SplitLe { bits, .. } => {
            assert(forall|k: int| 0 <= k < bits@.len() ==> (#[trigger] bits@[k]).index < n);
        },
        Op::Hash { inputs, outputs } => {
            assert(forall|k: int| 0 <= k < inputs@.len() ==> (#[trigger] inputs@[k]).index < n);
            assert(forall|k: int| 0 <= k < outputs@.len() ==> (#[trigger] outputs@[k]).index < n);
        },
        Op::ConstantVerifierData { targets, .. } => {
            assert(forall|k: int| 0 <= k < targets@.len() ==> (#[trigger] targets@[k]).index < n);
        },
        Op::VerifyProof { public_inputs, verifier, .. } => {
            assert(forall|k: int| 0 <= k < public_inputs@.len() ==> (#[trigger] public_inputs@[k]).index < n);
            assert(forall|k: int| 0 <= k < verifier@.len() ==> (#[trigger] verifier@[k]).index < n);
        },
        _ => {},
    }
}

/// Completion of what a condition accepts holds of every stronger one.
pub proof fn lemma_completes_weaken(a: Seq<Op>, b: Seq<Op>, p1: spec_fn(Env) -> bool, p2: spec_fn(Env) -> bool)
    requires
        completes(a, b, p1),
        forall|e: Env| #![trigger p2(e)] p2(e) ==> p1(e),
    ensures
        completes(a, b, p2),
{
    if closed(a) {
        assert forall|e: Env| e.valid() && #[trigger] plan_sat(a, e) && p2(e) implies exists|e2: Env|
            e2.valid() && #[trigger] plan_sat(b, e2) && same_below(e, e2, a.len()) by {
            assert(p1(e));
        }
    }
}

/// Completion composes: what the first step accepts it completes, and what
/// the second needs holds after the first.
pub proof fn lemma_completes_trans(
    a: Seq<Op>,
    b: Seq<Op>,
    c: Seq<Op>,
    p1: spec_fn(Env) -> bool,
    p2: spec_fn(Env) -> bool,
)
    requires
        completes(a, b, p1),
        completes(b, c, p2),
        a.len() <= b.len(),
        closed(a) ==> closed(b),
        forall|e: Env, e2: Env|
            #![trigger p1(e), p2(e2)]
            e.valid() && plan_sat(a, e) && p1(e) && e2.valid() && plan_sat(b, e2) && same_below(
                e,
                e2,
                a.len(),
            ) ==> p2(e2),
    ensures
        completes(a, c, p1),
{
    if closed(a) {
        assert forall|e: Env| e.valid() && #[trigger] plan_sat(a, e) && p1(e) implies exists|e3: Env|
            e3.valid() && #[trigger] plan_sat(c, e3) && same_below(e, e3, a.len()) by {
            let e2 = choose|e2: Env| e2.valid() && #[trigger] plan_sat(b, e2) && same_below(e, e2, a.len());
            assert(p2(e2));
            let e3 = choose|e3: Env| e3.valid() && #[trigger] plan_sat(c, e3) && same_below(e2, e3, b.len());
            assert forall|t: Target| t.index < a.len() implies #[trigger] (e.w)(t) == (e3.w)(t) by {
                assert((e.w)(t) == (e2.w)(t));
                assert((e2.w)(t) == (e3.w)(t));
            }
        }
    }
}

/// An operation whose result is a function of its inputs and whose relation
/// holds once its result takes that value: it rejects nothing.
pub open spec fn total(op: Op) -> bool {
    match op {
        Op::VirtualTarget | Op::Output | Op::Add { .. } | Op::Sub { .. } | Op::Mul { .. }
        | Op::MulConstAdd { .. } | Op::AddConst { .. } | Op::Not { .. } | Op::And { .. }
        | Op::Or { .. } | Op::Select { .. } | Op::IsEqual { .. } => true,
        Op::Constant { c } => c < ORDER,
        _ => false,
    }
}

/// The value a total operation gives its result.
pub open spec fn total_value(op: Op, e: Env) -> int {
    match op {
        Op::Constant { c } => c as int,
        Op::Add { x, y } => fmod(e.val(x) + e.val(y)),
        Op::Sub { x, y } => fmod(e.val(x) - e.val(y)),
        Op::Mul { x, y } => fmod(e.val(x) * e.val(y)),
        Op::MulConstAdd { c, x, y } => fmod(c * e.val(x) + e.val(y)),
        Op::AddConst { x, c } => fmod(e.val(x) + c),
        Op::Not { b } => fmod(1 - e.val(b)),
        Op::And { a, b } => fmod(e.val(a) * e.val(b)),
        Op::Or { a, b } => fmod(e.val(a) + e.val(b) - e.val(a) * e.val(b)),
        Op::Select { b, x, y } => fmod(e.val(b) * e.val(x) - e.val(b) * e.val(y) + e.val(y)),
        Op::IsEqual { x, y } => if e.val(x) == e.val(y) {
            1
        } else {
            0
        },
        _ => 0,
    }
}

/// The value of a total operation is a field element, and its relation
/// holds when its result takes it.
pub proof fn lemma_total_holds(op: Op, n: nat, e: Env)
    requires
        total(op),
        refs_below(op, n),
        n < usize::MAX,
    ensures
        0 <= total_value(op, e) < p(),
        holds(op, n as int, env_set(e, n, total_value(op, e))),
{
    let v = total_value(op, e);
    let e2 = env_set(e, n, v);
    assert(target_at(n as int).index == n);
    assert(e2.val(target_at(n as int)) == v);
    match op {
        Op::Constant { c } => {},
        Op::Add { x, y } => { lemma_fmod_range(e.val(x) + e.val(y)); },
        Op::Sub { x, y } => { lemma_fmod_range(e.val(x) - e.val(y)); },
        Op::Mul { x, y } => { lemma_fmod_range(e.val(x) * e.val(y)); },
        Op::MulConstAdd { c, x, y } => { lemma_fmod_range(c * e.val(x) + e.val(y)); },
        Op::AddConst { x, c } => { lemma_fmod_range(e.val(x) + c); },
        Op::Not { b } => { lemma_fmod_range(1 - e.val(b)); },
        Op::And { a, b } => { lemma_fmod_range(e.val(a) * e.val(b)); },
        Op::Or { a, b } => { lemma_fmod_range(e.val(a) + e.val(b) - e.val(a) * e.val(b)); },
        Op::Select { b, x, y } => {
            lemma_fmod_range(e.val(b) * e.val(x) - e.val(b) * e.val(y) + e.val(y));
        },
        _ => {},
    }
}

/// `new` is `old` followed by total operations, each referring to targets
/// before it.
pub open spec fn total_ext(old: Seq<Op>, new: Seq<Op>) -> bool {
    &&& old.len() <= new.len()
    &&& new.subrange(0, old.len() as int) == old
    &&& forall|i: int| old.len() <= i < new.len() ==> total(#[trigger] new[i]) && refs_below(new[i], i as nat)
}

/// One total operation referring to earlier targets extends totally.
pub proof fn lemma_total_ext_push(old: Seq<Op>, op: Op)
    requires
        total(op),
        refs_below(op, old.len()),
    ensures
        total_ext(old, old.push(op)),
{
    assert(old.push(op).subrange(0, old.len() as int) =~= old);
}

/// Total extensions compose.
pub proof fn lemma_total_ext_trans(a: Seq<Op>, b: Seq<Op>, c: Seq<Op>)
    requires
        total_ext(a, b),
        total_ext(b, c),
    ensures
        total_ext(a, c),
{
    assert(c.subrange(0, a.len() as int) =~= b.subrange(0, a.len() as int));
    assert forall|i: int| a.len() <= i < c.len() implies total(#[trigger] c[i]) && refs_below(
        c[i],
        i as nat,
    ) by {
        if i < b.len() {
            assert(c[i] == c.subrange(0, b.len() as int)[i]);
            assert(total(b[i]) && refs_below(b[i], i as nat));
        }
    }
}

/// A total extension rejects nothing that the plan accepts.
pub proof fn lemma_total_ext_completes(old: Seq<Op>, new: Seq<Op>)
    requires
        total_ext(old, new),
        new.len() <= usize::MAX,
    ensures
        completes(old, new, |e: Env| true),
        closed(old) ==> closed(new),
    decreases new.len() - old.len(),
{
    if new.len() == old.len() {
        assert(new =~= old);
        if closed(old) {
            assert forall|e: Env| e.valid() && #[trigger] plan_sat(old, e) && true implies exists|e2: Env|
                e2.valid() && #[trigger] plan_sat(new, e2) && same_below(e, e2, old.len()) by {
                assert(same_below(e, e, old.len()));
            }
        }
    } else {
        let mid = new.drop_last();
        let op = new.last();
        assert(mid.subrange(0, old.len() as int) =~= new.subrange(0, old.len() as int));
        assert forall|i: int| old.len() <= i < mid.len() implies total(#[trigger] mid[i]) && refs_below(
            mid[i],
            i as nat,
        ) by {
            assert(mid[i] == new[i]);
        }
        lemma_total_ext_completes(old, mid);
        assert(new =~= mid.push(op));
        assert(total(new[new.len() - 1]) && refs_below(new[new.len() - 1], (new.len() - 1) as nat));
        let t = |e: Env| true;
        let v = |e: Env| total_value(op, e);
        assert forall|e: Env| #![trigger t(e)] e.valid() && t(e) implies 0 <= v(e) < p() && holds(
            op,
            mid.len() as int,
            env_set(e, mid.len(), v(e)),
        ) by {
            lemma_total_holds(op, mid.len(), e);
        }
        lemma_push_completes(mid, new, op, v, t);
        lemma_completes_trans(old, mid, new, |e: Env| true, |e: Env| true);
    }
}

/// The environment with the targets of indices `n` to `n + vals.len() - 1`
/// given the values `vals`.
pub open spec fn env_set_from(e: Env, n: nat, vals: Seq<int>) -> Env {
    Env {
        w: |t: Target|
            if n <= t.index < n + vals.len() {
                vals[t.index - n]
            } else {
                (e.w)(t)
            },
        h: e.h,
        vk: e.vk,
        pf: e.pf,
    }
}

/// Fresh targets that nothing constrains keep a plan closed.
pub proof fn lemma_alloc_closed(old: Seq<Op>, new: Seq<Op>)
    requires
        closed(old),
        old.len() <= new.len(),
        new.subrange(0, old.len() as int) == old,
        forall|i: int| old.len() <= i < new.len() ==> (#[trigger] new[i] == Op::VirtualTarget || new[i] == Op::Output),
    ensures
        closed(new),
{
    let n = old.len();
    assert forall|i: int| 0 <= i < new.len() implies refs_below(#[trigger] new[i], new.len()) by {
        if i < n {
            assert(new[i] == old[i]);
            assert(refs_below(old[i], n));
            lemma_refs_below_mono(old[i], n, new.len());
        }
    }
}

/// Fresh targets that nothing constrains take any field values.
pub proof fn lemma_alloc_values(old: Seq<Op>, new: Seq<Op>, e: Env, vals: Seq<int>)
    requires
        closed(old),
        new.len() == old.len() + vals.len(),
        new.subrange(0, old.len() as int) == old,
        forall|i: int| old.len() <= i < new.len() ==> (#[trigger] new[i] == Op::VirtualTarget || new[i] == Op::Output),
        e.valid(),
        plan_sat(old, e),
        forall|i: int| 0 <= i < vals.len() ==> 0 <= #[trigger] vals[i] < p(),
    ensures
        env_set_from(e, old.len(), vals).valid(),
        plan_sat(new, env_set_from(e, old.len(), vals)),
        same_below(e, env_set_from(e, old.len(), vals), old.len()),
        closed(new),
{
    let n = old.len();
    let e2 = env_set_from(e, n, vals);
    assert forall|t: Target| 0 <= #[trigger] (e2.w)(t) < p() by {
        if n <= t.index < n + vals.len() {
            assert(0 <= vals[t.index - n] < p());
        } else {
            assert((e2.w)(t) == (e.w)(t));
        }
    }
    assert forall|t: Target| t.index < n implies #[trigger] (e.w)(t) == (e2.w)(t) by {}
    lemma_sat_frame(old, e, e2);
    assert forall|i: int| 0 <= i < new.len() implies #[trigger] holds(new[i], i, e2) by {
        if i < n {
            assert(new[i] == old[i]);
            assert(holds(old[i], i, e2));
        }
    }
    lemma_alloc_closed(old, new);
}

/// An operation that only checks its targets: its relation does not read a
/// result of its own.
pub open spec fn is_check(op: Op) -> bool {
    op is Connect || op is AssertBool || op is RangeCheck
}

/// Checks of earlier targets reject nothing that already meets them.
pub proof fn lemma_checks_complete(old: Seq<Op>, new: Seq<Op>, pre: spec_fn(Env) -> bool)
    requires
        old.len() <= new.len(),
        new.subrange(0, old.len() as int) == old,
        forall|i: int| old.len() <= i < new.len() ==> is_check(#[trigger] new[i]) && refs_below(new[i], old.len()),
        forall|e: Env, i: int|
            #![trigger pre(e), new[i]]
            e.valid() && plan_sat(old, e) && pre(e) && old.len() <= i < new.len() ==> holds(new[i], i, e),
    ensures
        completes(old, new, pre),
        closed(old) ==> closed(new),
{
    let n = old.len();
    if closed(old) {
        assert forall|i: int| 0 <= i < new.len() implies refs_below(#[trigger] new[i], new.len()) by {
            if i < n {
                assert(new[i] == old[i]);
                assert(refs_below(old[i], n));
                lemma_refs_below_mono(old[i], n, new.len());
            } else {
                lemma_refs_below_mono(new[i], n, new.len());
            }
        }
        assert forall|e: Env| e.valid() && #[trigger] plan_sat(old, e) && pre(e) implies exists|e2: Env|
            e2.valid() && #[trigger] plan_sat(new, e2) && same_below(e, e2, n) by {
            assert forall|i: int| 0 <= i < new.len() implies #[trigger] holds(new[i], i, e) by {
                if i < n {
                    assert(new[i] == old[i]);
                } else {
                    assert(pre(e));
                }
            }
            assert(plan_sat(new, e));
            assert(same_below(e, e, n));
        }
    }
}

/// Pushing an operation keeps what held before and adds its own relation.
pub proof fn lemma_sat_push(ops: Seq<Op>, op: Op)
    ensures
        forall|e: Env|
            #[trigger] plan_sat(ops.push(op), e) ==> plan_sat(ops, e) && holds(
                op,
                ops.len() as int,
                e,
            ),
{
    assert forall|e: Env| #[trigger] plan_sat(ops.push(op), e) implies plan_sat(ops, e) && holds(
        op,
        ops.len() as int,
        e,
    ) by {
        assert forall|i: int| 0 <= i < ops.len() implies #[trigger] holds(ops[i], i, e) by {
            assert(ops.push(op)[i] == ops[i]);
        }
        assert(ops.push(op)[ops.len() as int] == op);
    }
}

/// A cap height whose cap, counted in field elements together with the
/// circuit digest, fits a machine word: `4 + 4 * 2^cap_height`.
pub open spec fn cap_height_ok(cap_height: usize) -> bool {
    cap_height + 3 < usize::BITS
}

/// The number of digests in a cap of the given height, `2^cap_height`.
pub fn num_cap_elements(cap_height: usize) -> (r: usize)
    requires
        cap_height_ok(cap_height),
    ensures
        r == pow2(cap_height as nat),
        8 * r < usize::MAX,
{
    let mut r: usize = 1;
    let mut i: usize = 0;
    proof {
        lemma_cap_fits(cap_height);
        vstd::arithmetic::power2::lemma2_to64();
    }
    while i < cap_height
        invariant
            i <= cap_height,
            cap_height_ok(cap_height),
            r == pow2(i as nat),
            8 * pow2(cap_height as nat) < usize::MAX,
        decreases cap_height - i,
    {
        proof {
            vstd::arithmetic::power2::lemma_pow2_unfold((i + 1) as nat);
            if i + 1 < cap_height {
                vstd::arithmetic::power2::lemma_pow2_strictly_increases((i + 1) as nat, cap_height as nat);
            }
        }
        r = r * 2;
        i = i + 1;
    }
    r
}

/// A cap of an allowed height fits a machine word eight times over.
pub proof fn lemma_cap_fits(cap_height: usize)
    requires
        cap_height_ok(cap_height),
    ensures
        8 * pow2(cap_height as nat) < usize::MAX,
{
    vstd::arithmetic::power2::lemma2_to64();
    vstd::layout::unsigned_int_max_values();
    vstd::arithmetic::power2::lemma_pow2_adds(cap_height as nat, 3);
    vstd::arithmetic::power2::lemma_pow2_strictly_increases(
        (cap_height + 3) as nat,
        usize::BITS as nat,
    );
}

/// The targets of verifier data: the circuit digest and then the cap's
/// digests, flattened.
pub open spec fn verifier_targets(v: VerifierCircuitTarget) -> Seq<Target> {
    v.circuit_digest.elements@ + v.constants_sigmas_cap.0@.map_values(
        |h: HashOutTarget| h.elements@,
    ).flatten()
}

/// Digests flattened: four targets each, in order.
proof fn lemma_flat4(hs: Seq<HashOutTarget>)
    ensures
        hs.map_values(|h: HashOutTarget| h.elements@).flatten().len() == 4 * hs.len(),
        forall|k: int, i: int|
            #![trigger hs[k].elements[i]]
            0 <= k < hs.len() && 0 <= i < 4 ==> hs.map_values(|h: HashOutTarget| h.elements@).flatten()[4 * k + i]
                == hs[k].elements[i],
    decreases hs.len(),
{
    if hs.len() > 0 {
        let m = hs.map_values(|h: HashOutTarget| h.elements@);
        let t = hs.drop_first();
        lemma_flat4(t);
        assert(m.drop_first() =~= t.map_values(|h: HashOutTarget| h.elements@));
        assert(m.flatten() == m.first() + m.drop_first().flatten());
        assert(m.first() == hs[0].elements@);
        assert forall|k: int, i: int|
            #![trigger hs[k].elements[i]]
            0 <= k < hs.len() && 0 <= i < 4 implies m.flatten()[4 * k + i] == hs[k].elements[i] by {
            if k > 0 {
                assert(hs[k] == t[k - 1]);
                assert(4 * k + i == 4 + (4 * (k - 1) + i));
            }
        }
    }
}

/// The targets of verifier data hold the circuit digest, then the cap's
/// digests, four targets each.
pub proof fn lemma_verifier_targets_at(v: VerifierCircuitTarget)
    ensures
        verifier_targets(v).len() == 4 + 4 * v.constants_sigmas_cap.0@.len(),
        forall|i: int| 0 <= i < 4 ==> verifier_targets(v)[i] == #[trigger] v.circuit_digest.elements[i],
        forall|k: int, i: int|
            #![trigger v.constants_sigmas_cap.0@[k].elements[i]]
            0 <= k < v.constants_sigmas_cap.0@.len() && 0 <= i < 4 ==> verifier_targets(v)[4 + 4 * k + i]
                == v.constants_sigmas_cap.0@[k].elements[i],
{
    lemma_flat4(v.constants_sigmas_cap.0@);
    assert forall|i: int| 0 <= i < 4 implies verifier_targets(v)[i] == #[trigger] v.circuit_digest.elements[i] by {
        assert(v.circuit_digest.elements@[i] == v.circuit_digest.elements[i]);
    }
}

/// Digests with equal values, one by one, have equal values flattened.
pub proof fn lemma_cap_vals(e: Env, ca: Seq<HashOutTarget>, cb: Seq<HashOutTarget>)
    requires
        ca.len() == cb.len(),
        forall|k: int, i: int|
            #![trigger ca[k].elements[i]]
            0 <= k < ca.len() && 0 <= i < 4 ==> e.val(ca[k].elements[i]) == e.val(cb[k].elements[i]),
    ensures
        e.vals(ca.map_values(|h: HashOutTarget| h.elements@).flatten()) == e.vals(
            cb.map_values(|h: HashOutTarget| h.elements@).flatten(),
        ),
    decreases ca.len(),
{
    let fa = ca.map_values(|h: HashOutTarget| h.elements@);
    let fb = cb.map_values(|h: HashOutTarget| h.elements@);
    if ca.len() == 0 {
        assert(fa =~= Seq::<Seq<Target>>::empty());
        assert(fb =~= Seq::<Seq<Target>>::empty());
    } else {
        let (ra, rb) = (ca.drop_first(), cb.drop_first());
        assert forall|k: int, i: int|
            #![trigger ra[k].elements[i]]
            0 <= k < ra.len() && 0 <= i < 4 implies e.val(ra[k].elements[i]) == e.val(
            rb[k].elements[i],
        ) by {
            assert(ra[k] == ca[k + 1] && rb[k] == cb[k + 1]);
        }
        lemma_cap_vals(e, ra, rb);
        assert(fa.drop_first() =~= ra.map_values(|h: HashOutTarget| h.elements@));
        assert(fb.drop_first() =~= rb.map_values(|h: HashOutTarget| h.elements@));
        assert(fa.flatten() == fa[0] + fa.drop_first().flatten());
        assert(fb.flatten() == fb[0] + fb.drop_first().flatten());
        assert forall|i: int| 0 <= i < 4 implies e.val(#[trigger] ca[0].elements[i]) == e.val(
            cb[0].elements[i],
        ) by {}
        assert(e.vals(fa[0]) =~= e.vals(fb[0]));
        assert(e.vals(fa.flatten()) =~= e.vals(fa[0]) + e.vals(fa.drop_first().flatten()));
        assert(e.vals(fb.flatten()) =~= e.vals(fb[0]) + e.vals(fb.drop_first().flatten()));
    }
}

/// Verifier data with equal values, digest by digest, have equal values
/// flattened.
pub proof fn lemma_verifier_vals(e: Env, a: VerifierCircuitTarget, b: VerifierCircuitTarget)
    requires
        a.constants_sigmas_cap.0@.len() == b.constants_sigmas_cap.0@.len(),
        forall|i: int|
            0 <= i < 4 ==> #[trigger] e.val(a.circuit_digest.elements[i]) == e.val(
                b.circuit_digest.elements[i],
            ),
        forall|k: int, i: int|
            #![trigger a.constants_sigmas_cap.0@[k].elements[i]]
            0 <= k < a.constants_sigmas_cap.0@.len() && 0 <= i < 4 ==> e.val(
                a.constants_sigmas_cap.0@[k].elements[i],
            ) == e.val(b.constants_sigmas_cap.0@[k].elements[i]),
    ensures
        e.vals(verifier_targets(a)) == e.vals(verifier_targets(b)),
{
    lemma_cap_vals(e, a.constants_sigmas_cap.0@, b.constants_sigmas_cap.0@);
    let ta = a.constants_sigmas_cap.0@.map_values(|h: HashOutTarget| h.elements@).flatten();
    let tb = b.constants_sigmas_cap.0@.map_values(|h: HashOutTarget| h.elements@).flatten();
    assert(e.vals(a.circuit_digest.elements@) =~= e.vals(b.circuit_digest.elements@));
    assert(e.vals(verifier_targets(a)) =~= e.vals(a.circuit_digest.elements@) + e.vals(ta));
    assert(e.vals(verifier_targets(b)) =~= e.vals(b.circuit_digest.elements@) + e.vals(tb));
}

/// The targets of verifier data, flattened: the circuit digest and then the
/// cap's digests.
pub fn flatten_verifier(v: &VerifierCircuitTarget) -> (r: Vec<Target>)
    ensures
        r@ == verifier_targets(*v),
{
    let mut r: Vec<Target> = Vec::new();
    r.push(v.circuit_digest.elements[0]);
    r.push(v.circuit_digest.elements[1]);
    r.push(v.circuit_digest.elements[2]);
    r.push(v.circuit_digest.elements[3]);
    let cap = &v.constants_sigmas_cap.0;
    let ghost hs = cap@.map_values(|h: HashOutTarget| h.elements@);
    let mut i: usize = 0;
    while i < cap.len()
        invariant
            i <= cap@.len(),
            hs == cap@.map_values(|h: HashOutTarget| h.elements@),
            r@ == v.circuit_digest.elements@ + hs.take(i as int).flatten(),
        decreases cap@.len() - i,
    {
        let h = cap[i];
        proof {
            assert(hs.take(i + 1) == hs.take(i as int).push(h.elements@));
            hs.take(i as int).lemma_flatten_push(h.elements@);
        }
        r.push(h.elements[0]);
        r.push(h.elements[1]);
        r.push(h.elements[2]);
        r.push(h.elements[3]);
        assert(r@ =~= v.circuit_digest.elements@ + hs.take(i + 1).flatten());
        i = i + 1;
    }
    assert(hs.take(cap@.len() as int) == hs);
    r
}

/// The plan of a circuit under construction.
pub struct CircuitBuilder {
    /// The operations, in the order of their calls.
    pub ops: Vec<Op>,
    /// The registered public inputs, in order.
    pub public_inputs: Vec<Target>,
}

impl CircuitBuilder {
    /// The environment satisfies every operation of the plan.
    pub open spec fn sat(self, e: Env) -> bool {
        plan_sat(self.ops@, e)
    }

    /// `self` is `old` with more constraints and the same public inputs.
    pub open spec fn grows(self, old: CircuitBuilder) -> bool {
        &&& self.public_inputs@ == old.public_inputs@
        &&& forall|e: Env| #[trigger] self.sat(e) ==> old.sat(e)
    }

    /// An empty plan.
    pub fn new() -> (r: CircuitBuilder)
        ensures
            r.ops@.len() == 0,
            r.public_inputs@.len() == 0,
            forall|e: Env| #[trigger] r.sat(e),
    {
        CircuitBuilder { ops: Vec::new(), public_inputs: Vec::new() }
    }

    /// Pushes an operation producing one target.
    fn push_op(&mut self, op: Op) -> (r: Target)
        ensures
            final(self).ops@ == old(self).ops@.push(op),
            final(self).public_inputs@ == old(self).public_inputs@,
            r == target_at(old(self).ops@.len() as int),
            final(self).grows(*old(self)),
            forall|e: Env| #[trigger] final(self).sat(e) ==> holds(op, old(self).ops@.len() as int, e),
    {
        let r = Target { index: self.ops.len() };
        proof {
            lemma_sat_push(self.ops@, op);
        }
        self.ops.push(op);
        r
    }

    /// `add_virtual_target`.
    pub fn add_virtual_target(&mut self) -> (r: Target)
        ensures
            final(self).ops@ == old(self).ops@.push(Op::VirtualTarget),
            final(self).public_inputs@ == old(self).public_inputs@,
            r == target_at(old(self).ops@.len() as int),
            final(self).grows(*old(self)),
    {
        self.push_op(Op::VirtualTarget)
    }

    /// `add_virtual_target_arr::<N>`: `N` fresh unconstrained targets.
    pub fn add_virtual_target_arr<const N: usize>(&mut self) -> (r: [Target; N])
        ensures
            final(self).grows(*old(self)),
            final(self).ops@ == old(self).ops@ + Seq::new(N as nat, |i: int| Op::VirtualTarget),
            forall|i: int| 0 <= i < N ==> #[trigger] r[i] == target_at(old(self).ops@.len() + i),
    {
        let mut r = [Target { index: 0 };N];
        let mut i: usize = 0;
        while i < N
            invariant
                i <= N,
                self.grows(*old(self)),
                self.ops@ == old(self).ops@ + Seq::new(i as nat, |j: int| Op::VirtualTarget),
                forall|j: int| 0 <= j < i ==> #[trigger] r[j] == target_at(old(self).ops@.len() + j),
            decreases N - i,
        {
            let t = self.add_virtual_target();
            r[i] = t;
            i = i + 1;
            assert(self.ops@ =~= old(self).ops@ + Seq::new(i as nat, |j: int| Op::VirtualTarget));
        }
        r
    }

    /// `add_virtual_hash`: four fresh unconstrained targets.
    pub fn add_virtual_hash(&mut self) -> (r: HashOutTarget)
        ensures
            final(self).grows(*old(self)),
            final(self).ops@ == old(self).ops@ + Seq::new(4, |i: int| Op::VirtualTarget),
            forall|i: int| 0 <= i < 4 ==> #[trigger] r.elements[i] == target_at(old(self).ops@.len() + i),
    {
        HashOutTarget { elements: self.add_virtual_target_arr::<4>() }
    }

    /// `add_virtual_bool_target_safe`: a fresh target constrained to be boolean.
    pub fn add_virtual_bool_target_safe(&mut self) -> (r: BoolTarget)
        ensures
            final(self).grows(*old(self)),
            final(self).ops@ == old(self).ops@.push(Op::VirtualTarget).push(
                Op::AssertBool { b: target_at(old(self).ops@.len() as int) },
            ),
            r.target == target_at(old(self).ops@.len() as int),
            forall|e: Env| #[trigger] final(self).sat(e) ==> e.is_bool(r.target),
    {
        let t = self.add_virtual_target();
        self.assert_bool(BoolTarget { target: t });
        BoolTarget { target: t }
    }

    /// `register_public_input`.
    pub fn register_public_input(&mut self, t: Target)
        ensures
            final(self).ops@ == old(self).ops@,
            final(self).public_inputs@ == old(self).public_inputs@.push(t),
            forall|e: Env| #[trigger] final(self).sat(e) == old(self).sat(e),
    {
        self.public_inputs.push(t);
    }

    /// `register_public_inputs`.
    pub fn register_public_inputs(&mut self, ts: &[Target])
        ensures
            final(self).ops@ == old(self).ops@,
            final(self).public_inputs@ == old(self).public_inputs@ + ts@,
            forall|e: Env| #[trigger] final(self).sat(e) == old(self).sat(e),
    {
        let mut i: usize = 0;
        while i < ts.len()
            invariant
                i <= ts@.len(),
                self.ops@ == old(self).ops@,
                self.public_inputs@ == old(self).public_inputs@ + ts@.subrange(0, i as int),
            decreases ts@.len() - i,
        {
            self.public_inputs.push(ts[i]);
            proof {
                assert(ts@.subrange(0, i + 1) == ts@.subrange(0, i as int).push(ts@[i as int]));
            }
            i = i + 1;
        }
        proof {
            assert(ts@.subrange(0, ts@.len() as int) == ts@);
        }
    }

    /// The number of registered public inputs.
    pub fn num_public_inputs(&self) -> (r: usize)
        ensures
            r == self.public_inputs@.len(),
    {
        self.public_inputs.len()
    }

    /// `constant(c)`.
    pub fn constant(&mut self, c: u64) -> (r: Target)
        requires
            is_canonical(c),
        ensures
            final(self).ops@ == old(self).ops@.push(Op::Constant { c }),
            r == target_at(old(self).ops@.len() as int),
            final(self).grows(*old(self)),
            forall|e: Env| #[trigger] final(self).sat(e) ==> e.val(r) == c,
    {
        self.push_op(Op::Constant { c })
    }

    /// `zero()`.
    pub fn zero(&mut self) -> (r: Target)
        ensures
            final(self).ops@ == old(self).ops@.push(Op::Constant { c: 0 }),
            r == target_at(old(self).ops@.len() as int),
            final(self).grows(*old(self)),
            forall|e: Env| #[trigger] final(self).sat(e) ==> e.val(r) == 0,
    {
        self.constant(0)
    }

    /// `one()`.
    pub fn one(&mut self) -> (r: Target)
        ensures
            final(self).ops@ == old(self).ops@.push(Op::Constant { c: 1 }),
            r == target_at(old(self).ops@.len() as int),
            final(self).grows(*old(self)),
            forall|e: Env| #[trigger] final(self).sat(e) ==> e.val(r) == 1,
    {
        self.constant(1)
    }

    /// `two()`.
    pub fn two(&mut self) -> (r: Target)
        ensures
            final(self).ops@ == old(self).ops@.push(Op::Constant { c: 2 }),
            r == target_at(old(self).ops@.len() as int),
            final(self).grows(*old(self)),
            forall|e: Env| #[trigger] final(self).sat(e) ==> e.val(r) == 2,
    {
        self.constant(2)
    }

    /// `_false()`.
    pub fn _false(&mut self) -> (r: BoolTarget)
        ensures
            final(self).grows(*old(self)),
            forall|e: Env| #[trigger] final(self).sat(e) ==> e.val(r.target) == 0,
    {
        BoolTarget { target: self.zero() }
    }

    /// `_true()`.
    pub fn _true(&mut self) -> (r: BoolTarget)
        ensures
            final(self).grows(*old(self)),
            forall|e: Env| #[trigger] final(self).sat(e) ==> e.val(r.target) == 1,
    {
        BoolTarget { target: self.one() }
    }

    /// `add(x, y)`.
    pub fn add(&mut self, x: Target, y: Target) -> (r: Target)
        ensures
            final(self).ops@ == old(self).ops@.push(Op::Add { x, y }),
            r == target_at(old(self).ops@.len() as int),
            final(self).grows(*old(self)),
            forall|e: Env| #[trigger] final(self).sat(e) ==> e.val(r) == fmod(e.val(x) + e.val(y)),
    {
        self.push_op(Op::Add { x, y })
    }

    /// `sub(x, y)`.
    pub fn sub(&mut self, x: Target, y: Target) -> (r: Target)
        ensures
            final(self).ops@ == old(self).ops@.push(Op::Sub { x, y }),
            final(self).grows(*old(self)),
            forall|e: Env| #[trigger] final(self).sat(e) ==> e.val(r) == fmod(e.val(x) - e.val(y)),
    {
        self.push_op(Op::Sub { x, y })
    }

    /// `mul(x, y)`.
    pub fn mul(&mut self, x: Target, y: Target) -> (r: Target)
        ensures
            final(self).ops@ == old(self).ops@.push(Op::Mul { x, y }),
            r == target_at(old(self).ops@.len() as int),
            final(self).grows(*old(self)),
            forall|e: Env| #[trigger] final(self).sat(e) ==> e.val(r) == fmod(e.val(x) * e.val(y)),
    {
        self.push_op(Op::Mul { x, y })
    }

    /// `mul_const_add(c, x, y)`: `c * x + y`.
    pub fn mul_const_add(&mut self, c: u64, x: Target, y: Target) -> (r: Target)
        requires
            is_canonical(c),
        ensures
            final(self).ops@ == old(self).ops@.push(Op::MulConstAdd { c, x, y }),
            r == target_at(old(self).ops@.len() as int),
            final(self).grows(*old(self)),
            forall|e: Env| #[trigger]
                final(self).sat(e) ==> e.val(r) == fmod(c * e.val(x) + e.val(y)),
    {
        self.push_op(Op::MulConstAdd { c, x, y })
    }

    /// `add_const(x, c)`.
    pub fn add_const(&mut self, x: Target, c: u64) -> (r: Target)
        requires
            is_canonical(c),
        ensures
            final(self).ops@ == old(self).ops@.push(Op::AddConst { x, c }),
            r == target_at(old(self).ops@.len() as int),
            final(self).grows(*old(self)),
            forall|e: Env| #[trigger] final(self).sat(e) ==> e.val(r) == fmod(e.val(x) + c),
    {
        self.push_op(Op::AddConst { x, c })
    }

    /// `div(x, y)`: unsatisfiable when `y` is zero.
    pub fn div(&mut self, x: Target, y: Target) -> (r: Target)
        ensures
            final(self).ops@ == old(self).ops@.push(Op::Div { x, y }),
            r == target_at(old(self).ops@.len() as int),
            final(self).grows(*old(self)),
            forall|e: Env| #[trigger]
                final(self).sat(e) ==> e.val(y) != 0 && fmod(e.val(r) * e.val(y)) == e.val(x),
    {
        self.push_op(Op::Div { x, y })
    }

    /// `not(b)`: `1 - b`.
    pub fn not(&mut self, b: BoolTarget) -> (r: BoolTarget)
        ensures
            final(self).ops@ == old(self).ops@.push(Op::Not { b: b.target }),
            r.target == target_at(old(self).ops@.len() as int),
            final(self).grows(*old(self)),
            forall|e: Env| #[trigger]
                final(self).sat(e) ==> e.val(r.target) == fmod(1 - e.val(b.target)),
            forall|e: Env|
                e.valid() && #[trigger] final(self).sat(e) && e.is_bool(b.target) ==> e.is_bool(
                    r.target,
                ) && (e.truth(r.target) <==> !e.truth(b.target)),
    {
        let r = BoolTarget { target: self.push_op(Op::Not { b: b.target }) };
        proof {
            assert forall|e: Env|
                e.valid() && #[trigger] self.sat(e) && e.is_bool(b.target) implies e.is_bool(
                r.target,
            ) && (e.truth(r.target) <==> !e.truth(b.target)) by {
                lemma_fmod_small(1 - e.val(b.target));
            }
        }
        r
    }

    /// `and(a, b)`: `a * b`.
    pub fn and(&mut self, a: BoolTarget, b: BoolTarget) -> (r: BoolTarget)
        ensures
            final(self).ops@ == old(self).ops@.push(Op::And { a: a.target, b: b.target }),
            r.target == target_at(old(self).ops@.len() as int),
            final(self).grows(*old(self)),
            forall|e: Env| #[trigger]
                final(self).sat(e) ==> e.val(r.target) == fmod(e.val(a.target) * e.val(b.target)),
            forall|e: Env|
                e.valid() && #[trigger] final(self).sat(e) && e.is_bool(a.target) && e.is_bool(
                    b.target,
                ) ==> e.is_bool(r.target) && (e.truth(r.target) <==> e.truth(a.target) && e.truth(
                    b.target,
                )),
    {
        let r = BoolTarget { target: self.push_op(Op::And { a: a.target, b: b.target }) };
        proof {
            assert forall|e: Env|
                e.valid() && #[trigger] self.sat(e) && e.is_bool(a.target) && e.is_bool(
                    b.target,
                ) implies e.is_bool(r.target) && (e.truth(r.target) <==> e.truth(a.target)
                && e.truth(b.target)) by {
                lemma_fmod_small(e.val(a.target) * e.val(b.target));
            }
        }
        r
    }

    /// `or(a, b)`: `a + b - a * b`.
    pub fn or(&mut self, a: BoolTarget, b: BoolTarget) -> (r: BoolTarget)
        ensures
            final(self).ops@ == old(self).ops@.push(Op::Or { a: a.target, b: b.target }),
            r.target == target_at(old(self).ops@.len() as int),
            final(self).grows(*old(self)),
            forall|e: Env| #[trigger]
                final(self).sat(e) ==> e.val(r.target) == fmod(
                    e.val(a.target) + e.val(b.target) - e.val(a.target) * e.val(b.target),
                ),
            forall|e: Env|
                e.valid() && #[trigger] final(self).sat(e) && e.is_bool(a.target) && e.is_bool(
                    b.target,
                ) ==> e.is_bool(r.target) && (e.truth(r.target) <==> e.truth(a.target) || e.truth(
                    b.target,
                )),
    {
        let r = BoolTarget { target: self.push_op(Op::Or { a: a.target, b: b.target }) };
        proof {
            assert forall|e: Env|
                e.valid() && #[trigger] self.sat(e) && e.is_bool(a.target) && e.is_bool(
                    b.target,
                ) implies e.is_bool(r.target) && (e.truth(r.target) <==> e.truth(a.target)
                || e.truth(b.target)) by {
                lemma_fmod_small(
                    e.val(a.target) + e.val(b.target) - e.val(a.target) * e.val(b.target),
                );
            }
        }
        r
    }

    /// `select(b, x, y)`: `if b { x } else { y }` for a boolean `b`.
    pub fn select(&mut self, b: BoolTarget, x: Target, y: Target) -> (r: Target)
        ensures
            final(self).ops@ == old(self).ops@.push(Op::Select { b: b.target, x, y }),
            r == target_at(old(self).ops@.len() as int),
            final(self).grows(*old(self)),
            forall|e: Env| #[trigger]
                final(self).sat(e) ==> e.val(r) == fmod(
                    e.val(b.target) * e.val(x) - e.val(b.target) * e.val(y) + e.val(y),
                ),
            forall|e: Env|
                e.valid() && #[trigger] final(self).sat(e) && e.is_bool(b.target) ==> e.val(r) == (
                if e.truth(b.target) {
                    e.val(x)
                } else {
                    e.val(y)
                }),
    {
        let r = self.push_op(Op::Select { b: b.target, x, y });
        proof {
            assert forall|e: Env| e.valid() && #[trigger] self.sat(e) && e.is_bool(b.target) implies e.val(
                r,
            ) == (if e.truth(b.target) {
                e.val(x)
            } else {
                e.val(y)
            }) by {
                let (bv, xv, yv) = (e.val(b.target), e.val(x), e.val(y));
                assert(0 <= xv < p() && 0 <= yv < p());
                if bv == 1 {
                    assert(bv * xv - bv * yv + yv == xv);
                    lemma_fmod_small(xv);
                } else {
                    assert(bv * xv - bv * yv + yv == yv);
                    lemma_fmod_small(yv);
                }
            }
        }
        r
    }

    /// `is_equal(x, y)`: one when the values are equal, zero otherwise.
    pub fn is_equal(&mut self, x: Target, y: Target) -> (r: BoolTarget)
        ensures
            final(self).ops@ == old(self).ops@.push(Op::IsEqual { x, y }),
            r.target == target_at(old(self).ops@.len() as int),
            final(self).grows(*old(self)),
            forall|e: Env| #[trigger]
                final(self).sat(e) ==> e.is_bool(r.target) && (e.truth(r.target) <==> e.val(x)
                    == e.val(y)),
    {
        BoolTarget { target: self.push_op(Op::IsEqual { x, y }) }
    }

    /// One when the value is not zero, zero otherwise (`not(is_equal(x, zero))`).
    pub fn is_nonzero(&mut self, x: Target) -> (r: BoolTarget)
        ensures
            final(self).grows(*old(self)),
            r.target.index < final(self).ops@.len(),
            old(self).ops@.len() <= final(self).ops@.len(),
            x.index < old(self).ops@.len() ==> total_ext(old(self).ops@, final(self).ops@),
            forall|e: Env|
                e.valid() && #[trigger] final(self).sat(e) ==> e.is_bool(r.target) && (e.truth(
                    r.target,
                ) <==> e.val(x) != 0),
    {
        let ghost b0 = *self;
        let zero = self.zero();
        let ghost b1 = *self;
        let eq = self.is_equal(x, zero);
        let ghost b2 = *self;
        let r = self.not(eq);
        proof {
            if x.index < b0.ops@.len() {
                lemma_total_ext_push(b0.ops@, Op::Constant { c: 0 });
                lemma_total_ext_push(b1.ops@, Op::IsEqual { x, y: zero });
                lemma_total_ext_push(b2.ops@, Op::Not { b: eq.target });
                lemma_total_ext_trans(b0.ops@, b1.ops@, b2.ops@);
                lemma_total_ext_trans(b0.ops@, b2.ops@, self.ops@);
            }
        }
        r
    }

    /// `connect(x, y)`: the values are equal.
    pub fn connect(&mut self, x: Target, y: Target)
        ensures
            final(self).ops@ == old(self).ops@.push(Op::Connect { x, y }),
            final(self).grows(*old(self)),
            forall|e: Env| #[trigger] final(self).sat(e) ==> e.val(x) == e.val(y),
    {
        let _ = self.push_op(Op::Connect { x, y });
    }

    /// `connect_hashes(x, y)`: the four values are equal, element by element.
    pub fn connect_hashes(&mut self, x: HashOutTarget, y: HashOutTarget)
        ensures
            final(self).grows(*old(self)),
            forall|e: Env| #[trigger]
                final(self).sat(e) ==> forall|i: int|
                    0 <= i < 4 ==> #[trigger] e.val(x.elements[i]) == e.val(y.elements[i]),
            old(self).ops@.len() <= final(self).ops@.len(),
            all_below(x.elements@, old(self).ops@.len()) && all_below(y.elements@, old(self).ops@.len())
                ==> completes(
                old(self).ops@,
                final(self).ops@,
                |e: Env| forall|i: int| 0 <= i < 4 ==> #[trigger] e.val(x.elements[i]) == e.val(y.elements[i]),
            ),
            all_below(x.elements@, old(self).ops@.len()) && all_below(y.elements@, old(self).ops@.len())
                && closed(old(self).ops@) ==> closed(final(self).ops@),
    {
        let ghost b0 = *self;
        let ghost below = all_below(x.elements@, b0.ops@.len()) && all_below(y.elements@, b0.ops@.len());
        let ghost pre = |e: Env| forall|i: int| 0 <= i < 4 ==> #[trigger] e.val(x.elements[i]) == e.val(y.elements[i]);
        let mut i: usize = 0;
        proof {
            assert(b0.ops@.subrange(0, b0.ops@.len() as int) =~= b0.ops@);
            if below && closed(b0.ops@) {
                assert forall|e: Env| e.valid() && #[trigger] plan_sat(b0.ops@, e) && pre(e) implies exists|e2: Env|
                    e2.valid() && #[trigger] plan_sat(b0.ops@, e2) && same_below(e, e2, b0.ops@.len()) by {
                    assert(same_below(e, e, b0.ops@.len()));
                }
            }
        }
        while i < 4
            invariant
                i <= 4,
                self.grows(*old(self)),
                b0 == *old(self),
                b0.ops@.len() <= self.ops@.len(),
                below == (all_below(x.elements@, b0.ops@.len()) && all_below(y.elements@, b0.ops@.len())),
                pre == (|e: Env| forall|i: int| 0 <= i < 4 ==> #[trigger] e.val(x.elements[i]) == e.val(y.elements[i])),
                below ==> completes(b0.ops@, self.ops@, pre),
                below && closed(b0.ops@) ==> closed(self.ops@),
                forall|e: Env| #[trigger]
                    self.sat(e) ==> forall|j: int|
                        0 <= j < i ==> #[trigger] e.val(x.elements[j]) == e.val(y.elements[j]),
            decreases 4 - i,
        {
            let ghost bi = *self;
            self.connect(x.elements[i], y.elements[i]);
            proof {
                assert(self.ops@.len() == self.ops.len());
                if below {
                    let (xi, yi) = (x.elements[i as int], y.elements[i as int]);
                    assert(x.elements@[i as int] == xi && y.elements@[i as int] == yi);
                    let pi = |e: Env| e.val(xi) == e.val(yi);
                    assert forall|e: Env| #![trigger pi(e)] e.valid() && pi(e) implies 0 <= (|e: Env| 0int)(e) < p()
                        && holds(
                        Op::Connect { x: xi, y: yi },
                        bi.ops@.len() as int,
                        env_set(e, bi.ops@.len(), (|e: Env| 0int)(e)),
                    ) by {
                        assert((env_set(e, bi.ops@.len(), 0).w)(xi) == (e.w)(xi));
                        assert((env_set(e, bi.ops@.len(), 0).w)(yi) == (e.w)(yi));
                    }
                    lemma_push_completes(bi.ops@, self.ops@, Op::Connect { x: xi, y: yi }, |e: Env| 0int, pi);
                    assert forall|e: Env, e2: Env|
                        #![trigger pre(e), pi(e2)]
                        e.valid() && plan_sat(b0.ops@, e) && pre(e) && e2.valid() && plan_sat(bi.ops@, e2)
                            && same_below(e, e2, b0.ops@.len()) implies pi(e2) by {
                        assert(e.val(x.elements[i as int]) == e.val(y.elements[i as int]));
                        assert((e.w)(xi) == (e2.w)(xi));
                        assert((e.w)(yi) == (e2.w)(yi));
                    }
                    lemma_completes_trans(b0.ops@, bi.ops@, self.ops@, pre, pi);
                }
            }
            i = i + 1;
        }
    }

    /// `assert_bool(b)`: the value is `0` or `1`.
    pub fn assert_bool(&mut self, b: BoolTarget)
        ensures
            final(self).ops@ == old(self).ops@.push(Op::AssertBool { b: b.target }),
            final(self).grows(*old(self)),
            forall|e: Env| #[trigger] final(self).sat(e) ==> e.is_bool(b.target),
    {
        let _ = self.push_op(Op::AssertBool { b: b.target });
    }

    /// `range_check(x, n_log)`: the value is below `2^n_log`.
    pub fn range_check(&mut self, x: Target, n_log: usize)
        requires
            n_log <= 63,
        ensures
            final(self).ops@ == old(self).ops@.push(Op::RangeCheck { x, n_log }),
            final(self).grows(*old(self)),
            forall|e: Env| #[trigger] final(self).sat(e) ==> e.val(x) < pow2(n_log as nat),
    {
        let _ = self.push_op(Op::RangeCheck { x, n_log });
    }

    /// Reserves `n` result positions.
    fn reserve(&mut self, n: usize) -> (r: Vec<Target>)
        ensures
            final(self).grows(*old(self)),
            r@.len() == n,
            final(self).ops@ == old(self).ops@ + Seq::new(n as nat, |i: int| Op::Output),
            forall|k: int| 0 <= k < n ==> #[trigger] r@[k] == target_at(old(self).ops@.len() + k),
    {
        let mut r: Vec<Target> = Vec::new();
        let mut i: usize = 0;
        while i < n
            invariant
                i <= n,
                r@.len() == i,
                self.grows(*old(self)),
                self.ops@ == old(self).ops@ + Seq::new(i as nat, |j: int| Op::Output),
                forall|k: int| 0 <= k < i ==> #[trigger] r@[k] == target_at(old(self).ops@.len() + k),
            decreases n - i,
        {
            let t = self.push_op(Op::Output);
            r.push(t);
            i = i + 1;
            assert(self.ops@ =~= old(self).ops@ + Seq::new(i as nat, |j: int| Op::Output));
        }
        r
    }

    /// `split_le(x, num_bits)`: the little-endian boolean bits of `x`.
    pub fn split_le(&mut self, x: Target, num_bits: usize) -> (r: Vec<BoolTarget>)
        requires
            num_bits <= 63,
        ensures
            final(self).grows(*old(self)),
            r@.len() == num_bits,
            forall|e: Env| #[trigger]
                final(self).sat(e) ==> (forall|k: int|
                    0 <= k < num_bits ==> #[trigger] e.is_bool(r@[k].target)) && bits_value(
                    e.vals(r@.map_values(|b: BoolTarget| b.target)),
                ) == e.val(x),
            final(self).ops@.len() == old(self).ops@.len() + num_bits + 1,
            final(self).ops@.drop_last() == old(self).ops@ + Seq::new(num_bits as nat, |i: int| Op::Output),
            final(self).ops@.last() matches Op::SplitLe { x: x2, bits } && x2 == x && bits@ == r@.map_values(
                |b: BoolTarget| b.target,
            ),
            forall|k: int| 0 <= k < num_bits ==> #[trigger] r@[k].target == target_at(old(self).ops@.len() + k),
    {
        let bits = self.reserve(num_bits);
        let ghost mid = *self;
        let op = Op::SplitLe { x, bits: bits.clone() };
        let _ = self.push_op(op);
        let mut r: Vec<BoolTarget> = Vec::new();
        let mut i: usize = 0;
        while i < bits.len()
            invariant
                i <= bits@.len(),
                r@.len() == i,
                forall|k: int| 0 <= k < i ==> #[trigger] r@[k].target == bits@[k],
            decreases bits@.len() - i,
        {
            r.push(BoolTarget { target: bits[i] });
            i = i + 1;
        }
        proof {
            assert(r@.map_values(|b: BoolTarget| b.target) == bits@);
        }
        r
    }

    /// `split_low_high(x, n_log, num_bits)`: `(low, high)` with
    /// `x = low + 2^n_log * high`, `low < 2^n_log` and
    /// `high < 2^(num_bits - n_log)`.
    pub fn split_low_high(&mut self, x: Target, n_log: usize, num_bits: usize) -> (r: (
        Target,
        Target,
    ))
        requires
            n_log <= num_bits,
            n_log <= 63,
            num_bits - n_log <= 63,
        ensures
            final(self).grows(*old(self)),
            forall|e: Env| #[trigger]
                final(self).sat(e) ==> {
                    &&& e.val(r.0) < pow2(n_log as nat)
                    &&& e.val(r.1) < pow2((num_bits - n_log) as nat)
                    &&& fmod(e.val(r.1) * pow2(n_log as nat) + e.val(r.0)) == e.val(x)
                },
    {
        let low = self.push_op(Op::Output);
        let high = self.push_op(Op::Output);
        let _ = self.push_op(Op::SplitLowHigh { x, n_log, num_bits, low, high });
        (low, high)
    }

    /// `add_virtual_proof_with_pis`: a proof target with `n` fresh public
    /// input targets.
    pub fn add_virtual_proof_with_pis(&mut self, n: usize) -> (r: ProofWithPublicInputsTarget)
        ensures
            final(self).grows(*old(self)),
            r.public_inputs@.len() == n,
    {
        let mut public_inputs: Vec<Target> = Vec::new();
        let mut i: usize = 0;
        while i < n
            invariant
                i <= n,
                public_inputs@.len() == i,
                self.grows(*old(self)),
            decreases n - i,
        {
            let t = self.push_op(Op::VirtualTarget);
            public_inputs.push(t);
            i = i + 1;
        }
        ProofWithPublicInputsTarget { public_inputs }
    }

    /// `add_virtual_verifier_data(cap_height)`: fresh targets for a circuit
    /// digest and a cap of `2^cap_height` digests.
    pub fn add_virtual_verifier_data(&mut self, cap_height: usize) -> (r: VerifierCircuitTarget)
        requires
            cap_height_ok(cap_height),
        ensures
            final(self).grows(*old(self)),
            r.constants_sigmas_cap.0@.len() == pow2(cap_height as nat),
    {
        let circuit_digest = self.add_virtual_hash();
        let n = num_cap_elements(cap_height);
        let mut cap: Vec<HashOutTarget> = Vec::new();
        let mut i: usize = 0;
        while i < n
            invariant
                i <= n,
                cap@.len() == i,
                self.grows(*old(self)),
            decreases n - i,
        {
            let h = self.add_virtual_hash();
            cap.push(h);
            i = i + 1;
        }
        VerifierCircuitTarget { constants_sigmas_cap: MerkleCapTarget(cap), circuit_digest }
    }

    /// `constant_verifier_data`: the verifier data of the circuit numbered
    /// `circuit`, whose cap holds `2^cap_height` digests.
    pub fn constant_verifier_data(&mut self, circuit: usize, cap_height: usize) -> (r:
        VerifierCircuitTarget)
        requires
            cap_height_ok(cap_height),
        ensures
            final(self).grows(*old(self)),
            r.constants_sigmas_cap.0@.len() == pow2(cap_height as nat),
            forall|e: Env| #[trigger]
                final(self).sat(e) ==> e.vals(verifier_targets(r)) == e.verifier_data(circuit),
    {
        let n = num_cap_elements(cap_height);
        let targets = self.reserve(4 + 4 * n);
        let circuit_digest = HashOutTarget {
            elements: [targets[0], targets[1], targets[2], targets[3]],
        };
        let mut cap: Vec<HashOutTarget> = Vec::new();
        let mut i: usize = 0;
        proof {
            assert(cap@.map_values(|h: HashOutTarget| h.elements@) =~= Seq::<Seq<Target>>::empty());
            assert(Seq::<Seq<Target>>::empty().flatten() =~= Seq::<Target>::empty());
            assert(circuit_digest.elements@ =~= targets@.take(4));
        }
        while i < n
            invariant
                i <= n,
                8 * n < usize::MAX,
                targets@.len() == 4 + 4 * n,
                cap@.len() == i,
                circuit_digest.elements@ + cap@.map_values(|h: HashOutTarget| h.elements@).flatten()
                    == targets@.take(4 + 4 * i),
            decreases n - i,
        {
            let k = 4 + 4 * i;
            let h = HashOutTarget {
                elements: [targets[k], targets[k + 1], targets[k + 2], targets[k + 3]],
            };
            let ghost hs = cap@.map_values(|h: HashOutTarget| h.elements@);
            cap.push(h);
            proof {
                assert(cap@.map_values(|h: HashOutTarget| h.elements@) =~= hs.push(h.elements@));
                hs.lemma_flatten_push(h.elements@);
                assert(targets@.take(k + 4) =~= targets@.take(k as int) + h.elements@);
            }
            i = i + 1;
        }
        let ghost ts = targets@;
        let _ = self.push_op(Op::ConstantVerifierData { circuit, targets });
        let r = VerifierCircuitTarget { constants_sigmas_cap: MerkleCapTarget(cap), circuit_digest };
        proof {
            assert(ts.take(4 + 4 * n) =~= ts);
            assert(verifier_targets(r) == ts);
        }
        r
    }

    /// `verify_proof`: the proof, of a circuit of the shape numbered
    /// `common`, verifies against the verifier data.
    pub fn verify_proof(
        &mut self,
        proof: &ProofWithPublicInputsTarget,
        verifier: &VerifierCircuitTarget,
        common: usize,
    )
        ensures
            final(self).grows(*old(self)),
            final(self).ops@.len() == old(self).ops@.len() + 1,
            final(self).ops@.last() matches Op::VerifyProof { public_inputs: pis, verifier: v, common: c }
                && pis@ == proof.public_inputs@ && v@ == verifier_targets(*verifier) && c == common,
            forall|e: Env| #[trigger]
                final(self).sat(e) ==> e.verified(
                    common,
                    e.vals(verifier_targets(*verifier)),
                    e.vals(proof.public_inputs@),
                ),
    {
        let v = flatten_verifier(verifier);
        let _ = self.push_op(
            Op::VerifyProof { public_inputs: proof.public_inputs.clone(), verifier: v, common },
        );
    }

    /// `hash_n_to_hash_no_pad(inputs)`: the digest of the inputs.
    pub fn hash_n_to_hash_no_pad(&mut self, inputs: Vec<Target>) -> (r: HashOutTarget)
        ensures
            final(self).grows(*old(self)),
            forall|k: int| 0 <= k < 4 ==> (#[trigger] r.elements[k]).index < final(self).ops@.len(),
            old(self).ops@.len() <= final(self).ops@.len(),
            all_below(inputs@, old(self).ops@.len()) ==> completes(
                old(self).ops@,
                final(self).ops@,
                |e: Env| hash_in_field(e, e.vals(inputs@)),
            ),
            all_below(inputs@, old(self).ops@.len()) && closed(old(self).ops@) ==> closed(
                final(self).ops@,
            ),
            forall|e: Env| #[trigger]
                final(self).sat(e) ==> forall|k: int|
                    0 <= k < 4 ==> #[trigger] e.val(r.elements[k]) == e.hash(e.vals(inputs@))[k],
    {
        let ghost o0 = self.ops@;
        let a = self.push_op(Op::Output);
        let b = self.push_op(Op::Output);
        let c = self.push_op(Op::Output);
        let d = self.push_op(Op::Output);
        let outputs = [a, b, c, d];
        let ghost ins = inputs@;
        let ghost n = self.ops@.len() as int;
        let op = Op::Hash { inputs, outputs };
        let ghost gop = op;
        let _ = self.push_op(op);
        let r = HashOutTarget { elements: outputs };
        proof {
            assert(self.ops@.len() == self.ops.len());
            assert(self.ops@ =~= o0 + seq![Op::Output, Op::Output, Op::Output, Op::Output, gop]);
            assert(self.ops@.subrange(0, o0.len() as int) =~= o0);
            assert(outputs[0] == a && outputs[1] == b && outputs[2] == c && outputs[3] == d);
            if all_below(ins, o0.len()) {
                lemma_hash_completes(o0, self.ops@, ins, outputs);
            }
            assert forall|e: Env| #[trigger] self.sat(e) implies forall|k: int|
                0 <= k < 4 ==> #[trigger] e.val(r.elements[k]) == e.hash(e.vals(ins))[k] by {
                assert(holds(gop, n, e));
                match gop {
                    Op::Hash { inputs: gi, outputs: go } => {
                        assert(gi@ == ins);
                        assert(go == outputs);
                    },
                    _ => {},
                }
            }
        }
        r
    }
}

/// The values of a circuit's verifier data: the digests of its cap and its
/// circuit digest.
#[derive(Clone, Debug)]
pub struct VerifierOnlyCircuitData {
    pub constants_sigmas_cap: Vec<[u64; 4]>,
    pub circuit_digest: [u64; 4],
}

/// A plan of witness values: the value given to each target so far.
pub struct PartialWitness {
    pub entries: Vec<(Target, u64)>,
}

/// The map that a sequence of entries gives, a later entry overriding an
/// earlier one for the same target.
pub open spec fn entries_map(s: Seq<(Target, u64)>) -> Map<Target, u64>
    decreases s.len(),
{
    if s.len() == 0 {
        Map::empty()
    } else {
        entries_map(s.drop_last()).insert(s.last().0, s.last().1)
    }
}

/// The witness already holds a different value for the target.
#[derive(Clone, Copy, PartialEq, Eq, Debug, Structural)]
pub struct WitnessConflict {
    pub target: Target,
}

impl PartialWitness {
    /// The values given so far.
    pub open spec fn view_map(self) -> Map<Target, u64> {
        entries_map(self.entries@)
    }

    /// The target has been given the value.
    pub open spec fn has(self, t: Target, v: u64) -> bool {
        self.view_map().contains_key(t) && self.view_map()[t] == v
    }

    /// Each target of the array has been given the value at its position.
    pub open spec fn has_arr<const N: usize>(self, ts: [Target; N], vs: [u64; N]) -> bool {
        forall|i: int| #![trigger ts[i]] 0 <= i < N ==> self.has(ts[i], vs[i])
    }

    /// Giving the targets `ts` the values `vs`, in order, meets no conflict:
    /// no target already holds another value, and a target that occurs twice
    /// is given one value.
    pub open spec fn fits(self, ts: Seq<Target>, vs: Seq<u64>) -> bool {
        &&& forall|i: int|
            0 <= i < ts.len() && #[trigger] self.view_map().contains_key(ts[i])
                ==> self.view_map()[ts[i]] == vs[i]
        &&& forall|i: int, j: int|
            0 <= i < ts.len() && 0 <= j < ts.len() && #[trigger] ts[i] == #[trigger] ts[j] ==> vs[i]
                == vs[j]
    }

    /// `self` is `old` with the targets `ts` given the values `vs`: every
    /// value of `old` is kept, each of `ts` holds its value, and nothing else
    /// is given.
    pub open spec fn wrote(self, old: PartialWitness, ts: Seq<Target>, vs: Seq<u64>) -> bool {
        &&& self.extends(old)
        &&& forall|i: int| 0 <= i < ts.len() ==> self.has(#[trigger] ts[i], vs[i])
        &&& forall|t: Target|
            #[trigger] self.view_map().contains_key(t) ==> old.view_map().contains_key(t)
                || ts.contains(t)
    }

    /// Every value given in `old` is still given, unchanged.
    pub open spec fn extends(self, old: PartialWitness) -> bool {
        forall|t: Target| #[trigger]
            old.view_map().contains_key(t) ==> self.view_map().contains_key(t)
                && self.view_map()[t] == old.view_map()[t]
    }

    /// An empty witness.
    pub fn new() -> (r: PartialWitness)
        ensures
            r.view_map() == Map::<Target, u64>::empty(),
    {
        PartialWitness { entries: Vec::new() }
    }

    /// The value given to a target, if any.
    pub fn try_get_target(&self, t: Target) -> (r: Option<u64>)
        ensures
            r == (if self.view_map().contains_key(t) {
                Some(self.view_map()[t])
            } else {
                None
            }),
    {
        let mut i: usize = self.entries.len();
        proof {
            assert(self.entries@.subrange(0, i as int) == self.entries@);
        }
        while i > 0
            invariant
                i <= self.entries@.len(),
                forall|j: int| i <= j < self.entries@.len() ==> #[trigger] self.entries@[j].0 != t,
                entries_map(self.entries@).contains_key(t) == entries_map(
                    self.entries@.subrange(0, i as int),
                ).contains_key(t),
                entries_map(self.entries@).contains_key(t) ==> entries_map(self.entries@)[t]
                    == entries_map(self.entries@.subrange(0, i as int))[t],
            decreases i,
        {
            let (u, v) = self.entries[i - 1];
            proof {
                let s = self.entries@.subrange(0, i as int);
                assert(s.drop_last() == self.entries@.subrange(0, i - 1));
            }
            if u == t {
                return Some(v);
            }
            i = i - 1;
        }
        None
    }

    /// `set_target(t, v)`: gives `t` the value `v`, refused when `t` already
    /// holds a different value.
    pub fn set_target(&mut self, t: Target, v: u64) -> (r: Result<(), WitnessConflict>)
        ensures
            r is Ok <==> !(old(self).view_map().contains_key(t) && old(self).view_map()[t] != v),
            r is Ok ==> final(self).view_map() == old(self).view_map().insert(t, v),
            r is Err ==> final(self).view_map() == old(self).view_map() && r == Err::<
                (),
                WitnessConflict,
            >(WitnessConflict { target: t }),
            r is Ok ==> final(self).has(t, v) && final(self).extends(*old(self)),
            r is Ok <==> old(self).fits(seq![t], seq![v]),
            r is Ok ==> final(self).wrote(*old(self), seq![t], seq![v]),
    {
        proof {
            assert(seq![t][0] == t);
        }
        match self.try_get_target(t) {
            Some(u) => {
                if u != v {
                    return Err(WitnessConflict { target: t });
                }
            },
            None => {},
        }
        self.entries.push((t, v));
        proof {
            assert(self.entries@.drop_last() == old(self).entries@);
            assert(old(self).view_map().contains_key(t) ==> old(self).view_map().insert(t, v)
                =~= old(self).view_map());
        }
        Ok(())
    }

    /// `set_target_arr`: sets each target of the array to the value at the
    /// same position.
    pub fn set_target_arr<const N: usize>(&mut self, ts: &[Target; N], vs: &[u64; N]) -> (r: Result<
        (),
        WitnessConflict,
    >)
        ensures
            r is Ok <==> old(self).fits(ts@, vs@),
            r is Ok ==> forall|i: int|
                0 <= i < N ==> final(self).view_map().contains_key(#[trigger] ts[i])
                    && final(self).view_map()[ts[i]] == vs[i],
            r is Ok ==> forall|t: Target|
                #[trigger] old(self).view_map().contains_key(t) ==> final(self).view_map().contains_key(t)
                    && final(self).view_map()[t] == old(self).view_map()[t],
            r is Ok ==> final(self).has_arr(*ts, *vs) && final(self).extends(*old(self)),
            r is Ok ==> final(self).wrote(*old(self), ts@, vs@),
    {
        let mut k: usize = 0;
        while k < N
            invariant
                k <= N,
                forall|j: int|
                    0 <= j < k ==> self.view_map().contains_key(#[trigger] ts[j])
                        && self.view_map()[ts[j]] == vs[j],
                forall|t: Target|
                    #[trigger] old(self).view_map().contains_key(t) ==> self.view_map().contains_key(
                        t,
                    ) && self.view_map()[t] == old(self).view_map()[t],
                forall|t: Target|
                    #[trigger] self.view_map().contains_key(t) ==> old(self).view_map().contains_key(t)
                        || exists|j: int| 0 <= j < k && ts[j] == t,
                old(self).fits(ts@.subrange(0, k as int), vs@.subrange(0, k as int)),
            decreases N - k,
        {
            let ghost prev = self.view_map();
            let res = self.set_target(ts[k], vs[k]);
            if res.is_err() {
                proof {
                    let t = ts[k as int];
                    if old(self).view_map().contains_key(t) {
                        assert(ts@[k as int] == t);
                    } else {
                        let j = choose|j: int| 0 <= j < k && ts[j] == t;
                        assert(ts@[j] == ts@[k as int]);
                    }
                }
                return res;
            }
            proof {
                let ts2 = ts@.subrange(0, k + 1);
                let vs2 = vs@.subrange(0, k + 1);
                let t = ts[k as int];
                assert forall|i: int|
                    0 <= i < ts2.len() && #[trigger] old(self).view_map().contains_key(ts2[i])
                        implies old(self).view_map()[ts2[i]] == vs2[i] by {
                    if i == k {
                        assert(prev.contains_key(t) && prev[t] == old(self).view_map()[t]);
                    } else {
                        assert(ts@.subrange(0, k as int)[i] == ts2[i]);
                    }
                }
                assert forall|i: int, j: int|
                    0 <= i < ts2.len() && 0 <= j < ts2.len() && #[trigger] ts2[i] == #[trigger] ts2[j]
                        implies vs2[i] == vs2[j] by {
                    if i < k && j < k {
                        assert(ts@.subrange(0, k as int)[i] == ts2[i]);
                        assert(ts@.subrange(0, k as int)[j] == ts2[j]);
                    } else if i < k {
                        assert(prev.contains_key(ts[i]) && prev[ts[i]] == vs[i]);
                    } else if j < k {
                        assert(prev.contains_key(ts[j]) && prev[ts[j]] == vs[j]);
                    }
                }
                assert forall|u: Target| #[trigger] self.view_map().contains_key(u) implies old(
                    self,
                ).view_map().contains_key(u) || exists|j: int| 0 <= j < k + 1 && ts[j] == u by {
                    if u != t {
                        assert(prev.contains_key(u));
                    } else {
                        assert(ts[k as int] == u);
                    }
                }
            }
            assert(res is Ok);
            proof {
                assert forall|j: int| 0 <= j < k + 1 implies self.view_map().contains_key(#[trigger] ts[j]) && self.view_map()[ts[j]] == vs[j] by {
                    if j < k && ts[j] == ts[k as int] {
                        assert(prev.contains_key(ts[j]) && prev[ts[j]] == vs[j]);
                    }
                }
                assert forall|t: Target| #[trigger] old(self).view_map().contains_key(t) implies self.view_map().contains_key(
                    t,
                ) && self.view_map()[t] == old(self).view_map()[t] by {
                    assert(prev.contains_key(t));
                }
            }
            k = k + 1;
        }
        proof {
            assert(k == N);
            assert(ts@.subrange(0, k as int) == ts@);
            assert(vs@.subrange(0, k as int) == vs@);
            assert(forall|j: int|
                    0 <= j < k ==> self.view_map().contains_key(#[trigger] ts[j])
                        && self.view_map()[ts[j]] == vs[j]);
            assert forall|i: int| 0 <= i < N implies self.view_map().contains_key(#[trigger] ts[i])
                && self.view_map()[ts[i]] == vs[i] by {
                assert(0 <= i < k);
            }
        }
        Ok(())
    }

    /// `set_hash_target`: sets the four elements of a digest.
    pub fn set_hash_target(&mut self, h: HashOutTarget, v: [u64; 4]) -> (r: Result<
        (),
        WitnessConflict,
    >)
        ensures
            r is Ok <==> old(self).fits(h.elements@, v@),
            r is Ok ==> final(self).wrote(*old(self), h.elements@, v@),
            r is Ok ==> forall|i: int|
                0 <= i < 4 ==> final(self).view_map().contains_key(#[trigger] h.elements[i])
                    && final(self).view_map()[h.elements[i]] == v[i],
            r is Ok ==> forall|t: Target|
                #[trigger] old(self).view_map().contains_key(t) ==> final(self).view_map().contains_key(t)
                    && final(self).view_map()[t] == old(self).view_map()[t],
    {
        self.set_target_arr(&h.elements, &v)
    }

    /// `set_bool_target`: sets a boolean as `0` or `1`.
    pub fn set_bool_target(&mut self, b: BoolTarget, v: bool) -> (r: Result<(), WitnessConflict>)
        ensures
            r is Ok <==> !(old(self).view_map().contains_key(b.target) && old(
                self,
            ).view_map()[b.target] != (if v {
                1u64
            } else {
                0u64
            })),
            r is Ok ==> final(self).view_map() == old(self).view_map().insert(
                b.target,
                if v {
                    1u64
                } else {
                    0u64
                },
            ),
            r is Ok ==> final(self).has(b.target, if v { 1u64 } else { 0u64 }) && final(self).extends(
                *old(self),
            ),
            r is Ok <==> old(self).fits(seq![b.target], seq![if v { 1u64 } else { 0u64 }]),
            r is Ok ==> final(self).wrote(
                *old(self),
                seq![b.target],
                seq![if v { 1u64 } else { 0u64 }],
            ),
    {
        self.set_target(b.target, if v { 1 } else { 0 })
    }
}

/// The field value of a boolean.
pub open spec fn bit_of(b: bool) -> u64 {
    if b {
        1u64
    } else {
        0u64
    }
}

/// What fits a witness fits it before a suffix is added.
pub proof fn lemma_fits_prefix(
    w: PartialWitness,
    ts1: Seq<Target>,
    vs1: Seq<u64>,
    ts2: Seq<Target>,
    vs2: Seq<u64>,
)
    requires
        ts1.len() == vs1.len(),
        ts2.len() == vs2.len(),
    ensures
        w.fits(ts1 + ts2, vs1 + vs2) ==> w.fits(ts1, vs1),
{
    let (ts, vs) = (ts1 + ts2, vs1 + vs2);
    if w.fits(ts, vs) {
        assert forall|i: int| 0 <= i < ts1.len() && #[trigger] w.view_map().contains_key(ts1[i]) implies w.view_map()[ts1[i]]
            == vs1[i] by {
            assert(ts[i] == ts1[i] && vs[i] == vs1[i]);
        }
        assert forall|i: int, j: int|
            0 <= i < ts1.len() && 0 <= j < ts1.len() && #[trigger] ts1[i] == #[trigger] ts1[j] implies vs1[i]
            == vs1[j] by {
            assert(ts[i] == ts1[i] && ts[j] == ts1[j]);
        }
    }
}

/// Giving targets the values they were just given meets no conflict: a
/// second call with the same values succeeds.
pub proof fn law_same_values_fit_again(w0: PartialWitness, w: PartialWitness, ts: Seq<Target>, vs: Seq<u64>)
    requires
        ts.len() == vs.len(),
        w0.fits(ts, vs),
        w.wrote(w0, ts, vs),
    ensures
        w.fits(ts, vs),
{
    assert forall|i: int| 0 <= i < ts.len() && #[trigger] w.view_map().contains_key(ts[i]) implies w.view_map()[ts[i]]
        == vs[i] by {
        assert(w.has(ts[i], vs[i]));
    }
}

/// After `ts1` was written, `ts2` fits exactly when both fit at once.
pub proof fn lemma_fits_after(
    w0: PartialWitness,
    w1: PartialWitness,
    ts1: Seq<Target>,
    vs1: Seq<u64>,
    ts2: Seq<Target>,
    vs2: Seq<u64>,
)
    requires
        ts1.len() == vs1.len(),
        ts2.len() == vs2.len(),
        w0.fits(ts1, vs1),
        w1.wrote(w0, ts1, vs1),
    ensures
        w1.fits(ts2, vs2) <==> w0.fits(ts1 + ts2, vs1 + vs2),
{
    let (ts, vs) = (ts1 + ts2, vs1 + vs2);
    let n = ts1.len();
    if w1.fits(ts2, vs2) {
        assert forall|i: int| 0 <= i < ts.len() && #[trigger] w0.view_map().contains_key(ts[i]) implies w0.view_map()[ts[i]]
            == vs[i] by {
            if i < n {
                assert(ts[i] == ts1[i]);
            } else {
                assert(ts[i] == ts2[i - n]);
                assert(w1.view_map().contains_key(ts2[i - n]));
            }
        }
        assert forall|i: int, j: int|
            0 <= i < ts.len() && 0 <= j < ts.len() && #[trigger] ts[i] == #[trigger] ts[j] implies vs[i]
            == vs[j] by {
            if i < n && j < n {
                assert(ts1[i] == ts[i] && ts1[j] == ts[j]);
            } else if i < n {
                assert(w1.has(ts1[i], vs1[i]));
                assert(ts2[j - n] == ts[j]);
            } else if j < n {
                assert(w1.has(ts1[j], vs1[j]));
                assert(ts2[i - n] == ts[i]);
            } else {
                assert(ts2[i - n] == ts[i] && ts2[j - n] == ts[j]);
            }
        }
    }
    if w0.fits(ts, vs) {
        assert forall|i: int| 0 <= i < ts2.len() && #[trigger] w1.view_map().contains_key(ts2[i]) implies w1.view_map()[ts2[i]]
            == vs2[i] by {
            let t = ts2[i];
            assert(ts[n + i] == t && vs[n + i] == vs2[i]);
            if w0.view_map().contains_key(t) {
                assert(w1.view_map()[t] == w0.view_map()[t]);
            } else {
                assert(ts1.contains(t));
                let j = choose|j: int| 0 <= j < ts1.len() && ts1[j] == t;
                assert(ts[j] == t && vs[j] == vs1[j]);
                assert(w1.has(ts1[j], vs1[j]));
            }
        }
        assert forall|i: int, j: int|
            0 <= i < ts2.len() && 0 <= j < ts2.len() && #[trigger] ts2[i] == #[trigger] ts2[j] implies vs2[i]
            == vs2[j] by {
            assert(ts[n + i] == ts2[i] && ts[n + j] == ts2[j]);
        }
    }
}

/// Writing `ts1` and then `ts2` wrote both.
pub proof fn lemma_wrote_chain(
    w0: PartialWitness,
    w1: PartialWitness,
    w2: PartialWitness,
    ts1: Seq<Target>,
    vs1: Seq<u64>,
    ts2: Seq<Target>,
    vs2: Seq<u64>,
)
    requires
        ts1.len() == vs1.len(),
        ts2.len() == vs2.len(),
        w1.wrote(w0, ts1, vs1),
        w2.wrote(w1, ts2, vs2),
    ensures
        w2.wrote(w0, ts1 + ts2, vs1 + vs2),
{
    let (ts, vs) = (ts1 + ts2, vs1 + vs2);
    let n = ts1.len();
    assert forall|i: int| 0 <= i < ts.len() implies w2.has(#[trigger] ts[i], vs[i]) by {
        if i < n {
            assert(ts[i] == ts1[i] && vs[i] == vs1[i]);
            assert(w1.has(ts1[i], vs1[i]));
        } else {
            assert(ts[i] == ts2[i - n] && vs[i] == vs2[i - n]);
            assert(w2.has(ts2[i - n], vs2[i - n]));
        }
    }
    assert forall|t: Target| #[trigger] w2.view_map().contains_key(t) implies w0.view_map().contains_key(t)
        || ts.contains(t) by {
        if !w1.view_map().contains_key(t) {
            assert(ts2.contains(t));
            let j = choose|j: int| 0 <= j < ts2.len() && ts2[j] == t;
            assert(ts[n + j] == t);
        } else if !w0.view_map().contains_key(t) {
            assert(ts1.contains(t));
            let j = choose|j: int| 0 <= j < ts1.len() && ts1[j] == t;
            assert(ts[j] == t);
        }
    }
    assert forall|t: Target| #[trigger] w0.view_map().contains_key(t) implies w2.view_map().contains_key(t)
        && w2.view_map()[t] == w0.view_map()[t] by {
        assert(w1.view_map().contains_key(t));
    }
}

/// An optional digest, ZERO when absent.
pub open spec fn or_zero(h: Option<[u64; 4]>) -> [u64; 4] {
    match h {
        Some(h) => h,
        None => [0u64, 0u64, 0u64, 0u64],
    }
}

/// The targets of a digest that is given only when `given`.
pub open spec fn given_targets(given: bool, ts: Seq<Target>) -> Seq<Target> {
    if given {
        ts
    } else {
        Seq::empty()
    }
}

/// The values of an optional digest: none when absent.
pub open spec fn given_values(v: Option<[u64; 4]>) -> Seq<u64> {
    match v {
        Some(h) => h@,
        None => Seq::empty(),
    }
}

/// The targets of a presence flag and a digest, in the order they are
/// given: the flag, then the four elements.
pub open spec fn flagged_targets(b: BoolTarget, h: HashOutTarget) -> Seq<Target> {
    seq![b.target] + h.elements@
}

/// The values given to a presence flag and a digest.
pub open spec fn flagged_values(present: bool, v: [u64; 4]) -> Seq<u64> {
    seq![bit_of(present)] + v@
}

impl PartialWitness {
    /// Sets two digests, the first, then the second.
    pub fn set_two_hashes(&mut self, h1: HashOutTarget, v1: [u64; 4], h2: HashOutTarget, v2: [u64; 4]) -> (r:
        Result<(), WitnessConflict>)
        ensures
            r is Ok <==> old(self).fits(h1.elements@ + h2.elements@, v1@ + v2@),
            r is Ok ==> final(self).wrote(*old(self), h1.elements@ + h2.elements@, v1@ + v2@),
            r is Ok ==> final(self).has_arr(h1.elements, v1) && final(self).has_arr(h2.elements, v2),
    {
        let ghost w0 = *self;
        proof {
            lemma_fits_prefix(w0, h1.elements@, v1@, h2.elements@, v2@);
        }
        self.set_hash_target(h1, v1)?;
        let ghost w1 = *self;
        proof {
            lemma_fits_after(w0, w1, h1.elements@, v1@, h2.elements@, v2@);
        }
        self.set_hash_target(h2, v2)?;
        proof {
            lemma_wrote_chain(w0, w1, *self, h1.elements@, v1@, h2.elements@, v2@);
            assert forall|k: int| #![trigger h1.elements[k]] 0 <= k < 4 implies self.has(h1.elements[k], v1[k]) by {
                assert(w1.has(h1.elements[k], v1[k]));
            }
        }
        Ok(())
    }

    /// Gives the public inputs of two proofs, the left one, then the right.
    pub fn set_two_proofs(
        &mut self,
        left: &ProofWithPublicInputsTarget,
        left_inputs: &[u64],
        right: &ProofWithPublicInputsTarget,
        right_inputs: &[u64],
    ) -> (r: Result<(), WitnessConflict>)
        requires
            left.public_inputs@.len() == left_inputs@.len(),
            right.public_inputs@.len() == right_inputs@.len(),
        ensures
            r is Ok <==> old(self).fits(
                left.public_inputs@ + right.public_inputs@,
                left_inputs@ + right_inputs@,
            ),
            r is Ok ==> final(self).wrote(
                *old(self),
                left.public_inputs@ + right.public_inputs@,
                left_inputs@ + right_inputs@,
            ),
            r is Ok ==> forall|k: int|
                0 <= k < left_inputs@.len() ==> final(self).has(
                    #[trigger] left.public_inputs@[k],
                    left_inputs@[k],
                ),
            r is Ok ==> forall|k: int|
                0 <= k < right_inputs@.len() ==> final(self).has(
                    #[trigger] right.public_inputs@[k],
                    right_inputs@[k],
                ),
    {
        let ghost (t1, v1) = (left.public_inputs@, left_inputs@);
        let ghost (t2, v2) = (right.public_inputs@, right_inputs@);
        let ghost w0 = *self;
        proof {
            lemma_fits_prefix(w0, t1, v1, t2, v2);
        }
        self.set_proof_with_pis_target(left, left_inputs)?;
        let ghost w1 = *self;
        proof {
            lemma_fits_after(w0, w1, t1, v1, t2, v2);
        }
        self.set_proof_with_pis_target(right, right_inputs)?;
        proof {
            lemma_wrote_chain(w0, w1, *self, t1, v1, t2, v2);
            assert forall|k: int| 0 <= k < left_inputs@.len() implies self.has(
                #[trigger] left.public_inputs@[k],
                left_inputs@[k],
            ) by {
                assert(w1.has(left.public_inputs@[k], left_inputs@[k]));
            }
        }
        Ok(())
    }

    /// Sets a presence flag and, when given, a digest.
    pub fn set_flag_and_given_hash(
        &mut self,
        b: BoolTarget,
        present: bool,
        h: HashOutTarget,
        v: Option<[u64; 4]>,
    ) -> (r: Result<(), WitnessConflict>)
        ensures
            r is Ok <==> old(self).fits(
                seq![b.target] + given_targets(v is Some, h.elements@),
                seq![bit_of(present)] + given_values(v),
            ),
            r is Ok ==> final(self).wrote(
                *old(self),
                seq![b.target] + given_targets(v is Some, h.elements@),
                seq![bit_of(present)] + given_values(v),
            ),
            r is Ok ==> final(self).has(b.target, bit_of(present)),
            r is Ok ==> (v matches Some(hv) ==> final(self).has_arr(h.elements, hv)),
    {
        let ghost (t1, v1) = (seq![b.target], seq![bit_of(present)]);
        let ghost (t2, v2) = (given_targets(v is Some, h.elements@), given_values(v));
        let ghost w0 = *self;
        proof {
            lemma_fits_prefix(w0, t1, v1, t2, v2);
        }
        self.set_bool_target(b, present)?;
        let ghost w1 = *self;
        proof {
            lemma_fits_after(w0, w1, t1, v1, t2, v2);
        }
        if let Some(hv) = v {
            self.set_hash_target(h, hv)?;
        }
        proof {
            lemma_wrote_chain(w0, w1, *self, t1, v1, t2, v2);
        }
        Ok(())
    }

    /// Sets a presence flag and a digest.
    pub fn set_flagged_hash(&mut self, b: BoolTarget, present: bool, h: HashOutTarget, v: [u64; 4]) -> (r:
        Result<(), WitnessConflict>)
        ensures
            r is Ok <==> old(self).fits(flagged_targets(b, h), flagged_values(present, v)),
            r is Ok ==> final(self).wrote(*old(self), flagged_targets(b, h), flagged_values(present, v)),
            r is Ok ==> final(self).has(b.target, bit_of(present)) && final(self).has_arr(h.elements, v),
    {
        let ghost (t1, v1) = (seq![b.target], seq![bit_of(present)]);
        let ghost (t2, v2) = (h.elements@, v@);
        let ghost w0 = *self;
        proof {
            lemma_fits_prefix(w0, t1, v1, t2, v2);
        }
        self.set_bool_target(b, present)?;
        let ghost w1 = *self;
        proof {
            lemma_fits_after(w0, w1, t1, v1, t2, v2);
        }
        self.set_hash_target(h, v)?;
        proof {
            lemma_wrote_chain(w0, w1, *self, t1, v1, t2, v2);
            assert(w1.has(b.target, bit_of(present)));
        }
        Ok(())
    }
}


/// The targets of the first `n` digests of a cap, in order.
pub open spec fn cap_targets(cap: Seq<HashOutTarget>, n: int) -> Seq<Target>
    decreases n,
{
    if n <= 0 {
        Seq::empty()
    } else {
        cap_targets(cap, n - 1) + cap[n - 1].elements@
    }
}

/// The values of the first `n` digests of a cap, in order.
pub open spec fn cap_values(cap: Seq<[u64; 4]>, n: int) -> Seq<u64>
    decreases n,
{
    if n <= 0 {
        Seq::empty()
    } else {
        cap_values(cap, n - 1) + cap[n - 1]@
    }
}

/// The targets of verifier data, in the order they are given: the circuit
/// digest, then the digests of the cap.
pub open spec fn verifier_data_targets(vt: VerifierCircuitTarget) -> Seq<Target> {
    vt.circuit_digest.elements@ + cap_targets(
        vt.constants_sigmas_cap.0@,
        vt.constants_sigmas_cap.0@.len() as int,
    )
}

/// The values of verifier data, in the order they are given.
pub open spec fn verifier_data_values(v: VerifierOnlyCircuitData) -> Seq<u64> {
    v.circuit_digest@ + cap_values(v.constants_sigmas_cap@, v.constants_sigmas_cap@.len() as int)
}

/// The first `k` digests of a cap come first among its first `n`.
proof fn lemma_cap_prefix(cap: Seq<HashOutTarget>, vals: Seq<[u64; 4]>, k: int, n: int)
    requires
        0 <= k <= n,
    ensures
        cap_targets(cap, n).len() == 4 * n,
        cap_values(vals, n).len() == 4 * n,
        cap_targets(cap, n).subrange(0, 4 * k) == cap_targets(cap, k),
        cap_values(vals, n).subrange(0, 4 * k) == cap_values(vals, k),
    decreases n,
{
    if n > 0 {
        lemma_cap_prefix(cap, vals, if k < n { k } else { n - 1 }, n - 1);
        if k < n {
            assert(cap_targets(cap, n).subrange(0, 4 * k) =~= cap_targets(cap, n - 1).subrange(0, 4 * k));
            assert(cap_values(vals, n).subrange(0, 4 * k) =~= cap_values(vals, n - 1).subrange(0, 4 * k));
        } else {
            assert(cap_targets(cap, n).subrange(0, 4 * k) =~= cap_targets(cap, n));
            assert(cap_values(vals, n).subrange(0, 4 * k) =~= cap_values(vals, n));
        }
    }
}

/// The targets and values of verifier data of one cap size have one length.
pub proof fn lemma_verifier_data_len(vt: VerifierCircuitTarget, v: VerifierOnlyCircuitData)
    requires
        vt.constants_sigmas_cap.0@.len() == v.constants_sigmas_cap@.len(),
    ensures
        verifier_data_targets(vt).len() == verifier_data_values(v).len(),
{
    let n = v.constants_sigmas_cap@.len() as int;
    lemma_cap_prefix(vt.constants_sigmas_cap.0@, v.constants_sigmas_cap@, 0, n);
}

/// What fits a witness fits it when cut short.
proof fn lemma_fits_subrange(w: PartialWitness, ts: Seq<Target>, vs: Seq<u64>, m: int)
    requires
        0 <= m <= ts.len(),
        ts.len() == vs.len(),
    ensures
        w.fits(ts, vs) ==> w.fits(ts.subrange(0, m), vs.subrange(0, m)),
{
    lemma_fits_prefix(w, ts.subrange(0, m), vs.subrange(0, m), ts.subrange(m, ts.len() as int), vs.subrange(m, vs.len() as int));
    assert(ts.subrange(0, m) + ts.subrange(m, ts.len() as int) =~= ts);
    assert(vs.subrange(0, m) + vs.subrange(m, vs.len() as int) =~= vs);
}

impl PartialWitness {
    /// `set_proof_with_pis_target`: gives each public input target of the
    /// proof target the public input of the proof at the same position. The
    /// proof itself is given to the proof target where the plan is replayed.
    pub fn set_proof_with_pis_target(
        &mut self,
        proof: &ProofWithPublicInputsTarget,
        public_inputs: &[u64],
    ) -> (r: Result<(), WitnessConflict>)
        requires
            proof.public_inputs@.len() == public_inputs@.len(),
        ensures
            r is Ok <==> old(self).fits(proof.public_inputs@, public_inputs@),
            r is Ok ==> final(self).wrote(*old(self), proof.public_inputs@, public_inputs@),
            r is Ok ==> final(self).extends(*old(self)),
            r is Ok ==> forall|k: int|
                0 <= k < public_inputs@.len() ==> final(self).has(
                    #[trigger] proof.public_inputs@[k],
                    public_inputs@[k],
                ),
    {
        let ghost ts = proof.public_inputs@;
        let ghost vs = public_inputs@;
        let mut k: usize = 0;
        while k < public_inputs.len()
            invariant
                k <= public_inputs@.len(),
                ts == proof.public_inputs@,
                vs == public_inputs@,
                proof.public_inputs@.len() == public_inputs@.len(),
                self.extends(*old(self)),
                forall|j: int|
                    0 <= j < k ==> self.has(#[trigger] proof.public_inputs@[j], public_inputs@[j]),
                forall|t: Target|
                    #[trigger] self.view_map().contains_key(t) ==> old(self).view_map().contains_key(t)
                        || exists|j: int| 0 <= j < k && ts[j] == t,
                old(self).fits(ts.subrange(0, k as int), vs.subrange(0, k as int)),
            decreases public_inputs@.len() - k,
        {
            let ghost prev = *self;
            let res = self.set_target(proof.public_inputs[k], public_inputs[k]);
            if res.is_err() {
                proof {
                    let t = ts[k as int];
                    if old(self).view_map().contains_key(t) {
                        assert(prev.view_map().contains_key(t));
                    } else {
                        let j = choose|j: int| 0 <= j < k && ts[j] == t;
                        assert(prev.has(ts[j], vs[j]));
                    }
                }
                return res;
            }
            proof {
                let ts2 = ts.subrange(0, k + 1);
                let vs2 = vs.subrange(0, k + 1);
                let t = ts[k as int];
                assert forall|i: int|
                    0 <= i < ts2.len() && #[trigger] old(self).view_map().contains_key(ts2[i])
                        implies old(self).view_map()[ts2[i]] == vs2[i] by {
                    if i == k {
                        assert(prev.view_map().contains_key(t));
                    } else {
                        assert(ts.subrange(0, k as int)[i] == ts2[i]);
                    }
                }
                assert forall|i: int, j: int|
                    0 <= i < ts2.len() && 0 <= j < ts2.len() && #[trigger] ts2[i] == #[trigger] ts2[j]
                        implies vs2[i] == vs2[j] by {
                    if i < k && j < k {
                        assert(ts.subrange(0, k as int)[i] == ts2[i]);
                        assert(ts.subrange(0, k as int)[j] == ts2[j]);
                    } else if i < k {
                        assert(prev.has(ts[i], vs[i]));
                    } else if j < k {
                        assert(prev.has(ts[j], vs[j]));
                    }
                }
                assert forall|u: Target| #[trigger] self.view_map().contains_key(u) implies old(
                    self,
                ).view_map().contains_key(u) || exists|j: int| 0 <= j < k + 1 && ts[j] == u by {
                    if u != t {
                        assert(prev.view_map().contains_key(u));
                    } else {
                        assert(ts[k as int] == u);
                    }
                }
                assert forall|j: int| 0 <= j < k + 1 implies self.has(
                    #[trigger] proof.public_inputs@[j],
                    public_inputs@[j],
                ) by {
                    if j < k {
                        assert(prev.has(proof.public_inputs@[j], public_inputs@[j]));
                    }
                }
            }
            k = k + 1;
        }
        proof {
            assert(ts.subrange(0, k as int) == ts);
            assert(vs.subrange(0, k as int) == vs);
        }
        Ok(())
    }

    /// `set_verifier_data_target`: gives each digest of the verifier data
    /// target its value.
    pub fn set_verifier_data_target(
        &mut self,
        vt: &VerifierCircuitTarget,
        v: &VerifierOnlyCircuitData,
    ) -> (r: Result<(), WitnessConflict>)
        requires
            vt.constants_sigmas_cap.0@.len() == v.constants_sigmas_cap@.len(),
        ensures
            r is Ok <==> old(self).fits(verifier_data_targets(*vt), verifier_data_values(*v)),
            r is Ok ==> final(self).wrote(*old(self), verifier_data_targets(*vt), verifier_data_values(*v)),
            r is Ok ==> final(self).extends(*old(self)),
            r is Ok ==> final(self).has_arr(vt.circuit_digest.elements, v.circuit_digest),
            r is Ok ==> forall|k: int|
                #![trigger vt.constants_sigmas_cap.0@[k]]
                0 <= k < v.constants_sigmas_cap@.len() ==> final(self).has_arr(
                    vt.constants_sigmas_cap.0@[k].elements,
                    v.constants_sigmas_cap@[k],
                ),
    {
        let ghost cap = vt.constants_sigmas_cap.0@;
        let ghost vals = v.constants_sigmas_cap@;
        let ghost n = cap.len() as int;
        let ghost (d, dv) = (vt.circuit_digest.elements@, v.circuit_digest@);
        let ghost w0 = *self;
        proof {
            lemma_cap_prefix(cap, vals, 0, n);
            lemma_fits_subrange(w0, d + cap_targets(cap, n), dv + cap_values(vals, n), 4);
            assert((d + cap_targets(cap, n)).subrange(0, 4) =~= d);
            assert((dv + cap_values(vals, n)).subrange(0, 4) =~= dv);
            assert(d + cap_targets(cap, 0) =~= d);
            assert(dv + cap_values(vals, 0) =~= dv);
        }
        self.set_hash_target(vt.circuit_digest, v.circuit_digest)?;
        let mut k: usize = 0;
        while k < v.constants_sigmas_cap.len()
            invariant
                k <= v.constants_sigmas_cap@.len(),
                cap == vt.constants_sigmas_cap.0@,
                vals == v.constants_sigmas_cap@,
                n == cap.len(),
                d == vt.circuit_digest.elements@,
                dv == v.circuit_digest@,
                vt.constants_sigmas_cap.0@.len() == v.constants_sigmas_cap@.len(),
                w0 == *old(self),
                w0.fits(d + cap_targets(cap, k as int), dv + cap_values(vals, k as int)),
                self.wrote(w0, d + cap_targets(cap, k as int), dv + cap_values(vals, k as int)),
                w0.fits(d + cap_targets(cap, n), dv + cap_values(vals, n)) ==> w0.fits(
                    d + cap_targets(cap, k as int),
                    dv + cap_values(vals, k as int),
                ),
                self.extends(*old(self)),
                self.has_arr(vt.circuit_digest.elements, v.circuit_digest),
                forall|j: int|
                    #![trigger vt.constants_sigmas_cap.0@[j]]
                    0 <= j < k ==> self.has_arr(
                        vt.constants_sigmas_cap.0@[j].elements,
                        v.constants_sigmas_cap@[j],
                    ),
            decreases v.constants_sigmas_cap@.len() - k,
        {
            let ghost prev = *self;
            let ghost (tk, vk) = (d + cap_targets(cap, k as int), dv + cap_values(vals, k as int));
            let ghost (c, cv) = (cap[k as int].elements@, vals[k as int]@);
            proof {
                lemma_cap_prefix(cap, vals, k as int, k as int);
                lemma_cap_prefix(cap, vals, k + 1, n);
                lemma_fits_after(w0, prev, tk, vk, c, cv);
                assert(tk + c =~= d + cap_targets(cap, k + 1));
                assert(vk + cv =~= dv + cap_values(vals, k + 1));
                lemma_fits_subrange(w0, d + cap_targets(cap, n), dv + cap_values(vals, n), 4 + 4 * (k + 1));
                assert((d + cap_targets(cap, n)).subrange(0, 4 + 4 * (k + 1)) =~= d + cap_targets(cap, k + 1));
                assert((dv + cap_values(vals, n)).subrange(0, 4 + 4 * (k + 1)) =~= dv + cap_values(vals, k + 1));
            }
            self.set_hash_target(vt.constants_sigmas_cap.0[k], v.constants_sigmas_cap[k])?;
            proof {
                lemma_wrote_chain(w0, prev, *self, tk, vk, c, cv);
                assert forall|j: int|
                    #![trigger vt.constants_sigmas_cap.0@[j]]
                    0 <= j < k + 1 implies self.has_arr(
                    vt.constants_sigmas_cap.0@[j].elements,
                    v.constants_sigmas_cap@[j],
                ) by {
                    if j < k {
                        assert(prev.has_arr(
                            vt.constants_sigmas_cap.0@[j].elements,
                            v.constants_sigmas_cap@[j],
                        ));
                        assert forall|i: int| #![trigger vt.constants_sigmas_cap.0@[j].elements[i]] 0 <= i < 4 implies self.has(
                            vt.constants_sigmas_cap.0@[j].elements[i],
                            v.constants_sigmas_cap@[j][i],
                        ) by {
                            assert(prev.has(
                                vt.constants_sigmas_cap.0@[j].elements[i],
                                v.constants_sigmas_cap@[j][i],
                            ));
                        }
                    }
                }
                assert forall|i: int| #![trigger vt.circuit_digest.elements[i]] 0 <= i < 4 implies self.has(
                    vt.circuit_digest.elements[i],
                    v.circuit_digest[i],
                ) by {
                    assert(prev.has(vt.circuit_digest.elements[i], v.circuit_digest[i]));
                }
            }
            k = k + 1;
        }
        Ok(())
    }
}

} // verus!
