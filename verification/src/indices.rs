//! Positions of targets among the public inputs of a proof, and reading or
//! writing the values at those positions.
use vstd::prelude::*;

use crate::circuit::{
    BoolTarget, HashOutTarget, MerkleCapTarget, Target, VerifierCircuitTarget,
    VerifierOnlyCircuitData,
};
use crate::field::is_canonical;

verus! {

/// The positions, among some public inputs, of a value made of targets.
pub trait Indices: Sized {
    /// What the positions are found from.
    type SourceTarget;

    /// What reading the positions gives.
    type Target;

    /// Every position is below `len`.
    spec fn within(&self, len: nat) -> bool;

    /// The targets at the positions.
    spec fn read_targets(&self, pis: Seq<Target>) -> Self::Target;

    /// The public inputs after writing `v` at the positions.
    spec fn write_targets(&self, pis: Seq<Target>, v: Self::Target) -> Seq<Target>;

    /// Every target of `target` is among the public inputs.
    spec fn registered(pis: Seq<Target>, target: Self::SourceTarget) -> bool;

    /// The value that a source stands for.
    spec fn source_view(target: Self::SourceTarget) -> Self::Target;

    /// Finds the position of each target of `target`.
    fn new(public_inputs: &[Target], target: &Self::SourceTarget) -> (r: Self)
        requires
            Self::registered(public_inputs@, *target),
        ensures
            r.within(public_inputs@.len()),
            r.read_targets(public_inputs@) == Self::source_view(*target),
    ;

    /// Reads the targets at the positions.
    fn get_target(&self, public_inputs: &[Target]) -> (r: Self::Target)
        requires
            self.within(public_inputs@.len()),
        ensures
            r == self.read_targets(public_inputs@),
    ;

    /// Writes targets at the positions.
    fn set_target(&self, public_inputs: &mut [Target], v: Self::Target)
        requires
            self.within(old(public_inputs)@.len()),
        ensures
            final(public_inputs)@ == self.write_targets(old(public_inputs)@, v),
    ;
}

/// Positions that can also be read and written in a list of field values.
pub trait FieldIndices<F> {
    /// What reading the positions gives.
    type Field;

    /// Every position is below `len`.
    spec fn within_fields(&self, len: nat) -> bool;

    /// The value at the positions.
    spec fn read_field(&self, pis: Seq<F>) -> Self::Field;

    /// The values after writing `v` at the positions.
    spec fn write_field(&self, pis: Seq<F>, v: Self::Field) -> Seq<F>;

    /// `v` can be written (its field elements are canonical).
    spec fn writable(v: Self::Field) -> bool;

    /// Reads the value at the positions.
    fn get_field(&self, public_inputs: &[F]) -> (r: Self::Field)
        requires
            self.within_fields(public_inputs@.len()),
        ensures
            r == self.read_field(public_inputs@),
    ;

    /// Writes a value at the positions.
    fn set_field(&self, public_inputs: &mut [F], v: Self::Field)
        requires
            self.within_fields(old(public_inputs)@.len()),
            Self::writable(v),
        ensures
            final(public_inputs)@ == self.write_field(old(public_inputs)@, v),
    ;
}

/// A value marked with the configuration it belongs to.
pub struct ConfigMarked<C, const D: usize, T> {
    pub _marker: core::marker::PhantomData<C>,
    pub t: T,
}

/// A value marked with the hasher it belongs to.
pub struct HashMarked<H, T> {
    pub _marker: core::marker::PhantomData<H>,
    pub t: T,
}

/// The position of a single target among the public inputs.
#[derive(Clone, Copy, PartialEq, Eq, Debug, Structural)]
pub struct TargetIndex(pub usize);

impl TargetIndex {
    /// The position of the first occurrence of `target`; the target must be a
    /// public input.
    pub fn new(public_inputs: &[Target], target: Target) -> (r: Self)
        requires
            public_inputs@.contains(target),
        ensures
            r.0 < public_inputs@.len(),
            public_inputs@[r.0 as int] == target,
            forall|j: int| 0 <= j < r.0 ==> public_inputs@[j] != target,
    {
        let mut i: usize = 0;
        while i < public_inputs.len()
            invariant
                i <= public_inputs@.len(),
                public_inputs@.contains(target),
                forall|j: int| 0 <= j < i ==> public_inputs@[j] != target,
            decreases public_inputs@.len() - i,
        {
            if public_inputs[i] == target {
                return TargetIndex(i);
            }
            i = i + 1;
        }
        proof {
            let k = choose|k: int| 0 <= k < public_inputs@.len() && public_inputs@[k] == target;
            assert(public_inputs@[k] != target);
        }
        TargetIndex(0)
    }

    /// The element at the position.
    fn get_raw<T: Copy>(&self, public_inputs: &[T]) -> (r: T)
        requires
            self.0 < public_inputs@.len(),
        ensures
            r == public_inputs@[self.0 as int],
    {
        public_inputs[self.0]
    }

    /// The target at the position.
    pub fn get_target(&self, public_inputs: &[Target]) -> (r: Target)
        requires
            self.0 < public_inputs@.len(),
        ensures
            r == public_inputs@[self.0 as int],
    {
        self.get_raw(public_inputs)
    }

    /// The field value at the position.
    pub fn get_field<F: Copy>(&self, public_inputs: &[F]) -> (r: F)
        requires
            self.0 < public_inputs@.len(),
        ensures
            r == public_inputs@[self.0 as int],
    {
        self.get_raw(public_inputs)
    }

    /// Replaces the element at the position.
    fn set_raw<T>(&self, public_inputs: &mut [T], v: T)
        requires
            self.0 < old(public_inputs)@.len(),
        ensures
            final(public_inputs)@ == old(public_inputs)@.update(self.0 as int, v),
    {
        public_inputs[self.0] = v;
    }

    /// Replaces the target at the position.
    pub fn set_target(&self, public_inputs: &mut [Target], v: Target)
        requires
            self.0 < old(public_inputs)@.len(),
        ensures
            final(public_inputs)@ == old(public_inputs)@.update(self.0 as int, v),
    {
        self.set_raw(public_inputs, v)
    }

    /// Replaces the field value at the position.
    pub fn set_field<F>(&self, public_inputs: &mut [F], v: F)
        requires
            self.0 < old(public_inputs)@.len(),
        ensures
            final(public_inputs)@ == old(public_inputs)@.update(self.0 as int, v),
    {
        self.set_raw(public_inputs, v)
    }
}

impl Indices for TargetIndex {
    type SourceTarget = Target;

    type Target = Target;

    open spec fn within(&self, len: nat) -> bool {
        self.0 < len
    }

    open spec fn read_targets(&self, pis: Seq<Target>) -> Target {
        pis[self.0 as int]
    }

    open spec fn write_targets(&self, pis: Seq<Target>, v: Target) -> Seq<Target> {
        pis.update(self.0 as int, v)
    }

    open spec fn registered(pis: Seq<Target>, target: Target) -> bool {
        pis.contains(target)
    }

    open spec fn source_view(target: Target) -> Target {
        target
    }

    fn new(public_inputs: &[Target], target: &Target) -> (r: Self) {
        TargetIndex::new(public_inputs, *target)
    }

    fn get_target(&self, public_inputs: &[Target]) -> (r: Target) {
        TargetIndex::get_target(self, public_inputs)
    }

    fn set_target(&self, public_inputs: &mut [Target], v: Target) {
        TargetIndex::set_target(self, public_inputs, v)
    }
}

impl<F: Copy> FieldIndices<F> for TargetIndex {
    type Field = F;

    open spec fn within_fields(&self, len: nat) -> bool {
        self.0 < len
    }

    open spec fn read_field(&self, pis: Seq<F>) -> F {
        pis[self.0 as int]
    }

    open spec fn write_field(&self, pis: Seq<F>, v: F) -> Seq<F> {
        pis.update(self.0 as int, v)
    }

    open spec fn writable(v: F) -> bool {
        true
    }

    fn get_field(&self, public_inputs: &[F]) -> (r: F) {
        TargetIndex::get_field(self, public_inputs)
    }

    fn set_field(&self, public_inputs: &mut [F], v: F) {
        TargetIndex::set_field(self, public_inputs, v)
    }
}

/// The position of a boolean target among the public inputs.
#[derive(Clone, Copy, PartialEq, Eq, Debug, Structural)]
pub struct BoolTargetIndex(pub TargetIndex);

impl BoolTargetIndex {
    /// The position of the first occurrence of the boolean's target.
    pub fn new(public_inputs: &[Target], target: BoolTarget) -> (r: Self)
        requires
            public_inputs@.contains(target.target),
        ensures
            r.0.0 < public_inputs@.len(),
            public_inputs@[r.0.0 as int] == target.target,
    {
        BoolTargetIndex(TargetIndex::new(public_inputs, target.target))
    }

    /// The boolean target at the position.
    pub fn get_target(&self, public_inputs: &[Target]) -> (r: BoolTarget)
        requires
            self.0.0 < public_inputs@.len(),
        ensures
            r.target == public_inputs@[self.0.0 as int],
    {
        BoolTarget::new_unsafe(self.0.get_target(public_inputs))
    }

    /// Whether the field value at the position is one.
    pub fn get_field(&self, public_inputs: &[u64]) -> (r: bool)
        requires
            self.0.0 < public_inputs@.len(),
        ensures
            r == (public_inputs@[self.0.0 as int] == 1),
    {
        let v = self.0.get_field(public_inputs);
        v == 1
    }

    /// Replaces the boolean target at the position.
    pub fn set_target(&self, public_inputs: &mut [Target], v: BoolTarget)
        requires
            self.0.0 < old(public_inputs)@.len(),
        ensures
            final(public_inputs)@ == old(public_inputs)@.update(self.0.0 as int, v.target),
    {
        self.0.set_target(public_inputs, v.target)
    }

    /// Writes `1` or `0` at the position.
    pub fn set_field(&self, public_inputs: &mut [u64], v: bool)
        requires
            self.0.0 < old(public_inputs)@.len(),
        ensures
            final(public_inputs)@ == old(public_inputs)@.update(
                self.0.0 as int,
                if v {
                    1u64
                } else {
                    0u64
                },
            ),
    {
        self.0.set_field(public_inputs, if v { 1u64 } else { 0u64 })
    }
}

impl Indices for BoolTargetIndex {
    type SourceTarget = BoolTarget;

    type Target = BoolTarget;

    open spec fn within(&self, len: nat) -> bool {
        self.0.0 < len
    }

    open spec fn read_targets(&self, pis: Seq<Target>) -> BoolTarget {
        BoolTarget { target: pis[self.0.0 as int] }
    }

    open spec fn write_targets(&self, pis: Seq<Target>, v: BoolTarget) -> Seq<Target> {
        pis.update(self.0.0 as int, v.target)
    }

    open spec fn registered(pis: Seq<Target>, target: BoolTarget) -> bool {
        pis.contains(target.target)
    }

    open spec fn source_view(target: BoolTarget) -> BoolTarget {
        target
    }

    fn new(public_inputs: &[Target], target: &BoolTarget) -> (r: Self) {
        BoolTargetIndex::new(public_inputs, *target)
    }

    fn get_target(&self, public_inputs: &[Target]) -> (r: BoolTarget) {
        BoolTargetIndex::get_target(self, public_inputs)
    }

    fn set_target(&self, public_inputs: &mut [Target], v: BoolTarget) {
        BoolTargetIndex::set_target(self, public_inputs, v)
    }
}

impl FieldIndices<u64> for BoolTargetIndex {
    type Field = bool;

    open spec fn within_fields(&self, len: nat) -> bool {
        self.0.0 < len
    }

    open spec fn read_field(&self, pis: Seq<u64>) -> bool {
        pis[self.0.0 as int] == 1
    }

    open spec fn write_field(&self, pis: Seq<u64>, v: bool) -> Seq<u64> {
        pis.update(
            self.0.0 as int,
            if v {
                1u64
            } else {
                0u64
            },
        )
    }

    open spec fn writable(v: bool) -> bool {
        true
    }

    fn get_field(&self, public_inputs: &[u64]) -> (r: bool) {
        BoolTargetIndex::get_field(self, public_inputs)
    }

    fn set_field(&self, public_inputs: &mut [u64], v: bool) {
        BoolTargetIndex::set_field(self, public_inputs, v)
    }
}

/// The positions of an array of values among the public inputs.
#[derive(Clone, Copy, PartialEq, Eq, Debug)]
pub struct ArrayTargetIndex<I, const N: usize>(pub [I; N]);

/// Every position of an array of positions is below `len`.
pub open spec fn all_within<const N: usize>(idx: [TargetIndex; N], len: nat) -> bool {
    forall|k: int| 0 <= k < N ==> (#[trigger] idx[k]).0 < len
}

/// Writes `v[k]` at `idx[k]`, for `k` from `0` up to `n`, in order.
pub open spec fn write_all<T, const N: usize>(
    idx: [TargetIndex; N],
    pis: Seq<T>,
    v: Seq<T>,
    n: int,
) -> Seq<T>
    decreases n,
{
    if n <= 0 {
        pis
    } else {
        write_all(idx, pis, v, n - 1).update(idx[n - 1].0 as int, v[n - 1])
    }
}

/// Writing at positions below the length keeps the length.
pub proof fn lemma_write_all_len<T, const N: usize>(
    idx: [TargetIndex; N],
    pis: Seq<T>,
    v: Seq<T>,
    n: int,
)
    requires
        0 <= n <= N,
        all_within(idx, pis.len()),
    ensures
        write_all(idx, pis, v, n).len() == pis.len(),
    decreases n,
{
    if n > 0 {
        lemma_write_all_len(idx, pis, v, n - 1);
        assert(idx[n - 1].0 < pis.len());
    }
}

/// Positions that differ from all written ones keep their value.
pub proof fn lemma_write_all_other<T, const N: usize>(
    idx: [TargetIndex; N],
    pis: Seq<T>,
    v: Seq<T>,
    n: int,
    j: int,
)
    requires
        0 <= n <= N,
        all_within(idx, pis.len()),
        0 <= j < pis.len(),
        forall|k: int| 0 <= k < n ==> (#[trigger] idx[k]).0 != j,
    ensures
        write_all(idx, pis, v, n)[j] == pis[j],
    decreases n,
{
    if n > 0 {
        lemma_write_all_other(idx, pis, v, n - 1, j);
        lemma_write_all_len(idx, pis, v, n - 1);
        assert(idx[n - 1].0 != j);
    }
}

/// When the positions are distinct, each written position holds its value.
pub proof fn lemma_write_all_read<T, const N: usize>(
    idx: [TargetIndex; N],
    pis: Seq<T>,
    v: Seq<T>,
    n: int,
    k: int,
)
    requires
        0 <= k < n <= N,
        all_within(idx, pis.len()),
        forall|a: int, b: int| 0 <= a < b < N ==> idx[a].0 != idx[b].0,
    ensures
        write_all(idx, pis, v, n)[idx[k].0 as int] == v[k],
    decreases n,
{
    lemma_write_all_len(idx, pis, v, n - 1);
    if k < n - 1 {
        lemma_write_all_read(idx, pis, v, n - 1, k);
        assert(idx[k].0 != idx[n - 1].0);
    }
    assert(idx[k].0 < pis.len());
}

impl<const N: usize> ArrayTargetIndex<TargetIndex, N> {
    /// Finds the position of each target of the array.
    pub fn new(public_inputs: &[Target], target: &[Target; N]) -> (r: Self)
        requires
            forall|k: int| 0 <= k < N ==> public_inputs@.contains(#[trigger] target[k]),
        ensures
            all_within(r.0, public_inputs@.len()),
            forall|k: int| 0 <= k < N ==> public_inputs@[(#[trigger] r.0[k]).0 as int] == target[k],
    {
        let mut r = [TargetIndex(0);N];
        let mut k: usize = 0;
        while k < N
            invariant
                k <= N,
                forall|j: int| 0 <= j < N ==> public_inputs@.contains(#[trigger] target[j]),
                forall|j: int| 0 <= j < k ==> (#[trigger] r[j]).0 < public_inputs@.len(),
                forall|j: int| 0 <= j < k ==> public_inputs@[(#[trigger] r[j]).0 as int] == target[j],
            decreases N - k,
        {
            let i = TargetIndex::new(public_inputs, target[k]);
            r[k] = i;
            k = k + 1;
        }
        ArrayTargetIndex(r)
    }

    /// The targets at the positions.
    pub fn get_target(&self, public_inputs: &[Target]) -> (r: [Target; N])
        requires
            all_within(self.0, public_inputs@.len()),
        ensures
            forall|k: int| 0 <= k < N ==> #[trigger] r[k] == public_inputs@[self.0[k].0 as int],
    {
        let mut r = [Target { index: 0 };N];
        let mut k: usize = 0;
        while k < N
            invariant
                k <= N,
                all_within(self.0, public_inputs@.len()),
                forall|j: int| 0 <= j < k ==> #[trigger] r[j] == public_inputs@[self.0[j].0 as int],
            decreases N - k,
        {
            r[k] = public_inputs[self.0[k].0];
            k = k + 1;
        }
        r
    }

    /// The field values at the positions.
    pub fn get_field(&self, public_inputs: &[u64]) -> (r: [u64; N])
        requires
            all_within(self.0, public_inputs@.len()),
        ensures
            forall|k: int| 0 <= k < N ==> #[trigger] r[k] == public_inputs@[self.0[k].0 as int],
    {
        let mut r = [0u64;N];
        let mut k: usize = 0;
        while k < N
            invariant
                k <= N,
                all_within(self.0, public_inputs@.len()),
                forall|j: int| 0 <= j < k ==> #[trigger] r[j] == public_inputs@[self.0[j].0 as int],
            decreases N - k,
        {
            r[k] = public_inputs[self.0[k].0];
            k = k + 1;
        }
        r
    }

    /// Replaces the targets at the positions, in order.
    pub fn set_target(&self, public_inputs: &mut [Target], v: [Target; N])
        requires
            all_within(self.0, old(public_inputs)@.len()),
        ensures
            final(public_inputs)@ == write_all(self.0, old(public_inputs)@, v@, N as int),
    {
        self.set_field(public_inputs, v)
    }

    /// Replaces the values at the positions, in order.
    pub fn set_field<F: Copy>(&self, public_inputs: &mut [F], v: [F; N])
        requires
            all_within(self.0, old(public_inputs)@.len()),
        ensures
            final(public_inputs)@ == write_all(self.0, old(public_inputs)@, v@, N as int),
    {
        let mut k: usize = 0;
        while k < N
            invariant
                k <= N,
                all_within(self.0, old(public_inputs)@.len()),
                public_inputs@ == write_all(self.0, old(public_inputs)@, v@, k as int),
            decreases N - k,
        {
            proof {
                lemma_write_all_len(self.0, old(public_inputs)@, v@, k as int);
            }
            let i = self.0[k];
            public_inputs[i.0] = v[k];
            k = k + 1;
        }
    }
}

/// The positions of the four elements of a digest among the public inputs.
#[derive(Clone, Copy, PartialEq, Eq, Debug)]
pub struct HashOutTargetIndex(pub ArrayTargetIndex<TargetIndex, 4>);

impl HashOutTargetIndex {
    /// Every position is below `len`.
    pub open spec fn within(self, len: nat) -> bool {
        all_within(self.0.0, len)
    }

    /// The position of element `k`.
    pub open spec fn pos(self, k: int) -> int {
        self.0.0[k].0 as int
    }

    /// The targets at the positions.
    pub open spec fn get_spec(self, pis: Seq<Target>) -> [Target; 4] {
        [pis[self.pos(0)], pis[self.pos(1)], pis[self.pos(2)], pis[self.pos(3)]]
    }

    /// Finds the position of each element of the digest.
    pub fn new(public_inputs: &[Target], target: HashOutTarget) -> (r: Self)
        requires
            forall|k: int| 0 <= k < 4 ==> public_inputs@.contains(#[trigger] target.elements[k]),
        ensures
            r.within(public_inputs@.len()),
            forall|k: int| 0 <= k < 4 ==> public_inputs@[#[trigger] r.pos(k)] == target.elements[k],
    {
        HashOutTargetIndex(ArrayTargetIndex::<TargetIndex, 4>::new(public_inputs, &target.elements))
    }

    /// The digest target at the positions.
    pub fn get_target(&self, public_inputs: &[Target]) -> (r: HashOutTarget)
        requires
            self.within(public_inputs@.len()),
        ensures
            forall|k: int| 0 <= k < 4 ==> #[trigger] r.elements[k] == public_inputs@[self.pos(k)],
    {
        HashOutTarget { elements: self.0.get_target(public_inputs) }
    }

    /// The digest value at the positions.
    pub fn get_field(&self, public_inputs: &[u64]) -> (r: [u64; 4])
        requires
            self.within(public_inputs@.len()),
        ensures
            forall|k: int| 0 <= k < 4 ==> #[trigger] r[k] == public_inputs@[self.pos(k)],
    {
        self.0.get_field(public_inputs)
    }

    /// Replaces the digest target at the positions.
    pub fn set_target(&self, public_inputs: &mut [Target], v: HashOutTarget)
        requires
            self.within(old(public_inputs)@.len()),
        ensures
            final(public_inputs)@ == write_all(self.0.0, old(public_inputs)@, v.elements@, 4),
    {
        self.0.set_target(public_inputs, v.elements)
    }

    /// Replaces the digest value at the positions.
    pub fn set_field(&self, public_inputs: &mut [u64], v: [u64; 4])
        requires
            self.within(old(public_inputs)@.len()),
        ensures
            final(public_inputs)@ == write_all(self.0.0, old(public_inputs)@, v@, 4),
    {
        self.0.set_field(public_inputs, v)
    }
}

/// The positions of a list of values among the public inputs.
#[derive(Clone, PartialEq, Eq, Debug)]
pub struct VecTargetIndex<I>(pub Vec<I>);

impl VecTargetIndex<TargetIndex> {
    /// Finds the position of each target of the list.
    pub fn new(public_inputs: &[Target], target: &[Target]) -> (r: Self)
        requires
            forall|k: int| 0 <= k < target@.len() ==> public_inputs@.contains(#[trigger] target@[k]),
        ensures
            r.0@.len() == target@.len(),
            forall|k: int|
                0 <= k < target@.len() ==> (#[trigger] r.0@[k]).0 < public_inputs@.len()
                    && public_inputs@[r.0@[k].0 as int] == target@[k],
    {
        let mut r: Vec<TargetIndex> = Vec::new();
        let mut k: usize = 0;
        while k < target.len()
            invariant
                k <= target@.len(),
                r@.len() == k,
                forall|j: int|
                    0 <= j < target@.len() ==> public_inputs@.contains(#[trigger] target@[j]),
                forall|j: int|
                    0 <= j < k ==> (#[trigger] r@[j]).0 < public_inputs@.len()
                        && public_inputs@[r@[j].0 as int] == target@[j],
            decreases target@.len() - k,
        {
            r.push(TargetIndex::new(public_inputs, target[k]));
            k = k + 1;
        }
        VecTargetIndex(r)
    }

    /// The targets at the positions.
    pub fn get_target(&self, public_inputs: &[Target]) -> (r: Vec<Target>)
        requires
            forall|k: int| 0 <= k < self.0@.len() ==> (#[trigger] self.0@[k]).0 < public_inputs@.len(),
        ensures
            r@.len() == self.0@.len(),
            forall|k: int| 0 <= k < self.0@.len() ==> #[trigger] r@[k] == public_inputs@[self.0@[k].0 as int],
    {
        let mut r: Vec<Target> = Vec::new();
        let mut k: usize = 0;
        while k < self.0.len()
            invariant
                k <= self.0@.len(),
                r@.len() == k,
                forall|j: int| 0 <= j < self.0@.len() ==> (#[trigger] self.0@[j]).0 < public_inputs@.len(),
                forall|j: int| 0 <= j < k ==> #[trigger] r@[j] == public_inputs@[self.0@[j].0 as int],
            decreases self.0@.len() - k,
        {
            r.push(public_inputs[self.0[k].0]);
            k = k + 1;
        }
        r
    }

    /// The field values at the positions.
    pub fn get_field(&self, public_inputs: &[u64]) -> (r: Vec<u64>)
        requires
            forall|k: int| 0 <= k < self.0@.len() ==> (#[trigger] self.0@[k]).0 < public_inputs@.len(),
        ensures
            r@.len() == self.0@.len(),
            forall|k: int| 0 <= k < self.0@.len() ==> #[trigger] r@[k] == public_inputs@[self.0@[k].0 as int],
    {
        let mut r: Vec<u64> = Vec::new();
        let mut k: usize = 0;
        while k < self.0.len()
            invariant
                k <= self.0@.len(),
                r@.len() == k,
                forall|j: int| 0 <= j < self.0@.len() ==> (#[trigger] self.0@[j]).0 < public_inputs@.len(),
                forall|j: int| 0 <= j < k ==> #[trigger] r@[j] == public_inputs@[self.0@[j].0 as int],
            decreases self.0@.len() - k,
        {
            r.push(public_inputs[self.0[k].0]);
            k = k + 1;
        }
        r
    }
}

/// Writes `v[k]` at `idx[k]`, for `k` from `0` up to `n`, in order.
pub open spec fn write_seq<T>(idx: Seq<TargetIndex>, pis: Seq<T>, v: Seq<T>, n: int) -> Seq<T>
    decreases n,
{
    if n <= 0 {
        pis
    } else {
        write_seq(idx, pis, v, n - 1).update(idx[n - 1].0 as int, v[n - 1])
    }
}

impl VecTargetIndex<TargetIndex> {
    /// Writes each value at its position, in order, for as many values as
    /// there are both positions and values; a position that occurs twice
    /// keeps the later value.
    fn set_all<T: Copy>(&self, public_inputs: &mut [T], v: Vec<T>)
        requires
            forall|k: int| 0 <= k < self.0@.len() ==> (#[trigger] self.0@[k]).0 < old(public_inputs)@.len(),
        ensures
            final(public_inputs)@ == write_seq(
                self.0@,
                old(public_inputs)@,
                v@,
                if self.0@.len() < v@.len() {
                    self.0@.len() as int
                } else {
                    v@.len() as int
                },
            ),
    {
        let n = if self.0.len() < v.len() {
            self.0.len()
        } else {
            v.len()
        };
        let mut k: usize = 0;
        while k < n
            invariant
                k <= n <= self.0@.len(),
                n <= v@.len(),
                public_inputs@.len() == old(public_inputs)@.len(),
                forall|j: int| 0 <= j < self.0@.len() ==> (#[trigger] self.0@[j]).0 < old(public_inputs)@.len(),
                public_inputs@ == write_seq(self.0@, old(public_inputs)@, v@, k as int),
            decreases n - k,
        {
            self.0[k].set_raw(public_inputs, v[k]);
            k = k + 1;
        }
    }

    /// Replaces the targets at the positions by `v`, as far as both go.
    pub fn set_target(&self, public_inputs: &mut [Target], v: Vec<Target>)
        requires
            forall|k: int| 0 <= k < self.0@.len() ==> (#[trigger] self.0@[k]).0 < old(public_inputs)@.len(),
        ensures
            final(public_inputs)@ == write_seq(
                self.0@,
                old(public_inputs)@,
                v@,
                if self.0@.len() < v@.len() {
                    self.0@.len() as int
                } else {
                    v@.len() as int
                },
            ),
    {
        self.set_all(public_inputs, v)
    }

    /// Replaces the field values at the positions by `v`, as far as both go.
    pub fn set_field<F: Copy>(&self, public_inputs: &mut [F], v: Vec<F>)
        requires
            forall|k: int| 0 <= k < self.0@.len() ==> (#[trigger] self.0@[k]).0 < old(public_inputs)@.len(),
        ensures
            final(public_inputs)@ == write_seq(
                self.0@,
                old(public_inputs)@,
                v@,
                if self.0@.len() < v@.len() {
                    self.0@.len() as int
                } else {
                    v@.len() as int
                },
            ),
    {
        self.set_all(public_inputs, v)
    }
}

/// The positions of a circuit's verifier data among the public inputs: its
/// circuit digest and each digest of its cap.
#[derive(Clone, PartialEq, Eq, Debug)]
pub struct VerifierCircuitTargetIndex {
    pub circuit_digest: HashOutTargetIndex,
    pub constants_sigmas_cap: Vec<HashOutTargetIndex>,
}

impl VerifierCircuitTargetIndex {
    /// Every position is below `len`.
    pub open spec fn within(self, len: nat) -> bool {
        &&& self.circuit_digest.within(len)
        &&& forall|k: int|
            0 <= k < self.constants_sigmas_cap@.len() ==> (#[trigger] self.constants_sigmas_cap@[k]).within(
                len,
            )
    }

    /// The positions hold the targets of the verifier data.
    pub open spec fn locates(self, pis: Seq<Target>, v: VerifierCircuitTarget) -> bool {
        &&& self.within(pis.len())
        &&& self.constants_sigmas_cap@.len() == v.constants_sigmas_cap.0@.len()
        &&& forall|i: int| 0 <= i < 4 ==> pis[#[trigger] self.circuit_digest.pos(i)] == v.circuit_digest.elements[i]
        &&& forall|k: int, i: int|
            #![trigger self.constants_sigmas_cap@[k].pos(i)]
            0 <= k < self.constants_sigmas_cap@.len() && 0 <= i < 4 ==> pis[self.constants_sigmas_cap@[k].pos(i)]
                == v.constants_sigmas_cap.0@[k].elements[i]
    }

    /// Finds the positions of the verifier data.
    pub fn new(public_inputs: &[Target], target: &VerifierCircuitTarget) -> (r: Self)
        requires
            forall|i: int| 0 <= i < 4 ==> public_inputs@.contains(#[trigger] target.circuit_digest.elements[i]),
            forall|k: int, i: int|
                #![trigger target.constants_sigmas_cap.0@[k].elements[i]]
                0 <= k < target.constants_sigmas_cap.0@.len() && 0 <= i < 4 ==> public_inputs@.contains(
                    target.constants_sigmas_cap.0@[k].elements[i],
                ),
        ensures
            r.locates(public_inputs@, *target),
    {
        let circuit_digest = HashOutTargetIndex::new(public_inputs, target.circuit_digest);
        let cap = &target.constants_sigmas_cap.0;
        let mut constants_sigmas_cap: Vec<HashOutTargetIndex> = Vec::new();
        let mut k: usize = 0;
        while k < cap.len()
            invariant
                k <= cap@.len(),
                cap@ == target.constants_sigmas_cap.0@,
                constants_sigmas_cap@.len() == k,
                forall|j: int, i: int|
                    #![trigger target.constants_sigmas_cap.0@[j].elements[i]]
                    0 <= j < cap@.len() && 0 <= i < 4 ==> public_inputs@.contains(
                        target.constants_sigmas_cap.0@[j].elements[i],
                    ),
                forall|j: int| 0 <= j < k ==> (#[trigger] constants_sigmas_cap@[j]).within(public_inputs@.len()),
                forall|j: int, i: int|
                    #![trigger constants_sigmas_cap@[j].pos(i)]
                    0 <= j < k && 0 <= i < 4 ==> public_inputs@[constants_sigmas_cap@[j].pos(i)]
                        == cap@[j].elements[i],
            decreases cap@.len() - k,
        {
            let h = cap[k];
            assert forall|i: int| 0 <= i < 4 implies public_inputs@.contains(#[trigger] h.elements[i]) by {
                assert(target.constants_sigmas_cap.0@[k as int].elements[i] == h.elements[i]);
            }
            let idx = HashOutTargetIndex::new(public_inputs, h);
            constants_sigmas_cap.push(idx);
            k = k + 1;
        }
        VerifierCircuitTargetIndex { circuit_digest, constants_sigmas_cap }
    }

    /// The verifier data at the positions.
    pub fn get_target(&self, public_inputs: &[Target]) -> (r: VerifierCircuitTarget)
        requires
            self.within(public_inputs@.len()),
        ensures
            self.locates(public_inputs@, r),
    {
        let circuit_digest = self.circuit_digest.get_target(public_inputs);
        let mut cap: Vec<HashOutTarget> = Vec::new();
        let mut k: usize = 0;
        while k < self.constants_sigmas_cap.len()
            invariant
                k <= self.constants_sigmas_cap@.len(),
                self.within(public_inputs@.len()),
                cap@.len() == k,
                forall|j: int, i: int|
                    #![trigger self.constants_sigmas_cap@[j].pos(i)]
                    0 <= j < k && 0 <= i < 4 ==> public_inputs@[self.constants_sigmas_cap@[j].pos(i)]
                        == cap@[j].elements[i],
            decreases self.constants_sigmas_cap@.len() - k,
        {
            let idx = self.constants_sigmas_cap[k];
            let h = idx.get_target(public_inputs);
            cap.push(h);
            k = k + 1;
        }
        VerifierCircuitTarget { constants_sigmas_cap: MerkleCapTarget(cap), circuit_digest }
    }

    /// Writes the digests of the cap `cap`, from the first up to `n`, at
    /// the positions of the cap.
    pub open spec fn write_cap<T>(self, pis: Seq<T>, cap: Seq<[T; 4]>, n: int) -> Seq<T>
        decreases n,
    {
        if n <= 0 {
            pis
        } else {
            write_all(
                self.constants_sigmas_cap@[n - 1].0.0,
                self.write_cap(pis, cap, n - 1),
                cap[n - 1]@,
                4,
            )
        }
    }

    /// Writes verifier data at the positions: its circuit digest `digest`,
    /// then each digest of its cap `cap` in order.
    pub open spec fn write_verifier<T>(self, pis: Seq<T>, digest: [T; 4], cap: Seq<[T; 4]>) -> Seq<
        T,
    > {
        self.write_cap(
            write_all(self.circuit_digest.0.0, pis, digest@, 4),
            cap,
            self.constants_sigmas_cap@.len() as int,
        )
    }

    /// Writes the verifier data values `v` at the positions.
    pub open spec fn write_spec(self, pis: Seq<u64>, v: VerifierOnlyCircuitData) -> Seq<u64> {
        self.write_verifier(pis, v.circuit_digest, v.constants_sigmas_cap@)
    }

    /// Writing the verifier data keeps the length.
    pub proof fn lemma_write_spec_len(self, pis: Seq<u64>, v: VerifierOnlyCircuitData)
        requires
            self.within(pis.len()),
        ensures
            self.write_spec(pis, v).len() == pis.len(),
    {
        lemma_write_all_len(self.circuit_digest.0.0, pis, v.circuit_digest@, 4);
        self.lemma_write_cap_len(
            write_all(self.circuit_digest.0.0, pis, v.circuit_digest@, 4),
            v.constants_sigmas_cap@,
            self.constants_sigmas_cap@.len() as int,
        );
    }

    /// Writing the cap keeps the length.
    proof fn lemma_write_cap_len<T>(self, pis: Seq<T>, cap: Seq<[T; 4]>, n: int)
        requires
            self.within(pis.len()),
            n <= self.constants_sigmas_cap@.len(),
        ensures
            self.write_cap(pis, cap, n).len() == pis.len(),
        decreases n,
    {
        if n > 0 {
            self.lemma_write_cap_len(pis, cap, n - 1);
            assert(self.constants_sigmas_cap@[n - 1].within(pis.len()));
            lemma_write_all_len(
                self.constants_sigmas_cap@[n - 1].0.0,
                self.write_cap(pis, cap, n - 1),
                cap[n - 1]@,
                4,
            );
        }
    }

    /// The digests of a cap of targets, as arrays of their elements.
    pub open spec fn cap_elements(cap: Seq<HashOutTarget>) -> Seq<[Target; 4]> {
        cap.map_values(|h: HashOutTarget| h.elements)
    }

    /// Replaces the verifier data targets at the positions.
    pub fn set_target(&self, public_inputs: &mut [Target], v: VerifierCircuitTarget)
        requires
            self.within(old(public_inputs)@.len()),
            v.constants_sigmas_cap.0@.len() == self.constants_sigmas_cap@.len(),
        ensures
            final(public_inputs)@ == self.write_verifier(
                old(public_inputs)@,
                v.circuit_digest.elements,
                Self::cap_elements(v.constants_sigmas_cap.0@),
            ),
    {
        self.circuit_digest.set_target(public_inputs, v.circuit_digest);
        let ghost start = public_inputs@;
        let ghost cap = Self::cap_elements(v.constants_sigmas_cap.0@);
        proof {
            lemma_write_all_len(
                self.circuit_digest.0.0,
                old(public_inputs)@,
                v.circuit_digest.elements@,
                4,
            );
        }
        let mut k: usize = 0;
        while k < self.constants_sigmas_cap.len()
            invariant
                k <= self.constants_sigmas_cap@.len(),
                self.within(start.len()),
                v.constants_sigmas_cap.0@.len() == self.constants_sigmas_cap@.len(),
                cap == Self::cap_elements(v.constants_sigmas_cap.0@),
                start == write_all(
                    self.circuit_digest.0.0,
                    old(public_inputs)@,
                    v.circuit_digest.elements@,
                    4,
                ),
                public_inputs@ == self.write_cap(start, cap, k as int),
            decreases self.constants_sigmas_cap@.len() - k,
        {
            proof {
                self.lemma_write_cap_len(start, cap, k as int);
                assert(self.constants_sigmas_cap@[k as int].within(start.len()));
            }
            let idx = self.constants_sigmas_cap[k];
            let h = v.constants_sigmas_cap.0[k];
            assert(cap[k as int] == h.elements);
            idx.set_target(public_inputs, h);
            k = k + 1;
        }
    }

    /// Replaces the verifier data values at the positions.
    pub fn set_field(&self, public_inputs: &mut [u64], v: &VerifierOnlyCircuitData)
        requires
            self.within(old(public_inputs)@.len()),
            v.constants_sigmas_cap@.len() == self.constants_sigmas_cap@.len(),
        ensures
            final(public_inputs)@ == self.write_spec(old(public_inputs)@, *v),
    {
        self.circuit_digest.set_field(public_inputs, v.circuit_digest);
        let ghost start = public_inputs@;
        proof {
            lemma_write_all_len(self.circuit_digest.0.0, old(public_inputs)@, v.circuit_digest@, 4);
        }
        let mut k: usize = 0;
        while k < self.constants_sigmas_cap.len()
            invariant
                k <= self.constants_sigmas_cap@.len(),
                self.within(start.len()),
                v.constants_sigmas_cap@.len() == self.constants_sigmas_cap@.len(),
                start == write_all(self.circuit_digest.0.0, old(public_inputs)@, v.circuit_digest@, 4),
                public_inputs@ == self.write_cap(start, v.constants_sigmas_cap@, k as int),
            decreases self.constants_sigmas_cap@.len() - k,
        {
            proof {
                self.lemma_write_cap_len(start, v.constants_sigmas_cap@, k as int);
                assert(self.constants_sigmas_cap@[k as int].within(start.len()));
            }
            let idx = self.constants_sigmas_cap[k];
            idx.set_field(public_inputs, v.constants_sigmas_cap[k]);
            k = k + 1;
        }
    }

    /// A copy of the positions.
    pub fn duplicate(&self) -> (r: Self)
        ensures
            r.circuit_digest == self.circuit_digest,
            r.constants_sigmas_cap@ == self.constants_sigmas_cap@,
    {
        let mut cap: Vec<HashOutTargetIndex> = Vec::new();
        let mut k: usize = 0;
        while k < self.constants_sigmas_cap.len()
            invariant
                k <= self.constants_sigmas_cap@.len(),
                cap@ == self.constants_sigmas_cap@.subrange(0, k as int),
            decreases self.constants_sigmas_cap@.len() - k,
        {
            cap.push(self.constants_sigmas_cap[k]);
            k = k + 1;
        }
        assert(self.constants_sigmas_cap@.subrange(0, k as int) == self.constants_sigmas_cap@);
        VerifierCircuitTargetIndex { circuit_digest: self.circuit_digest, constants_sigmas_cap: cap }
    }

    /// The verifier data values at the positions.
    pub fn get_field(&self, public_inputs: &[u64]) -> (r: VerifierOnlyCircuitData)
        requires
            self.within(public_inputs@.len()),
        ensures
            forall|i: int|
                0 <= i < 4 ==> #[trigger] r.circuit_digest[i] == public_inputs@[self.circuit_digest.pos(
                    i,
                )],
            r.constants_sigmas_cap@.len() == self.constants_sigmas_cap@.len(),
            forall|k: int, i: int|
                #![trigger r.constants_sigmas_cap@[k][i]]
                0 <= k < self.constants_sigmas_cap@.len() && 0 <= i < 4 ==> r.constants_sigmas_cap@[k][i]
                    == public_inputs@[self.constants_sigmas_cap@[k].pos(i)],
    {
        let circuit_digest = self.circuit_digest.get_field(public_inputs);
        let mut cap: Vec<[u64; 4]> = Vec::new();
        let mut k: usize = 0;
        while k < self.constants_sigmas_cap.len()
            invariant
                k <= self.constants_sigmas_cap@.len(),
                self.within(public_inputs@.len()),
                cap@.len() == k,
                forall|j: int, i: int|
                    #![trigger cap@[j][i]]
                    0 <= j < k && 0 <= i < 4 ==> cap@[j][i] == public_inputs@[self.constants_sigmas_cap@[j].pos(i)],
            decreases self.constants_sigmas_cap@.len() - k,
        {
            let idx = self.constants_sigmas_cap[k];
            let h = idx.get_field(public_inputs);
            cap.push(h);
            k = k + 1;
        }
        VerifierOnlyCircuitData { constants_sigmas_cap: cap, circuit_digest }
    }
}

/// Writing a value at a position and reading it back gives the value, and
/// leaves every other position as it was.
pub proof fn law_target_index_set_get<F>(i: TargetIndex, pis: Seq<F>, v: F, j: int)
    requires
        i.0 < pis.len(),
        0 <= j < pis.len(),
    ensures
        pis.update(i.0 as int, v)[i.0 as int] == v,
        j != i.0 ==> pis.update(i.0 as int, v)[j] == pis[j],
        pis.update(i.0 as int, v).len() == pis.len(),
{
}

/// Writing a digest at distinct positions and reading it back gives the
/// digest.
pub proof fn law_hash_index_set_get(i: HashOutTargetIndex, pis: Seq<u64>, v: [u64; 4], k: int)
    requires
        i.within(pis.len()),
        forall|a: int, b: int| 0 <= a < b < 4 ==> i.pos(a) != i.pos(b),
        0 <= k < 4,
    ensures
        write_all(i.0.0, pis, v@, 4)[i.pos(k)] == v[k],
{
    assert forall|a: int, b: int| 0 <= a < b < 4 implies i.0.0[a].0 != i.0.0[b].0 by {
        assert(i.pos(a) != i.pos(b));
    }
    lemma_write_all_read(i.0.0, pis, v@, 4, k);
}

} // verus!
