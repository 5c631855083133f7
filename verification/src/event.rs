//! Events, their kinds and the flags that record which kinds touched an object.
use vstd::prelude::*;

use crate::circuit::{target_at, CircuitBuilder, Env, Op, Target};
use crate::field::{fmod, is_canonical, lemma_fmod_small, lemma_fmod_sub_once, p, ORDER};

verus! {

/// The kind of an event.
#[derive(Clone, Copy, PartialEq, Eq, Debug, Structural)]
pub enum EventType {
    Write,
    Ensure,
    Read,
    GiveOwner,
    TakeOwner,
    CreditDelta,
}

impl EventType {
    /// The number that stands for the kind in a circuit.
    pub open spec fn spec_code(self) -> u64 {
        match self {
            EventType::Write => 0,
            EventType::Ensure => 1,
            EventType::Read => 2,
            EventType::GiveOwner => 3,
            EventType::TakeOwner => 4,
            EventType::CreditDelta => 5,
        }
    }

    /// The bits of the flag that an event of this kind sets on an object:
    /// none for a credit delta.
    pub open spec fn spec_flag_bits(self) -> u8 {
        match self {
            EventType::Write => 1,
            EventType::Ensure => 2,
            EventType::Read => 4,
            EventType::GiveOwner => 8,
            EventType::TakeOwner => 16,
            EventType::CreditDelta => 0,
        }
    }

    /// The number that stands for the kind in a circuit.
    #[verifier::when_used_as_spec(spec_code)]
    pub fn code(self) -> (r: u64)
        ensures
            r == self.spec_code(),
    {
        match self {
            EventType::Write => 0,
            EventType::Ensure => 1,
            EventType::Read => 2,
            EventType::GiveOwner => 3,
            EventType::TakeOwner => 4,
            EventType::CreditDelta => 5,
        }
    }

    /// The constant target holding the kind's number.
    pub fn constant(self, builder: &mut CircuitBuilder) -> (r: Target)
        ensures
            final(builder).grows(*old(builder)),
            final(builder).ops@ == old(builder).ops@.push(Op::Constant { c: self.spec_code() }),
            r == target_at(old(builder).ops@.len() as int),
            forall|e: Env| #[trigger] final(builder).sat(e) ==> e.val(r) == self.spec_code(),
    {
        builder.constant(self.code())
    }

    /// The kind that a number stands for, if any.
    pub fn from_code(c: u64) -> (r: Option<EventType>)
        ensures
            r is Some <==> c < 6,
            r matches Some(t) ==> t.spec_code() == c,
    {
        if c == 0 {
            Some(EventType::Write)
        } else if c == 1 {
            Some(EventType::Ensure)
        } else if c == 2 {
            Some(EventType::Read)
        } else if c == 3 {
            Some(EventType::GiveOwner)
        } else if c == 4 {
            Some(EventType::TakeOwner)
        } else if c == 5 {
            Some(EventType::CreditDelta)
        } else {
            None
        }
    }
}

/// One flag of an object: the kinds of events, but for credit deltas, that
/// touched it.
#[derive(Clone, Copy, PartialEq, Eq, Debug, Structural)]
pub enum EventFlags {
    WriteFlag,
    EnsureFlag,
    ReadFlag,
    GiveOwnerFlag,
    TakeOwnerFlag,
}

impl EventFlags {
    /// The position of the flag's bit.
    pub open spec fn spec_index(self) -> usize {
        match self {
            EventFlags::WriteFlag => 0,
            EventFlags::EnsureFlag => 1,
            EventFlags::ReadFlag => 2,
            EventFlags::GiveOwnerFlag => 3,
            EventFlags::TakeOwnerFlag => 4,
        }
    }

    /// The bit of the flag, `1 << index`.
    pub open spec fn spec_bit(self) -> u8 {
        match self {
            EventFlags::WriteFlag => 1,
            EventFlags::EnsureFlag => 2,
            EventFlags::ReadFlag => 4,
            EventFlags::GiveOwnerFlag => 8,
            EventFlags::TakeOwnerFlag => 16,
        }
    }

    /// The number of flags.
    pub fn count() -> (r: usize)
        ensures
            r == 5,
    {
        5
    }

    /// The position of the flag's bit (the number of trailing zeros of its bit).
    #[verifier::when_used_as_spec(spec_index)]
    pub fn index(self) -> (r: usize)
        ensures
            r == self.spec_index(),
            r < 5,
    {
        match self {
            EventFlags::WriteFlag => 0,
            EventFlags::EnsureFlag => 1,
            EventFlags::ReadFlag => 2,
            EventFlags::GiveOwnerFlag => 3,
            EventFlags::TakeOwnerFlag => 4,
        }
    }

    /// The bit of the flag.
    #[verifier::when_used_as_spec(spec_bit)]
    pub fn bit(self) -> (r: u8)
        ensures
            r == self.spec_bit(),
    {
        match self {
            EventFlags::WriteFlag => 1,
            EventFlags::EnsureFlag => 2,
            EventFlags::ReadFlag => 4,
            EventFlags::GiveOwnerFlag => 8,
            EventFlags::TakeOwnerFlag => 16,
        }
    }
}

/// All flag bits.
pub const ALL_FLAGS: u8 = 0x1f;

/// A set of flags, held as the union of their bits.
#[derive(Clone, Copy, PartialEq, Eq, Debug, Structural)]
pub struct FlagSet {
    pub bits: u8,
}

impl FlagSet {
    /// Only flag bits are set.
    pub open spec fn wf(self) -> bool {
        self.bits & !ALL_FLAGS == 0
    }

    /// The flag is in the set.
    pub open spec fn has(self, f: EventFlags) -> bool {
        self.bits & f.spec_bit() != 0
    }

    /// The empty set.
    pub fn empty() -> (r: FlagSet)
        ensures
            r.bits == 0,
            r.wf(),
    {
        proof {
            assert(0u8 & !ALL_FLAGS == 0) by (bit_vector);
        }
        FlagSet { bits: 0 }
    }

    /// The set of one flag.
    pub fn of(f: EventFlags) -> (r: FlagSet)
        ensures
            r.bits == f.spec_bit(),
            r.wf(),
    {
        let b = f.bit();
        proof {
            assert(1u8 & !ALL_FLAGS == 0) by (bit_vector);
            assert(2u8 & !ALL_FLAGS == 0) by (bit_vector);
            assert(4u8 & !ALL_FLAGS == 0) by (bit_vector);
            assert(8u8 & !ALL_FLAGS == 0) by (bit_vector);
            assert(16u8 & !ALL_FLAGS == 0) by (bit_vector);
        }
        FlagSet { bits: b }
    }

    /// The union of two sets.
    pub fn union(self, other: FlagSet) -> (r: FlagSet)
        requires
            self.wf(),
            other.wf(),
        ensures
            r.bits == self.bits | other.bits,
            r.wf(),
    {
        let (a, b) = (self.bits, other.bits);
        proof {
            assert(a & !ALL_FLAGS == 0 && b & !ALL_FLAGS == 0 ==> (a | b) & !ALL_FLAGS == 0)
                by (bit_vector);
        }
        FlagSet { bits: a | b }
    }

    /// The two sets share a flag.
    pub fn intersects(self, other: FlagSet) -> (r: bool)
        ensures
            r == (self.bits & other.bits != 0),
    {
        self.bits & other.bits != 0
    }

    /// The set of the given bits, if they are all flag bits
    /// (`BitFlags::from_bits`).
    pub fn from_bits(bits: u8) -> (r: Option<FlagSet>)
        ensures
            r is Some <==> bits & !ALL_FLAGS == 0,
            r matches Some(s) ==> s.bits == bits && s.wf(),
    {
        if bits & !ALL_FLAGS == 0 {
            Some(FlagSet { bits })
        } else {
            None
        }
    }

    /// The number of flags in the set.
    pub fn len(self) -> (r: usize)
        ensures
            r == (self.bits & 1) + (self.bits >> 1u8 & 1) + (self.bits >> 2u8 & 1) + (self.bits
                >> 3u8 & 1) + (self.bits >> 4u8 & 1) + (self.bits >> 5u8 & 1) + (self.bits >> 6u8
                & 1) + (self.bits >> 7u8 & 1),
    {
        let b = self.bits;
        proof {
            assert(b & 1 <= 1 && b >> 1u8 & 1 <= 1 && b >> 2u8 & 1 <= 1 && b >> 3u8 & 1 <= 1 && b
                >> 4u8 & 1 <= 1 && b >> 5u8 & 1 <= 1 && b >> 6u8 & 1 <= 1 && b >> 7u8 & 1 <= 1)
                by (bit_vector);
        }
        ((b & 1) + (b >> 1u8 & 1) + (b >> 2u8 & 1) + (b >> 3u8 & 1) + (b >> 4u8 & 1) + (b >> 5u8
            & 1) + (b >> 6u8 & 1) + (b >> 7u8 & 1)) as usize
    }
}

/// An event on an object.
#[derive(Clone, Copy, PartialEq, Eq, Debug)]
pub struct Event {
    /// The program that emitted the event.
    pub owner: [u64; 4],
    /// The kind of event.
    pub ty: EventType,
    /// The object's address.
    pub address: u64,
    /// The value that the event carries.
    pub value: [u64; 4],
}

/// Every element of the array is a canonical field element.
pub open spec fn canonical4(a: [u64; 4]) -> bool {
    forall|i: int| 0 <= i < 4 ==> is_canonical(#[trigger] a[i])
}

/// The field element of a `u64`, `x mod p`.
pub open spec fn field_of_u64(x: u64) -> u64 {
    fmod(x as int) as u64
}

/// The field element of a `u64` (plonky2's `from_canonical_u64`, which reduces
/// a value above the order).
pub fn u64_to_field(x: u64) -> (r: u64)
    ensures
        is_canonical(r),
        r as int == fmod(x as int),
{
    if x >= ORDER {
        proof {
            lemma_fmod_sub_once(x as int);
        }
        x - ORDER
    } else {
        proof {
            lemma_fmod_small(x as int);
        }
        x
    }
}

/// The little-endian bytes of a value.
pub fn to_le_bytes(x: u64) -> (r: Vec<u64>)
    ensures
        r@.len() == 8,
        forall|k: int| 0 <= k < 8 ==> #[trigger] r@[k] < 256,
        forall|k: int| 0 <= k < 8 ==> #[trigger] r@[k] == (x >> (8 * k) as u64) & 0xff,
{
    let mut r: Vec<u64> = Vec::new();
    let mut k: u64 = 0;
    while k < 8
        invariant
            k <= 8,
            r@.len() == k,
            forall|j: int| 0 <= j < k ==> #[trigger] r@[j] < 256,
            forall|j: int| 0 <= j < k ==> #[trigger] r@[j] == (x >> (8 * j) as u64) & 0xff,
        decreases 8 - k,
    {
        let b = (x >> (8 * k)) & 0xff;
        proof {
            let s = x >> (8 * k);
            assert(s & 0xff < 256) by (bit_vector);
        }
        r.push(b);
        k = k + 1;
    }
    r
}

impl Event {
    /// The owner and value are canonical field elements.
    pub open spec fn wf(self) -> bool {
        canonical4(self.owner) && canonical4(self.value)
    }

    /// The field elements of the event, in the order it is hashed:
    /// owner, kind, address, value.
    pub open spec fn spec_bytes(self) -> Seq<u64> {
        self.owner@ + seq![self.ty.spec_code(), field_of_u64(self.address)] + self.value@
    }

    /// The field elements of the event that the VM sees: kind, address, value.
    pub open spec fn spec_vm_bytes(self) -> Seq<u64> {
        seq![self.ty.spec_code(), field_of_u64(self.address)] + self.value@
    }

    /// The field elements of the event, in the order it is hashed.
    pub fn bytes(self) -> (r: Vec<u64>)
        ensures
            r@ == self.spec_bytes(),
    {
        let mut r: Vec<u64> = Vec::new();
        r.push(self.owner[0]);
        r.push(self.owner[1]);
        r.push(self.owner[2]);
        r.push(self.owner[3]);
        r.push(self.ty.code());
        r.push(u64_to_field(self.address));
        r.push(self.value[0]);
        r.push(self.value[1]);
        r.push(self.value[2]);
        r.push(self.value[3]);
        assert(r@ =~= self.spec_bytes());
        r
    }

    /// The field elements of the event that the VM sees.
    pub fn vm_bytes(self) -> (r: Vec<u64>)
        ensures
            r@ == self.spec_vm_bytes(),
    {
        let mut r: Vec<u64> = Vec::new();
        r.push(self.ty.code());
        r.push(u64_to_field(self.address));
        r.push(self.value[0]);
        r.push(self.value[1]);
        r.push(self.value[2]);
        r.push(self.value[3]);
        assert(r@ =~= self.spec_vm_bytes());
        r
    }

    /// The inputs of the byte-wise hash: the little-endian bytes of each
    /// element that the VM sees, in order.
    pub fn byte_wise_bytes(self) -> (r: Vec<u64>)
        ensures
            r@.len() == 48,
            forall|i: int, k: int|
                0 <= i < 6 && 0 <= k < 8 ==> #[trigger] r@[8 * i + k] == (self.spec_vm_bytes()[i]
                    >> (8 * k) as u64) & 0xff,
            forall|j: int| 0 <= j < 48 ==> #[trigger] r@[j] < 256,
    {
        let vm = self.vm_bytes();
        let mut r: Vec<u64> = Vec::new();
        let mut i: usize = 0;
        while i < 6
            invariant
                i <= 6,
                vm@ == self.spec_vm_bytes(),
                r@.len() == 8 * i,
                forall|a: int, k: int|
                    0 <= a < i && 0 <= k < 8 ==> #[trigger] r@[8 * a + k] == (vm@[a] >> (8
                        * k) as u64) & 0xff,
                forall|j: int| 0 <= j < r@.len() ==> #[trigger] r@[j] < 256,
            decreases 6 - i,
        {
            let bs = to_le_bytes(vm[i]);
            let ghost prev = r@;
            let mut k: usize = 0;
            while k < 8
                invariant
                    k <= 8,
                    bs@.len() == 8,
                    forall|j: int| 0 <= j < 8 ==> #[trigger] bs@[j] < 256,
                    r@.len() == 8 * i + k,
                    r@.subrange(0, 8 * i as int) == prev,
                    forall|j: int| 0 <= j < k ==> #[trigger] r@[8 * i + j] == bs@[j],
                    forall|j: int| 0 <= j < r@.len() ==> #[trigger] r@[j] < 256,
                decreases 8 - k,
            {
                r.push(bs[k]);
                k = k + 1;
            }
            proof {
                assert forall|a: int, k: int|
                    0 <= a < i + 1 && 0 <= k < 8 implies #[trigger] r@[8 * a + k] == (vm@[a] >> (8
                    * k) as u64) & 0xff by {
                    if a < i {
                        assert(r@[8 * a + k] == r@.subrange(0, 8 * i as int)[8 * a + k]);
                    }
                }
            }
            i = i + 1;
        }
        r
    }
}

} // verus!
