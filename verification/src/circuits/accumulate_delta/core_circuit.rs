//! Subcircuits for proving events can be accumulated to a state delta object.
use vstd::prelude::*;

use crate::circuit::{
    all_below, bit_of, bits_value, closed, completes, env_set, env_set_from, holds, lemma_alloc_closed,
    lemma_alloc_values, lemma_checks_complete, lemma_closed_push, lemma_completes_trans,
    lemma_completes_weaken, lemma_fits_after, lemma_fits_prefix, lemma_push_completes, lemma_push_value,
    lemma_total_ext_completes, lemma_total_ext_push, lemma_total_ext_trans, lemma_vals_frame,
    lemma_wrote_chain, plan_sat, is_check, refs_below, same_below, target_at, BoolTarget, CircuitBuilder, Env, Op,
    PartialWitness, ProofWithPublicInputsTarget, Target, WitnessConflict,
};
use crate::event::{field_of_u64, u64_to_field, Event, EventFlags, EventType, FlagSet, ALL_FLAGS};
use crate::field::{
    fmod, from_i64, is_canonical, lemma_fmod_add_once, lemma_fmod_small, of_int, p, ORDER,
};
use crate::gadgets::{maybe_connect, maybe_same, same_vals};
use vstd::arithmetic::div_mod::{lemma_add_mod_noop, lemma_mod_multiples_vanish};
use vstd::arithmetic::power2::pow2;
use crate::indices::{all_within, ArrayTargetIndex, TargetIndex};

verus! {

/// Transfers of a leaf are limited to `2^40` credits, so that sums cannot
/// overflow.
pub const MAX_LEAF_TRANSFER: usize = 40;

/// The positions of the public inputs of this subcircuit.
#[derive(Copy, Clone, PartialEq, Eq, Debug)]
pub struct PublicIndices {
    /// The index of the event/object address.
    pub address: TargetIndex,
    /// The index of the (partial) object flags.
    pub object_flags: TargetIndex,
    /// The indices of each of the elements of the previous constraint owner.
    pub old_owner: ArrayTargetIndex<TargetIndex, 4>,
    /// The indices of each of the elements of the new constraint owner.
    pub new_owner: ArrayTargetIndex<TargetIndex, 4>,
    /// The indices of each of the elements of the previous data.
    pub old_data: ArrayTargetIndex<TargetIndex, 4>,
    /// The indices of each of the elements of the new data.
    pub new_data: ArrayTargetIndex<TargetIndex, 4>,
    /// The index of the credit delta.
    pub credit_delta: TargetIndex,
}

impl PublicIndices {
    /// Every position is below `len`.
    pub open spec fn within(self, len: nat) -> bool {
        &&& self.address.0 < len
        &&& self.object_flags.0 < len
        &&& all_within(self.old_owner.0, len)
        &&& all_within(self.new_owner.0, len)
        &&& all_within(self.old_data.0, len)
        &&& all_within(self.new_data.0, len)
        &&& self.credit_delta.0 < len
    }
}

pub struct SubCircuitInputs {
    /// The event/object address.
    pub address: Target,
    /// The (partial) object flags.
    pub object_flags: Target,
    /// The previous constraint owner.
    pub old_owner: [Target; 4],
    /// The new constraint owner.
    pub new_owner: [Target; 4],
    /// The previous data.
    pub old_data: [Target; 4],
    /// The new data.
    pub new_data: [Target; 4],
    /// The credit delta.
    pub credit_delta: Target,
}

impl SubCircuitInputs {
    /// The targets, in the order they are registered as public inputs.
    pub open spec fn public_targets(self) -> Seq<Target> {
        seq![self.address, self.object_flags] + self.old_owner@ + self.new_owner@
            + self.old_data@ + self.new_data@ + seq![self.credit_delta]
    }

    /// Every target is among the public inputs.
    pub open spec fn registered_in(self, pis: Seq<Target>) -> bool {
        forall|i: int| 0 <= i < 19 ==> pis.contains(#[trigger] self.public_targets()[i])
    }
}

pub struct LeafTargets {
    /// The public inputs.
    pub inputs: SubCircuitInputs,
    /// The originator of the event.
    pub event_owner: [Target; 4],
    /// The event type.
    pub event_ty: Target,
    /// The event value. Has different meanings for each event.
    ///
    /// For `Write` and `Ensure`, this is the `new_data` value.
    /// For `Read` this is the `old_data` value.
    /// For `GiveOwner` this is the `new_owner` value.
    /// For `TakeOwner` this is the `old_owner` value.
    /// For `CreditDelta` this is the operation (addition or subtraction) and
    /// the amount of credits to add/subtract. The format is `[d, _, _, s]`
    /// where `d` is the delta, and `s == 0` means add and `s == -1` means
    /// subtract.
    pub event_value: [Target; 4],
}

/// The flags of an object split into their bits.
pub struct SplitFlags {
    /// The two bits of the flags that touch the new data.
    pub new_data: Target,
    /// The two bits of the flags that touch the owner.
    pub owner: Target,
    pub write: BoolTarget,
    pub ensure: BoolTarget,
    pub read: BoolTarget,
    pub give_owner: BoolTarget,
    pub take_owner: BoolTarget,
}

/// `1` for true, `0` for false.
pub open spec fn b2i(b: bool) -> int {
    if b {
        1
    } else {
        0
    }
}

/// The flag's bit is set in a flags value.
pub open spec fn flag_in(v: int, f: EventFlags) -> bool {
    (v / f.spec_bit() as int) % 2 == 1
}

/// The flags value with the given flags set.
pub open spec fn flags_value(w: bool, en: bool, r: bool, g: bool, t: bool) -> int {
    b2i(w) + 2 * b2i(en) + 4 * b2i(r) + 8 * b2i(g) + 16 * b2i(t)
}

/// A flags value below `32` has exactly the bits it is made of.
pub proof fn lemma_flags_value(w: bool, en: bool, r: bool, g: bool, t: bool)
    ensures
        0 <= flags_value(w, en, r, g, t) < 32,
        flag_in(flags_value(w, en, r, g, t), EventFlags::WriteFlag) == w,
        flag_in(flags_value(w, en, r, g, t), EventFlags::EnsureFlag) == en,
        flag_in(flags_value(w, en, r, g, t), EventFlags::ReadFlag) == r,
        flag_in(flags_value(w, en, r, g, t), EventFlags::GiveOwnerFlag) == g,
        flag_in(flags_value(w, en, r, g, t), EventFlags::TakeOwnerFlag) == t,
{
    let v = flags_value(w, en, r, g, t);
    assert(v / 1 == v);
    assert(v / 2 == b2i(en) + 2 * b2i(r) + 4 * b2i(g) + 8 * b2i(t));
    assert(v / 4 == b2i(r) + 2 * b2i(g) + 4 * b2i(t));
    assert(v / 8 == b2i(g) + 2 * b2i(t));
    assert(v / 16 == b2i(t));
}

/// The union of two distinct one-bit flags holds two flags.
proof fn lemma_pair_len(a: u8, b: u8)
    requires
        (a == 1 && b == 2) || (a == 8 && b == 16),
    ensures
        ((a | b) & 1) + ((a | b) >> 1u8 & 1) + ((a | b) >> 2u8 & 1) + ((a | b) >> 3u8 & 1) + ((a
            | b) >> 4u8 & 1) + ((a | b) >> 5u8 & 1) + ((a | b) >> 6u8 & 1) + ((a | b) >> 7u8 & 1)
            == 2,
{
    assert(((a == 1 && b == 2) || (a == 8 && b == 16)) ==> ((a | b) & 1) + ((a | b) >> 1u8 & 1)
        + ((a | b) >> 2u8 & 1) + ((a | b) >> 3u8 & 1) + ((a | b) >> 4u8 & 1) + ((a | b) >> 5u8 & 1)
        + ((a | b) >> 6u8 & 1) + ((a | b) >> 7u8 & 1) == 2) by (bit_vector);
}

impl SplitFlags {
    /// The bits agree with the flags value in the environment.
    pub open spec fn splits(self, e: Env, flags: Target) -> bool {
        &&& e.is_bool(self.write.target)
        &&& e.is_bool(self.ensure.target)
        &&& e.is_bool(self.read.target)
        &&& e.is_bool(self.give_owner.target)
        &&& e.is_bool(self.take_owner.target)
        &&& e.val(flags) == flags_value(
            e.truth(self.write.target),
            e.truth(self.ensure.target),
            e.truth(self.read.target),
            e.truth(self.give_owner.target),
            e.truth(self.take_owner.target),
        )
        &&& e.val(self.new_data) == e.val(self.write.target) + 2 * e.val(self.ensure.target)
        &&& e.val(self.owner) == e.val(self.give_owner.target) + 2 * e.val(
            self.take_owner.target,
        )
    }

    /// Splits flags into their bits, proving they are below `2^5`.
    pub fn split(builder: &mut CircuitBuilder, flags: Target) -> (r: Self)
        ensures
            final(builder).grows(*old(builder)),
            forall|e: Env| e.valid() && #[trigger] final(builder).sat(e) ==> r.splits(e, flags),
    {
        let new_data_flag_count = FlagSet::of(EventFlags::WriteFlag).union(
            FlagSet::of(EventFlags::EnsureFlag),
        ).len();
        let owner_flag_count = FlagSet::of(EventFlags::GiveOwnerFlag).union(
            FlagSet::of(EventFlags::TakeOwnerFlag),
        ).len();
        proof {
            lemma_pair_len(1, 2);
            lemma_pair_len(8, 16);
        }
        let other_flag_count = EventFlags::count() - new_data_flag_count;
        let ghost b0 = *builder;
        // Split off the flags corresponding to changes to new_data
        let (new_data, high) = builder.split_low_high(
            flags,
            new_data_flag_count,
            EventFlags::count(),
        );
        // Split the flag corresponding to read from the owner flags
        let (read, owner) = builder.split_low_high(high, 1, other_flag_count);
        let read = BoolTarget::new_unsafe(read);
        let new_data_flags = builder.split_le(new_data, new_data_flag_count);
        let owner_flags = builder.split_le(owner, owner_flag_count);
        let mut flags_vec: Vec<BoolTarget> = Vec::new();
        flags_vec.push(new_data_flags[0]);
        flags_vec.push(new_data_flags[1]);
        flags_vec.push(read);
        flags_vec.push(owner_flags[0]);
        flags_vec.push(owner_flags[1]);
        let r = SplitFlags {
            new_data,
            owner,
            write: flags_vec[EventFlags::WriteFlag.index()],
            ensure: flags_vec[EventFlags::EnsureFlag.index()],
            read: flags_vec[EventFlags::ReadFlag.index()],
            give_owner: flags_vec[EventFlags::GiveOwnerFlag.index()],
            take_owner: flags_vec[EventFlags::TakeOwnerFlag.index()],
        };
        proof {
            vstd::arithmetic::power2::lemma2_to64();
            reveal_with_fuel(bits_value, 3);
            assert forall|e: Env| e.valid() && #[trigger] builder.sat(e) implies r.splits(
                e,
                flags,
            ) by {
                let nd = e.val(new_data);
                let hi = e.val(high);
                let rd = e.val(read.target);
                let ow = e.val(owner);
                assert(nd < 4 && hi < 8 && fmod(hi * 4 + nd) == e.val(flags));
                assert(rd < 2 && ow < 4 && fmod(ow * 2 + rd) == hi);
                lemma_fmod_small(hi * 4 + nd);
                lemma_fmod_small(ow * 2 + rd);
                let ndv = e.vals(new_data_flags@.map_values(|b: BoolTarget| b.target));
                let owv = e.vals(owner_flags@.map_values(|b: BoolTarget| b.target));
                assert(e.is_bool(new_data_flags@[0].target) && e.is_bool(
                    new_data_flags@[1].target,
                ));
                assert(e.is_bool(owner_flags@[0].target) && e.is_bool(owner_flags@[1].target));
                assert(ndv[0] == e.val(new_data_flags@[0].target));
                assert(ndv[1] == e.val(new_data_flags@[1].target));
                assert(owv[0] == e.val(owner_flags@[0].target));
                assert(owv[1] == e.val(owner_flags@[1].target));
                assert(ndv.drop_first().drop_first().len() == 0);
                assert(owv.drop_first().drop_first().len() == 0);
                assert(bits_value(ndv) == nd);
                assert(bits_value(owv) == ow);
            }
        }
        r
    }
}

/// The values of the public inputs of this subcircuit in an environment.
pub ghost struct DeltaValues {
    pub address: int,
    pub object_flags: int,
    pub old_owner: Seq<int>,
    pub new_owner: Seq<int>,
    pub old_data: Seq<int>,
    pub new_data: Seq<int>,
    pub credit_delta: int,
}

impl SubCircuitInputs {
    /// The values of the targets in the environment.
    pub open spec fn values(self, e: Env) -> DeltaValues {
        DeltaValues {
            address: e.val(self.address),
            object_flags: e.val(self.object_flags),
            old_owner: e.vals(self.old_owner@),
            new_owner: e.vals(self.new_owner@),
            old_data: e.vals(self.old_data@),
            new_data: e.vals(self.new_data@),
            credit_delta: e.val(self.credit_delta),
        }
    }
}

/// The flags that an event of the kind numbered `ty` sets: its own flag, and
/// none for credit deltas and unknown kinds.
pub open spec fn flags_of_code(ty: int) -> int {
    flags_value(ty == 0, ty == 1, ty == 2, ty == 3, ty == 4)
}

/// The credit delta of an event value of a credit delta event: the amount,
/// negated when the sign is one.
pub open spec fn signed_credit(value: Seq<int>) -> int {
    if value[3] == 0 {
        value[0]
    } else {
        fmod(-value[0])
    }
}

/// What a leaf proves of the partial object of one event of kind `ty`
/// (numbered as `EventType::code`) with the given owner and value.
pub open spec fn leaf_relation(d: DeltaValues, owner: Seq<int>, ty: int, value: Seq<int>) -> bool {
    &&& d.object_flags == flags_of_code(ty)
    &&& (ty == 0 || ty == 3 || ty == 5) ==> d.old_owner == owner
    &&& ty == 4 ==> d.old_owner == value && d.new_owner == owner
    &&& ty == 3 ==> d.new_owner == value
    &&& ty == 2 ==> d.old_data == value
    &&& (ty == 0 || ty == 1) ==> d.new_data == value
    &&& if ty == 5 {
        &&& value[0] < pow2(MAX_LEAF_TRANSFER as nat)
        &&& (value[3] == 0 || value[3] == 1)
        &&& d.credit_delta == signed_credit(value)
    } else {
        d.credit_delta == 0
    }
}

/// An event that a leaf can be proven of: its kind is numbered below six
/// and its owner and value are four field elements each.
pub open spec fn event_fits(owner: Seq<int>, ty: int, value: Seq<int>) -> bool {
    &&& owner.len() == 4
    &&& value.len() == 4
    &&& 0 <= ty < 6
    &&& forall|k: int| 0 <= k < 4 ==> 0 <= #[trigger] owner[k] < p() && 0 <= value[k] < p()
}

impl SubCircuitInputs {
    /// Every target is among the first `n`.
    pub open spec fn within(self, n: nat) -> bool {
        &&& self.address.index < n
        &&& self.object_flags.index < n
        &&& self.credit_delta.index < n
        &&& all_below(self.old_owner@, n)
        &&& all_below(self.new_owner@, n)
        &&& all_below(self.old_data@, n)
        &&& all_below(self.new_data@, n)
    }

    /// Some event that a leaf can be proven of meets the leaf relation with
    /// the values.
    pub open spec fn accepts(self, e: Env) -> bool {
        exists|owner: Seq<int>, ty: int, value: Seq<int>|
            event_fits(owner, ty, value) && #[trigger] leaf_relation(self.values(e), owner, ty, value)
    }

    /// The values are the same in environments that agree on the targets.
    pub proof fn lemma_values_frame(self, e1: Env, e2: Env, n: nat)
        requires
            self.within(n),
            same_below(e1, e2, n),
        ensures
            self.values(e1) == self.values(e2),
    {
        lemma_vals_frame(e1, e2, n, self.old_owner@);
        lemma_vals_frame(e1, e2, n, self.new_owner@);
        lemma_vals_frame(e1, e2, n, self.old_data@);
        lemma_vals_frame(e1, e2, n, self.new_data@);
        assert((e1.w)(self.address) == (e2.w)(self.address));
        assert((e1.w)(self.object_flags) == (e2.w)(self.object_flags));
        assert((e1.w)(self.credit_delta) == (e2.w)(self.credit_delta));
    }
}

/// Equal sequences of values are equal values element by element.
proof fn lemma_seq_same_vals(e: Env, a: [Target; 4], b: [Target; 4])
    requires
        e.vals(a@) == e.vals(b@),
    ensures
        same_vals(e, a, b),
{
    assert forall|i: int| 0 <= i < 4 implies #[trigger] e.val(a[i]) == e.val(b[i]) by {
        assert(e.vals(a@)[i] == e.val(a@[i]));
        assert(e.vals(b@)[i] == e.val(b@[i]));
    }
}

/// Equal values element by element give equal sequences of values.
proof fn lemma_same_vals_seq(e: Env, a: [Target; 4], b: [Target; 4])
    requires
        same_vals(e, a, b),
    ensures
        e.vals(a@) == e.vals(b@),
{
    assert(e.vals(a@) =~= e.vals(b@));
}

/// Allocates the targets of the subcircuit and registers them as public
/// inputs.
pub fn default(builder: &mut CircuitBuilder) -> (r: SubCircuitInputs)
    ensures
        final(builder).public_inputs@ == old(builder).public_inputs@ + r.public_targets(),
        forall|e: Env| #[trigger] final(builder).sat(e) ==> old(builder).sat(e),
{
    let address = builder.add_virtual_target();
    let object_flags = builder.add_virtual_target();
    let old_owner = builder.add_virtual_target_arr::<4>();
    let new_owner = builder.add_virtual_target_arr::<4>();
    let old_data = builder.add_virtual_target_arr::<4>();
    let new_data = builder.add_virtual_target_arr::<4>();
    let credit_delta = builder.add_virtual_target();
    builder.register_public_input(address);
    builder.register_public_input(object_flags);
    builder.register_public_inputs(&old_owner);
    builder.register_public_inputs(&new_owner);
    builder.register_public_inputs(&old_data);
    builder.register_public_inputs(&new_data);
    builder.register_public_input(credit_delta);
    let r = SubCircuitInputs {
        address,
        object_flags,
        old_owner,
        new_owner,
        old_data,
        new_data,
        credit_delta,
    };
    assert(builder.public_inputs@ =~= old(builder).public_inputs@ + r.public_targets());
    r
}

impl SubCircuitInputs {
    /// Proves the public partial object is the one that the (private) event
    /// gives: see `leaf_relation`.
    #[verifier::spinoff_prover]
    #[verifier::rlimit(100)]
    pub fn build_leaf(self, builder: &mut CircuitBuilder) -> (r: LeafTargets)
        ensures
            final(builder).grows(*old(builder)),
            r.inputs == self,
            forall|e: Env|
                e.valid() && #[trigger] final(builder).sat(e) ==> leaf_relation(
                    self.values(e),
                    e.vals(r.event_owner@),
                    e.val(r.event_ty),
                    e.vals(r.event_value@),
                ),
            self.within(old(builder).ops@.len()) ==> completes(
                old(builder).ops@,
                final(builder).ops@,
                |e: Env| self.accepts(e),
            ),
            self.within(old(builder).ops@.len()) && closed(old(builder).ops@) ==> closed(
                final(builder).ops@,
            ),
    {
        let ghost g0 = *builder;
        let zero = builder.zero();
        let ghost a1 = *builder;
        let one = builder.one();
        let ghost a2 = *builder;
        let write_const = EventType::Write.constant(builder);
        let ghost a3 = *builder;
        let read_const = EventType::Read.constant(builder);
        let ghost a4 = *builder;
        let ensure_const = EventType::Ensure.constant(builder);
        let ghost a5 = *builder;
        let give_owner_const = EventType::GiveOwner.constant(builder);
        let ghost a6 = *builder;
        let take_owner_const = EventType::TakeOwner.constant(builder);
        let ghost a7 = *builder;
        let credit_delta_const = EventType::CreditDelta.constant(builder);
        let ghost ga = *builder;

        let event_owner = builder.add_virtual_target_arr::<4>();
        let ghost b1 = *builder;
        let event_ty = builder.add_virtual_target();
        let ghost b2 = *builder;
        let event_value = builder.add_virtual_target_arr::<4>();
        let ghost gb = *builder;

        let object_flags = builder.split_le(self.object_flags, EventFlags::count());
        let write_flag = object_flags[EventFlags::WriteFlag.index()];
        let ensure_flag = object_flags[EventFlags::EnsureFlag.index()];
        let read_flag = object_flags[EventFlags::ReadFlag.index()];
        let give_owner_flag = object_flags[EventFlags::GiveOwnerFlag.index()];
        let take_owner_flag = object_flags[EventFlags::TakeOwnerFlag.index()];
        let ghost split = *builder;

        let is_write = builder.is_equal(event_ty, write_const);
        let ghost d1 = *builder;
        let is_read = builder.is_equal(event_ty, read_const);
        let ghost d2 = *builder;
        let is_ensure = builder.is_equal(event_ty, ensure_const);
        let ghost d3 = *builder;
        let is_give_owner = builder.is_equal(event_ty, give_owner_const);
        let ghost d4 = *builder;
        let is_take_owner = builder.is_equal(event_ty, take_owner_const);
        let ghost d5 = *builder;
        let is_credit_delta = builder.is_equal(event_ty, credit_delta_const);
        let ghost d6 = *builder;

        // new data comes from the event value for writes and ensures; these
        // are mutually exclusive, so they can be added
        let new_data_from_value = builder.add(is_write.target, is_ensure.target);
        let ghost d7 = *builder;
        let new_data_from_value = BoolTarget::new_unsafe(new_data_from_value);

        // old owner comes from the event owner for writes, give owners, and
        // credit deltas; these are mutually exclusive too
        let old_owner_from_event0 = builder.add(is_write.target, is_give_owner.target);
        let ghost d8 = *builder;
        let old_owner_from_event = builder.add(old_owner_from_event0, is_credit_delta.target);
        let old_owner_from_event = BoolTarget::new_unsafe(old_owner_from_event);
        let ghost sums = *builder;

        // Handle flags
        builder.connect(is_write.target, write_flag.target);
        builder.connect(is_read.target, read_flag.target);
        builder.connect(is_ensure.target, ensure_flag.target);
        builder.connect(is_give_owner.target, give_owner_flag.target);
        builder.connect(is_take_owner.target, take_owner_flag.target);
        let ghost flagged = *builder;

        // Handle old owner from event owner (write or give)
        maybe_connect(builder, self.old_owner, old_owner_from_event, event_owner);
        let ghost m1 = *builder;
        // Handle old owner from event value (take)
        maybe_connect(builder, self.old_owner, is_take_owner, event_value);
        let ghost m2 = *builder;
        // Handle new owner from event owner (take)
        maybe_connect(builder, self.new_owner, is_take_owner, event_owner);
        let ghost m3 = *builder;
        // Handle new owner from event value (give)
        maybe_connect(builder, self.new_owner, is_give_owner, event_value);
        let ghost m4 = *builder;
        // Handle old data from event value (read)
        maybe_connect(builder, self.old_data, is_read, event_value);
        let ghost m5 = *builder;
        // Handle new data from event value (write or ensure)
        maybe_connect(builder, self.new_data, new_data_from_value, event_value);
        let ghost connected = *builder;

        // Handle credit delta
        let credit_delta_val = builder.select(is_credit_delta, event_value[0], zero);
        let ghost q1 = *builder;
        builder.range_check(credit_delta_val, MAX_LEAF_TRANSFER);
        let ghost q2 = *builder;
        let credit_delta_sign0 = builder.select(is_credit_delta, event_value[3], zero);
        let ghost q3 = *builder;
        // The sign can only be zero or one
        builder.assert_bool(BoolTarget::new_unsafe(credit_delta_sign0));
        let ghost q4 = *builder;
        let credit_delta_sign = builder.mul_const_add(ORDER - 2, credit_delta_sign0, one);
        let ghost q5 = *builder;
        let credit_delta_calc = builder.mul(credit_delta_val, credit_delta_sign);
        let ghost q6 = *builder;
        builder.connect(credit_delta_calc, self.credit_delta);
        proof {
            let n0 = g0.ops@.len();
            if self.within(n0) {
                let na = ga.ops@.len();
                let nb = gb.ops@.len();
                let nc = split.ops@.len();
                let pre = |e: Env| self.accepts(e);
                let t = |e: Env| true;
                let write_flag_t = object_flags@[0].target;
                let ensure_flag_t = object_flags@[1].target;
                let read_flag_t = object_flags@[2].target;
                let give_flag_t = object_flags@[3].target;
                let take_flag_t = object_flags@[4].target;
                assert(ga.ops@.len() == ga.ops.len());
                assert(split.ops@.len() == split.ops.len());
                assert(sums.ops@.len() == sums.ops.len());
                assert(q1.ops@.len() == q1.ops.len());
                assert(q6.ops@.len() == q6.ops.len());
                assert(builder.ops@.len() == builder.ops.len());
                assert(na == n0 + 8);
                assert(nb == na + 9);
                assert(nc == nb + 6);
                assert(forall|k: int| 0 <= k < 4 ==> #[trigger] event_owner[k] == target_at(na + k));
                assert(event_ty == target_at(na + 4int));
                assert(forall|k: int| 0 <= k < 4 ==> #[trigger] event_value[k] == target_at(na + 5 + k));
                assert(forall|k: int| 0 <= k < 5 ==> #[trigger] object_flags@[k].target == target_at(nb + k));
                assert(all_below(event_owner@, nc));
                assert(all_below(event_value@, nc));
                assert(self.within(nc));
                let pc = |e: Env|
                    leaf_relation(self.values(e), e.vals(event_owner@), e.val(event_ty), e.vals(event_value@))
                        && 0 <= e.val(event_ty) < 6 && forall|k: int|
                        0 <= k < 5 ==> #[trigger] e.val(object_flags@[k].target) == b2i(e.val(event_ty) == k);
                // what the event kind gives in every assignment of the sums
                assert forall|e2: Env| e2.valid() && #[trigger] sums.sat(e2) implies e2.val(is_write.target) == b2i(
                    e2.val(event_ty) == 0,
                ) && e2.val(is_ensure.target) == b2i(e2.val(event_ty) == 1) && e2.val(is_read.target) == b2i(
                    e2.val(event_ty) == 2,
                ) && e2.val(is_give_owner.target) == b2i(e2.val(event_ty) == 3) && e2.val(is_take_owner.target)
                    == b2i(e2.val(event_ty) == 4) && e2.val(is_credit_delta.target) == b2i(e2.val(event_ty) == 5)
                    && e2.val(new_data_from_value.target) == b2i(e2.val(event_ty) == 0 || e2.val(event_ty) == 1)
                    && e2.val(old_owner_from_event.target) == b2i(
                    e2.val(event_ty) == 0 || e2.val(event_ty) == 3 || e2.val(event_ty) == 5,
                ) && e2.val(zero) == 0 && e2.val(one) == 1 by {
                    let tv = e2.val(event_ty);
                    assert(d8.sat(e2));
                    assert(ga.sat(e2));
                    lemma_fmod_small(b2i(tv == 0) + b2i(tv == 1));
                    lemma_fmod_small(b2i(tv == 0) + b2i(tv == 3));
                    lemma_fmod_small(b2i(tv == 0) + b2i(tv == 3) + b2i(tv == 5));
                }
                // the condition is kept by assignments that agree on the targets so far
                assert forall|e: Env, e2: Env|
                    #![trigger pc(e), pc(e2)]
                    pc(e) && same_below(e, e2, nc) implies pc(e2) by {
                    self.lemma_values_frame(e, e2, nc);
                    lemma_vals_frame(e, e2, nc, event_owner@);
                    lemma_vals_frame(e, e2, nc, event_value@);
                    assert((e.w)(event_ty) == (e2.w)(event_ty));
                    assert forall|k: int| 0 <= k < 5 implies #[trigger] e2.val(object_flags@[k].target) == b2i(
                        e2.val(event_ty) == k,
                    ) by {
                        assert(object_flags@[k].target == target_at(nb + k));
                        assert(object_flags@[k].target.index < nc);
                        assert(e.val(object_flags@[k].target) == b2i(e.val(event_ty) == k));
                        assert((e.w)(object_flags@[k].target) == (e2.w)(object_flags@[k].target));
                    }
                }
                // comparisons and sums
                lemma_total_ext_push(split.ops@, Op::IsEqual { x: event_ty, y: write_const });
                lemma_total_ext_push(d1.ops@, Op::IsEqual { x: event_ty, y: read_const });
                lemma_total_ext_push(d2.ops@, Op::IsEqual { x: event_ty, y: ensure_const });
                lemma_total_ext_push(d3.ops@, Op::IsEqual { x: event_ty, y: give_owner_const });
                lemma_total_ext_push(d4.ops@, Op::IsEqual { x: event_ty, y: take_owner_const });
                lemma_total_ext_push(d5.ops@, Op::IsEqual { x: event_ty, y: credit_delta_const });
                lemma_total_ext_push(d6.ops@, Op::Add { x: is_write.target, y: is_ensure.target });
                lemma_total_ext_push(d7.ops@, Op::Add { x: is_write.target, y: is_give_owner.target });
                lemma_total_ext_push(d8.ops@, Op::Add { x: old_owner_from_event0, y: is_credit_delta.target });
                lemma_total_ext_trans(split.ops@, d1.ops@, d2.ops@);
                lemma_total_ext_trans(split.ops@, d2.ops@, d3.ops@);
                lemma_total_ext_trans(split.ops@, d3.ops@, d4.ops@);
                lemma_total_ext_trans(split.ops@, d4.ops@, d5.ops@);
                lemma_total_ext_trans(split.ops@, d5.ops@, d6.ops@);
                lemma_total_ext_trans(split.ops@, d6.ops@, d7.ops@);
                lemma_total_ext_trans(split.ops@, d7.ops@, d8.ops@);
                lemma_total_ext_trans(split.ops@, d8.ops@, sums.ops@);
                lemma_total_ext_completes(split.ops@, sums.ops@);
                lemma_completes_weaken(split.ops@, sums.ops@, t, pc);
                // the flags
                let nd = sums.ops@.len();
                let c1 = Op::Connect { x: is_write.target, y: write_flag_t };
                let c2 = Op::Connect { x: is_read.target, y: read_flag_t };
                let c3 = Op::Connect { x: is_ensure.target, y: ensure_flag_t };
                let c4 = Op::Connect { x: is_give_owner.target, y: give_flag_t };
                let c5 = Op::Connect { x: is_take_owner.target, y: take_flag_t };
                assert(flagged.ops@ == sums.ops@.push(c1).push(c2).push(c3).push(c4).push(c5));
                let pe = |e: Env|
                    e.val(is_write.target) == e.val(write_flag_t) && e.val(is_read.target) == e.val(read_flag_t)
                        && e.val(is_ensure.target) == e.val(ensure_flag_t) && e.val(is_give_owner.target) == e.val(
                        give_flag_t,
                    ) && e.val(is_take_owner.target) == e.val(take_flag_t);
                assert forall|i: int| nd <= i < flagged.ops@.len() implies is_check(#[trigger] flagged.ops@[i])
                    && refs_below(flagged.ops@[i], nd) && (flagged.ops@[i] == c1 || flagged.ops@[i] == c2
                    || flagged.ops@[i] == c3 || flagged.ops@[i] == c4 || flagged.ops@[i] == c5) by {
                    if i == nd {
                        assert(flagged.ops@[i] == c1);
                    } else if i == nd + 1 {
                        assert(flagged.ops@[i] == c2);
                    } else if i == nd + 2 {
                        assert(flagged.ops@[i] == c3);
                    } else if i == nd + 3 {
                        assert(flagged.ops@[i] == c4);
                    } else {
                        assert(flagged.ops@[i] == c5);
                    }
                }
                assert forall|e: Env, i: int|
                    #![trigger pe(e), flagged.ops@[i]]
                    e.valid() && plan_sat(sums.ops@, e) && pe(e) && nd <= i < flagged.ops@.len() implies holds(
                    flagged.ops@[i],
                    i,
                    e,
                ) by {
                    assert(flagged.ops@[i] == c1 || flagged.ops@[i] == c2 || flagged.ops@[i] == c3
                        || flagged.ops@[i] == c4 || flagged.ops@[i] == c5);
                }
                assert(flagged.ops@.subrange(0, nd as int) =~= sums.ops@);
                lemma_checks_complete(sums.ops@, flagged.ops@, pe);
                assert forall|e: Env, e2: Env|
                    #![trigger pc(e), pe(e2)]
                    e.valid() && plan_sat(split.ops@, e) && pc(e) && e2.valid() && plan_sat(sums.ops@, e2)
                        && same_below(e, e2, nc) implies pe(e2) by {
                    assert(pc(e2));
                    assert(sums.sat(e2));
                    assert(e2.val(object_flags@[0].target) == b2i(e2.val(event_ty) == 0));
                    assert(e2.val(object_flags@[1].target) == b2i(e2.val(event_ty) == 1));
                    assert(e2.val(object_flags@[2].target) == b2i(e2.val(event_ty) == 2));
                    assert(e2.val(object_flags@[3].target) == b2i(e2.val(event_ty) == 3));
                    assert(e2.val(object_flags@[4].target) == b2i(e2.val(event_ty) == 4));
                }
                lemma_completes_trans(split.ops@, sums.ops@, flagged.ops@, pc, pe);
                // the owners and data
                let ms1 = |e: Env| maybe_same(e, self.old_owner, old_owner_from_event, event_owner);
                assert forall|e: Env, e2: Env|
                    #![trigger pc(e), ms1(e2)]
                    e.valid() && plan_sat(split.ops@, e) && pc(e) && e2.valid() && plan_sat(flagged.ops@, e2)
                        && same_below(e, e2, nc) implies ms1(e2) by {
                    assert(pc(e2));
                    assert(flagged.sat(e2));
                    assert(sums.sat(e2));
                    let tv = e2.val(event_ty);
                    if tv == 0 || tv == 3 || tv == 5 {
                        lemma_seq_same_vals(e2, self.old_owner, event_owner);
                    }
                }
                lemma_completes_trans(split.ops@, flagged.ops@, m1.ops@, pc, ms1);
                let ms2 = |e: Env| maybe_same(e, self.old_owner, is_take_owner, event_value);
                assert forall|e: Env, e2: Env|
                    #![trigger pc(e), ms2(e2)]
                    e.valid() && plan_sat(split.ops@, e) && pc(e) && e2.valid() && plan_sat(m1.ops@, e2)
                        && same_below(e, e2, nc) implies ms2(e2) by {
                    assert(pc(e2));
                    assert(m1.sat(e2));
                    assert(sums.sat(e2));
                    if e2.val(event_ty) == 4 {
                        lemma_seq_same_vals(e2, self.old_owner, event_value);
                    }
                }
                lemma_completes_trans(split.ops@, m1.ops@, m2.ops@, pc, ms2);
                let ms3 = |e: Env| maybe_same(e, self.new_owner, is_take_owner, event_owner);
                assert forall|e: Env, e2: Env|
                    #![trigger pc(e), ms3(e2)]
                    e.valid() && plan_sat(split.ops@, e) && pc(e) && e2.valid() && plan_sat(m2.ops@, e2)
                        && same_below(e, e2, nc) implies ms3(e2) by {
                    assert(pc(e2));
                    assert(m2.sat(e2));
                    assert(sums.sat(e2));
                    if e2.val(event_ty) == 4 {
                        lemma_seq_same_vals(e2, self.new_owner, event_owner);
                    }
                }
                lemma_completes_trans(split.ops@, m2.ops@, m3.ops@, pc, ms3);
                let ms4 = |e: Env| maybe_same(e, self.new_owner, is_give_owner, event_value);
                assert forall|e: Env, e2: Env|
                    #![trigger pc(e), ms4(e2)]
                    e.valid() && plan_sat(split.ops@, e) && pc(e) && e2.valid() && plan_sat(m3.ops@, e2)
                        && same_below(e, e2, nc) implies ms4(e2) by {
                    assert(pc(e2));
                    assert(m3.sat(e2));
                    assert(sums.sat(e2));
                    if e2.val(event_ty) == 3 {
                        lemma_seq_same_vals(e2, self.new_owner, event_value);
                    }
                }
                lemma_completes_trans(split.ops@, m3.ops@, m4.ops@, pc, ms4);
                let ms5 = |e: Env| maybe_same(e, self.old_data, is_read, event_value);
                assert forall|e: Env, e2: Env|
                    #![trigger pc(e), ms5(e2)]
                    e.valid() && plan_sat(split.ops@, e) && pc(e) && e2.valid() && plan_sat(m4.ops@, e2)
                        && same_below(e, e2, nc) implies ms5(e2) by {
                    assert(pc(e2));
                    assert(m4.sat(e2));
                    assert(sums.sat(e2));
                    if e2.val(event_ty) == 2 {
                        lemma_seq_same_vals(e2, self.old_data, event_value);
                    }
                }
                lemma_completes_trans(split.ops@, m4.ops@, m5.ops@, pc, ms5);
                let ms6 = |e: Env| maybe_same(e, self.new_data, new_data_from_value, event_value);
                assert forall|e: Env, e2: Env|
                    #![trigger pc(e), ms6(e2)]
                    e.valid() && plan_sat(split.ops@, e) && pc(e) && e2.valid() && plan_sat(m5.ops@, e2)
                        && same_below(e, e2, nc) implies ms6(e2) by {
                    assert(pc(e2));
                    assert(m5.sat(e2));
                    assert(sums.sat(e2));
                    let tv = e2.val(event_ty);
                    if tv == 0 || tv == 1 {
                        lemma_seq_same_vals(e2, self.new_data, event_value);
                    }
                }
                lemma_completes_trans(split.ops@, m5.ops@, connected.ops@, pc, ms6);
                // the credit delta
                assert(event_value@[0] == event_value[0] && event_value@[3] == event_value[3]);
                let s1 = Op::Select { b: is_credit_delta.target, x: event_value[0], y: zero };
                lemma_total_ext_push(connected.ops@, s1);
                lemma_total_ext_completes(connected.ops@, q1.ops@);
                lemma_completes_trans(split.ops@, connected.ops@, q1.ops@, pc, t);
                let rc = Op::RangeCheck { x: credit_delta_val, n_log: MAX_LEAF_TRANSFER };
                let pr = |e: Env| e.val(credit_delta_val) < pow2(MAX_LEAF_TRANSFER as nat);
                assert forall|e: Env| #![trigger pr(e)] e.valid() && pr(e) implies 0 <= 0int < p() && holds(
                    rc,
                    q1.ops@.len() as int,
                    env_set(e, q1.ops@.len(), 0int),
                ) by {
                    assert(env_set(e, q1.ops@.len(), 0int).val(credit_delta_val) == e.val(credit_delta_val));
                }
                lemma_push_completes(q1.ops@, q2.ops@, rc, |e: Env| 0int, pr);
                assert forall|e: Env, e2: Env|
                    #![trigger pc(e), pr(e2)]
                    e.valid() && plan_sat(split.ops@, e) && pc(e) && e2.valid() && plan_sat(q1.ops@, e2)
                        && same_below(e, e2, nc) implies pr(e2) by {
                    assert(pc(e2));
                    assert(q1.sat(e2));
                    assert(sums.sat(e2));
                    vstd::arithmetic::power2::lemma_pow2_pos(MAX_LEAF_TRANSFER as nat);
                    if e2.val(event_ty) == 5 {
                        assert(e2.vals(event_value@)[0] == e2.val(event_value[0]));
                    }
                }
                lemma_completes_trans(split.ops@, q1.ops@, q2.ops@, pc, pr);
                let s2 = Op::Select { b: is_credit_delta.target, x: event_value[3], y: zero };
                lemma_total_ext_push(q2.ops@, s2);
                assert(q3.ops@.len() == q3.ops.len());
                lemma_total_ext_completes(q2.ops@, q3.ops@);
                lemma_completes_trans(split.ops@, q2.ops@, q3.ops@, pc, t);
                let ab = Op::AssertBool { b: credit_delta_sign0 };
                let pb = |e: Env| e.is_bool(credit_delta_sign0);
                assert forall|e: Env| #![trigger pb(e)] e.valid() && pb(e) implies 0 <= 0int < p() && holds(
                    ab,
                    q3.ops@.len() as int,
                    env_set(e, q3.ops@.len(), 0int),
                ) by {
                    assert(env_set(e, q3.ops@.len(), 0int).val(credit_delta_sign0) == e.val(credit_delta_sign0));
                }
                lemma_push_completes(q3.ops@, q4.ops@, ab, |e: Env| 0int, pb);
                assert forall|e: Env, e2: Env|
                    #![trigger pc(e), pb(e2)]
                    e.valid() && plan_sat(split.ops@, e) && pc(e) && e2.valid() && plan_sat(q3.ops@, e2)
                        && same_below(e, e2, nc) implies pb(e2) by {
                    assert(pc(e2));
                    assert(q3.sat(e2));
                    assert(sums.sat(e2));
                    if e2.val(event_ty) == 5 {
                        assert(e2.vals(event_value@)[3] == e2.val(event_value[3]));
                    }
                }
                lemma_completes_trans(split.ops@, q3.ops@, q4.ops@, pc, pb);
                lemma_total_ext_push(q4.ops@, Op::MulConstAdd { c: (ORDER - 2) as u64, x: credit_delta_sign0, y: one });
                lemma_total_ext_push(q5.ops@, Op::Mul { x: credit_delta_val, y: credit_delta_sign });
                lemma_total_ext_trans(q4.ops@, q5.ops@, q6.ops@);
                lemma_total_ext_completes(q4.ops@, q6.ops@);
                lemma_completes_trans(split.ops@, q4.ops@, q6.ops@, pc, t);
                let cn = Op::Connect { x: credit_delta_calc, y: self.credit_delta };
                let pn = |e: Env| e.val(credit_delta_calc) == e.val(self.credit_delta);
                assert forall|e: Env| #![trigger pn(e)] e.valid() && pn(e) implies 0 <= 0int < p() && holds(
                    cn,
                    q6.ops@.len() as int,
                    env_set(e, q6.ops@.len(), 0int),
                ) by {
                    let e2 = env_set(e, q6.ops@.len(), 0int);
                    assert(e2.val(credit_delta_calc) == e.val(credit_delta_calc));
                    assert(e2.val(self.credit_delta) == e.val(self.credit_delta));
                }
                lemma_push_completes(q6.ops@, builder.ops@, cn, |e: Env| 0int, pn);
                assert forall|e: Env, e2: Env|
                    #![trigger pc(e), pn(e2)]
                    e.valid() && plan_sat(split.ops@, e) && pc(e) && e2.valid() && plan_sat(q6.ops@, e2)
                        && same_below(e, e2, nc) implies pn(e2) by {
                    assert(pc(e2));
                    assert(q6.sat(e2));
                    assert(q5.sat(e2));
                    assert(q4.sat(e2));
                    assert(q3.sat(e2));
                    assert(q1.sat(e2));
                    assert(sums.sat(e2));
                    let value = e2.vals(event_value@);
                    assert(value[0] == e2.val(event_value[0]));
                    assert(value[3] == e2.val(event_value[3]));
                    let cv = e2.val(credit_delta_val);
                    let sg = e2.val(credit_delta_sign);
                    assert(e2.is_bool(is_credit_delta.target));
                    assert(cv == if e2.val(event_ty) == 5 { value[0] } else { 0 });
                    assert(e2.val(credit_delta_sign0) == if e2.val(event_ty) == 5 { value[3] } else { 0 });
                    assert(sg == fmod((ORDER - 2) as int * e2.val(credit_delta_sign0) + 1));
                    assert(e2.val(credit_delta_calc) == fmod(cv * sg));
                    if e2.val(event_ty) == 5 {
                        let v0 = value[0];
                        assert(cv == v0);
                        if value[3] == 0 {
                            lemma_fmod_small(1);
                            assert(sg == 1);
                            assert(cv * sg == v0) by (nonlinear_arith)
                                requires
                                    cv == v0,
                                    sg == 1,
                            ;
                            lemma_fmod_small(v0);
                        } else {
                            assert(value[3] == 1);
                            assert((ORDER - 2) as int * 1 + 1 == p() - 1);
                            lemma_fmod_small(p() - 1);
                            assert(sg == p() - 1);
                            assert(v0 * (p() - 1) == p() * v0 + (-v0)) by (nonlinear_arith);
                            lemma_mod_multiples_vanish(v0, -v0, p());
                            assert(cv * sg == v0 * (p() - 1));
                        }
                    } else {
                        lemma_fmod_small(1);
                        assert(cv == 0);
                        let sgv = e2.val(credit_delta_sign);
                        assert(cv * sgv == 0) by (nonlinear_arith)
                            requires
                                cv == 0,
                        ;
                        lemma_fmod_small(0);
                    }
                }
                lemma_completes_trans(split.ops@, q6.ops@, builder.ops@, pc, pn);
                assert(completes(split.ops@, builder.ops@, pc));
                // the event's targets take the event's values
                let alloc = split.ops@.drop_last();
                assert(alloc.len() == na + 14);
                assert(alloc.subrange(0, na as int) =~= ga.ops@) by {
                    assert forall|i: int| 0 <= i < na implies #[trigger] alloc[i] == ga.ops@[i] by {
                        assert(alloc[i] == gb.ops@[i]);
                        assert(gb.ops@[i] == b2.ops@[i]);
                        assert(b2.ops@[i] == b1.ops@[i]);
                        assert(b1.ops@[i] == ga.ops@[i]);
                    }
                }
                assert forall|i: int| na <= i < alloc.len() implies (#[trigger] alloc[i] == Op::VirtualTarget
                    || alloc[i] == Op::Output) by {
                    if i < nb {
                        assert(alloc[i] == gb.ops@[i]);
                        if i < na + 4 {
                            assert(gb.ops@[i] == b2.ops@[i]);
                            assert(b2.ops@[i] == b1.ops@[i]);
                        } else if i == na + 4 {
                            assert(gb.ops@[i] == b2.ops@[i]);
                        }
                    }
                }
                let op_s = split.ops@.last();
                assert(split.ops@ == alloc.push(op_s));
                let bits = object_flags@.map_values(|b: BoolTarget| b.target);
                assert(op_s matches Op::SplitLe { x, bits: bs } && x == self.object_flags && bs@ == bits);
                assert(forall|k: int| 0 <= k < 5 ==> #[trigger] bits[k] == target_at(nb + k));
                assert(refs_below(op_s, alloc.len())) by {
                    match op_s {
                        Op::SplitLe { x, bits: bs } => {
                            assert(forall|k: int| 0 <= k < bs@.len() ==> (#[trigger] bs@[k]).index < alloc.len());
                        },
                        _ => {},
                    }
                }
                if closed(ga.ops@) {
                    lemma_alloc_closed(ga.ops@, alloc);
                    lemma_closed_push(alloc, op_s);
                    assert forall|e: Env| e.valid() && #[trigger] plan_sat(ga.ops@, e) && pre(e) implies exists|e4: Env|
                        e4.valid() && #[trigger] plan_sat(builder.ops@, e4) && same_below(e, e4, na) by {
                        let (owner, ty, value) = choose|owner: Seq<int>, ty: int, value: Seq<int>|
                            event_fits(owner, ty, value) && #[trigger] leaf_relation(self.values(e), owner, ty, value);
                        assert(event_fits(owner, ty, value));
                        let fl = Seq::new(5, |k: int| b2i(ty == k));
                        assert(fl =~= seq![b2i(ty == 0), b2i(ty == 1), b2i(ty == 2), b2i(ty == 3), b2i(ty == 4)]);
                        let vals = owner + seq![ty] + value + fl;
                        assert(vals.len() == 14);
                        assert forall|i: int| 0 <= i < vals.len() implies 0 <= #[trigger] vals[i] < p() by {
                            if i < 4 {
                                assert(vals[i] == owner[i]);
                            } else if i == 4 {
                                assert(vals[i] == ty);
                            } else if i < 9 {
                                assert(0 <= owner[i - 5] < p());
                                assert(vals[i] == value[i - 5]);
                            } else {
                                assert(vals[i] == fl[i - 9]);
                                assert(fl[i - 9] == b2i(ty == i - 9));
                            }
                        }
                        lemma_alloc_values(ga.ops@, alloc, e, vals);
                        let e2 = env_set_from(e, na, vals);
                        let e3 = env_set(e2, alloc.len(), 0int);
                        assert forall|k: int| 0 <= k < 14 implies #[trigger] e3.val(target_at(na + k)) == vals[k] by {
                            assert(target_at(na + k).index == na + k);
                        }
                        assert(e3.vals(bits) =~= fl) by {
                            assert forall|k: int| 0 <= k < 5 implies #[trigger] e3.vals(bits)[k] == fl[k] by {
                                assert(bits[k] == target_at(na + (9 + k)));
                                assert(e3.val(target_at(na + (9 + k))) == vals[9 + k]);
                            }
                        }
                        assert(e3.val(self.object_flags) == e.val(self.object_flags));
                        reveal_with_fuel(bits_value, 6);
                        assert(bits_value(fl) == flags_of_code(ty));
                        assert(holds(op_s, alloc.len() as int, e3)) by {
                            match op_s {
                                Op::SplitLe { x, bits: bs } => {
                                    assert(bs@ == bits);
                                    assert forall|k: int| 0 <= k < bs@.len() implies #[trigger] e3.is_bool(bs@[k]) by {
                                        assert(e3.vals(bits)[k] == e3.val(bits[k]));
                                    }
                                },
                                _ => {},
                            }
                        }
                        lemma_push_value(alloc, op_s, e2, 0int);
                        assert(plan_sat(split.ops@, e3));
                        assert(same_below(e, e3, na)) by {
                            assert forall|tt: Target| tt.index < na implies #[trigger] (e.w)(tt) == (e3.w)(tt) by {}
                        }
                        self.lemma_values_frame(e, e3, na);
                        assert(e3.vals(event_owner@) =~= owner) by {
                            assert forall|k: int| 0 <= k < 4 implies #[trigger] e3.vals(event_owner@)[k] == owner[k] by {
                                assert(event_owner@[k] == target_at(na + k));
                                assert(vals[k] == owner[k]);
                            }
                        }
                        assert(e3.val(event_ty) == ty) by {
                            assert(e3.val(target_at(na + 4int)) == vals[4]);
                        }
                        assert(e3.vals(event_value@) =~= value) by {
                            assert forall|k: int| 0 <= k < 4 implies #[trigger] e3.vals(event_value@)[k] == value[k] by {
                                assert(event_value@[k] == target_at(na + (5 + k)));
                                assert(e3.val(target_at(na + (5 + k))) == vals[5 + k]);
                                assert(vals[5 + k] == value[k]);
                            }
                        }
                        assert forall|k: int| 0 <= k < 5 implies #[trigger] e3.val(object_flags@[k].target) == b2i(
                            e3.val(event_ty) == k,
                        ) by {
                            assert(object_flags@[k].target == target_at(na + (9 + k)));
                            assert(e3.val(target_at(na + (9 + k))) == vals[9 + k]);
                            assert(vals[9 + k] == fl[k]);
                        }
                        assert(pc(e3));
                        let e4 = choose|e4: Env|
                            e4.valid() && #[trigger] plan_sat(builder.ops@, e4) && same_below(e3, e4, nc);
                        assert forall|tt: Target| tt.index < na implies #[trigger] (e.w)(tt) == (e4.w)(tt) by {
                            assert((e.w)(tt) == (e3.w)(tt));
                            assert((e3.w)(tt) == (e4.w)(tt));
                        }
                        assert(same_below(e, e4, na));
                    }
                }
                assert(completes(ga.ops@, builder.ops@, pre));
                // the constants
                lemma_total_ext_push(g0.ops@, Op::Constant { c: 0 });
                lemma_total_ext_push(a1.ops@, Op::Constant { c: 1 });
                lemma_total_ext_push(a2.ops@, Op::Constant { c: EventType::Write.spec_code() });
                lemma_total_ext_push(a3.ops@, Op::Constant { c: EventType::Read.spec_code() });
                lemma_total_ext_push(a4.ops@, Op::Constant { c: EventType::Ensure.spec_code() });
                lemma_total_ext_push(a5.ops@, Op::Constant { c: EventType::GiveOwner.spec_code() });
                lemma_total_ext_push(a6.ops@, Op::Constant { c: EventType::TakeOwner.spec_code() });
                lemma_total_ext_push(a7.ops@, Op::Constant { c: EventType::CreditDelta.spec_code() });
                lemma_total_ext_trans(g0.ops@, a1.ops@, a2.ops@);
                lemma_total_ext_trans(g0.ops@, a2.ops@, a3.ops@);
                lemma_total_ext_trans(g0.ops@, a3.ops@, a4.ops@);
                lemma_total_ext_trans(g0.ops@, a4.ops@, a5.ops@);
                lemma_total_ext_trans(g0.ops@, a5.ops@, a6.ops@);
                lemma_total_ext_trans(g0.ops@, a6.ops@, a7.ops@);
                lemma_total_ext_trans(g0.ops@, a7.ops@, ga.ops@);
                lemma_total_ext_completes(g0.ops@, ga.ops@);
                lemma_completes_weaken(g0.ops@, ga.ops@, t, pre);
                assert forall|e: Env, e2: Env|
                    #![trigger pre(e), pre(e2)]
                    e.valid() && plan_sat(g0.ops@, e) && pre(e) && e2.valid() && plan_sat(ga.ops@, e2)
                        && same_below(e, e2, n0) implies pre(e2) by {
                    self.lemma_values_frame(e, e2, n0);
                    let (owner, ty, value) = choose|owner: Seq<int>, ty: int, value: Seq<int>|
                        event_fits(owner, ty, value) && #[trigger] leaf_relation(self.values(e), owner, ty, value);
                    assert(leaf_relation(self.values(e2), owner, ty, value));
                }
                lemma_completes_trans(g0.ops@, ga.ops@, builder.ops@, pre, pre);
            }
        }

        let r = LeafTargets { inputs: self, event_owner, event_ty, event_value };
        proof {
            reveal_with_fuel(bits_value, 6);
            assert forall|e: Env| e.valid() && #[trigger] builder.sat(e) implies leaf_relation(
                self.values(e),
                e.vals(r.event_owner@),
                e.val(r.event_ty),
                e.vals(r.event_value@),
            ) by {
                let ty = e.val(event_ty);
                let owner = e.vals(event_owner@);
                let value = e.vals(event_value@);
                let d = self.values(e);
                assert(split.sat(e) && sums.sat(e) && flagged.sat(e) && connected.sat(e));
                // the flags
                let fv = e.vals(object_flags@.map_values(|b: BoolTarget| b.target));
                assert(fv[0] == b2i(ty == 0));
                assert(fv[1] == b2i(ty == 1));
                assert(fv[2] == b2i(ty == 2));
                assert(fv[3] == b2i(ty == 3));
                assert(fv[4] == b2i(ty == 4));
                assert(fv.drop_first().drop_first().drop_first().drop_first().drop_first().len()
                    == 0);
                assert(d.object_flags == flags_of_code(ty));
                // the fields
                let ow = e.val(old_owner_from_event.target);
                lemma_fmod_small(b2i(ty == 0) + b2i(ty == 3));
                lemma_fmod_small(b2i(ty == 0) + b2i(ty == 3) + b2i(ty == 5));
                lemma_fmod_small(b2i(ty == 0) + b2i(ty == 1));
                if ty == 0 || ty == 3 || ty == 5 {
                    assert(e.truth(old_owner_from_event.target));
                    lemma_same_vals_seq(e, self.old_owner, event_owner);
                }
                if ty == 4 {
                    lemma_same_vals_seq(e, self.old_owner, event_value);
                    lemma_same_vals_seq(e, self.new_owner, event_owner);
                }
                if ty == 3 {
                    lemma_same_vals_seq(e, self.new_owner, event_value);
                }
                if ty == 2 {
                    lemma_same_vals_seq(e, self.old_data, event_value);
                }
                if ty == 0 || ty == 1 {
                    assert(e.truth(new_data_from_value.target));
                    lemma_same_vals_seq(e, self.new_data, event_value);
                }
                // the credit delta
                assert(value[0] == e.val(event_value[0]));
                assert(value[3] == e.val(event_value[3]));
                let cv = e.val(credit_delta_val);
                let sg = e.val(credit_delta_sign);
                assert(q5.sat(e) && q3.sat(e) && q1.sat(e));
                assert(e.is_bool(is_credit_delta.target));
                assert(e.val(credit_delta_sign0) == if ty == 5 { value[3] } else { 0 });
                assert(sg == fmod((ORDER - 2) as int * e.val(credit_delta_sign0) + 1));
                if ty == 5 {
                    let v0 = value[0];
                    assert(cv == v0);
                    if value[3] == 0 {
                        lemma_fmod_small(1);
                        assert(e.val(credit_delta_sign0) == 0);
                        assert((ORDER - 2) as int * 0 + 1 == 1);
                        assert(sg == 1);
                        assert(cv * sg == v0) by (nonlinear_arith)
                            requires
                                cv == v0,
                                sg == 1,
                        ;
                        lemma_fmod_small(v0);
                        assert(e.val(credit_delta_calc) == fmod(cv * sg));
                        assert(d.credit_delta == v0);
                    } else {
                        assert(value[3] == 1);
                        assert((ORDER - 2) as int * 1 + 1 == p() - 1);
                        lemma_fmod_small(p() - 1);
                        assert(sg == p() - 1);
                        assert(v0 * (p() - 1) == p() * v0 + (-v0)) by (nonlinear_arith);
                        lemma_mod_multiples_vanish(v0, -v0, p());
                        assert(cv * sg == v0 * (p() - 1));
                        assert(e.val(credit_delta_calc) == fmod(cv * sg));
                        assert(d.credit_delta == fmod(-v0));
                    }
                } else {
                    lemma_fmod_small(1);
                    assert(cv == 0);
                    let sgv = e.val(credit_delta_sign);
                    assert(cv * sgv == 0) by (nonlinear_arith)
                        requires
                            cv == 0,
                    ;
                    lemma_fmod_small(0);
                }
            }
        }
        r
    }
}

/// The leaf subcircuit metadata. This subcircuit validates a (public) partial
/// object corresponds to a given (private) event.
pub struct LeafSubCircuit {
    pub targets: LeafTargets,
    pub indices: PublicIndices,
}

impl PublicIndices {
    /// The positions hold the targets of the inputs.
    pub open spec fn locates(self, pis: Seq<Target>, t: SubCircuitInputs) -> bool {
        &&& self.locates_fields(pis, t)
        &&& pis[self.object_flags.0 as int] == t.object_flags
        &&& pis[self.credit_delta.0 as int] == t.credit_delta
    }

    /// The positions hold the targets of the inputs, but for the flags and
    /// the credit delta.
    pub open spec fn locates_fields(self, pis: Seq<Target>, t: SubCircuitInputs) -> bool {
        &&& self.within(pis.len())
        &&& pis[self.address.0 as int] == t.address
        &&& forall|k: int| 0 <= k < 4 ==> pis[(#[trigger] self.old_owner.0[k]).0 as int] == t.old_owner[k]
        &&& forall|k: int| 0 <= k < 4 ==> pis[(#[trigger] self.new_owner.0[k]).0 as int] == t.new_owner[k]
        &&& forall|k: int| 0 <= k < 4 ==> pis[(#[trigger] self.old_data.0[k]).0 as int] == t.old_data[k]
        &&& forall|k: int| 0 <= k < 4 ==> pis[(#[trigger] self.new_data.0[k]).0 as int] == t.new_data[k]
    }
}

/// Finds the positions of the public inputs of the subcircuit.
fn find_indices(inputs: &SubCircuitInputs, public_inputs: &[Target]) -> (r: PublicIndices)
    requires
        inputs.registered_in(public_inputs@),
    ensures
        r.locates(public_inputs@, *inputs),
{
    let ghost pt = inputs.public_targets();
    assert(pt[0] == inputs.address);
    assert(pt[1] == inputs.object_flags);
    assert(pt[18] == inputs.credit_delta);
    assert(forall|k: int| 0 <= k < 4 ==> pt[2 + k] == #[trigger] inputs.old_owner[k]);
    assert(forall|k: int| 0 <= k < 4 ==> pt[6 + k] == #[trigger] inputs.new_owner[k]);
    assert(forall|k: int| 0 <= k < 4 ==> pt[10 + k] == #[trigger] inputs.old_data[k]);
    assert(forall|k: int| 0 <= k < 4 ==> pt[14 + k] == #[trigger] inputs.new_data[k]);
    assert(forall|k: int| 0 <= k < 4 ==> public_inputs@.contains(#[trigger] inputs.old_owner[k]))
        by {
        assert forall|k: int| 0 <= k < 4 implies public_inputs@.contains(
            #[trigger] inputs.old_owner[k],
        ) by {
            assert(pt[2 + k] == inputs.old_owner[k]);
        }
    }
    assert(forall|k: int| 0 <= k < 4 ==> public_inputs@.contains(#[trigger] inputs.new_owner[k]))
        by {
        assert forall|k: int| 0 <= k < 4 implies public_inputs@.contains(
            #[trigger] inputs.new_owner[k],
        ) by {
            assert(pt[6 + k] == inputs.new_owner[k]);
        }
    }
    assert(forall|k: int| 0 <= k < 4 ==> public_inputs@.contains(#[trigger] inputs.old_data[k]))
        by {
        assert forall|k: int| 0 <= k < 4 implies public_inputs@.contains(
            #[trigger] inputs.old_data[k],
        ) by {
            assert(pt[10 + k] == inputs.old_data[k]);
        }
    }
    assert(forall|k: int| 0 <= k < 4 ==> public_inputs@.contains(#[trigger] inputs.new_data[k]))
        by {
        assert forall|k: int| 0 <= k < 4 implies public_inputs@.contains(
            #[trigger] inputs.new_data[k],
        ) by {
            assert(pt[14 + k] == inputs.new_data[k]);
        }
    }
    PublicIndices {
        address: TargetIndex::new(public_inputs, inputs.address),
        object_flags: TargetIndex::new(public_inputs, inputs.object_flags),
        old_owner: ArrayTargetIndex::new(public_inputs, &inputs.old_owner),
        new_owner: ArrayTargetIndex::new(public_inputs, &inputs.new_owner),
        old_data: ArrayTargetIndex::new(public_inputs, &inputs.old_data),
        new_data: ArrayTargetIndex::new(public_inputs, &inputs.new_data),
        credit_delta: TargetIndex::new(public_inputs, inputs.credit_delta),
    }
}

impl LeafTargets {
    /// Finds the positions of the public inputs.
    pub fn build(self, public_inputs: &[Target]) -> (r: LeafSubCircuit)
        requires
            self.inputs.registered_in(public_inputs@),
        ensures
            r.targets == self,
            r.indices.locates(public_inputs@, self.inputs),
    {
        let indices = find_indices(&self.inputs, public_inputs);
        LeafSubCircuit { targets: self, indices }
    }
}

/// The values of four field elements.
pub open spec fn ints4(a: [u64; 4]) -> Seq<int> {
    a@.map_values(|x: u64| x as int)
}

/// The values a leaf is proven with.
#[derive(Clone, Copy, PartialEq, Eq, Debug)]
pub struct LeafWitnessValue {
    pub address: u64,
    pub object_flags: FlagSet,
    pub old_owner: [u64; 4],
    pub new_owner: [u64; 4],
    pub old_data: [u64; 4],
    pub new_data: [u64; 4],
    pub credit_delta: i64,
    pub event_owner: [u64; 4],
    pub event_ty: u64,
    pub event_value: [u64; 4],
}

impl LeafWitnessValue {
    /// The field values of the public inputs that the witness gives.
    pub open spec fn delta_values(self) -> DeltaValues {
        DeltaValues {
            address: fmod(self.address as int),
            object_flags: self.object_flags.bits as int,
            old_owner: ints4(self.old_owner),
            new_owner: ints4(self.new_owner),
            old_data: ints4(self.old_data),
            new_data: ints4(self.new_data),
            credit_delta: fmod(self.credit_delta as int),
        }
    }
}

/// The signed credit delta of a credit delta event: the amount (read as an
/// `i64`), negated when the sign is one.
pub open spec fn event_credit(value: [u64; 4]) -> int {
    let amount = if value[0] < 0x8000_0000_0000_0000u64 {
        value[0] as int
    } else {
        value[0] as int - 0x1_0000_0000_0000_0000
    };
    if value[3] == 0 {
        amount
    } else {
        -amount
    }
}

/// The leaf witness of an event.
pub open spec fn spec_from_event(event: Event) -> LeafWitnessValue {
    let zero: [u64; 4] = [0u64, 0u64, 0u64, 0u64];
    let w = FlagSet { bits: event.ty.spec_flag_bits() };
    let (old_owner, new_owner) = match event.ty {
        EventType::Write | EventType::CreditDelta => (event.owner, zero),
        EventType::Read | EventType::Ensure => (zero, zero),
        EventType::GiveOwner => (event.owner, event.value),
        EventType::TakeOwner => (event.value, event.owner),
    };
    let (old_data, new_data) = match event.ty {
        EventType::Write | EventType::Ensure => (zero, event.value),
        EventType::Read => (event.value, zero),
        EventType::GiveOwner | EventType::TakeOwner | EventType::CreditDelta => (zero, zero),
    };
    LeafWitnessValue {
        address: event.address,
        object_flags: w,
        old_owner,
        new_owner,
        old_data,
        new_data,
        credit_delta: if event.ty == EventType::CreditDelta {
            event_credit(event.value) as i64
        } else {
            0
        },
        event_owner: event.owner,
        event_ty: event.ty.spec_code(),
        event_value: event.value,
    }
}

impl LeafWitnessValue {
    /// The leaf witness of an event: the flag of its kind, the fields it
    /// reads or writes, and for a credit delta the signed amount.
    pub fn from_event(event: Event) -> (r: Self)
        requires
            event.ty == EventType::CreditDelta ==> event.value[3] == 0 || event.value[3] == 1,
            event.ty == EventType::CreditDelta && event.value[3] == 1 ==> event.value[0]
                != 0x8000_0000_0000_0000u64,
        ensures
            r == spec_from_event(event),
            r.object_flags.wf(),
            r.address == event.address,
            r.event_owner == event.owner,
            r.event_ty == event.ty.spec_code(),
            r.event_value == event.value,
            r.event_owner@ + seq![r.event_ty, field_of_u64(r.address)] + r.event_value@
                == event.spec_bytes(),
    {
        let zero: [u64; 4] = [0u64, 0u64, 0u64, 0u64];
        let (object_flags, credit_delta) = match event.ty {
            EventType::Write => (FlagSet::of(EventFlags::WriteFlag), 0i64),
            EventType::Read => (FlagSet::of(EventFlags::ReadFlag), 0i64),
            EventType::Ensure => (FlagSet::of(EventFlags::EnsureFlag), 0i64),
            EventType::GiveOwner => (FlagSet::of(EventFlags::GiveOwnerFlag), 0i64),
            EventType::TakeOwner => (FlagSet::of(EventFlags::TakeOwnerFlag), 0i64),
            EventType::CreditDelta => {
                let v = event.value[0];
                let value: i64 = if v < 0x8000_0000_0000_0000u64 {
                    v as i64
                } else {
                    (v - 0x8000_0000_0000_0000u64) as i64 + i64::MIN
                };
                let value: i64 = if event.value[3] == 0 {
                    value
                } else {
                    -value
                };
                (FlagSet::empty(), value)
            },
        };
        let (old_owner, new_owner) = match event.ty {
            EventType::Write | EventType::CreditDelta => (event.owner, zero),
            EventType::Read | EventType::Ensure => (zero, zero),
            EventType::GiveOwner => (event.owner, event.value),
            EventType::TakeOwner => (event.value, event.owner),
        };
        let (old_data, new_data) = match event.ty {
            EventType::Write | EventType::Ensure => (zero, event.value),
            EventType::Read => (event.value, zero),
            EventType::GiveOwner | EventType::TakeOwner | EventType::CreditDelta => (zero, zero),
        };
        LeafWitnessValue {
            address: event.address,
            object_flags,
            old_owner,
            new_owner,
            old_data,
            new_data,
            credit_delta,
            event_owner: event.owner,
            event_ty: event.ty.code(),
            event_value: event.value,
        }
    }
}

/// The leaf witness of an event records that very event and what it does to
/// its object. It keeps the event's address, owner, kind and value, so the
/// elements its event hash is taken over (owner, kind, address, value) are
/// exactly the event's own (`Event::spec_bytes`), whatever the kind. And the
/// delta is the event's effect: a write sets the new data and names the
/// writer as old owner; an ensure sets the new data; a read fixes the old
/// data; a give moves ownership from the owner to the value, a take from
/// the value to the owner; a credit delta names the owner and carries the
/// signed amount. Each kind sets its own flag, a credit delta none, and
/// every field that the kind does not touch is zero.
pub proof fn law_leaf_witness_records_event(event: Event)
    ensures
        ({
            let w = spec_from_event(event);
            let zero: [u64; 4] = [0u64, 0u64, 0u64, 0u64];
            let (ty, owner, value) = (event.ty, event.owner, event.value);
            &&& w.address == event.address
            &&& w.event_owner == owner
            &&& w.event_ty == ty.spec_code()
            &&& w.event_value == value
            &&& w.event_owner@ + seq![w.event_ty, field_of_u64(w.address)] + w.event_value@
                == event.spec_bytes()
            &&& ty == EventType::Write ==> w.object_flags.bits == 1 && w.old_owner == owner
                && w.new_owner == zero && w.old_data == zero && w.new_data == value
                && w.credit_delta == 0
            &&& ty == EventType::Ensure ==> w.object_flags.bits == 2 && w.old_owner == zero
                && w.new_owner == zero && w.old_data == zero && w.new_data == value
                && w.credit_delta == 0
            &&& ty == EventType::Read ==> w.object_flags.bits == 4 && w.old_owner == zero
                && w.new_owner == zero && w.old_data == value && w.new_data == zero
                && w.credit_delta == 0
            &&& ty == EventType::GiveOwner ==> w.object_flags.bits == 8 && w.old_owner == owner
                && w.new_owner == value && w.old_data == zero && w.new_data == zero
                && w.credit_delta == 0
            &&& ty == EventType::TakeOwner ==> w.object_flags.bits == 16 && w.old_owner == value
                && w.new_owner == owner && w.old_data == zero && w.new_data == zero
                && w.credit_delta == 0
            &&& ty == EventType::CreditDelta ==> w.object_flags.bits == 0 && w.old_owner == owner
                && w.new_owner == zero && w.old_data == zero && w.new_data == zero
            &&& ty == EventType::CreditDelta && value[3] == 0 && value[0] < 0x8000_0000_0000_0000u64
                ==> w.credit_delta == value[0]
            &&& ty == EventType::CreditDelta && value[3] == 1 && value[0] < 0x8000_0000_0000_0000u64
                ==> w.credit_delta == -value[0]
            &&& ty == EventType::CreditDelta && value[3] == 0 && value[0] >= 0x8000_0000_0000_0000u64
                ==> w.credit_delta == value[0] - 0x1_0000_0000_0000_0000
        }),
{
}

/// The witness gives the public inputs of the subcircuit these values.
pub open spec fn witness_has_inputs(
    w: PartialWitness,
    t: SubCircuitInputs,
    address: u64,
    object_flags: u64,
    old_owner: [u64; 4],
    new_owner: [u64; 4],
    old_data: [u64; 4],
    new_data: [u64; 4],
    credit_delta: u64,
) -> bool {
    &&& w.has(t.address, address)
    &&& w.has(t.object_flags, object_flags)
    &&& w.has_arr(t.old_owner, old_owner)
    &&& w.has_arr(t.new_owner, new_owner)
    &&& w.has_arr(t.old_data, old_data)
    &&& w.has_arr(t.new_data, new_data)
    &&& w.has(t.credit_delta, credit_delta)
}

/// The public input targets of the subcircuit, in the order they are given.
pub open spec fn input_targets(t: SubCircuitInputs) -> Seq<Target> {
    seq![t.address, t.object_flags] + t.old_owner@ + t.new_owner@ + t.old_data@ + t.new_data@ + seq![
        t.credit_delta,
    ]
}

/// The values of the public inputs, in the order they are given.
pub open spec fn input_values(
    address: u64,
    object_flags: u64,
    old_owner: [u64; 4],
    new_owner: [u64; 4],
    old_data: [u64; 4],
    new_data: [u64; 4],
    credit_delta: u64,
) -> Seq<u64> {
    seq![address, object_flags] + old_owner@ + new_owner@ + old_data@ + new_data@ + seq![credit_delta]
}

/// Gives the public inputs of the subcircuit their values.
fn set_inputs(
    w: &mut PartialWitness,
    t: &SubCircuitInputs,
    address: u64,
    object_flags: u64,
    old_owner: [u64; 4],
    new_owner: [u64; 4],
    old_data: [u64; 4],
    new_data: [u64; 4],
    credit_delta: u64,
) -> (r: Result<(), WitnessConflict>)
    ensures
        r is Ok <==> old(w).fits(
            input_targets(*t),
            input_values(address, object_flags, old_owner, new_owner, old_data, new_data, credit_delta),
        ),
        r is Ok ==> final(w).wrote(
            *old(w),
            input_targets(*t),
            input_values(address, object_flags, old_owner, new_owner, old_data, new_data, credit_delta),
        ),
        r is Ok ==> final(w).extends(*old(w)) && witness_has_inputs(
            *final(w),
            *t,
            address,
            object_flags,
            old_owner,
            new_owner,
            old_data,
            new_data,
            credit_delta,
        ),
{
    let ts: [Target; 19] = [
        t.address,
        t.object_flags,
        t.old_owner[0],
        t.old_owner[1],
        t.old_owner[2],
        t.old_owner[3],
        t.new_owner[0],
        t.new_owner[1],
        t.new_owner[2],
        t.new_owner[3],
        t.old_data[0],
        t.old_data[1],
        t.old_data[2],
        t.old_data[3],
        t.new_data[0],
        t.new_data[1],
        t.new_data[2],
        t.new_data[3],
        t.credit_delta,
    ];
    let vs: [u64; 19] = [
        address,
        object_flags,
        old_owner[0],
        old_owner[1],
        old_owner[2],
        old_owner[3],
        new_owner[0],
        new_owner[1],
        new_owner[2],
        new_owner[3],
        old_data[0],
        old_data[1],
        old_data[2],
        old_data[3],
        new_data[0],
        new_data[1],
        new_data[2],
        new_data[3],
        credit_delta,
    ];
    proof {
        assert(ts@ =~= input_targets(*t));
        assert(vs@ =~= input_values(
            address,
            object_flags,
            old_owner,
            new_owner,
            old_data,
            new_data,
            credit_delta,
        ));
    }
    let r = w.set_target_arr(&ts, &vs);
    proof {
        if r is Ok {
            assert(ts[0] == t.address && ts[1] == t.object_flags && ts[18] == t.credit_delta);
            assert forall|k: int| 0 <= k < 4 implies {
                &&& #[trigger] ts[2 + k] == t.old_owner[k] && vs[2 + k] == old_owner[k]
                &&& ts[6 + k] == t.new_owner[k] && vs[6 + k] == new_owner[k]
                &&& ts[10 + k] == t.old_data[k] && vs[10 + k] == old_data[k]
                &&& ts[14 + k] == t.new_data[k] && vs[14 + k] == new_data[k]
            } by {}
        }
    }
    r
}

impl LeafSubCircuit {
    /// Gives the witness the values of the event's leaf.
    pub fn set_witness(&self, witness: &mut PartialWitness, event: Event) -> (r: Result<
        (),
        WitnessConflict,
    >)
        requires
            event.ty == EventType::CreditDelta ==> event.value[3] == 0 || event.value[3] == 1,
            event.ty == EventType::CreditDelta && event.value[3] == 1 ==> event.value[0]
                != 0x8000_0000_0000_0000u64,
        ensures
            r is Ok <==> old(witness).fits(self.leaf_targets(), Self::leaf_values(spec_from_event(event))),
            r is Ok ==> final(witness).extends(*old(witness)) && self.witness_has(
                *final(witness),
                spec_from_event(event),
            ),
            r is Ok ==> final(witness).has_arr(self.targets.event_owner, event.owner)
                && final(witness).has(self.targets.event_ty, event.ty.spec_code())
                && final(witness).has(self.targets.inputs.address, field_of_u64(event.address))
                && final(witness).has_arr(self.targets.event_value, event.value),
    {
        let v = LeafWitnessValue::from_event(event);
        self.set_witness_unsafe(witness, v)
    }

    /// The witness gives the targets of the leaf the values of `v`.
    pub open spec fn witness_has(self, w: PartialWitness, v: LeafWitnessValue) -> bool {
        &&& witness_has_inputs(
            w,
            self.targets.inputs,
            field_of_u64(v.address),
            v.object_flags.bits as u64,
            v.old_owner,
            v.new_owner,
            v.old_data,
            v.new_data,
            of_int(v.credit_delta as int) as u64,
        )
        &&& w.has_arr(self.targets.event_owner, v.event_owner)
        &&& w.has(self.targets.event_ty, v.event_ty)
        &&& w.has_arr(self.targets.event_value, v.event_value)
    }

    /// The targets of the leaf, in the order they are given: the public
    /// inputs, then the event's owner, kind and value.
    pub open spec fn leaf_targets(self) -> Seq<Target> {
        input_targets(self.targets.inputs) + self.targets.event_owner@ + seq![self.targets.event_ty]
            + self.targets.event_value@
    }

    /// The values of the leaf's targets.
    pub open spec fn leaf_values(v: LeafWitnessValue) -> Seq<u64> {
        input_values(
            field_of_u64(v.address),
            v.object_flags.bits as u64,
            v.old_owner,
            v.new_owner,
            v.old_data,
            v.new_data,
            of_int(v.credit_delta as int) as u64,
        ) + v.event_owner@ + seq![v.event_ty] + v.event_value@
    }

    /// Gives the witness the values as they are.
    pub fn set_witness_unsafe(&self, inputs: &mut PartialWitness, v: LeafWitnessValue) -> (r:
        Result<(), WitnessConflict>)
        ensures
            r is Ok <==> old(inputs).fits(self.leaf_targets(), Self::leaf_values(v)),
            r is Ok ==> final(inputs).extends(*old(inputs)) && self.witness_has(*final(inputs), v),
    {
        let targets = &self.targets.inputs;
        let t = &self.targets;
        let ts: [Target; 9] = [
            t.event_owner[0],
            t.event_owner[1],
            t.event_owner[2],
            t.event_owner[3],
            t.event_ty,
            t.event_value[0],
            t.event_value[1],
            t.event_value[2],
            t.event_value[3],
        ];
        let vs: [u64; 9] = [
            v.event_owner[0],
            v.event_owner[1],
            v.event_owner[2],
            v.event_owner[3],
            v.event_ty,
            v.event_value[0],
            v.event_value[1],
            v.event_value[2],
            v.event_value[3],
        ];
        let delta = from_i64(v.credit_delta);
        let ghost (t1, v1) = (
            input_targets(*targets),
            input_values(
                field_of_u64(v.address),
                v.object_flags.bits as u64,
                v.old_owner,
                v.new_owner,
                v.old_data,
                v.new_data,
                of_int(v.credit_delta as int) as u64,
            ),
        );
        let ghost w0 = *inputs;
        proof {
            assert(ts@ =~= self.targets.event_owner@ + seq![self.targets.event_ty]
                + self.targets.event_value@);
            assert(vs@ =~= v.event_owner@ + seq![v.event_ty] + v.event_value@);
            assert(t1 + ts@ =~= self.leaf_targets());
            assert(v1 + vs@ =~= Self::leaf_values(v));
            lemma_fits_prefix(w0, t1, v1, ts@, vs@);
        }
        set_inputs(
            inputs,
            targets,
            u64_to_field(v.address),
            v.object_flags.bits as u64,
            v.old_owner,
            v.new_owner,
            v.old_data,
            v.new_data,
            delta,
        )?;
        let ghost w1 = *inputs;
        proof {
            lemma_fits_after(w0, w1, t1, v1, ts@, vs@);
        }
        inputs.set_target_arr(&ts, &vs)?;
        proof {
            assert(ts[4] == t.event_ty && vs[4] == v.event_ty);
            assert forall|k: int| 0 <= k < 4 implies {
                &&& #[trigger] ts[k] == t.event_owner[k] && vs[k] == v.event_owner[k]
                &&& ts[5 + k] == t.event_value[k] && vs[5 + k] == v.event_value[k]
            } by {}
        }
        Ok(())
    }
}

/// The witness that `from_event` makes of an event satisfies what the leaf
/// proves of it: every event whose credit delta, if any, is within the leaf
/// limit and carries a sign of zero or one can be proven by a leaf.
pub proof fn law_leaf_accepts_event(event: Event)
    requires
        event.ty == EventType::CreditDelta ==> event.value[0] < pow2(MAX_LEAF_TRANSFER as nat) && (
        event.value[3] == 0 || event.value[3] == 1),
    ensures
        leaf_relation(
            spec_from_event(event).delta_values(),
            ints4(event.owner),
            event.ty.spec_code() as int,
            ints4(event.value),
        ),
{
    let v = spec_from_event(event);
    let d = v.delta_values();
    let zero: [u64; 4] = [0u64, 0u64, 0u64, 0u64];
    lemma_flags_value(true, false, false, false, false);
    assert(flags_value(true, false, false, false, false) == 1);
    assert(flags_value(false, true, false, false, false) == 2);
    assert(flags_value(false, false, true, false, false) == 4);
    assert(flags_value(false, false, false, true, false) == 8);
    assert(flags_value(false, false, false, false, true) == 16);
    assert(flags_value(false, false, false, false, false) == 0);
    lemma_fmod_small(0);
    if event.ty == EventType::CreditDelta {
        let v0 = event.value[0];
        vstd::arithmetic::power2::lemma2_to64_rest();
        assert(MAX_LEAF_TRANSFER as nat == 40);
        assert(pow2(40) == 0x100_0000_0000);
        assert(v0 < 0x100_0000_0000);
        assert(ints4(event.value)[0] == v0 as int);
        assert(ints4(event.value)[3] == event.value[3] as int);
        if event.value[3] == 0 {
            lemma_fmod_small(v0 as int);
        }
    }
}

pub struct BranchTargets {
    /// This public inputs.
    pub inputs: SubCircuitInputs,
    /// The left direction.
    pub left: SubCircuitInputs,
    /// The right direction, its flags and credit delta cleared when partial.
    pub right: SubCircuitInputs,
    /// Whether or not the right direction is absent.
    pub partial: BoolTarget,
}

/// The partial object touches the old owner: written, given or taken.
pub open spec fn has_old_owner(flags: int) -> bool {
    flag_in(flags, EventFlags::WriteFlag) || flag_in(flags, EventFlags::GiveOwnerFlag) || flag_in(
        flags,
        EventFlags::TakeOwnerFlag,
    )
}

/// The partial object touches the new owner: given or taken.
pub open spec fn has_new_owner(flags: int) -> bool {
    flag_in(flags, EventFlags::GiveOwnerFlag) || flag_in(flags, EventFlags::TakeOwnerFlag)
}

/// The partial object touches the new data: written or ensured.
pub open spec fn has_new_data(flags: int) -> bool {
    flag_in(flags, EventFlags::WriteFlag) || flag_in(flags, EventFlags::EnsureFlag)
}

/// A flag that at most one event may set on an object.
pub open spec fn is_once(f: EventFlags) -> bool {
    f == EventFlags::WriteFlag || f == EventFlags::GiveOwnerFlag || f == EventFlags::TakeOwnerFlag
}

/// The fields of a child that its flags say it touched are those of the
/// parent.
pub open spec fn child_agrees(p: DeltaValues, c: DeltaValues) -> bool {
    &&& has_old_owner(c.object_flags) ==> p.old_owner == c.old_owner
    &&& has_new_owner(c.object_flags) ==> p.new_owner == c.new_owner
    &&& flag_in(c.object_flags, EventFlags::ReadFlag) ==> p.old_data == c.old_data
    &&& has_new_data(c.object_flags) ==> p.new_data == c.new_data
}

/// What a branch proves of its partial object `p` merged from those of its
/// children `l` and `r`: one address, flags that are the union of the
/// children's, a write or an owner change on one side only, the touched
/// fields agreeing, and credit deltas that add up.
pub open spec fn branch_relation(p: DeltaValues, l: DeltaValues, r: DeltaValues) -> bool {
    &&& p.address == l.address
    &&& p.address == r.address
    &&& 0 <= p.object_flags < 32
    &&& 0 <= l.object_flags < 32
    &&& 0 <= r.object_flags < 32
    &&& forall|f: EventFlags|
        #[trigger] flag_in(p.object_flags, f) == (flag_in(l.object_flags, f) || flag_in(
            r.object_flags,
            f,
        ))
    &&& forall|f: EventFlags|
        is_once(f) ==> !(#[trigger] flag_in(l.object_flags, f) && flag_in(r.object_flags, f))
    &&& child_agrees(p, l)
    &&& child_agrees(p, r)
    &&& p.credit_delta == fmod(l.credit_delta + r.credit_delta)
}

/// The targets of a child proof at the positions of this subcircuit.
pub open spec fn direction_spec(pis: Seq<Target>, indices: PublicIndices) -> SubCircuitInputs {
    SubCircuitInputs {
        address: pis[indices.address.0 as int],
        object_flags: pis[indices.object_flags.0 as int],
        old_owner: at4_targets(indices.old_owner, pis),
        new_owner: at4_targets(indices.new_owner, pis),
        old_data: at4_targets(indices.old_data, pis),
        new_data: at4_targets(indices.new_data, pis),
        credit_delta: pis[indices.credit_delta.0 as int],
    }
}

/// The four targets at the positions.
pub open spec fn at4_targets(idx: ArrayTargetIndex<TargetIndex, 4>, pis: Seq<Target>) -> [Target; 4] {
    [
        pis[idx.0[0].0 as int],
        pis[idx.0[1].0 as int],
        pis[idx.0[2].0 as int],
        pis[idx.0[3].0 as int],
    ]
}

/// The inputs located at the positions are those of `direction_spec`.
pub proof fn lemma_direction_spec(pis: Seq<Target>, indices: PublicIndices, t: SubCircuitInputs)
    requires
        indices.locates(pis, t),
    ensures
        t == direction_spec(pis, indices),
{
    let d = direction_spec(pis, indices);
    assert(t.old_owner =~= d.old_owner);
    assert(t.new_owner =~= d.new_owner);
    assert(t.old_data =~= d.old_data);
    assert(t.new_data =~= d.new_data);
}

/// The inputs of a child proof at the positions of this subcircuit.
pub fn direction_from_node(proof: &ProofWithPublicInputsTarget, indices: &PublicIndices) -> (r:
    SubCircuitInputs)
    requires
        indices.within(proof.public_inputs@.len()),
    ensures
        indices.locates(proof.public_inputs@, r),
{
    let pis = proof.public_inputs.as_slice();
    let address = indices.address.get_target(pis);
    let object_flags = indices.object_flags.get_target(pis);
    let old_owner = indices.old_owner.get_target(pis);
    let new_owner = indices.new_owner.get_target(pis);
    let old_data = indices.old_data.get_target(pis);
    let new_data = indices.new_data.get_target(pis);
    let credit_delta = indices.credit_delta.get_target(pis);
    SubCircuitInputs {
        address,
        object_flags,
        old_owner,
        new_owner,
        old_data,
        new_data,
        credit_delta,
    }
}

/// The bits of a split agree with the flags value.
pub proof fn lemma_split_flags_pub(sf: SplitFlags, e: Env, flags: Target)
    requires
        sf.splits(e, flags),
    ensures
        0 <= e.val(flags) < 32,
        flag_in(e.val(flags), EventFlags::WriteFlag) == e.truth(sf.write.target),
        flag_in(e.val(flags), EventFlags::EnsureFlag) == e.truth(sf.ensure.target),
        flag_in(e.val(flags), EventFlags::ReadFlag) == e.truth(sf.read.target),
        flag_in(e.val(flags), EventFlags::GiveOwnerFlag) == e.truth(sf.give_owner.target),
        flag_in(e.val(flags), EventFlags::TakeOwnerFlag) == e.truth(sf.take_owner.target),
        (e.val(sf.new_data) != 0) == has_new_data(e.val(flags)),
        (e.val(sf.owner) != 0) == has_new_owner(e.val(flags)),
{
    lemma_split_flags(sf, e, flags);
}

/// The bits of a split agree with the flags value.
proof fn lemma_split_flags(sf: SplitFlags, e: Env, flags: Target)
    requires
        sf.splits(e, flags),
    ensures
        0 <= e.val(flags) < 32,
        flag_in(e.val(flags), EventFlags::WriteFlag) == e.truth(sf.write.target),
        flag_in(e.val(flags), EventFlags::EnsureFlag) == e.truth(sf.ensure.target),
        flag_in(e.val(flags), EventFlags::ReadFlag) == e.truth(sf.read.target),
        flag_in(e.val(flags), EventFlags::GiveOwnerFlag) == e.truth(sf.give_owner.target),
        flag_in(e.val(flags), EventFlags::TakeOwnerFlag) == e.truth(sf.take_owner.target),
        (e.val(sf.new_data) != 0) == has_new_data(e.val(flags)),
        (e.val(sf.owner) != 0) == has_new_owner(e.val(flags)),
{
    lemma_flags_value(
        e.truth(sf.write.target),
        e.truth(sf.ensure.target),
        e.truth(sf.read.target),
        e.truth(sf.give_owner.target),
        e.truth(sf.take_owner.target),
    );
}

impl SubCircuitInputs {
    /// Proves this partial object is the merge of those of the two child
    /// proofs (the right one absent when `partial`): see `branch_relation`.
    #[verifier::spinoff_prover]
    #[verifier::rlimit(60)]
    pub fn build_branch(
        self,
        builder: &mut CircuitBuilder,
        indices: &PublicIndices,
        left_proof: &ProofWithPublicInputsTarget,
        right_proof: &ProofWithPublicInputsTarget,
    ) -> (r: BranchTargets)
        requires
            indices.within(left_proof.public_inputs@.len()),
            indices.within(right_proof.public_inputs@.len()),
        ensures
            final(builder).grows(*old(builder)),
            r.inputs == self,
            indices.locates(left_proof.public_inputs@, r.left),
            indices.locates_fields(right_proof.public_inputs@, r.right),
            forall|e: Env|
                e.valid() && #[trigger] final(builder).sat(e) ==> {
                    let rp = right_proof.public_inputs@;
                    &&& e.is_bool(r.partial.target)
                    &&& e.val(r.right.object_flags) == if e.truth(r.partial.target) {
                        0
                    } else {
                        e.val(rp[indices.object_flags.0 as int])
                    }
                    &&& e.val(r.right.credit_delta) == if e.truth(r.partial.target) {
                        0
                    } else {
                        e.val(rp[indices.credit_delta.0 as int])
                    }
                    &&& branch_relation(self.values(e), r.left.values(e), r.right.values(e))
                },
    {
        let zero = builder.zero();
        let left = direction_from_node(left_proof, indices);
        let mut right = direction_from_node(right_proof, indices);
        let ghost right_flags_at = right.object_flags;
        let ghost right_credit_at = right.credit_delta;

        // Possibly clear the right side (partial)
        let partial = builder.add_virtual_bool_target_safe();
        right.object_flags = builder.select(partial, zero, right.object_flags);
        right.credit_delta = builder.select(partial, zero, right.credit_delta);
        let ghost b1 = *builder;

        // Match addresses
        builder.connect(self.address, left.address);
        builder.connect(self.address, right.address);

        // Split up the flags
        let parent_flags = SplitFlags::split(builder, self.object_flags);
        let left_flags = SplitFlags::split(builder, left.object_flags);
        let right_flags = SplitFlags::split(builder, right.object_flags);
        let ghost b2 = *builder;

        // These flags can only be set once, so we can just add
        let write_flag_calc = builder.add(left_flags.write.target, right_flags.write.target);
        let give_owner_flag_calc = builder.add(
            left_flags.give_owner.target,
            right_flags.give_owner.target,
        );
        let take_owner_flag_calc = builder.add(
            left_flags.take_owner.target,
            right_flags.take_owner.target,
        );
        builder.connect(write_flag_calc, parent_flags.write.target);
        builder.connect(give_owner_flag_calc, parent_flags.give_owner.target);
        builder.connect(take_owner_flag_calc, parent_flags.take_owner.target);

        // These flags can be set multiple times, so we must use `or`
        let ensure_flag_calc = builder.or(left_flags.ensure, right_flags.ensure);
        let read_flag_calc = builder.or(left_flags.read, right_flags.read);
        builder.connect(ensure_flag_calc.target, parent_flags.ensure.target);
        builder.connect(read_flag_calc.target, parent_flags.read.target);
        let ghost b3 = *builder;

        // Presence check for matching object fields
        let left_has_new_data = builder.is_nonzero(left_flags.new_data);
        let right_has_new_data = builder.is_nonzero(right_flags.new_data);
        let left_has_owner = builder.is_nonzero(left_flags.owner);
        let right_has_owner = builder.is_nonzero(right_flags.owner);
        let left_has_old_owner = builder.or(left_flags.write, left_has_owner);
        let right_has_old_owner = builder.or(right_flags.write, right_has_owner);
        let ghost b4 = *builder;

        // Enforce restrictions on all the object fields
        maybe_connect(builder, self.old_owner, left_has_old_owner, left.old_owner);
        maybe_connect(builder, self.old_owner, right_has_old_owner, right.old_owner);
        maybe_connect(builder, self.new_owner, left_has_owner, left.new_owner);
        maybe_connect(builder, self.new_owner, right_has_owner, right.new_owner);
        maybe_connect(builder, self.old_data, left_flags.read, left.old_data);
        maybe_connect(builder, self.old_data, right_flags.read, right.old_data);
        maybe_connect(builder, self.new_data, left_has_new_data, left.new_data);
        maybe_connect(builder, self.new_data, right_has_new_data, right.new_data);
        let ghost b5 = *builder;

        let credit_delta_calc = builder.add(left.credit_delta, right.credit_delta);
        builder.connect(credit_delta_calc, self.credit_delta);

        let r = BranchTargets { inputs: self, left, right, partial };
        proof {
            assert forall|e: Env| e.valid() && #[trigger] builder.sat(e) implies {
                let rp = right_proof.public_inputs@;
                &&& e.is_bool(r.partial.target)
                &&& e.val(r.right.object_flags) == if e.truth(r.partial.target) {
                    0
                } else {
                    e.val(rp[indices.object_flags.0 as int])
                }
                &&& e.val(r.right.credit_delta) == if e.truth(r.partial.target) {
                    0
                } else {
                    e.val(rp[indices.credit_delta.0 as int])
                }
                &&& branch_relation(self.values(e), r.left.values(e), r.right.values(e))
            } by {
                assert(b1.sat(e) && b2.sat(e) && b3.sat(e) && b4.sat(e) && b5.sat(e));
                let (p, l, rr) = (self.values(e), left.values(e), right.values(e));
                lemma_split_flags(parent_flags, e, self.object_flags);
                lemma_split_flags(left_flags, e, left.object_flags);
                lemma_split_flags(right_flags, e, right.object_flags);
                let (wl, wr) = (e.val(left_flags.write.target), e.val(right_flags.write.target));
                let (gl, gr) = (
                    e.val(left_flags.give_owner.target),
                    e.val(right_flags.give_owner.target),
                );
                let (tl, tr) = (
                    e.val(left_flags.take_owner.target),
                    e.val(right_flags.take_owner.target),
                );
                lemma_fmod_small(wl + wr);
                lemma_fmod_small(gl + gr);
                lemma_fmod_small(tl + tr);
                assert forall|f: EventFlags| #[trigger] flag_in(p.object_flags, f) == (flag_in(
                    l.object_flags,
                    f,
                ) || flag_in(rr.object_flags, f)) by {}
                assert forall|f: EventFlags| is_once(f) implies !(#[trigger] flag_in(
                    l.object_flags,
                    f,
                ) && flag_in(rr.object_flags, f)) by {}
                if has_old_owner(l.object_flags) {
                    lemma_same_vals_seq(e, self.old_owner, left.old_owner);
                }
                if has_old_owner(rr.object_flags) {
                    lemma_same_vals_seq(e, self.old_owner, right.old_owner);
                }
                if has_new_owner(l.object_flags) {
                    lemma_same_vals_seq(e, self.new_owner, left.new_owner);
                }
                if has_new_owner(rr.object_flags) {
                    lemma_same_vals_seq(e, self.new_owner, right.new_owner);
                }
                if flag_in(l.object_flags, EventFlags::ReadFlag) {
                    lemma_same_vals_seq(e, self.old_data, left.old_data);
                }
                if flag_in(rr.object_flags, EventFlags::ReadFlag) {
                    lemma_same_vals_seq(e, self.old_data, right.old_data);
                }
                if has_new_data(l.object_flags) {
                    lemma_same_vals_seq(e, self.new_data, left.new_data);
                }
                if has_new_data(rr.object_flags) {
                    lemma_same_vals_seq(e, self.new_data, right.new_data);
                }
            }
        }
        r
    }
}

/// The branch subcircuit metadata. This subcircuit validates the merge of two
/// (private) partial object does not conflict.
pub struct BranchSubCircuit {
    pub targets: BranchTargets,
    pub indices: PublicIndices,
}

impl BranchTargets {
    /// Finds the positions of the public inputs; they are meant to be the
    /// same as the child's.
    pub fn build(self, child: &PublicIndices, public_inputs: &[Target]) -> (r: BranchSubCircuit)
        requires
            self.inputs.registered_in(public_inputs@),
        ensures
            r.targets == self,
            r.indices.locates(public_inputs@, self.inputs),
    {
        let indices = find_indices(&self.inputs, public_inputs);
        BranchSubCircuit { indices, targets: self }
    }
}

/// The values a branch is proven with.
#[derive(Clone, Copy, PartialEq, Eq, Debug)]
pub struct BranchWitnessValue {
    pub address: u64,
    pub object_flags: FlagSet,
    pub old_owner: [u64; 4],
    pub new_owner: [u64; 4],
    pub old_data: [u64; 4],
    pub new_data: [u64; 4],
    pub credit_delta: i64,
}

impl BranchWitnessValue {
    /// The field values of the public inputs that the witness gives.
    pub open spec fn delta_values(self) -> DeltaValues {
        DeltaValues {
            address: fmod(self.address as int),
            object_flags: self.object_flags.bits as int,
            old_owner: ints4(self.old_owner),
            new_owner: ints4(self.new_owner),
            old_data: ints4(self.old_data),
            new_data: ints4(self.new_data),
            credit_delta: fmod(self.credit_delta as int),
        }
    }
}

impl From<LeafWitnessValue> for BranchWitnessValue {
    /// The public part of a leaf witness.
    fn from(value: LeafWitnessValue) -> (r: Self) {
        BranchWitnessValue {
            address: value.address,
            object_flags: value.object_flags,
            old_owner: value.old_owner,
            new_owner: value.new_owner,
            old_data: value.old_data,
            new_data: value.new_data,
            credit_delta: value.credit_delta,
        }
    }
}

impl vstd::std_specs::convert::FromSpecImpl<LeafWitnessValue> for BranchWitnessValue {
    open spec fn obeys_from_spec() -> bool {
        true
    }

    open spec fn from_spec(value: LeafWitnessValue) -> Self {
        BranchWitnessValue {
            address: value.address,
            object_flags: value.object_flags,
            old_owner: value.old_owner,
            new_owner: value.new_owner,
            old_data: value.old_data,
            new_data: value.new_data,
            credit_delta: value.credit_delta,
        }
    }
}

/// A branch witness made from a leaf witness gives the same public values:
/// the address, flags, owners, data and credit delta of the leaf.
pub proof fn law_branch_of_leaf_keeps_delta(v: LeafWitnessValue)
    ensures
        ({
            let b = <BranchWitnessValue as vstd::std_specs::convert::FromSpec<LeafWitnessValue>>::from_spec(v);
            &&& b.delta_values() == v.delta_values()
            &&& b.object_flags == v.object_flags
            &&& b.credit_delta == v.credit_delta
        }),
{
}

/// The flags whose events touch the old owner: write, give and take.
pub const OLD_OWNER_FLAGS: u8 = 0x19;
/// The flags whose events touch the new owner: give and take.
pub const NEW_OWNER_FLAGS: u8 = 0x18;
/// The flag whose events touch the old data: read.
pub const OLD_DATA_FLAGS: u8 = 0x04;
/// The flags whose events touch the new data: write and ensure.
pub const NEW_DATA_FLAGS: u8 = 0x03;

/// The field of the merge of two children: the one of the child whose flags
/// touch it (the left one first), or zero when neither does.
pub open spec fn merged(l: [u64; 4], l_flags: u8, r: [u64; 4], r_flags: u8, flags: u8) -> [u64; 4] {
    if l_flags & flags != 0 {
        l
    } else if r_flags & flags != 0 {
        r
    } else {
        [0u64, 0u64, 0u64, 0u64]
    }
}

/// Two children that both touch a field agree on it.
pub open spec fn consistent(l: [u64; 4], l_flags: u8, r: [u64; 4], r_flags: u8, flags: u8) -> bool {
    l_flags & flags != 0 && r_flags & flags != 0 ==> l == r
}

/// The field of the merge of two children (see `merged`); when both touch
/// it, they must agree.
fn merge_branch_helper(l: [u64; 4], l_flags: FlagSet, r: [u64; 4], r_flags: FlagSet, flags: FlagSet) -> (res: [u64; 4])
    requires
        consistent(l, l_flags.bits, r, r_flags.bits, flags.bits),
    ensures
        res == merged(l, l_flags.bits, r, r_flags.bits, flags.bits),
{
    let zero: [u64; 4] = [0u64, 0u64, 0u64, 0u64];
    match (l_flags.intersects(flags), r_flags.intersects(flags)) {
        (false, false) => zero,
        (true, false) => l,
        (false, true) => r,
        (true, true) => l,
    }
}

/// The two children can be merged: both touch the fields they share alike,
/// and the credit deltas add up without overflow.
pub open spec fn mergeable(left: BranchWitnessValue, right: BranchWitnessValue) -> bool {
    &&& left.object_flags.wf()
    &&& right.object_flags.wf()
    &&& consistent(left.old_owner, left.object_flags.bits, right.old_owner, right.object_flags.bits, OLD_OWNER_FLAGS)
    &&& consistent(left.new_owner, left.object_flags.bits, right.new_owner, right.object_flags.bits, NEW_OWNER_FLAGS)
    &&& consistent(left.old_data, left.object_flags.bits, right.old_data, right.object_flags.bits, OLD_DATA_FLAGS)
    &&& consistent(left.new_data, left.object_flags.bits, right.new_data, right.object_flags.bits, NEW_DATA_FLAGS)
    &&& i64::MIN <= left.credit_delta + right.credit_delta <= i64::MAX
}

/// The witness of the merge of two children.
pub open spec fn spec_from_branches(left: BranchWitnessValue, right: BranchWitnessValue) -> BranchWitnessValue {
    let (lf, rf) = (left.object_flags.bits, right.object_flags.bits);
    BranchWitnessValue {
        address: left.address,
        object_flags: FlagSet { bits: lf | rf },
        old_owner: merged(left.old_owner, lf, right.old_owner, rf, OLD_OWNER_FLAGS),
        new_owner: merged(left.new_owner, lf, right.new_owner, rf, NEW_OWNER_FLAGS),
        old_data: merged(left.old_data, lf, right.old_data, rf, OLD_DATA_FLAGS),
        new_data: merged(left.new_data, lf, right.new_data, rf, NEW_DATA_FLAGS),
        credit_delta: (left.credit_delta + right.credit_delta) as i64,
    }
}

/// Merging two mergeable children keeps the left child's address, unites
/// their flags, adds their credit deltas, and takes each field from a child
/// whose flags touch it: as the children agree where both touch a field, it
/// is then both children's value; a field that neither touches is zero.
pub proof fn law_from_branches_unites(left: BranchWitnessValue, right: BranchWitnessValue)
    requires
        mergeable(left, right),
    ensures
        ({
            let w = spec_from_branches(left, right);
            let (lf, rf) = (left.object_flags.bits, right.object_flags.bits);
            let zero: [u64; 4] = [0u64, 0u64, 0u64, 0u64];
            &&& w.address == left.address
            &&& w.object_flags.bits == lf | rf
            &&& w.credit_delta == left.credit_delta + right.credit_delta
            &&& lf & OLD_OWNER_FLAGS != 0 ==> w.old_owner == left.old_owner
            &&& rf & OLD_OWNER_FLAGS != 0 ==> w.old_owner == right.old_owner
            &&& lf & OLD_OWNER_FLAGS == 0 && rf & OLD_OWNER_FLAGS == 0 ==> w.old_owner == zero
            &&& lf & NEW_OWNER_FLAGS != 0 ==> w.new_owner == left.new_owner
            &&& rf & NEW_OWNER_FLAGS != 0 ==> w.new_owner == right.new_owner
            &&& lf & NEW_OWNER_FLAGS == 0 && rf & NEW_OWNER_FLAGS == 0 ==> w.new_owner == zero
            &&& lf & OLD_DATA_FLAGS != 0 ==> w.old_data == left.old_data
            &&& rf & OLD_DATA_FLAGS != 0 ==> w.old_data == right.old_data
            &&& lf & OLD_DATA_FLAGS == 0 && rf & OLD_DATA_FLAGS == 0 ==> w.old_data == zero
            &&& lf & NEW_DATA_FLAGS != 0 ==> w.new_data == left.new_data
            &&& rf & NEW_DATA_FLAGS != 0 ==> w.new_data == right.new_data
            &&& lf & NEW_DATA_FLAGS == 0 && rf & NEW_DATA_FLAGS == 0 ==> w.new_data == zero
        }),
{
}

/// The set of the given flag bits.
fn flag_set(bits: u8) -> (r: FlagSet)
    requires
        bits & !ALL_FLAGS == 0,
    ensures
        r.bits == bits,
        r.wf(),
{
    FlagSet { bits }
}

impl BranchWitnessValue {
    /// The witness of a branch from the witnesses of its children: the union
    /// of their flags, each field from the child that touches it, and the sum
    /// of their credit deltas.
    pub fn from_branches(left: BranchWitnessValue, right: BranchWitnessValue) -> (r: Self)
        requires
            mergeable(left, right),
        ensures
            r == spec_from_branches(left, right),
            r.object_flags.wf(),
            r.address == left.address,
            r.object_flags.bits == left.object_flags.bits | right.object_flags.bits,
            r.credit_delta == left.credit_delta + right.credit_delta,
    {
        proof {
            assert(OLD_OWNER_FLAGS & !ALL_FLAGS == 0) by (bit_vector);
            assert(NEW_OWNER_FLAGS & !ALL_FLAGS == 0) by (bit_vector);
            assert(OLD_DATA_FLAGS & !ALL_FLAGS == 0) by (bit_vector);
            assert(NEW_DATA_FLAGS & !ALL_FLAGS == 0) by (bit_vector);
        }
        let old_owner = flag_set(OLD_OWNER_FLAGS);
        let new_owner = flag_set(NEW_OWNER_FLAGS);
        let old_data = flag_set(OLD_DATA_FLAGS);
        let new_data = flag_set(NEW_DATA_FLAGS);
        BranchWitnessValue {
            address: left.address,
            object_flags: left.object_flags.union(right.object_flags),
            old_owner: merge_branch_helper(
                left.old_owner,
                left.object_flags,
                right.old_owner,
                right.object_flags,
                old_owner,
            ),
            new_owner: merge_branch_helper(
                left.new_owner,
                left.object_flags,
                right.new_owner,
                right.object_flags,
                new_owner,
            ),
            old_data: merge_branch_helper(
                left.old_data,
                left.object_flags,
                right.old_data,
                right.object_flags,
                old_data,
            ),
            new_data: merge_branch_helper(
                left.new_data,
                left.object_flags,
                right.new_data,
                right.object_flags,
                new_data,
            ),
            credit_delta: left.credit_delta + right.credit_delta,
        }
    }
}

/// A flag is in a flags value exactly when its bit is set.
proof fn lemma_flag_in_bits(a: u8)
    requires
        a & !ALL_FLAGS == 0,
    ensures
        0 <= a < 32,
        forall|f: EventFlags| #[trigger] flag_in(a as int, f) == (a & f.spec_bit() != 0),
        has_old_owner(a as int) == (a & OLD_OWNER_FLAGS != 0),
        has_new_owner(a as int) == (a & NEW_OWNER_FLAGS != 0),
        flag_in(a as int, EventFlags::ReadFlag) == (a & OLD_DATA_FLAGS != 0),
        has_new_data(a as int) == (a & NEW_DATA_FLAGS != 0),
{
    assert(a & !ALL_FLAGS == 0 ==> a < 32) by (bit_vector);
    assert(((a / 1) % 2 == 1) == (a & 1 != 0)) by (bit_vector);
    assert(((a / 2) % 2 == 1) == (a & 2 != 0)) by (bit_vector);
    assert(((a / 4) % 2 == 1) == (a & 4 != 0)) by (bit_vector);
    assert(((a / 8) % 2 == 1) == (a & 8 != 0)) by (bit_vector);
    assert(((a / 16) % 2 == 1) == (a & 16 != 0)) by (bit_vector);
    assert((a & 0x19 != 0) == (a & 1 != 0 || a & 8 != 0 || a & 16 != 0)) by (bit_vector);
    assert((a & 0x18 != 0) == (a & 8 != 0 || a & 16 != 0)) by (bit_vector);
    assert((a & 0x03 != 0) == (a & 1 != 0 || a & 2 != 0)) by (bit_vector);
}

/// The bits of a union are those of either side.
proof fn lemma_union_bits(a: u8, b: u8)
    requires
        a & !ALL_FLAGS == 0,
        b & !ALL_FLAGS == 0,
    ensures
        (a | b) & !ALL_FLAGS == 0,
        forall|f: EventFlags|
            #[trigger] ((a | b) & f.spec_bit()) != 0 == (a & f.spec_bit() != 0 || b & f.spec_bit()
                != 0),
{
    assert(a & !ALL_FLAGS == 0 && b & !ALL_FLAGS == 0 ==> (a | b) & !ALL_FLAGS == 0)
        by (bit_vector);
    assert(((a | b) & 1 != 0) == (a & 1 != 0 || b & 1 != 0)) by (bit_vector);
    assert(((a | b) & 2 != 0) == (a & 2 != 0 || b & 2 != 0)) by (bit_vector);
    assert(((a | b) & 4 != 0) == (a & 4 != 0 || b & 4 != 0)) by (bit_vector);
    assert(((a | b) & 8 != 0) == (a & 8 != 0 || b & 8 != 0)) by (bit_vector);
    assert(((a | b) & 16 != 0) == (a & 16 != 0 || b & 16 != 0)) by (bit_vector);
}

/// The witness that `from_branches` makes of two children satisfies what a
/// (full) branch proves of them, when the children are of one address and
/// do not both write or both change the owner.
pub proof fn law_branch_accepts_merge(left: BranchWitnessValue, right: BranchWitnessValue)
    requires
        mergeable(left, right),
        left.object_flags.bits & right.object_flags.bits & OLD_OWNER_FLAGS == 0,
        fmod(left.address as int) == fmod(right.address as int),
    ensures
        branch_relation(
            spec_from_branches(left, right).delta_values(),
            left.delta_values(),
            right.delta_values(),
        ),
{
    let (a, b) = (left.object_flags.bits, right.object_flags.bits);
    let m = spec_from_branches(left, right);
    let (pd, ld, rd) = (m.delta_values(), left.delta_values(), right.delta_values());
    lemma_flag_in_bits(a);
    lemma_flag_in_bits(b);
    lemma_union_bits(a, b);
    lemma_flag_in_bits(a | b);
    assert(a & b & 0x19 == 0 ==> !(a & 1 != 0 && b & 1 != 0) && !(a & 8 != 0 && b & 8 != 0) && !(
    a & 16 != 0 && b & 16 != 0)) by (bit_vector);
    assert forall|f: EventFlags| #[trigger] flag_in(pd.object_flags, f) == (flag_in(
        ld.object_flags,
        f,
    ) || flag_in(rd.object_flags, f)) by {
        assert(((a | b) & f.spec_bit()) != 0 == (a & f.spec_bit() != 0 || b & f.spec_bit() != 0));
    }
    assert forall|f: EventFlags| is_once(f) implies !(#[trigger] flag_in(ld.object_flags, f)
        && flag_in(rd.object_flags, f)) by {}
    lemma_add_mod_noop(left.credit_delta as int, right.credit_delta as int, p());
}

/// The four values of public inputs at the positions.
pub open spec fn at4(idx: ArrayTargetIndex<TargetIndex, 4>, pis: Seq<u64>) -> [u64; 4] {
    [
        pis[idx.0[0].0 as int],
        pis[idx.0[1].0 as int],
        pis[idx.0[2].0 as int],
        pis[idx.0[3].0 as int],
    ]
}

/// Reads the four values of public inputs at the positions.
fn field4(idx: &ArrayTargetIndex<TargetIndex, 4>, pis: &[u64]) -> (r: [u64; 4])
    requires
        all_within(idx.0, pis@.len()),
    ensures
        r == at4(*idx, pis@),
{
    let r = idx.get_field(pis);
    assert(r =~= at4(*idx, pis@));
    r
}

impl BranchSubCircuit {
    /// The witness gives the targets of the branch the values of `v` and
    /// the partial flag.
    pub open spec fn witness_has(self, w: PartialWitness, v: BranchWitnessValue, partial: bool) -> bool {
        &&& witness_has_inputs(
            w,
            self.targets.inputs,
            field_of_u64(v.address),
            v.object_flags.bits as u64,
            v.old_owner,
            v.new_owner,
            v.old_data,
            v.new_data,
            of_int(v.credit_delta as int) as u64,
        )
        &&& w.has(self.targets.partial.target, if partial { 1u64 } else { 0u64 })
    }

    /// The targets of the branch, in the order they are given: the public
    /// inputs, then the partial flag.
    pub open spec fn branch_targets(self) -> Seq<Target> {
        input_targets(self.targets.inputs) + seq![self.targets.partial.target]
    }

    /// The values of the branch's targets.
    pub open spec fn branch_values(v: BranchWitnessValue, partial: bool) -> Seq<u64> {
        input_values(
            field_of_u64(v.address),
            v.object_flags.bits as u64,
            v.old_owner,
            v.new_owner,
            v.old_data,
            v.new_data,
            of_int(v.credit_delta as int) as u64,
        ) + seq![bit_of(partial)]
    }

    /// Gives the witness the values as they are.
    pub fn set_witness(&self, witness: &mut PartialWitness, partial: bool, v: BranchWitnessValue) -> (r:
        Result<(), WitnessConflict>)
        ensures
            r is Ok <==> old(witness).fits(self.branch_targets(), Self::branch_values(v, partial)),
            r is Ok ==> final(witness).extends(*old(witness)) && self.witness_has(
                *final(witness),
                v,
                partial,
            ),
    {
        let targets = &self.targets.inputs;
        let ghost (t1, v1) = (
            input_targets(*targets),
            input_values(
                field_of_u64(v.address),
                v.object_flags.bits as u64,
                v.old_owner,
                v.new_owner,
                v.old_data,
                v.new_data,
                of_int(v.credit_delta as int) as u64,
            ),
        );
        let ghost (t2, v2) = (seq![self.targets.partial.target], seq![bit_of(partial)]);
        let ghost w0 = *witness;
        proof {
            lemma_fits_prefix(w0, t1, v1, t2, v2);
        }
        set_inputs(
            witness,
            targets,
            u64_to_field(v.address),
            v.object_flags.bits as u64,
            v.old_owner,
            v.new_owner,
            v.old_data,
            v.new_data,
            from_i64(v.credit_delta),
        )?;
        let ghost w1 = *witness;
        proof {
            lemma_fits_after(w0, w1, t1, v1, t2, v2);
        }
        witness.set_bool_target(self.targets.partial, partial)?;
        Ok(())
    }

    /// Gives the witness the values of the left child's public inputs, the
    /// right child being absent (partial); the address follows from the
    /// child.
    pub fn set_witness_from_proof(&self, witness: &mut PartialWitness, left_inputs: &[u64]) -> (r:
        Result<(), WitnessConflict>)
        requires
            self.indices.within(left_inputs@.len()),
        ensures
            r is Ok <==> old(witness).fits(self.merged_targets(), self.from_proof_values(left_inputs@)),
            r is Ok ==> final(witness).wrote(
                *old(witness),
                self.merged_targets(),
                self.from_proof_values(left_inputs@),
            ),
            r is Ok && !self.merged_targets().contains(self.targets.inputs.address) ==> (
            final(witness).view_map().contains_key(self.targets.inputs.address)
                <==> old(witness).view_map().contains_key(self.targets.inputs.address)),
            r is Ok ==> {
                let (t, i, l) = (self.targets.inputs, self.indices, left_inputs@);
                &&& final(witness).extends(*old(witness))
                &&& final(witness).has(t.object_flags, l[i.object_flags.0 as int])
                &&& final(witness).has_arr(t.old_owner, at4(i.old_owner, l))
                &&& final(witness).has_arr(t.new_owner, at4(i.new_owner, l))
                &&& final(witness).has_arr(t.old_data, at4(i.old_data, l))
                &&& final(witness).has_arr(t.new_data, at4(i.new_data, l))
                &&& final(witness).has(t.credit_delta, l[i.credit_delta.0 as int])
                &&& final(witness).has(self.targets.partial.target, 1u64)
            },
    {
        let targets = &self.targets.inputs;
        let indices = &self.indices;
        let flags = indices.object_flags.get_field(left_inputs);
        let old_owner = field4(&indices.old_owner, left_inputs);
        let new_owner = field4(&indices.new_owner, left_inputs);
        let old_data = field4(&indices.old_data, left_inputs);
        let new_data = field4(&indices.new_data, left_inputs);
        let credits = indices.credit_delta.get_field(left_inputs);
        self.set_merged(witness, true, flags, old_owner, new_owner, old_data, new_data, credits)
    }

    /// The targets that a branch's values are given to, in order: the flags,
    /// the owners, the data, the credit delta and the partial flag.
    pub open spec fn merged_targets(self) -> Seq<Target> {
        let t = self.targets.inputs;
        seq![t.object_flags] + t.old_owner@ + t.new_owner@ + t.old_data@ + t.new_data@ + seq![
            t.credit_delta,
            self.targets.partial.target,
        ]
    }

    /// The values given to a branch's targets, in order.
    pub open spec fn merged_values(
        partial: bool,
        flags: u64,
        old_owner: [u64; 4],
        new_owner: [u64; 4],
        old_data: [u64; 4],
        new_data: [u64; 4],
        credits: u64,
    ) -> Seq<u64> {
        seq![flags] + old_owner@ + new_owner@ + old_data@ + new_data@ + seq![credits, bit_of(partial)]
    }

    /// The values given from the public inputs `l` of a left child alone:
    /// its values, and partial.
    pub open spec fn from_proof_values(self, l: Seq<u64>) -> Seq<u64> {
        let i = self.indices;
        Self::merged_values(
            true,
            l[i.object_flags.0 as int],
            at4(i.old_owner, l),
            at4(i.new_owner, l),
            at4(i.old_data, l),
            at4(i.new_data, l),
            l[i.credit_delta.0 as int],
        )
    }

    /// The values given from the public inputs `l` and `r` of two children:
    /// their merge, and not partial.
    pub open spec fn from_proofs_values(self, l: Seq<u64>, r: Seq<u64>) -> Seq<u64> {
        let i = self.indices;
        let (lf, rf) = (l[i.object_flags.0 as int], r[i.object_flags.0 as int]);
        let (lf8, rf8) = (lf as u8, rf as u8);
        Self::merged_values(
            false,
            field_of_u64(lf | rf),
            merged(at4(i.old_owner, l), lf8, at4(i.old_owner, r), rf8, OLD_OWNER_FLAGS),
            merged(at4(i.new_owner, l), lf8, at4(i.new_owner, r), rf8, NEW_OWNER_FLAGS),
            merged(at4(i.old_data, l), lf8, at4(i.old_data, r), rf8, OLD_DATA_FLAGS),
            merged(at4(i.new_data, l), lf8, at4(i.new_data, r), rf8, NEW_DATA_FLAGS),
            fmod(l[i.credit_delta.0 as int] + r[i.credit_delta.0 as int]) as u64,
        )
    }

    /// Gives the branch's targets (all but the address) their values.
    fn set_merged(
        &self,
        witness: &mut PartialWitness,
        partial: bool,
        flags: u64,
        old_owner: [u64; 4],
        new_owner: [u64; 4],
        old_data: [u64; 4],
        new_data: [u64; 4],
        credits: u64,
    ) -> (r: Result<(), WitnessConflict>)
        ensures
            r is Ok <==> old(witness).fits(
                self.merged_targets(),
                Self::merged_values(partial, flags, old_owner, new_owner, old_data, new_data, credits),
            ),
            r is Ok ==> final(witness).wrote(
                *old(witness),
                self.merged_targets(),
                Self::merged_values(partial, flags, old_owner, new_owner, old_data, new_data, credits),
            ),
            r is Ok ==> {
                let t = self.targets.inputs;
                &&& final(witness).extends(*old(witness))
                &&& final(witness).has(t.object_flags, flags)
                &&& final(witness).has_arr(t.old_owner, old_owner)
                &&& final(witness).has_arr(t.new_owner, new_owner)
                &&& final(witness).has_arr(t.old_data, old_data)
                &&& final(witness).has_arr(t.new_data, new_data)
                &&& final(witness).has(t.credit_delta, credits)
                &&& final(witness).has(self.targets.partial.target, bit_of(partial))
            },
    {
        let t = &self.targets.inputs;
        let ts: [Target; 19] = [
            t.object_flags,
            t.old_owner[0],
            t.old_owner[1],
            t.old_owner[2],
            t.old_owner[3],
            t.new_owner[0],
            t.new_owner[1],
            t.new_owner[2],
            t.new_owner[3],
            t.old_data[0],
            t.old_data[1],
            t.old_data[2],
            t.old_data[3],
            t.new_data[0],
            t.new_data[1],
            t.new_data[2],
            t.new_data[3],
            t.credit_delta,
            self.targets.partial.target,
        ];
        let vs: [u64; 19] = [
            flags,
            old_owner[0],
            old_owner[1],
            old_owner[2],
            old_owner[3],
            new_owner[0],
            new_owner[1],
            new_owner[2],
            new_owner[3],
            old_data[0],
            old_data[1],
            old_data[2],
            old_data[3],
            new_data[0],
            new_data[1],
            new_data[2],
            new_data[3],
            credits,
            if partial {
                1
            } else {
                0
            },
        ];
        proof {
            assert(ts@ =~= self.merged_targets());
            assert(vs@ =~= Self::merged_values(
                partial,
                flags,
                old_owner,
                new_owner,
                old_data,
                new_data,
                credits,
            ));
        }
        let r = witness.set_target_arr(&ts, &vs);
        proof {
            if r is Ok {
                assert(ts[0] == t.object_flags && ts[17] == t.credit_delta);
                assert(ts[18] == self.targets.partial.target);
                assert forall|k: int| 0 <= k < 4 implies {
                    &&& #[trigger] ts[1 + k] == t.old_owner[k] && vs[1 + k] == old_owner[k]
                    &&& ts[5 + k] == t.new_owner[k] && vs[5 + k] == new_owner[k]
                    &&& ts[9 + k] == t.old_data[k] && vs[9 + k] == old_data[k]
                    &&& ts[13 + k] == t.new_data[k] && vs[13 + k] == new_data[k]
                } by {}
            }
        }
        r
    }

    /// The public inputs of two children can be merged: their flags are flags
    /// (as the circuit reads them, the low byte), their credit deltas are
    /// field elements, and the fields both touch agree.
    pub open spec fn proofs_mergeable(self, l: Seq<u64>, r: Seq<u64>) -> bool {
        let i = self.indices;
        let (lf, rf) = (l[i.object_flags.0 as int] as u8, r[i.object_flags.0 as int] as u8);
        &&& i.within(l.len())
        &&& i.within(r.len())
        &&& lf & !ALL_FLAGS == 0
        &&& rf & !ALL_FLAGS == 0
        &&& is_canonical(l[i.credit_delta.0 as int])
        &&& is_canonical(r[i.credit_delta.0 as int])
        &&& consistent(at4(i.old_owner, l), lf, at4(i.old_owner, r), rf, OLD_OWNER_FLAGS)
        &&& consistent(at4(i.new_owner, l), lf, at4(i.new_owner, r), rf, NEW_OWNER_FLAGS)
        &&& consistent(at4(i.old_data, l), lf, at4(i.old_data, r), rf, OLD_DATA_FLAGS)
        &&& consistent(at4(i.new_data, l), lf, at4(i.new_data, r), rf, NEW_DATA_FLAGS)
    }

    /// Gives the witness the merge of the public inputs of both children:
    /// the union of the flags, each field from the child that touches it, the
    /// sum of the credit deltas, and not partial. The address follows from
    /// the children.
    pub fn set_witness_from_proofs(
        &self,
        witness: &mut PartialWitness,
        left_inputs: &[u64],
        right_inputs: &[u64],
    ) -> (r: Result<(), WitnessConflict>)
        requires
            self.proofs_mergeable(left_inputs@, right_inputs@),
        ensures
            r is Ok <==> old(witness).fits(
                self.merged_targets(),
                self.from_proofs_values(left_inputs@, right_inputs@),
            ),
            r is Ok ==> final(witness).wrote(
                *old(witness),
                self.merged_targets(),
                self.from_proofs_values(left_inputs@, right_inputs@),
            ),
            r is Ok && !self.merged_targets().contains(self.targets.inputs.address) ==> (
            final(witness).view_map().contains_key(self.targets.inputs.address)
                <==> old(witness).view_map().contains_key(self.targets.inputs.address)),
            r is Ok ==> {
                let (t, i, l, rr) = (
                    self.targets.inputs,
                    self.indices,
                    left_inputs@,
                    right_inputs@,
                );
                let (lf, rf) = (l[i.object_flags.0 as int], rr[i.object_flags.0 as int]);
                let (lf8, rf8) = (lf as u8, rf as u8);
                &&& final(witness).extends(*old(witness))
                &&& final(witness).has(t.object_flags, field_of_u64(lf | rf))
                &&& final(witness).has_arr(
                    t.old_owner,
                    merged(at4(i.old_owner, l), lf8, at4(i.old_owner, rr), rf8, OLD_OWNER_FLAGS),
                )
                &&& final(witness).has_arr(
                    t.new_owner,
                    merged(at4(i.new_owner, l), lf8, at4(i.new_owner, rr), rf8, NEW_OWNER_FLAGS),
                )
                &&& final(witness).has_arr(
                    t.old_data,
                    merged(at4(i.old_data, l), lf8, at4(i.old_data, rr), rf8, OLD_DATA_FLAGS),
                )
                &&& final(witness).has_arr(
                    t.new_data,
                    merged(at4(i.new_data, l), lf8, at4(i.new_data, rr), rf8, NEW_DATA_FLAGS),
                )
                &&& final(witness).has(
                    t.credit_delta,
                    fmod(l[i.credit_delta.0 as int] + rr[i.credit_delta.0 as int]) as u64,
                )
                &&& final(witness).has(self.targets.partial.target, 0u64)
            },
    {
        let targets = &self.targets.inputs;
        let indices = &self.indices;

        // Handle flags
        let left_flags = indices.object_flags.get_field(left_inputs);
        let right_flags = indices.object_flags.get_field(right_inputs);
        let flags = u64_to_field(left_flags | right_flags);
        let left_flags = flag_set(left_flags as u8);
        let right_flags = flag_set(right_flags as u8);

        // Setup the flags for each scenario
        proof {
            assert(OLD_OWNER_FLAGS & !ALL_FLAGS == 0) by (bit_vector);
            assert(NEW_OWNER_FLAGS & !ALL_FLAGS == 0) by (bit_vector);
            assert(OLD_DATA_FLAGS & !ALL_FLAGS == 0) by (bit_vector);
            assert(NEW_DATA_FLAGS & !ALL_FLAGS == 0) by (bit_vector);
        }
        let old_owner = flag_set(OLD_OWNER_FLAGS);
        let new_owner = flag_set(NEW_OWNER_FLAGS);
        let old_data = flag_set(OLD_DATA_FLAGS);
        let new_data = flag_set(NEW_DATA_FLAGS);

        // Get the object fields based on the flags
        let old_owner = merge_branch_helper(
            field4(&indices.old_owner, left_inputs),
            left_flags,
            field4(&indices.old_owner, right_inputs),
            right_flags,
            old_owner,
        );
        let new_owner = merge_branch_helper(
            field4(&indices.new_owner, left_inputs),
            left_flags,
            field4(&indices.new_owner, right_inputs),
            right_flags,
            new_owner,
        );
        let old_data = merge_branch_helper(
            field4(&indices.old_data, left_inputs),
            left_flags,
            field4(&indices.old_data, right_inputs),
            right_flags,
            old_data,
        );
        let new_data = merge_branch_helper(
            field4(&indices.new_data, left_inputs),
            left_flags,
            field4(&indices.new_data, right_inputs),
            right_flags,
            new_data,
        );

        // Handle the credits
        let left_credits = indices.credit_delta.get_field(left_inputs);
        let right_credits = indices.credit_delta.get_field(right_inputs);
        let credits = crate::field::add(left_credits, right_credits);

        // Both sides, so not partial
        self.set_merged(witness, false, flags, old_owner, new_owner, old_data, new_data, credits)
    }
}


impl BranchSubCircuit {
    /// The public inputs `pis` of a child hold the child's values `v` at the
    /// positions, the credit delta as a field element.
    pub open spec fn reads(self, pis: Seq<u64>, v: BranchWitnessValue) -> bool {
        let i = self.indices;
        &&& pis[i.object_flags.0 as int] == v.object_flags.bits as u64
        &&& at4(i.old_owner, pis) == v.old_owner
        &&& at4(i.new_owner, pis) == v.new_owner
        &&& at4(i.old_data, pis) == v.old_data
        &&& at4(i.new_data, pis) == v.new_data
        &&& pis[i.credit_delta.0 as int] == of_int(v.credit_delta as int)
    }
}

/// What a branch gives from the public inputs of two children is exactly
/// the merge (`spec_from_branches`) of the children's values: their flags'
/// union, each field from the child that touches it, the sum of their
/// credit deltas as a field element; and not partial.
pub proof fn law_from_proofs_merges(
    sc: BranchSubCircuit,
    l: Seq<u64>,
    r: Seq<u64>,
    vl: BranchWitnessValue,
    vr: BranchWitnessValue,
)
    requires
        sc.reads(l, vl),
        sc.reads(r, vr),
        i64::MIN <= vl.credit_delta + vr.credit_delta <= i64::MAX,
    ensures
        ({
            let m = spec_from_branches(vl, vr);
            sc.from_proofs_values(l, r) == BranchSubCircuit::merged_values(
                false,
                m.object_flags.bits as u64,
                m.old_owner,
                m.new_owner,
                m.old_data,
                m.new_data,
                of_int(m.credit_delta as int) as u64,
            )
        }),
{
    let (lf, rf) = (vl.object_flags.bits, vr.object_flags.bits);
    assert((lf as u64 | rf as u64) == ((lf | rf) as u64)) by (bit_vector);
    assert(((lf as u64) as u8) == lf) by (bit_vector);
    assert(((rf as u64) as u8) == rf) by (bit_vector);
    lemma_fmod_small(((lf | rf) as u64) as int);
    let (cl, cr) = (vl.credit_delta as int, vr.credit_delta as int);
    lemma_add_mod_noop(cl, cr, crate::field::p());
}

} // verus!
