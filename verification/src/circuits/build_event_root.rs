//! Circuits for proving events can be summarized to a commitment.
use vstd::prelude::*;

use crate::circuit::{
    bit_of, cap_height_ok, flagged_targets, flagged_values, given_targets, given_values, lemma_fits_after,
    lemma_fits_prefix, lemma_wrote_chain, CircuitBuilder, CommonCircuitData, Env, PartialWitness, Target,
    WitnessConflict,
};
use crate::event::{field_of_u64, u64_to_field, Event};
use crate::gadgets::{byte_decomposition, byte_wise_hash_event, hash_event, same_vals};
use crate::indices::all_within;
use crate::subcircuits::unpruned::PartialAllowed;
use crate::subcircuits::{propagate, unbounded, unpruned};

verus! {

/// The positions of the public inputs of a proof of an event root.
#[derive(Copy, Clone, PartialEq, Eq, Debug)]
pub struct Indices {
    pub hash: unpruned::PublicIndices,
    pub vm_hash: unpruned::PublicIndices,
    pub event_owner: propagate::PublicIndices<4>,
}

impl Indices {
    /// Every position is below `len`.
    pub open spec fn within(self, len: nat) -> bool {
        &&& self.hash.unpruned_hash.within(len)
        &&& self.vm_hash.unpruned_hash.within(len)
        &&& all_within(self.event_owner.values.0, len)
    }
}

/// A proof of an event root, by its public inputs, with their positions.
pub struct Proof {
    pub public_inputs: Vec<u64>,
    pub indices: Indices,
}

impl Proof {
    /// The rp-style hash of the events.
    pub fn hash(&self) -> (r: [u64; 4])
        requires
            self.indices.within(self.public_inputs@.len()),
        ensures
            forall|k: int|
                0 <= k < 4 ==> #[trigger] r[k] == self.public_inputs@[self.indices.hash.unpruned_hash.pos(k)],
    {
        self.indices.hash.unpruned_hash.get_field(self.public_inputs.as_slice())
    }

    /// The vm-style hash of the events.
    pub fn vm_hash(&self) -> (r: [u64; 4])
        requires
            self.indices.within(self.public_inputs@.len()),
        ensures
            forall|k: int|
                0 <= k < 4 ==> #[trigger] r[k] == self.public_inputs@[self.indices.vm_hash.unpruned_hash.pos(k)],
    {
        self.indices.vm_hash.unpruned_hash.get_field(self.public_inputs.as_slice())
    }

    /// The owner of the events.
    pub fn event_owner(&self) -> (r: [u64; 4])
        requires
            self.indices.within(self.public_inputs@.len()),
        ensures
            forall|k: int|
                0 <= k < 4 ==> #[trigger] r[k]
                    == self.public_inputs@[self.indices.event_owner.values.0[k].0 as int],
    {
        self.indices.event_owner.values.get_field(self.public_inputs.as_slice())
    }
}

pub struct LeafTargets {
    /// The event type.
    pub event_ty: Target,
    /// The event address.
    pub event_address: Target,
    /// The event value.
    pub event_value: [Target; 4],
}

/// The leaf circuit: the two hashes of one event, and its owner.
pub struct LeafCircuit {
    /// The recursion subcircuit: the branch circuit's verifier data.
    pub unbounded: unbounded::LeafSubCircuit,
    /// The rp-style merkle hash of all event fields.
    pub hash: unpruned::LeafSubCircuit,
    /// The vm-style merkle hash of all event fields.
    pub vm_hash: unpruned::LeafSubCircuit,
    /// The owner of this event propagated throughout this tree.
    pub event_owner: propagate::LeafSubCircuit<4>,
    /// The other event fields.
    pub targets: LeafTargets,
    /// The plan of the circuit.
    pub circuit: CircuitBuilder,
    /// The shape of the circuit's proofs, and the number that names it.
    pub common: CommonCircuitData,
}

/// The hash is the hash of the event's owner, kind, address and value, and
/// the vm hash the hash of the bytes of its kind, address and value.
pub open spec fn leaf_hashes(
    e: Env,
    t: LeafTargets,
    owner: [Target; 4],
    hash: [Target; 4],
    vm_hash: [Target; 4],
) -> bool {
    &&& forall|k: int|
        0 <= k < 4 ==> #[trigger] e.val(hash[k]) == e.hash(
            e.vals(owner@ + seq![t.event_ty, t.event_address] + t.event_value@),
        )[k]
    &&& exists|bytes: Seq<int>|
        byte_decomposition(e.vals(seq![t.event_ty, t.event_address] + t.event_value@), bytes)
            && forall|k: int| 0 <= k < 4 ==> #[trigger] e.val(vm_hash[k]) == e.hash(bytes)[k]
}

impl LeafCircuit {
    /// Plans the leaf circuit: the hash is the hash of the event's owner,
    /// kind, address and value, and the vm hash the hash of the bytes of its
    /// kind, address and value. The circuit is named `id`, and its verifier
    /// data has a cap of `2^cap_height` digests.
    #[verifier::rlimit(30)]
    pub fn new(cap_height: usize, id: usize) -> (r: Self)
        requires
            cap_height_ok(cap_height),
        ensures
            r.common.cap_height == cap_height,
            r.common.id == id,
            r.unbounded.in_leaf(r.circuit.public_inputs@, r.common),
            r.hash.indices.locates(r.circuit.public_inputs@, r.hash.targets.inputs.unpruned_hash),
            r.vm_hash.indices.locates(r.circuit.public_inputs@, r.vm_hash.targets.inputs.unpruned_hash),
            r.event_owner.indices.locates(r.circuit.public_inputs@, r.event_owner.targets.inputs.values),
            forall|e: Env|
                e.valid() && #[trigger] r.circuit.sat(e) ==> leaf_hashes(
                    e,
                    r.targets,
                    r.event_owner.targets.inputs.values,
                    r.hash.targets.inputs.unpruned_hash.elements,
                    r.vm_hash.targets.inputs.unpruned_hash.elements,
                ),
    {
        let mut builder = CircuitBuilder::new();
        let hash_inputs = unpruned::default(&mut builder);
        let vm_hash_inputs = unpruned::default(&mut builder);
        let event_owner_inputs = propagate::default::<4>(&mut builder);
        let unbounded_inputs = unbounded::default(&mut builder, cap_height);
        let ghost registered = builder.public_inputs@;

        let unbounded_targets = unbounded_inputs.build_leaf(&mut builder);
        let hash_targets = hash_inputs.build_leaf(&mut builder);
        let vm_hash_targets = vm_hash_inputs.build_leaf(&mut builder);
        let event_owner_targets = event_owner_inputs.build_leaf(&mut builder);

        let event_ty = builder.add_virtual_target();
        let event_address = builder.add_virtual_target();
        let event_value = builder.add_virtual_target_arr::<4>();
        let targets = LeafTargets { event_ty, event_address, event_value };

        let event_hash = hash_event(
            &mut builder,
            event_owner_targets.inputs.values,
            targets.event_ty,
            targets.event_address,
            targets.event_value,
        );
        let event_vm_hash = byte_wise_hash_event(
            &mut builder,
            targets.event_ty,
            targets.event_address,
            targets.event_value,
        );
        let ghost b0 = builder;

        builder.connect_hashes(hash_targets.inputs.unpruned_hash, event_hash);
        builder.connect_hashes(vm_hash_targets.inputs.unpruned_hash, event_vm_hash);

        let public_inputs = builder.public_inputs.clone();
        proof {
            assert(public_inputs@ == registered);
            assert forall|k: int| 0 <= k < 4 implies public_inputs@.contains(
                #[trigger] hash_targets.inputs.unpruned_hash.elements[k],
            ) by {
                assert(public_inputs@[k] == hash_targets.inputs.unpruned_hash.elements[k]);
            }
            assert forall|k: int| 0 <= k < 4 implies public_inputs@.contains(
                #[trigger] vm_hash_targets.inputs.unpruned_hash.elements[k],
            ) by {
                assert(public_inputs@[4 + k] == vm_hash_targets.inputs.unpruned_hash.elements[k]);
            }
            assert forall|k: int| 0 <= k < 4 implies public_inputs@.contains(
                #[trigger] event_owner_targets.inputs.values[k],
            ) by {
                assert(public_inputs@[8 + k] == event_owner_targets.inputs.values[k]);
            }
            let owner = event_owner_targets.inputs.values;
            assert forall|e: Env| e.valid() && #[trigger] builder.sat(e) implies leaf_hashes(
                e,
                targets,
                owner,
                hash_targets.inputs.unpruned_hash.elements,
                vm_hash_targets.inputs.unpruned_hash.elements,
            ) by {
                assert(b0.sat(e));
                assert forall|k: int| 0 <= k < 4 implies #[trigger] e.val(
                    hash_targets.inputs.unpruned_hash.elements[k],
                ) == e.hash(e.vals(owner@ + seq![event_ty, event_address] + event_value@))[k] by {
                    assert(e.val(hash_targets.inputs.unpruned_hash.elements[k]) == e.val(
                        event_hash.elements[k],
                    ));
                }
                let bytes = choose|bytes: Seq<int>|
                    byte_decomposition(e.vals(seq![event_ty, event_address] + event_value@), bytes)
                        && forall|k: int|
                        0 <= k < 4 ==> #[trigger] e.val(event_vm_hash.elements[k]) == e.hash(
                            bytes,
                        )[k];
                assert forall|k: int| 0 <= k < 4 implies #[trigger] e.val(
                    vm_hash_targets.inputs.unpruned_hash.elements[k],
                ) == e.hash(bytes)[k] by {
                    assert(e.val(vm_hash_targets.inputs.unpruned_hash.elements[k]) == e.val(
                        event_vm_hash.elements[k],
                    ));
                }
            }
        }
        let unbounded = unbounded_targets.build(public_inputs.as_slice());
        let hash = hash_targets.build(public_inputs.as_slice());
        let vm_hash = vm_hash_targets.build(public_inputs.as_slice());
        let event_owner = event_owner_targets.build(public_inputs.as_slice());
        let common = CommonCircuitData { num_public_inputs: builder.num_public_inputs(), cap_height, id };
        LeafCircuit { unbounded, hash, vm_hash, event_owner, targets, circuit: builder, common }
    }

    /// The witness gives the event's fields.
    pub open spec fn witness_has(self, w: PartialWitness, event: Event) -> bool {
        &&& w.has_arr(self.event_owner.targets.inputs.values, event.owner)
        &&& w.has(self.targets.event_ty, event.ty.spec_code())
        &&& w.has(self.targets.event_address, field_of_u64(event.address))
        &&& w.has_arr(self.targets.event_value, event.value)
    }

    /// The targets of the event's fields, in the order they are given:
    /// owner, kind, address, value.
    pub open spec fn event_targets(self) -> Seq<Target> {
        self.event_owner.targets.inputs.values@ + seq![self.targets.event_ty, self.targets.event_address]
            + self.targets.event_value@
    }

    /// The values of the event's fields, in the order they are given.
    pub open spec fn event_values(event: Event) -> Seq<u64> {
        event.owner@ + seq![event.ty.spec_code(), field_of_u64(event.address)] + event.value@
    }

    /// Gives the witness the event; both hashes follow from it.
    pub fn set_witness(&self, inputs: &mut PartialWitness, event: Event) -> (r: Result<
        (),
        WitnessConflict,
    >)
        ensures
            r is Ok <==> old(inputs).fits(self.event_targets(), Self::event_values(event)),
            r is Ok ==> final(inputs).wrote(*old(inputs), self.event_targets(), Self::event_values(event)),
            r is Ok ==> final(inputs).extends(*old(inputs)) && self.witness_has(*final(inputs), event),
    {
        let o = &self.event_owner.targets.inputs.values;
        let t = &self.targets;
        let ts: [Target; 10] = [
            o[0],
            o[1],
            o[2],
            o[3],
            t.event_ty,
            t.event_address,
            t.event_value[0],
            t.event_value[1],
            t.event_value[2],
            t.event_value[3],
        ];
        let vs: [u64; 10] = [
            event.owner[0],
            event.owner[1],
            event.owner[2],
            event.owner[3],
            event.ty.code(),
            u64_to_field(event.address),
            event.value[0],
            event.value[1],
            event.value[2],
            event.value[3],
        ];
        assert(ts@ =~= self.event_targets());
        assert(vs@ =~= Self::event_values(event));
        let r = inputs.set_target_arr(&ts, &vs);
        proof {
            if r is Ok {
                assert forall|k: int| #![trigger o[k]] 0 <= k < 4 implies inputs.has(o[k], event.owner[k]) by {
                    assert(ts[k] == o[k] && vs[k] == event.owner[k]);
                }
                assert forall|k: int| #![trigger t.event_value[k]] 0 <= k < 4 implies inputs.has(
                    t.event_value[k],
                    event.value[k],
                ) by {
                    assert(ts[6 + k] == t.event_value[k] && vs[6 + k] == event.value[k]);
                }
                assert(ts[4] == t.event_ty && ts[5] == t.event_address);
            }
        }
        r
    }

    /// Gives the witness the event and, when given, its hashes.
    pub fn set_witness_unsafe(
        &self,
        inputs: &mut PartialWitness,
        event: Event,
        hash: Option<[u64; 4]>,
        vm_hash: Option<[u64; 4]>,
    ) -> (r: Result<(), WitnessConflict>)
        ensures
            r is Ok <==> old(inputs).fits(
                given_targets(hash is Some, self.hash.targets.inputs.unpruned_hash.elements@)
                    + given_targets(vm_hash is Some, self.vm_hash.targets.inputs.unpruned_hash.elements@)
                    + self.event_targets(),
                given_values(hash) + given_values(vm_hash) + Self::event_values(event),
            ),
            r is Ok ==> final(inputs).extends(*old(inputs)) && self.witness_has(*final(inputs), event),
            r is Ok ==> (hash matches Some(h) ==> final(inputs).has_arr(
                self.hash.targets.inputs.unpruned_hash.elements,
                h,
            )),
            r is Ok ==> (vm_hash matches Some(h) ==> final(inputs).has_arr(
                self.vm_hash.targets.inputs.unpruned_hash.elements,
                h,
            )),
    {
        let ghost (t1, v1) = (
            given_targets(hash is Some, self.hash.targets.inputs.unpruned_hash.elements@),
            given_values(hash),
        );
        let ghost (t2, v2) = (
            given_targets(vm_hash is Some, self.vm_hash.targets.inputs.unpruned_hash.elements@),
            given_values(vm_hash),
        );
        let ghost (t3, v3) = (self.event_targets(), Self::event_values(event));
        let ghost w0 = *inputs;
        proof {
            lemma_fits_prefix(w0, t1 + t2, v1 + v2, t3, v3);
            lemma_fits_prefix(w0, t1, v1, t2, v2);
        }
        if let Some(hash) = hash {
            self.hash.set_witness(inputs, hash)?;
        }
        let ghost w1 = *inputs;
        proof {
            lemma_fits_after(w0, w1, t1, v1, t2, v2);
        }
        if let Some(vm_hash) = vm_hash {
            self.vm_hash.set_witness(inputs, vm_hash)?;
        }
        let ghost w2 = *inputs;
        proof {
            lemma_wrote_chain(w0, w1, w2, t1, v1, t2, v2);
            lemma_fits_after(w0, w2, t1 + t2, v1 + v2, t3, v3);
        }
        let r = self.set_witness(inputs, event);
        proof {
            if r is Ok {
                lemma_wrote_chain(w0, w2, *inputs, t1 + t2, v1 + v2, t3, v3);
            }
        }
        r
    }
}

/// The branch circuit: the two hashes of the events of two subtrees, hashed
/// together, with the right subtree absent or present for both alike, and
/// one owner for all events; both children are verified.
pub struct BranchCircuit {
    /// The recursion subcircuit: the children's proofs and their verification.
    pub unbounded: unbounded::BranchSubCircuit,
    /// The merkle hash of all events.
    pub hash: unpruned::BranchSubCircuit<PartialAllowed>,
    /// The vm-style merkle hash of all events.
    pub vm_hash: unpruned::BranchSubCircuit<PartialAllowed>,
    /// The owner of the events propagated throughout this tree.
    pub event_owner: propagate::BranchSubCircuit<4>,
    /// The plan of the circuit.
    pub circuit: CircuitBuilder,
}

impl BranchCircuit {
    /// Plans the branch circuit over children of the leaf's shape: both
    /// children verify, against the leaf circuit's verifier data or this
    /// circuit's own, and carry this circuit's verifier data (see
    /// `unbounded::verifies_children`); the hash hashes the children's hashes
    /// element by element and the vm hash byte by byte, both on one partial
    /// flag (see `unpruned::extended_branch_hash`); the owner is the
    /// children's.
    #[verifier::rlimit(30)]
    pub fn new(leaf: &LeafCircuit) -> (r: Self)
        requires
            leaf.hash.indices.unpruned_hash.within(leaf.circuit.public_inputs@.len()),
            leaf.vm_hash.indices.unpruned_hash.within(leaf.circuit.public_inputs@.len()),
            all_within(leaf.event_owner.indices.values.0, leaf.circuit.public_inputs@.len()),
            leaf.unbounded.in_leaf(leaf.circuit.public_inputs@, leaf.common),
        ensures
            r.hash.indices.locates(r.circuit.public_inputs@, r.hash.targets.inputs.unpruned_hash),
            r.vm_hash.indices.locates(r.circuit.public_inputs@, r.vm_hash.targets.inputs.unpruned_hash),
            r.event_owner.indices.locates(r.circuit.public_inputs@, r.event_owner.targets.inputs.values),
            r.unbounded.indices.verifier.locates(r.circuit.public_inputs@, r.unbounded.targets.inputs.verifier),
            r.unbounded.targets.left_proof.public_inputs@.len() == leaf.circuit.public_inputs@.len(),
            r.unbounded.targets.right_proof.public_inputs@.len() == leaf.circuit.public_inputs@.len(),
            unpruned::reads_children(
                r.hash.targets,
                leaf.hash.indices,
                r.unbounded.targets.left_proof.public_inputs@,
                r.unbounded.targets.right_proof.public_inputs@,
            ),
            unpruned::reads_children(
                r.vm_hash.targets,
                leaf.vm_hash.indices,
                r.unbounded.targets.left_proof.public_inputs@,
                r.unbounded.targets.right_proof.public_inputs@,
            ),
            forall|k: int|
                0 <= k < 4 ==> #[trigger] r.event_owner.targets.left.values[k]
                    == r.unbounded.targets.left_proof.public_inputs@[leaf.event_owner.indices.values.0[k].0 as int],
            forall|k: int|
                0 <= k < 4 ==> #[trigger] r.event_owner.targets.right.values[k]
                    == r.unbounded.targets.right_proof.public_inputs@[leaf.event_owner.indices.values.0[k].0 as int],
            forall|e: Env|
                e.valid() && #[trigger] r.circuit.sat(e) ==> unbounded::verifies_children(
                    e,
                    r.unbounded.targets,
                    leaf.unbounded.indices,
                    leaf.common.id,
                ),
            forall|e: Env|
                e.valid() && #[trigger] r.circuit.sat(e) ==> {
                    &&& unpruned::extended_branch_hash(e, false, r.hash.targets)
                    &&& unpruned::extended_branch_hash(e, true, r.vm_hash.targets)
                    &&& e.val(r.hash.targets.extension.partial.target) == e.val(
                        r.vm_hash.targets.extension.partial.target,
                    )
                    &&& same_vals(
                        e,
                        r.event_owner.targets.inputs.values,
                        r.event_owner.targets.left.values,
                    )
                    &&& same_vals(
                        e,
                        r.event_owner.targets.left.values,
                        r.event_owner.targets.right.values,
                    )
                },
    {
        let mut builder = CircuitBuilder::new();
        let hash_inputs = unpruned::default(&mut builder);
        let vm_hash_inputs = unpruned::default(&mut builder);
        let event_owner_inputs = propagate::default::<4>(&mut builder);
        let unbounded_inputs = unbounded::default(&mut builder, leaf.common.cap_height);
        let ghost registered = builder.public_inputs@;

        let unbounded_targets = unbounded_inputs.build_branch(&mut builder, &leaf.unbounded, &leaf.common);
        let ghost bu = builder;
        let left_proof = &unbounded_targets.left_proof;
        let right_proof = &unbounded_targets.right_proof;

        let hash_targets = hash_inputs.build_extended_branch(
            &mut builder,
            &leaf.hash.indices,
            left_proof,
            right_proof,
            false,
        );
        let ghost bh = builder;
        let vm_hash_targets = vm_hash_inputs.build_extended_branch(
            &mut builder,
            &leaf.vm_hash.indices,
            left_proof,
            right_proof,
            true,
        );
        let ghost bvm = builder;
        let event_owner_targets = event_owner_inputs.build_branch(
            &mut builder,
            &leaf.event_owner.indices,
            left_proof,
            right_proof,
        );
        let ghost b0 = builder;

        builder.connect(
            hash_targets.extension.partial.target,
            vm_hash_targets.extension.partial.target,
        );

        let public_inputs = builder.public_inputs.clone();
        proof {
            assert(public_inputs@ == registered);
            assert forall|k: int| 0 <= k < 4 implies public_inputs@.contains(
                #[trigger] hash_targets.inputs.unpruned_hash.elements[k],
            ) by {
                assert(public_inputs@[k] == hash_targets.inputs.unpruned_hash.elements[k]);
            }
            assert forall|k: int| 0 <= k < 4 implies public_inputs@.contains(
                #[trigger] vm_hash_targets.inputs.unpruned_hash.elements[k],
            ) by {
                assert(public_inputs@[4 + k] == vm_hash_targets.inputs.unpruned_hash.elements[k]);
            }
            assert forall|k: int| 0 <= k < 4 implies public_inputs@.contains(
                #[trigger] event_owner_targets.inputs.values[k],
            ) by {
                assert(public_inputs@[8 + k] == event_owner_targets.inputs.values[k]);
            }
            assert forall|e: Env| e.valid() && #[trigger] builder.sat(e) implies same_vals(
                e,
                event_owner_targets.inputs.values,
                event_owner_targets.left.values,
            ) && same_vals(e, event_owner_targets.left.values, event_owner_targets.right.values)
                by {
                assert(b0.sat(e));
            }
            assert forall|e: Env| e.valid() && #[trigger] builder.sat(e) implies unbounded::verifies_children(
                e,
                unbounded_targets,
                leaf.unbounded.indices,
                leaf.common.id,
            ) && unpruned::extended_branch_hash(e, false, hash_targets) && unpruned::extended_branch_hash(
                e,
                true,
                vm_hash_targets,
            ) by {
                assert(b0.sat(e));
                assert(bvm.sat(e));
                assert(bh.sat(e));
                assert(bu.sat(e));
            }
        }
        let unbounded = unbounded_targets.build(public_inputs.as_slice());
        let hash = hash_targets.build(&leaf.hash.indices, public_inputs.as_slice());
        let vm_hash = vm_hash_targets.build(&leaf.vm_hash.indices, public_inputs.as_slice());
        let event_owner = event_owner_targets.build(
            &leaf.event_owner.indices,
            public_inputs.as_slice(),
        );
        BranchCircuit { unbounded, hash, vm_hash, event_owner, circuit: builder }
    }

    /// Gives the witness whether the right child is absent, for both hashes.
    pub fn set_witness(&self, inputs: &mut PartialWitness, partial: bool) -> (r: Result<
        (),
        WitnessConflict,
    >)
        ensures
            r is Ok <==> old(inputs).fits(
                seq![
                    self.hash.targets.extension.partial.target,
                    self.vm_hash.targets.extension.partial.target,
                ],
                seq![bit_of(partial), bit_of(partial)],
            ),
            r is Ok ==> {
                let v = if partial { 1u64 } else { 0u64 };
                &&& final(inputs).extends(*old(inputs))
                &&& final(inputs).has(self.hash.targets.extension.partial.target, v)
                &&& final(inputs).has(self.vm_hash.targets.extension.partial.target, v)
            },
    {
        let ghost (t1, v1) = (seq![self.hash.targets.extension.partial.target], seq![bit_of(partial)]);
        let ghost (t2, v2) = (seq![self.vm_hash.targets.extension.partial.target], seq![bit_of(partial)]);
        let ghost w0 = *inputs;
        proof {
            lemma_fits_prefix(w0, t1, v1, t2, v2);
            assert(t1 + t2 =~= seq![
                self.hash.targets.extension.partial.target,
                self.vm_hash.targets.extension.partial.target,
            ]);
            assert(v1 + v2 =~= seq![bit_of(partial), bit_of(partial)]);
        }
        self.hash.set_witness(inputs, partial)?;
        let ghost w1 = *inputs;
        proof {
            lemma_fits_after(w0, w1, t1, v1, t2, v2);
        }
        self.vm_hash.set_witness(inputs, partial)?;
        Ok(())
    }

    /// Gives the witness both hashes as they are, whether the right child is
    /// absent, and, when given, the owner of the events.
    pub fn set_witness_unsafe(
        &self,
        inputs: &mut PartialWitness,
        partial: bool,
        hash: [u64; 4],
        vm_hash: [u64; 4],
        event_owner: Option<[u64; 4]>,
    ) -> (r: Result<(), WitnessConflict>)
        ensures
            r is Ok <==> old(inputs).fits(
                flagged_targets(self.hash.targets.extension.partial, self.hash.targets.inputs.unpruned_hash)
                    + flagged_targets(
                    self.vm_hash.targets.extension.partial,
                    self.vm_hash.targets.inputs.unpruned_hash,
                ) + given_targets(event_owner is Some, self.event_owner.targets.inputs.values@),
                flagged_values(partial, hash) + flagged_values(partial, vm_hash) + given_values(
                    event_owner,
                ),
            ),
            r is Ok ==> {
                let v = if partial { 1u64 } else { 0u64 };
                &&& final(inputs).view_map()[self.hash.targets.extension.partial.target] == v
                &&& final(inputs).view_map()[self.vm_hash.targets.extension.partial.target] == v
                &&& forall|k: int|
                    0 <= k < 4 ==> final(inputs).view_map()[#[trigger] self.vm_hash.targets.inputs.unpruned_hash.elements[k]]
                        == vm_hash[k]
                &&& event_owner matches Some(o) ==> forall|k: int|
                    0 <= k < 4 ==> final(inputs).view_map()[#[trigger] self.event_owner.targets.inputs.values[k]]
                        == o[k]
            },
    {
        let ghost (t1, v1) = (
            flagged_targets(self.hash.targets.extension.partial, self.hash.targets.inputs.unpruned_hash),
            flagged_values(partial, hash),
        );
        let ghost (t2, v2) = (
            flagged_targets(self.vm_hash.targets.extension.partial, self.vm_hash.targets.inputs.unpruned_hash),
            flagged_values(partial, vm_hash),
        );
        let ghost (t3, v3) = (
            given_targets(event_owner is Some, self.event_owner.targets.inputs.values@),
            given_values(event_owner),
        );
        let ghost w0 = *inputs;
        proof {
            lemma_fits_prefix(w0, t1 + t2, v1 + v2, t3, v3);
            lemma_fits_prefix(w0, t1, v1, t2, v2);
        }
        self.hash.set_witness_unsafe(inputs, hash, partial)?;
        let ghost w1 = *inputs;
        proof {
            lemma_fits_after(w0, w1, t1, v1, t2, v2);
        }
        self.vm_hash.set_witness_unsafe(inputs, vm_hash, partial)?;
        let ghost w2 = *inputs;
        proof {
            lemma_wrote_chain(w0, w1, w2, t1, v1, t2, v2);
            lemma_fits_after(w0, w2, t1 + t2, v1 + v2, t3, v3);
        }
        if let Some(event_owner) = event_owner {
            self.event_owner.set_witness(inputs, event_owner)?;
        }
        proof {
            let t = self.hash.targets.extension.partial.target;
            assert(w1.view_map().contains_key(t));
            assert(w2.view_map().contains_key(t));
            let u = self.vm_hash.targets.extension.partial.target;
            assert(w2.view_map().contains_key(u));
            assert forall|k: int| 0 <= k < 4 implies inputs.view_map()[#[trigger] self.vm_hash.targets.inputs.unpruned_hash.elements[k]]
                == vm_hash[k] by {
                assert(w2.view_map().contains_key(self.vm_hash.targets.inputs.unpruned_hash.elements[k]));
            }
        }
        Ok(())
    }
}

} // verus!
