//! Circuits for proving updates to the state tree.
use vstd::prelude::*;

use crate::circuit::{
    digest, flagged_targets, flagged_values, given_targets, given_values, lemma_fits_after, lemma_fits_prefix, lemma_wrote_chain,
    or_zero, lemma_digest_vals, cap_height_ok, BoolTarget, CircuitBuilder, CommonCircuitData, Env, HashOutTarget,
    PartialWitness, Target, WitnessConflict,
};
use crate::field::{is_canonical, lemma_fmod_small, p};
use crate::gadgets::{at_least_one_true, hashes_equal, same_vals};
use crate::subcircuits::{bounded, summarized, unpruned, verify_address};

verus! {

/// The address of a node of a state update: present, absent, or implied by
/// the children.
#[derive(Clone, Copy, PartialEq, Eq, Debug, Structural)]
pub enum AddressPresent {
    Present(u64),
    Absent,
    Implicit,
}

impl From<()> for AddressPresent {
    /// No address given: it is implied by the children.
    fn from(_value: ()) -> (r: Self) {
        Self::Implicit
    }
}

impl vstd::std_specs::convert::FromSpecImpl<()> for AddressPresent {
    open spec fn obeys_from_spec() -> bool {
        true
    }

    open spec fn from_spec(v: ()) -> Self {
        AddressPresent::Implicit
    }
}

impl From<Option<u64>> for AddressPresent {
    /// An optional address: present or absent.
    fn from(value: Option<u64>) -> (r: Self) {
        match value {
            Some(a) => Self::Present(a),
            None => Self::Absent,
        }
    }
}

impl vstd::std_specs::convert::FromSpecImpl<Option<u64>> for AddressPresent {
    open spec fn obeys_from_spec() -> bool {
        true
    }

    open spec fn from_spec(v: Option<u64>) -> Self {
        match v {
            Some(a) => AddressPresent::Present(a),
            None => AddressPresent::Absent,
        }
    }
}

impl From<u64> for AddressPresent {
    /// A present address.
    fn from(value: u64) -> (r: Self) {
        Self::Present(value)
    }
}

impl vstd::std_specs::convert::FromSpecImpl<u64> for AddressPresent {
    open spec fn obeys_from_spec() -> bool {
        true
    }

    open spec fn from_spec(v: u64) -> Self {
        AddressPresent::Present(v)
    }
}

/// The positions of the public inputs of a proof of a state update.
#[derive(Copy, Clone, PartialEq, Eq, Debug)]
pub struct Indices {
    pub summarized: summarized::PublicIndices,
    pub old: unpruned::PublicIndices,
    pub new: unpruned::PublicIndices,
    pub address: verify_address::PublicIndices,
}

impl Indices {
    /// Every position is below `len`.
    pub open spec fn within(self, len: nat) -> bool {
        &&& self.summarized.within(len)
        &&& self.old.unpruned_hash.within(len)
        &&& self.new.unpruned_hash.within(len)
        &&& self.address.within(len)
    }
}

/// A proof of a state update, by its public inputs, with their positions.
pub struct Proof {
    pub public_inputs: Vec<u64>,
    pub indices: Indices,
}

impl Proof {
    /// Whether the summary is present.
    pub fn summary_present(&self) -> (r: bool)
        requires
            self.indices.within(self.public_inputs@.len()),
        ensures
            r == (self.public_inputs@[self.indices.summarized.summary_hash_present.0.0 as int] == 1),
    {
        self.indices.summarized.summary_hash_present.get_field(self.public_inputs.as_slice())
    }

    /// The summary of the update.
    pub fn summary(&self) -> (r: [u64; 4])
        requires
            self.indices.within(self.public_inputs@.len()),
        ensures
            forall|k: int|
                0 <= k < 4 ==> #[trigger] r[k] == self.public_inputs@[self.indices.summarized.summary_hash.pos(k)],
    {
        self.indices.summarized.summary_hash.get_field(self.public_inputs.as_slice())
    }

    /// The old root.
    pub fn old_root(&self) -> (r: [u64; 4])
        requires
            self.indices.within(self.public_inputs@.len()),
        ensures
            forall|k: int|
                0 <= k < 4 ==> #[trigger] r[k] == self.public_inputs@[self.indices.old.unpruned_hash.pos(k)],
    {
        self.indices.old.unpruned_hash.get_field(self.public_inputs.as_slice())
    }

    /// The new root.
    pub fn new(&self) -> (r: [u64; 4])
        requires
            self.indices.within(self.public_inputs@.len()),
        ensures
            forall|k: int|
                0 <= k < 4 ==> #[trigger] r[k] == self.public_inputs@[self.indices.new.unpruned_hash.pos(k)],
    {
        self.indices.new.unpruned_hash.get_field(self.public_inputs.as_slice())
    }

    /// Whether the address is present: the flag at the position of the
    /// node's presence.
    pub fn address_present(&self) -> (r: bool)
        requires
            self.indices.within(self.public_inputs@.len()),
        ensures
            r == (self.public_inputs@[self.indices.address.node_present.0.0 as int] == 1),
    {
        self.indices.address.node_present.get_field(self.public_inputs.as_slice())
    }

    /// The address of the node.
    pub fn address(&self) -> (r: u64)
        requires
            self.indices.within(self.public_inputs@.len()),
        ensures
            r == self.public_inputs@[self.indices.address.node_address.0 as int],
    {
        self.indices.address.node_address.get_field(self.public_inputs.as_slice())
    }
}

/// The leaf circuit: the update of one object, from its old hash to its new
/// hash, summarized (when present) by the hash of its address and both
/// hashes.
pub struct LeafCircuit {
    pub summarized: summarized::LeafSubCircuit,
    pub old: unpruned::LeafSubCircuit,
    pub new: unpruned::LeafSubCircuit,
    pub address: verify_address::LeafSubCircuit,
    /// The plan of the circuit.
    pub circuit: CircuitBuilder,
    /// The shape of the circuit's proofs, and the number that names it.
    pub common: CommonCircuitData,
}

/// What a leaf proves: the object is summarized exactly when its address is
/// present (not `-1`), an unsummarized object is unchanged, and the summary
/// is the hash of the address and the old and new hashes, or ZERO.
pub open spec fn leaf_update(
    e: Env,
    present: BoolTarget,
    address: Target,
    old: HashOutTarget,
    new: HashOutTarget,
    summary: HashOutTarget,
) -> bool {
    let observed = digest(e, seq![e.val(address)] + e.vals(old.elements@) + e.vals(new.elements@));
    &&& e.is_bool(present.target)
    &&& e.truth(present.target) <==> e.val(address) != p() - 1
    &&& e.truth(present.target) || same_vals(e, old.elements, new.elements)
    &&& forall|k: int|
        0 <= k < 4 ==> #[trigger] e.val(summary.elements[k]) == if e.truth(present.target) {
            observed[k]
        } else {
            0
        }
}

/// The values of a concatenation are the concatenation of the values.
proof fn lemma_vals_concat(e: Env, a: Seq<Target>, b: Seq<Target>)
    ensures
        e.vals(a + b) == e.vals(a) + e.vals(b),
{
    assert(e.vals(a + b) =~= e.vals(a) + e.vals(b));
}

impl LeafCircuit {
    /// Plans the leaf circuit, named `id`, whose verifier data has a cap of
    /// `2^cap_height` digests: see `leaf_update`.
    #[verifier::rlimit(40)]
    pub fn new(cap_height: usize, id: usize) -> (r: Self)
        requires
            cap_height_ok(cap_height),
        ensures
            r.common == (CommonCircuitData {
                num_public_inputs: r.circuit.public_inputs@.len() as usize,
                cap_height,
                id,
            }),
            r.summarized.indices.within(r.circuit.public_inputs@.len()),
            r.circuit.public_inputs@[r.summarized.indices.summary_hash_present.0.0 as int]
                == r.summarized.targets.inputs.summary_hash_present.target,
            forall|k: int|
                0 <= k < 4 ==> r.circuit.public_inputs@[#[trigger] r.summarized.indices.summary_hash.pos(k)]
                    == r.summarized.targets.inputs.summary_hash.elements[k],
            r.old.indices.locates(r.circuit.public_inputs@, r.old.targets.inputs.unpruned_hash),
            r.new.indices.locates(r.circuit.public_inputs@, r.new.targets.inputs.unpruned_hash),
            r.address.indices.within(r.circuit.public_inputs@.len()),
            r.circuit.public_inputs@[r.address.indices.node_present.0.0 as int]
                == r.address.targets.node_present.target,
            r.circuit.public_inputs@[r.address.indices.node_address.0 as int]
                == r.address.targets.node_address,
            forall|e: Env|
                e.valid() && #[trigger] r.circuit.sat(e) ==> leaf_update(
                    e,
                    r.summarized.targets.inputs.summary_hash_present,
                    r.address.targets.node_address,
                    r.old.targets.inputs.unpruned_hash,
                    r.new.targets.inputs.unpruned_hash,
                    r.summarized.targets.inputs.summary_hash,
                ),
    {
        let mut builder = CircuitBuilder::new();
        let summarized_inputs = summarized::default(&mut builder);
        let old_inputs = unpruned::default(&mut builder);
        let new_inputs = unpruned::default(&mut builder);
        let address_inputs = verify_address::SubCircuitInputs {
            node_address: builder.add_virtual_target(),
            node_present: summarized_inputs.summary_hash_present,
        };
        builder.register_public_input(address_inputs.node_address);
        let ghost registered = builder.public_inputs@;

        let summarized_targets = summarized_inputs.build_leaf(&mut builder);
        let old_targets = old_inputs.build_leaf(&mut builder);
        let new_targets = new_inputs.build_leaf(&mut builder);
        let address_targets = address_inputs.build_leaf(&mut builder);
        let ghost b0 = builder;

        let old_hash = old_targets.inputs.unpruned_hash;
        let new_hash = new_targets.inputs.unpruned_hash;

        let unchanged = hashes_equal(&mut builder, old_hash, new_hash);
        let summary_present = summarized_targets.inputs.summary_hash_present;

        // We can't be changed (unchanged == 0) and not-present in the summary
        let mut ts: Vec<BoolTarget> = Vec::new();
        ts.push(unchanged);
        ts.push(summary_present);
        let ghost tsv = ts@;
        at_least_one_true(&mut builder, ts);
        let ghost b1 = builder;

        // Make the observation
        let mut observation: Vec<Target> = Vec::new();
        observation.push(address_targets.node_address);
        observation.push(old_hash.elements[0]);
        observation.push(old_hash.elements[1]);
        observation.push(old_hash.elements[2]);
        observation.push(old_hash.elements[3]);
        observation.push(new_hash.elements[0]);
        observation.push(new_hash.elements[1]);
        observation.push(new_hash.elements[2]);
        observation.push(new_hash.elements[3]);
        let ghost obs = observation@;
        assert(obs =~= seq![address_targets.node_address] + old_hash.elements@ + new_hash.elements@);
        let observed = builder.hash_n_to_hash_no_pad(observation);
        let ghost b2 = builder;

        // zero it out based on if this node is being summarized
        let z0 = builder.mul(observed.elements[0], summary_present.target);
        let z1 = builder.mul(observed.elements[1], summary_present.target);
        let z2 = builder.mul(observed.elements[2], summary_present.target);
        let z3 = builder.mul(observed.elements[3], summary_present.target);
        let zeroed = HashOutTarget::from([z0, z1, z2, z3]);
        let ghost b3 = builder;

        // This should be the summary hash
        builder.connect_hashes(zeroed, summarized_targets.inputs.summary_hash);

        let public_inputs = builder.public_inputs.clone();
        proof {
            assert(public_inputs@ == registered);
            let sp = summarized_inputs.public_targets();
            assert forall|i: int| 0 <= i < 5 implies public_inputs@.contains(#[trigger] sp[i]) by {
                assert(public_inputs@[i] == sp[i]);
            }
            assert forall|k: int| 0 <= k < 4 implies public_inputs@.contains(
                #[trigger] old_hash.elements[k],
            ) by {
                assert(public_inputs@[5 + k] == old_hash.elements[k]);
            }
            assert forall|k: int| 0 <= k < 4 implies public_inputs@.contains(
                #[trigger] new_hash.elements[k],
            ) by {
                assert(public_inputs@[9 + k] == new_hash.elements[k]);
            }
            assert(public_inputs@[13] == address_targets.node_address);
            assert(public_inputs@[0] == address_targets.node_present.target);
            assert forall|e: Env| e.valid() && #[trigger] builder.sat(e) implies leaf_update(
                e,
                summary_present,
                address_targets.node_address,
                old_hash,
                new_hash,
                summarized_targets.inputs.summary_hash,
            ) by {
                assert(b0.sat(e) && b1.sat(e) && b2.sat(e) && b3.sat(e));
                assert(forall|i: int| 0 <= i < tsv.len() ==> #[trigger] e.is_bool(tsv[i].target));
                let i = choose|i: int| 0 <= i < tsv.len() && #[trigger] e.truth(tsv[i].target);
                assert(i == 0 || i == 1);
                lemma_vals_concat(e, seq![address_targets.node_address] + old_hash.elements@, new_hash.elements@);
                lemma_vals_concat(e, seq![address_targets.node_address], old_hash.elements@);
                assert(e.vals(seq![address_targets.node_address]) =~= seq![e.val(address_targets.node_address)]);
                lemma_digest_vals(e, observed, e.vals(obs));
                let sv = e.val(summary_present.target);
                assert forall|k: int| 0 <= k < 4 implies #[trigger] e.val(
                    summarized_targets.inputs.summary_hash.elements[k],
                ) == if e.truth(summary_present.target) {
                    digest(
                        e,
                        seq![e.val(address_targets.node_address)] + e.vals(old_hash.elements@)
                            + e.vals(new_hash.elements@),
                    )[k]
                } else {
                    0
                } by {
                    let ov = e.val(observed.elements[k]);
                    assert(e.val(zeroed.elements[k]) == e.val(
                        summarized_targets.inputs.summary_hash.elements[k],
                    ));
                    assert(0 <= ov < p());
                    if sv == 1 {
                        assert(ov * sv == ov) by (nonlinear_arith)
                            requires
                                sv == 1,
                        ;
                        lemma_fmod_small(ov);
                        assert(e.vals(observed.elements@)[k] == ov);
                    } else {
                        assert(ov * sv == 0) by (nonlinear_arith)
                            requires
                                sv == 0,
                        ;
                        lemma_fmod_small(0);
                    }
                }
            }
        }
        let summarized = summarized_targets.build(public_inputs.as_slice());
        let old = old_targets.build(public_inputs.as_slice());
        let new = new_targets.build(public_inputs.as_slice());
        let address = address_targets.build(public_inputs.as_slice());
        let common = CommonCircuitData { num_public_inputs: builder.num_public_inputs(), cap_height, id };
        LeafCircuit { summarized, old, new, address, circuit: builder, common }
    }

    /// Gives the witness the old and new hashes and the address, when the
    /// object is summarized; the rest follows.
    pub fn set_witness(
        &self,
        inputs: &mut PartialWitness,
        old_hash: [u64; 4],
        new_hash: [u64; 4],
        address: Option<u64>,
    ) -> (r: Result<(), WitnessConflict>)
        requires
            address matches Some(a) ==> is_canonical(a),
        ensures
            r is Ok <==> old(inputs).fits(
                self.update_targets(),
                old_hash@ + new_hash@ + verify_address::address_values(address is Some, address),
            ),
            r is Ok ==> final(inputs).wrote(
                *old(inputs),
                self.update_targets(),
                old_hash@ + new_hash@ + verify_address::address_values(address is Some, address),
            ),
            r is Ok ==> {
                &&& final(inputs).extends(*old(inputs))
                &&& final(inputs).has_arr(self.old.targets.inputs.unpruned_hash.elements, old_hash)
                &&& final(inputs).has_arr(self.new.targets.inputs.unpruned_hash.elements, new_hash)
                &&& final(inputs).has(
                    self.address.targets.node_address,
                    verify_address::address_value(address),
                )
            },
    {
        let ghost (t1, v1) = (self.old.targets.inputs.unpruned_hash.elements@, old_hash@);
        let ghost (t2, v2) = (self.new.targets.inputs.unpruned_hash.elements@, new_hash@);
        let ghost (t3, v3) = (
            verify_address::address_targets(
                self.address.targets.node_present,
                self.address.targets.node_address,
            ),
            verify_address::address_values(address is Some, address),
        );
        let ghost w0 = *inputs;
        proof {
            lemma_fits_prefix(w0, t1 + t2, v1 + v2, t3, v3);
            lemma_fits_prefix(w0, t1, v1, t2, v2);
        }
        self.old.set_witness(inputs, old_hash)?;
        let ghost w1 = *inputs;
        proof {
            lemma_fits_after(w0, w1, t1, v1, t2, v2);
        }
        self.new.set_witness(inputs, new_hash)?;
        let ghost w2 = *inputs;
        proof {
            lemma_wrote_chain(w0, w1, w2, t1, v1, t2, v2);
            lemma_fits_after(w0, w2, t1 + t2, v1 + v2, t3, v3);
        }
        self.address.set_witness(inputs, address)?;
        proof {
            lemma_wrote_chain(w0, w2, *inputs, t1 + t2, v1 + v2, t3, v3);
            assert forall|k: int| #![trigger t1[k]] 0 <= k < 4 implies inputs.has(t1[k], old_hash[k]) by {
                assert(w1.has(t1[k], v1[k]));
            }
            assert forall|k: int| #![trigger t2[k]] 0 <= k < 4 implies inputs.has(t2[k], new_hash[k]) by {
                assert(w2.has(t2[k], v2[k]));
            }
        }
        Ok(())
    }

    /// The targets of the update, in the order they are given: the old
    /// hash, the new hash, the address's presence flag and the address.
    pub open spec fn update_targets(self) -> Seq<Target> {
        self.old.targets.inputs.unpruned_hash.elements@ + self.new.targets.inputs.unpruned_hash.elements@
            + verify_address::address_targets(
            self.address.targets.node_present,
            self.address.targets.node_address,
        )
    }

    /// Gives the witness the values as they are, the summary too.
    pub fn set_witness_unsafe(
        &self,
        inputs: &mut PartialWitness,
        old_hash: [u64; 4],
        new_hash: [u64; 4],
        summarized: Option<[u64; 4]>,
        address: Option<u64>,
    ) -> (r: Result<(), WitnessConflict>)
        requires
            address matches Some(a) ==> is_canonical(a),
        ensures
            r is Ok <==> old(inputs).fits(
                flagged_targets(
                    self.summarized.targets.inputs.summary_hash_present,
                    self.summarized.targets.inputs.summary_hash,
                ) + self.update_targets(),
                flagged_values(summarized is Some, or_zero(summarized)) + (old_hash@ + new_hash@
                    + verify_address::address_values(address is Some, address)),
            ),
            r is Ok ==> {
                &&& final(inputs).extends(*old(inputs))
                &&& final(inputs).has_arr(self.old.targets.inputs.unpruned_hash.elements, old_hash)
                &&& final(inputs).has_arr(self.new.targets.inputs.unpruned_hash.elements, new_hash)
                &&& final(inputs).has(
                    self.address.targets.node_address,
                    verify_address::address_value(address),
                )
            },
    {
        let ghost (t1, v1) = (
            flagged_targets(
                self.summarized.targets.inputs.summary_hash_present,
                self.summarized.targets.inputs.summary_hash,
            ),
            flagged_values(summarized is Some, or_zero(summarized)),
        );
        let ghost (t2, v2) = (
            self.update_targets(),
            old_hash@ + new_hash@ + verify_address::address_values(address is Some, address),
        );
        let ghost w0 = *inputs;
        proof {
            lemma_fits_prefix(w0, t1, v1, t2, v2);
        }
        self.summarized.set_witness(inputs, summarized)?;
        let ghost w1 = *inputs;
        proof {
            lemma_fits_after(w0, w1, t1, v1, t2, v2);
        }
        self.set_witness(inputs, old_hash, new_hash, address)?;
        Ok(())
    }
}

/// The values of an optional summary: none when not given, else its
/// presence flag and its hash (ZERO when absent).
pub open spec fn summary_part_values(summary_hash: Option<Option<[u64; 4]>>) -> Seq<u64> {
    match summary_hash {
        Some(sh) => flagged_values(sh is Some, or_zero(sh)),
        None => Seq::empty(),
    }
}

/// The values of the address: none when implied by the children.
pub open spec fn address_part_values(address: AddressPresent) -> Seq<u64> {
    match address {
        AddressPresent::Present(a) => verify_address::address_values(true, Some(a)),
        AddressPresent::Absent => verify_address::address_values(false, None),
        AddressPresent::Implicit => Seq::empty(),
    }
}

/// The branch circuit: the updates of two subtrees joined, their hashes and
/// summaries hashed together, and their addresses those of siblings.
/// Both children are verified, as proofs of the circuit one level down.
pub struct BranchCircuit {
    pub summarized: summarized::BranchSubCircuit,
    pub old: unpruned::BranchSubCircuit<unpruned::OnlyFull>,
    pub new: unpruned::BranchSubCircuit<unpruned::OnlyFull>,
    pub address: verify_address::BranchSubCircuit,
    /// The recursion subcircuit: the children's proofs and their verification.
    pub bounded: bounded::BranchTargets,
    /// The plan of the circuit.
    pub circuit: CircuitBuilder,
    /// The shape of the circuit's proofs, and the number that names it.
    pub common: CommonCircuitData,
}

/// What a branch proves of the updates of its two children: the old and
/// the new hashes are the hashes of the children's, and, where the children's
/// presence flags are booleans, the summary joins the children's summaries
/// and the address is the parent of theirs.
pub open spec fn branch_update(e: Env, r: BranchCircuit) -> bool {
    let (s, o, n, a) = (r.summarized.targets, r.old.targets, r.new.targets, r.address.targets);
    &&& unpruned::branch_hash(
        e,
        false,
        o.left.unpruned_hash.elements,
        o.right.unpruned_hash.elements,
        o.inputs.unpruned_hash.elements,
    )
    &&& unpruned::branch_hash(
        e,
        false,
        n.left.unpruned_hash.elements,
        n.right.unpruned_hash.elements,
        n.inputs.unpruned_hash.elements,
    )
    &&& e.is_bool(s.left.summary_hash_present.target) && e.is_bool(
        s.right.summary_hash_present.target,
    ) ==> summarized::branch_summary(e, s.inputs, s.left, s.right)
    &&& e.is_bool(a.left.node_present.target) && e.is_bool(a.right.node_present.target)
        ==> verify_address::branch_address(
        e,
        a.inputs.node_present.target,
        a.inputs.node_address,
        a.left.node_present.target,
        a.left.node_address,
        a.right.node_present.target,
        a.right.node_address,
    )
}

impl BranchCircuit {
    /// Every position of the proof's public inputs is among them.
    pub open spec fn wf(self) -> bool {
        let len = self.circuit.public_inputs@.len();
        &&& self.summarized.indices.within(len)
        &&& self.old.indices.unpruned_hash.within(len)
        &&& self.new.indices.unpruned_hash.within(len)
        &&& self.address.indices.within(len)
    }
}

impl BranchCircuit {
    /// Each child's part of the branch reads the child's proof's public
    /// inputs at the given positions.
    pub open spec fn reads_children(
        self,
        s: summarized::PublicIndices,
        o: unpruned::PublicIndices,
        n: unpruned::PublicIndices,
        a: verify_address::PublicIndices,
    ) -> bool {
        let (l, r) = (self.bounded.left_proof.public_inputs@, self.bounded.right_proof.public_inputs@);
        let (st, ot, nt, at) = (
            self.summarized.targets,
            self.old.targets,
            self.new.targets,
            self.address.targets,
        );
        &&& st.left.summary_hash_present.target == l[s.summary_hash_present.0.0 as int]
        &&& st.right.summary_hash_present.target == r[s.summary_hash_present.0.0 as int]
        &&& forall|k: int| 0 <= k < 4 ==> #[trigger] st.left.summary_hash.elements[k] == l[s.summary_hash.pos(k)]
        &&& forall|k: int| 0 <= k < 4 ==> #[trigger] st.right.summary_hash.elements[k] == r[s.summary_hash.pos(k)]
        &&& forall|k: int| 0 <= k < 4 ==> #[trigger] ot.left.unpruned_hash.elements[k] == l[o.unpruned_hash.pos(k)]
        &&& forall|k: int| 0 <= k < 4 ==> #[trigger] ot.right.unpruned_hash.elements[k] == r[o.unpruned_hash.pos(k)]
        &&& forall|k: int| 0 <= k < 4 ==> #[trigger] nt.left.unpruned_hash.elements[k] == l[n.unpruned_hash.pos(k)]
        &&& forall|k: int| 0 <= k < 4 ==> #[trigger] nt.right.unpruned_hash.elements[k] == r[n.unpruned_hash.pos(k)]
        &&& at.left.node_present.target == l[a.node_present.0.0 as int]
        &&& at.left.node_address == l[a.node_address.0 as int]
        &&& at.right.node_present.target == r[a.node_present.0.0 as int]
        &&& at.right.node_address == r[a.node_address.0 as int]
    }
}

impl BranchCircuit {
    /// Plans the branch circuit, named `id`, over children with these
    /// positions of their public inputs, proofs of the circuit described by
    /// `child`: both children verify against that circuit's verifier data
    /// (see `bounded::verifies_children`), and the branch joins them (see
    /// `branch_update`).
    pub fn new(
        summarized_indicies: &summarized::PublicIndices,
        old_indicies: &unpruned::PublicIndices,
        new_indicies: &unpruned::PublicIndices,
        address_indicies: &verify_address::PublicIndices,
        child: &CommonCircuitData,
        id: usize,
    ) -> (r: Self)
        requires
            summarized_indicies.within(child.num_public_inputs as nat),
            old_indicies.unpruned_hash.within(child.num_public_inputs as nat),
            new_indicies.unpruned_hash.within(child.num_public_inputs as nat),
            address_indicies.within(child.num_public_inputs as nat),
            cap_height_ok(child.cap_height),
        ensures
            r.bounded.left_proof.public_inputs@.len() == child.num_public_inputs,
            r.bounded.right_proof.public_inputs@.len() == child.num_public_inputs,
            r.circuit.public_inputs@.len() == 14,
            r.common == (CommonCircuitData { num_public_inputs: 14, cap_height: child.cap_height, id }),
            forall|e: Env| #[trigger] r.circuit.sat(e) ==> bounded::verifies_children(e, r.bounded, child.id),
            r.wf(),
            r.reads_children(*summarized_indicies, *old_indicies, *new_indicies, *address_indicies),
            forall|e: Env| e.valid() && #[trigger] r.circuit.sat(e) ==> branch_update(e, r),
    {
        let mut builder = CircuitBuilder::new();
        let summarized_inputs = summarized::default(&mut builder);
        let old_inputs = unpruned::default(&mut builder);
        let new_inputs = unpruned::default(&mut builder);
        let address_inputs = verify_address::SubCircuitInputs {
            node_address: builder.add_virtual_target(),
            node_present: summarized_inputs.summary_hash_present,
        };
        builder.register_public_input(address_inputs.node_address);
        let ghost registered = builder.public_inputs@;

        let bounded = bounded::build_branch(&mut builder, child);
        let ghost b0 = builder;
        let left_proof = &bounded.left_proof;
        let right_proof = &bounded.right_proof;

        let summarized_targets = summarized_inputs.build_branch(
            &mut builder,
            summarized_indicies,
            left_proof,
            right_proof,
        );
        let ghost b1 = builder;
        let old_targets = old_inputs.build_branch(
            &mut builder,
            old_indicies,
            left_proof,
            right_proof,
            false,
        );
        let ghost b2 = builder;
        let new_targets = new_inputs.build_branch(
            &mut builder,
            new_indicies,
            left_proof,
            right_proof,
            false,
        );
        let ghost b3 = builder;
        let address_targets = address_inputs.build_branch(
            &mut builder,
            address_indicies,
            left_proof,
            right_proof,
        );

        let public_inputs = builder.public_inputs.clone();
        proof {
            assert(public_inputs@ == registered);
            let sp = summarized_inputs.public_targets();
            assert forall|i: int| 0 <= i < 5 implies public_inputs@.contains(#[trigger] sp[i]) by {
                assert(public_inputs@[i] == sp[i]);
            }
            assert forall|k: int| 0 <= k < 4 implies public_inputs@.contains(
                #[trigger] old_inputs.unpruned_hash.elements[k],
            ) by {
                assert(public_inputs@[5 + k] == old_inputs.unpruned_hash.elements[k]);
            }
            assert forall|k: int| 0 <= k < 4 implies public_inputs@.contains(
                #[trigger] new_inputs.unpruned_hash.elements[k],
            ) by {
                assert(public_inputs@[9 + k] == new_inputs.unpruned_hash.elements[k]);
            }
            assert(public_inputs@[13] == address_inputs.node_address);
            assert(public_inputs@[0] == address_inputs.node_present.target);
        }
        let summarized = summarized_targets.build(summarized_indicies, public_inputs.as_slice());
        let old = old_targets.build(old_indicies, public_inputs.as_slice());
        let new = new_targets.build(new_indicies, public_inputs.as_slice());
        let address = address_targets.build(address_indicies, public_inputs.as_slice());
        let common = CommonCircuitData { num_public_inputs: 14, cap_height: child.cap_height, id };
        let r = BranchCircuit { summarized, old, new, address, bounded, circuit: builder, common };
        proof {
            assert forall|e: Env| e.valid() && #[trigger] r.circuit.sat(e) implies branch_update(e, r) by {
                assert(b3.sat(e));
                assert(b2.sat(e));
                assert(b1.sat(e));
            }
            assert forall|e: Env| #[trigger] r.circuit.sat(e) implies bounded::verifies_children(e, r.bounded, child.id) by {
                assert(b3.sat(e));
                assert(b2.sat(e));
                assert(b1.sat(e));
                assert(b0.sat(e));
            }
        }
        r
    }

    /// Plans a branch circuit, named `id`, over leaves.
    pub fn from_leaf(leaf: &LeafCircuit, id: usize) -> (r: Self)
        requires
            leaf.common.num_public_inputs == leaf.circuit.public_inputs@.len(),
            cap_height_ok(leaf.common.cap_height),
            leaf.summarized.indices.within(leaf.circuit.public_inputs@.len()),
            leaf.old.indices.unpruned_hash.within(leaf.circuit.public_inputs@.len()),
            leaf.new.indices.unpruned_hash.within(leaf.circuit.public_inputs@.len()),
            leaf.address.indices.within(leaf.circuit.public_inputs@.len()),
        ensures
            r.bounded.left_proof.public_inputs@.len() == leaf.circuit.public_inputs@.len(),
            r.bounded.right_proof.public_inputs@.len() == leaf.circuit.public_inputs@.len(),
            r.circuit.public_inputs@.len() == 14,
            r.common == (CommonCircuitData { num_public_inputs: 14, cap_height: leaf.common.cap_height, id }),
            forall|e: Env| #[trigger] r.circuit.sat(e) ==> bounded::verifies_children(e, r.bounded, leaf.common.id),
            r.wf(),
            r.reads_children(
                leaf.summarized.indices,
                leaf.old.indices,
                leaf.new.indices,
                leaf.address.indices,
            ),
            forall|e: Env| e.valid() && #[trigger] r.circuit.sat(e) ==> branch_update(e, r),
    {
        Self::new(
            &leaf.summarized.indices,
            &leaf.old.indices,
            &leaf.new.indices,
            &leaf.address.indices,
            &leaf.common,
            id,
        )
    }

    /// Plans a branch circuit, named `id`, over branches of the level below.
    pub fn from_branch(branch: &Self, id: usize) -> (r: Self)
        requires
            branch.common.num_public_inputs == branch.circuit.public_inputs@.len(),
            cap_height_ok(branch.common.cap_height),
            branch.summarized.indices.within(branch.circuit.public_inputs@.len()),
            branch.old.indices.unpruned_hash.within(branch.circuit.public_inputs@.len()),
            branch.new.indices.unpruned_hash.within(branch.circuit.public_inputs@.len()),
            branch.address.indices.within(branch.circuit.public_inputs@.len()),
        ensures
            r.bounded.left_proof.public_inputs@.len() == branch.circuit.public_inputs@.len(),
            r.bounded.right_proof.public_inputs@.len() == branch.circuit.public_inputs@.len(),
            r.circuit.public_inputs@.len() == 14,
            r.common == (CommonCircuitData { num_public_inputs: 14, cap_height: branch.common.cap_height, id }),
            forall|e: Env| #[trigger] r.circuit.sat(e) ==> bounded::verifies_children(e, r.bounded, branch.common.id),
            r.wf(),
            r.reads_children(
                branch.summarized.indices,
                branch.old.indices,
                branch.new.indices,
                branch.address.indices,
            ),
            forall|e: Env| e.valid() && #[trigger] r.circuit.sat(e) ==> branch_update(e, r),
    {
        Self::new(
            &branch.summarized.indices,
            &branch.old.indices,
            &branch.new.indices,
            &branch.address.indices,
            &branch.common,
            id,
        )
    }

    /// Gives the witness the values given, each only when given: the hashes,
    /// the summary (present or absent), and the address, present, absent,
    /// or implied by the children.
    pub fn set_witness_unsafe(
        &self,
        inputs: &mut PartialWitness,
        old_hash: Option<[u64; 4]>,
        new_hash: Option<[u64; 4]>,
        summary_hash: Option<Option<[u64; 4]>>,
        address: AddressPresent,
    ) -> (r: Result<(), WitnessConflict>)
        requires
            address matches AddressPresent::Present(a) ==> is_canonical(a),
        ensures
            r is Ok <==> old(inputs).fits(
                self.summary_part_targets(summary_hash is Some) + given_targets(
                    old_hash is Some,
                    self.old.targets.inputs.unpruned_hash.elements@,
                ) + given_targets(new_hash is Some, self.new.targets.inputs.unpruned_hash.elements@)
                    + self.address_part_targets(address),
                summary_part_values(summary_hash) + given_values(old_hash) + given_values(new_hash)
                    + address_part_values(address),
            ),
            r is Ok ==> final(inputs).extends(*old(inputs)),
            r is Ok ==> (old_hash matches Some(h) ==> final(inputs).has_arr(
                self.old.targets.inputs.unpruned_hash.elements,
                h,
            )),
            r is Ok ==> (new_hash matches Some(h) ==> final(inputs).has_arr(
                self.new.targets.inputs.unpruned_hash.elements,
                h,
            )),
            r is Ok ==> (address matches AddressPresent::Present(a) ==> final(inputs).has(
                self.address.targets.inputs.node_address,
                a,
            )),
            r is Ok ==> (address is Absent ==> final(inputs).has(
                self.address.targets.inputs.node_address,
                verify_address::address_value(None),
            )),
    {
        let ghost (t1, v1) = (
            self.summary_part_targets(summary_hash is Some),
            summary_part_values(summary_hash),
        );
        let ghost (t2, v2) = (
            given_targets(old_hash is Some, self.old.targets.inputs.unpruned_hash.elements@),
            given_values(old_hash),
        );
        let ghost (t3, v3) = (
            given_targets(new_hash is Some, self.new.targets.inputs.unpruned_hash.elements@),
            given_values(new_hash),
        );
        let ghost (t4, v4) = (self.address_part_targets(address), address_part_values(address));
        let ghost w0 = *inputs;
        proof {
            lemma_fits_prefix(w0, t1 + t2 + t3, v1 + v2 + v3, t4, v4);
            lemma_fits_prefix(w0, t1 + t2, v1 + v2, t3, v3);
            lemma_fits_prefix(w0, t1, v1, t2, v2);
        }
        if let Some(summary_hash) = summary_hash {
            let zero: [u64; 4] = [0u64, 0u64, 0u64, 0u64];
            let h = match summary_hash {
                Some(h) => h,
                None => zero,
            };
            self.summarized.set_witness_unsafe(inputs, summary_hash.is_some(), h)?;
        }
        let ghost w1 = *inputs;
        proof {
            lemma_fits_after(w0, w1, t1, v1, t2, v2);
        }
        if let Some(old_hash) = old_hash {
            self.old.set_witness_unsafe(inputs, old_hash)?;
        }
        let ghost w2 = *inputs;
        proof {
            lemma_wrote_chain(w0, w1, w2, t1, v1, t2, v2);
            lemma_fits_after(w0, w2, t1 + t2, v1 + v2, t3, v3);
        }
        if let Some(new_hash) = new_hash {
            self.new.set_witness_unsafe(inputs, new_hash)?;
        }
        let ghost w3 = *inputs;
        proof {
            lemma_wrote_chain(w0, w2, w3, t1 + t2, v1 + v2, t3, v3);
            lemma_fits_after(w0, w3, t1 + t2 + t3, v1 + v2 + v3, t4, v4);
        }
        match address {
            AddressPresent::Present(a) => self.address.set_witness(inputs, Some(a))?,
            AddressPresent::Absent => self.address.set_witness(inputs, None)?,
            AddressPresent::Implicit => {},
        }
        proof {
            assert(inputs.extends(w3));
            assert(w3.extends(w2));
            assert(w2.extends(w1));
            assert(w1.extends(w0));
        }
        Ok(())
    }

    /// The targets of the summary, when it is given.
    pub open spec fn summary_part_targets(self, given: bool) -> Seq<Target> {
        given_targets(
            given,
            flagged_targets(
                self.summarized.targets.inputs.summary_hash_present,
                self.summarized.targets.inputs.summary_hash,
            ),
        )
    }

    /// The targets of the address, unless it is implied by the children.
    pub open spec fn address_part_targets(self, address: AddressPresent) -> Seq<Target> {
        match address {
            AddressPresent::Implicit => Seq::empty(),
            _ => verify_address::address_targets(
                self.address.targets.inputs.node_present,
                self.address.targets.inputs.node_address,
            ),
        }
    }
}

} // verus!
