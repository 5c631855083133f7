//! Circuits for proving correspondence of all parts of a block: the chain of
//! blocks, and the verification of the proofs a block is built from.
use vstd::prelude::*;

use crate::circuit::{
    lemma_fits_after, lemma_fits_prefix, lemma_verifier_data_len, lemma_verifier_vals, verifier_targets, verifier_data_targets,
    verifier_data_values, BoolTarget, CircuitBuilder, CommonCircuitData, Env, HashOutTarget, PartialWitness,
    ProofWithPublicInputsTarget, Target, VerifierCircuitTarget, VerifierOnlyCircuitData,
    WitnessConflict,
};
use crate::circuits::merge::embed;
use crate::event::{field_of_u64, u64_to_field};
use crate::field::{fmod, lemma_fmod_small};
use crate::gadgets::{connect_verifier_data, same_verifier, select_hash, select_verifier};
use crate::indices::{
    lemma_write_all_len, lemma_write_all_other, lemma_write_all_read, write_all,
    HashOutTargetIndex, TargetIndex, VerifierCircuitTargetIndex,
};
use crate::subcircuits::{propagate, summarized, unpruned, verify_address};

verus! {

/// The positions of the public inputs of a block proof.
#[derive(Clone, PartialEq, Eq, Debug)]
pub struct PublicIndices {
    /// The self-recursion verifier.
    pub verifier: VerifierCircuitTargetIndex,
    /// The indices of each of the elements of the base state root.
    pub base_state_root: HashOutTargetIndex,
    /// The indices of each of the elements of the state root for this block.
    pub state_root: HashOutTargetIndex,
    /// The index of the block height for this block.
    pub block_height: TargetIndex,
}

impl PublicIndices {
    /// Every position is below `len`.
    pub open spec fn within(self, len: nat) -> bool {
        &&& self.verifier.within(len)
        &&& self.base_state_root.within(len)
        &&& self.state_root.within(len)
        &&& self.block_height.0 < len
    }
}

pub struct SubCircuitInputs {
    /// The recursive verifier.
    pub verifier: VerifierCircuitTarget,
    /// The base state root.
    pub base_state_root: HashOutTarget,
    /// The state root for this block.
    pub state_root: HashOutTarget,
    /// The block height for this block.
    pub block_height: Target,
}

impl SubCircuitInputs {
    /// Every target is among the public inputs.
    pub open spec fn registered_in(self, pis: Seq<Target>) -> bool {
        &&& forall|i: int| 0 <= i < 4 ==> pis.contains(#[trigger] self.verifier.circuit_digest.elements[i])
        &&& forall|k: int, i: int|
            #![trigger self.verifier.constants_sigmas_cap.0@[k].elements[i]]
            0 <= k < self.verifier.constants_sigmas_cap.0@.len() && 0 <= i < 4 ==> pis.contains(
                self.verifier.constants_sigmas_cap.0@[k].elements[i],
            )
        &&& forall|i: int| 0 <= i < 4 ==> pis.contains(#[trigger] self.base_state_root.elements[i])
        &&& forall|i: int| 0 <= i < 4 ==> pis.contains(#[trigger] self.state_root.elements[i])
        &&& pis.contains(self.block_height)
    }
}

/// Registering targets keeps those registered before.
proof fn lemma_registered_grows(a: Seq<Target>, b: Seq<Target>, t: Target)
    requires
        a.contains(t),
    ensures
        (a + b).contains(t),
{
    let i = choose|i: int| 0 <= i < a.len() && a[i] == t;
    assert((a + b)[i] == t);
}

/// The registered targets are among the public inputs.
proof fn lemma_registered_tail(a: Seq<Target>, b: Seq<Target>, i: int)
    requires
        0 <= i < b.len(),
    ensures
        (a + b).contains(b[i]),
{
    assert((a + b)[a.len() + i] == b[i]);
}

/// Allocates the targets of the subcircuit, the verifier's cap of
/// `2^cap_height` digests, and registers them as public inputs.
pub fn default(builder: &mut CircuitBuilder, cap_height: usize) -> (r: SubCircuitInputs)
    requires
        crate::circuit::cap_height_ok(cap_height),
    ensures
        forall|e: Env| #[trigger] final(builder).sat(e) ==> old(builder).sat(e),
        old(builder).public_inputs@.is_prefix_of(final(builder).public_inputs@),
        r.registered_in(final(builder).public_inputs@),
        r.verifier.constants_sigmas_cap.0@.len() == vstd::arithmetic::power2::pow2(cap_height as nat),
{
    let verifier = builder.add_virtual_verifier_data(cap_height);
    let base_state_root = builder.add_virtual_hash();
    let state_root = builder.add_virtual_hash();
    let block_height = builder.add_virtual_target();
    let v = SubCircuitInputs { verifier, base_state_root, state_root, block_height };
    register_inputs(&v, builder);
    v
}

/// Registers the targets of the subcircuit as public inputs: the verifier
/// data, the base state root, the state root and the block height.
fn register_inputs(v: &SubCircuitInputs, builder: &mut CircuitBuilder)
    ensures
        final(builder).ops@ == old(builder).ops@,
        forall|e: Env| #[trigger] final(builder).sat(e) == old(builder).sat(e),
        old(builder).public_inputs@.is_prefix_of(final(builder).public_inputs@),
        v.registered_in(final(builder).public_inputs@),
{
    let ghost p0 = builder.public_inputs@;
    builder.register_public_inputs(&v.verifier.circuit_digest.elements);
    let ghost p1 = builder.public_inputs@;
    assert forall|i: int| 0 <= i < 4 implies p1.contains(
        #[trigger] v.verifier.circuit_digest.elements[i],
    ) by {
        lemma_registered_tail(p0, v.verifier.circuit_digest.elements@, i);
    }
    let cap = &v.verifier.constants_sigmas_cap.0;
    let mut k: usize = 0;
    while k < cap.len()
        invariant
            k <= cap@.len(),
            cap@ == v.verifier.constants_sigmas_cap.0@,
            builder.ops@ == old(builder).ops@,
            forall|e: Env| #[trigger] builder.sat(e) == old(builder).sat(e),
            old(builder).public_inputs@.is_prefix_of(builder.public_inputs@),
            forall|i: int| 0 <= i < 4 ==> builder.public_inputs@.contains(
                #[trigger] v.verifier.circuit_digest.elements[i],
            ),
            forall|j: int, i: int|
                #![trigger cap@[j].elements[i]]
                0 <= j < k && 0 <= i < 4 ==> builder.public_inputs@.contains(cap@[j].elements[i]),
        decreases cap@.len() - k,
    {
        let ghost before = builder.public_inputs@;
        let h = cap[k];
        builder.register_public_inputs(&h.elements);
        proof {
            assert(before.is_prefix_of(builder.public_inputs@));
            assert forall|i: int| 0 <= i < 4 implies builder.public_inputs@.contains(
                #[trigger] v.verifier.circuit_digest.elements[i],
            ) by {
                lemma_registered_grows(before, h.elements@, v.verifier.circuit_digest.elements[i]);
            }
            assert forall|j: int, i: int|
                #![trigger cap@[j].elements[i]]
                0 <= j < k + 1 && 0 <= i < 4 implies builder.public_inputs@.contains(
                cap@[j].elements[i],
            ) by {
                if j < k {
                    lemma_registered_grows(before, h.elements@, cap@[j].elements[i]);
                } else {
                    lemma_registered_tail(before, h.elements@, i);
                }
            }
            assert(old(builder).public_inputs@.is_prefix_of(builder.public_inputs@)) by {
                assert forall|i: int| 0 <= i < old(builder).public_inputs@.len() implies #[trigger] builder.public_inputs@[i]
                    == old(builder).public_inputs@[i] by {
                    assert(before[i] == old(builder).public_inputs@[i]);
                }
            }
        }
        k = k + 1;
    }
    let ghost p2 = builder.public_inputs@;
    builder.register_public_inputs(&v.base_state_root.elements);
    let ghost p3 = builder.public_inputs@;
    builder.register_public_inputs(&v.state_root.elements);
    let ghost p4 = builder.public_inputs@;
    builder.register_public_input(v.block_height);
    let ghost p5 = builder.public_inputs@;
    proof {
        assert(p5 == p4.push(v.block_height));
        assert(p5 == p4 + seq![v.block_height]);
        lemma_registered_tail(p4, seq![v.block_height], 0);
        assert forall|i: int| 0 <= i < 4 implies p5.contains(
            #[trigger] v.verifier.circuit_digest.elements[i],
        ) by {
            let t = v.verifier.circuit_digest.elements[i];
            lemma_registered_grows(p2, v.base_state_root.elements@, t);
            lemma_registered_grows(p3, v.state_root.elements@, t);
            lemma_registered_grows(p4, seq![v.block_height], t);
        }
        assert forall|j: int, i: int|
            #![trigger cap@[j].elements[i]]
            0 <= j < cap@.len() && 0 <= i < 4 implies p5.contains(cap@[j].elements[i]) by {
            let t = cap@[j].elements[i];
            lemma_registered_grows(p2, v.base_state_root.elements@, t);
            lemma_registered_grows(p3, v.state_root.elements@, t);
            lemma_registered_grows(p4, seq![v.block_height], t);
        }
        assert forall|i: int| 0 <= i < 4 implies p5.contains(#[trigger] v.base_state_root.elements[i])
            by {
            let t = v.base_state_root.elements[i];
            lemma_registered_tail(p2, v.base_state_root.elements@, i);
            lemma_registered_grows(p3, v.state_root.elements@, t);
            lemma_registered_grows(p4, seq![v.block_height], t);
        }
        assert forall|i: int| 0 <= i < 4 implies p5.contains(#[trigger] v.state_root.elements[i]) by {
            let t = v.state_root.elements[i];
            lemma_registered_tail(p3, v.state_root.elements@, i);
            lemma_registered_grows(p4, seq![v.block_height], t);
        }
        assert forall|i: int| 0 <= i < old(builder).public_inputs@.len() implies #[trigger] p5[i]
            == old(builder).public_inputs@[i] by {
            assert(p2[i] == old(builder).public_inputs@[i]);
            assert(p3[i] == p2[i]);
            assert(p4[i] == p3[i]);
        }
    }
}

/// The block subcircuit: a block proof verifies the proof of the previous
/// block (or, for the first block, a proof of the dummy base circuit).
pub struct SubCircuit {
    /// The number by which the plan names the dummy base circuit.
    pub dummy: usize,
    /// The public inputs.
    pub inputs: SubCircuitInputs,
    /// The previous block proof.
    pub prev_proof: ProofWithPublicInputsTarget,
    /// The previous state root.
    pub prev_state_root: HashOutTarget,
    /// The indicies of the public inputs.
    pub indices: PublicIndices,
}

/// What a block proves of the previous block's proof `prev`: the block
/// height is one more, the base state root is the same, the previous block
/// is the base (height zero) only with its state being the base state, and
/// the verifier data is the same.
pub open spec fn chains(e: Env, t: SubCircuitInputs, idx: PublicIndices, prev: Seq<Target>) -> bool {
    let prev_height = e.val(prev[idx.block_height.0 as int]);
    &&& e.val(t.block_height) == fmod(prev_height + 1)
    &&& forall|i: int|
        0 <= i < 4 ==> #[trigger] e.val(t.base_state_root.elements[i]) == e.val(
            prev[idx.base_state_root.pos(i)],
        )
    &&& prev_height == 0 ==> forall|i: int|
        0 <= i < 4 ==> #[trigger] e.val(prev[idx.base_state_root.pos(i)]) == e.val(
            prev[idx.state_root.pos(i)],
        )
    &&& forall|i: int|
        0 <= i < 4 ==> #[trigger] e.val(t.verifier.circuit_digest.elements[i]) == e.val(
            prev[idx.verifier.circuit_digest.pos(i)],
        )
    &&& forall|k: int, i: int|
        #![trigger t.verifier.constants_sigmas_cap.0@[k].elements[i]]
        0 <= k < t.verifier.constants_sigmas_cap.0@.len() && 0 <= i < 4 ==> e.val(
            t.verifier.constants_sigmas_cap.0@[k].elements[i],
        ) == e.val(prev[idx.verifier.constants_sigmas_cap@[k].pos(i)])
}

/// The previous block's proof `prev` verifies, as a proof of a circuit of
/// the shape numbered `common`, against the verifier data of this circuit
/// when the previous block is not the base (height zero), and against the
/// verifier data of the dummy base circuit numbered `dummy` when it is.
pub open spec fn verifies_prev(
    e: Env,
    t: SubCircuitInputs,
    idx: PublicIndices,
    prev: Seq<Target>,
    dummy: usize,
    common: usize,
) -> bool {
    e.verified(
        common,
        if e.val(prev[idx.block_height.0 as int]) != 0 {
            e.vals(verifier_targets(t.verifier))
        } else {
            e.verifier_data(dummy)
        },
        e.vals(prev),
    )
}

impl SubCircuitInputs {
    /// Verifies the previous block's proof, against this circuit's own
    /// verifier data, or the dummy base circuit's when the previous block is
    /// the base, and chains this block to it: see `chains`.
    pub fn build(self, builder: &mut CircuitBuilder, common: &CommonCircuitData, dummy: usize) -> (r:
        SubCircuit)
        requires
            self.registered_in(old(builder).public_inputs@),
            common.num_public_inputs == old(builder).public_inputs@.len(),
            crate::circuit::cap_height_ok(common.cap_height),
            self.verifier.constants_sigmas_cap.0@.len() == vstd::arithmetic::power2::pow2(
                common.cap_height as nat,
            ),
        ensures
            final(builder).grows(*old(builder)),
            r.inputs == self,
            r.dummy == dummy,
            r.prev_proof.public_inputs@.len() == common.num_public_inputs,
            r.indices.within(common.num_public_inputs as nat),
            r.indices.verifier.locates(old(builder).public_inputs@, self.verifier),
            forall|i: int|
                0 <= i < 4 ==> #[trigger] r.prev_state_root.elements[i]
                    == r.prev_proof.public_inputs@[r.indices.state_root.pos(i)],
            forall|e: Env|
                e.valid() && #[trigger] final(builder).sat(e) ==> chains(
                    e,
                    self,
                    r.indices,
                    r.prev_proof.public_inputs@,
                ),
            forall|e: Env|
                e.valid() && #[trigger] final(builder).sat(e) ==> verifies_prev(
                    e,
                    self,
                    r.indices,
                    r.prev_proof.public_inputs@,
                    dummy,
                    common.id,
                ),
    {
        let prev_proof = builder.add_virtual_proof_with_pis(common.num_public_inputs);
        let public_inputs = builder.public_inputs.clone();
        let indices = PublicIndices {
            verifier: VerifierCircuitTargetIndex::new(public_inputs.as_slice(), &self.verifier),
            base_state_root: HashOutTargetIndex::new(public_inputs.as_slice(), self.base_state_root),
            state_root: HashOutTargetIndex::new(public_inputs.as_slice(), self.state_root),
            block_height: TargetIndex::new(public_inputs.as_slice(), self.block_height),
        };
        let pis = prev_proof.public_inputs.as_slice();
        let prev_block_height = indices.block_height.get_target(pis);

        let non_base = builder.is_nonzero(prev_block_height);

        // Connect previous verifier data to current one. This guarantees that
        // every proof in the cycle uses the same verifier data.
        let prev_verifier = indices.verifier.get_target(pis);
        connect_verifier_data(builder, &self.verifier, &prev_verifier);

        let ghost b_nb = *builder;
        let dummy_verifier = builder.constant_verifier_data(dummy, common.cap_height);
        let ghost b_dv = *builder;
        let verifier_calc = select_verifier(builder, non_base, &self.verifier, &dummy_verifier);
        let ghost b_sv = *builder;
        builder.verify_proof(&prev_proof, &verifier_calc, common.id);
        let ghost b_vp = *builder;

        // Connect heights
        let block_height_calc = builder.add_const(prev_block_height, 1);
        builder.connect(self.block_height, block_height_calc);

        // Ensure base states match
        let prev_base_state = indices.base_state_root.get_target(pis);
        builder.connect_hashes(self.base_state_root, prev_base_state);

        let prev_state_root = indices.state_root.get_target(pis);

        // Ensure base state is actually the base
        let prev_base_state_calc = select_hash(builder, non_base, prev_base_state, prev_state_root);
        builder.connect_hashes(prev_base_state_calc, prev_base_state);

        proof {
            assert forall|e: Env| e.valid() && #[trigger] builder.sat(e) implies verifies_prev(
                e,
                self,
                indices,
                prev_proof.public_inputs@,
                dummy,
                common.id,
            ) by {
                assert(b_vp.sat(e));
                assert(b_sv.sat(e));
                assert(b_dv.sat(e));
                assert(b_nb.sat(e));
                assert(e.is_bool(non_base.target));
                if e.truth(non_base.target) {
                    lemma_verifier_vals(e, verifier_calc, self.verifier);
                } else {
                    lemma_verifier_vals(e, verifier_calc, dummy_verifier);
                }
            }
            assert forall|e: Env| e.valid() && #[trigger] builder.sat(e) implies chains(
                e,
                self,
                indices,
                prev_proof.public_inputs@,
            ) by {
                assert(same_verifier(e, self.verifier, prev_verifier));
                assert forall|k: int, i: int|
                    #![trigger self.verifier.constants_sigmas_cap.0@[k].elements[i]]
                    0 <= k < self.verifier.constants_sigmas_cap.0@.len() && 0 <= i < 4 implies e.val(
                    self.verifier.constants_sigmas_cap.0@[k].elements[i],
                ) == e.val(pis@[indices.verifier.constants_sigmas_cap@[k].pos(i)]) by {
                    assert(crate::gadgets::same_vals(
                        e,
                        self.verifier.constants_sigmas_cap.0@[k].elements,
                        prev_verifier.constants_sigmas_cap.0@[k].elements,
                    ));
                }
                let ph = e.val(prev_block_height);
                if ph == 0 {
                    assert forall|i: int| 0 <= i < 4 implies #[trigger] e.val(
                        pis@[indices.base_state_root.pos(i)],
                    ) == e.val(pis@[indices.state_root.pos(i)]) by {
                        assert(e.val(prev_base_state_calc.elements[i]) == e.val(
                            prev_state_root.elements[i],
                        ));
                    }
                }
            }
        }
        SubCircuit { dummy, inputs: self, prev_proof, prev_state_root, indices }
    }
}

/// The public inputs of a proof of the dummy base circuit, of `n` public
/// inputs: zero, but for the verifier data, the base state root, the state
/// root and the block height written at their positions, in that order.
pub open spec fn base_inputs(
    idx: PublicIndices,
    n: nat,
    verifier: VerifierOnlyCircuitData,
    base_state_root: [u64; 4],
    state_root: [u64; 4],
    block_height: u64,
) -> Seq<u64> {
    let zeros = Seq::new(n, |j: int| 0u64);
    let with_verifier = idx.verifier.write_spec(zeros, verifier);
    let with_base = write_all(idx.base_state_root.0.0, with_verifier, base_state_root@, 4);
    let with_state = write_all(idx.state_root.0.0, with_base, state_root@, 4);
    with_state.update(idx.block_height.0 as int, field_of_u64(block_height))
}

/// Four positions of a digest that are pairwise distinct.
pub open spec fn distinct4(h: HashOutTargetIndex) -> bool {
    forall|a: int, b: int| 0 <= a < b < 4 ==> h.0.0[a].0 != h.0.0[b].0
}

/// Reading the public inputs of a base proof gives back what was written:
/// the base state root, the state root and the block height, where their
/// positions are distinct.
pub proof fn law_base_inputs_read(
    idx: PublicIndices,
    n: nat,
    verifier: VerifierOnlyCircuitData,
    base_state_root: [u64; 4],
    state_root: [u64; 4],
    block_height: u64,
)
    requires
        idx.within(n),
        distinct4(idx.base_state_root),
        distinct4(idx.state_root),
        forall|a: int, b: int|
            0 <= a < 4 && 0 <= b < 4 ==> idx.base_state_root.pos(a) != idx.state_root.pos(b),
        forall|a: int| 0 <= a < 4 ==> idx.base_state_root.pos(a) != idx.block_height.0,
        forall|a: int| 0 <= a < 4 ==> idx.state_root.pos(a) != idx.block_height.0,
    ensures
        ({
            let r = base_inputs(idx, n, verifier, base_state_root, state_root, block_height);
            &&& r.len() == n
            &&& forall|k: int| 0 <= k < 4 ==> r[#[trigger] idx.base_state_root.pos(k)] == base_state_root[k]
            &&& forall|k: int| 0 <= k < 4 ==> r[#[trigger] idx.state_root.pos(k)] == state_root[k]
            &&& r[idx.block_height.0 as int] == field_of_u64(block_height)
        }),
{
    let zeros = Seq::new(n, |j: int| 0u64);
    let with_verifier = idx.verifier.write_spec(zeros, verifier);
    idx.verifier.lemma_write_spec_len(zeros, verifier);
    let with_base = write_all(idx.base_state_root.0.0, with_verifier, base_state_root@, 4);
    lemma_write_all_len(idx.base_state_root.0.0, with_verifier, base_state_root@, 4);
    let with_state = write_all(idx.state_root.0.0, with_base, state_root@, 4);
    lemma_write_all_len(idx.state_root.0.0, with_base, state_root@, 4);
    assert forall|k: int| 0 <= k < 4 implies with_state[#[trigger] idx.base_state_root.pos(k)]
        == base_state_root[k] by {
        lemma_write_all_read(idx.base_state_root.0.0, with_verifier, base_state_root@, 4, k);
        let j = idx.base_state_root.pos(k);
        assert forall|m: int| 0 <= m < 4 implies (#[trigger] idx.state_root.0.0[m]).0 != j by {
            assert(idx.state_root.pos(m) == idx.state_root.0.0[m].0);
        }
        lemma_write_all_other(idx.state_root.0.0, with_base, state_root@, 4, j);
    }
    assert forall|k: int| 0 <= k < 4 implies with_state[#[trigger] idx.state_root.pos(k)]
        == state_root[k] by {
        lemma_write_all_read(idx.state_root.0.0, with_base, state_root@, 4, k);
    }
}

impl SubCircuit {
    /// The public inputs of the proof of the dummy base circuit that the
    /// first block is built on: the verifier data of the block circuit, and
    /// the base state root as both the base and the current state, at
    /// height zero.
    pub fn prove_base(&self, verifier: &VerifierOnlyCircuitData, base_state_root: [u64; 4]) -> (r:
        Vec<u64>)
        requires
            self.indices.within(self.prev_proof.public_inputs@.len()),
            verifier.constants_sigmas_cap@.len() == self.indices.verifier.constants_sigmas_cap@.len(),
        ensures
            r@ == base_inputs(
                self.indices,
                self.prev_proof.public_inputs@.len(),
                *verifier,
                base_state_root,
                base_state_root,
                0,
            ),
    {
        self.prove_base_unsafe(verifier, base_state_root, base_state_root, 0)
    }

    /// The public inputs of a proof of the dummy base circuit with every
    /// value given as it is: see `base_inputs`.
    pub fn prove_base_unsafe(
        &self,
        verifier: &VerifierOnlyCircuitData,
        base_state_root: [u64; 4],
        state_root: [u64; 4],
        block_height: u64,
    ) -> (r: Vec<u64>)
        requires
            self.indices.within(self.prev_proof.public_inputs@.len()),
            verifier.constants_sigmas_cap@.len() == self.indices.verifier.constants_sigmas_cap@.len(),
        ensures
            r@ == base_inputs(
                self.indices,
                self.prev_proof.public_inputs@.len(),
                *verifier,
                base_state_root,
                state_root,
                block_height,
            ),
    {
        let n = self.prev_proof.public_inputs.len();
        let mut pis: Vec<u64> = Vec::new();
        let mut j: usize = 0;
        while j < n
            invariant
                j <= n,
                pis@ == Seq::new(j as nat, |i: int| 0u64),
            decreases n - j,
        {
            pis.push(0);
            j = j + 1;
            assert(pis@ =~= Seq::new(j as nat, |i: int| 0u64));
        }
        let ghost zeros = pis@;
        self.indices.verifier.set_field(pis.as_mut_slice(), verifier);
        let ghost with_verifier = pis@;
        proof {
            self.indices.verifier.lemma_write_spec_len(zeros, *verifier);
        }
        self.indices.base_state_root.set_field(pis.as_mut_slice(), base_state_root);
        proof {
            lemma_write_all_len(self.indices.base_state_root.0.0, with_verifier, base_state_root@, 4);
        }
        let ghost with_base = pis@;
        self.indices.state_root.set_field(pis.as_mut_slice(), state_root);
        proof {
            lemma_write_all_len(self.indices.state_root.0.0, with_base, state_root@, 4);
        }
        self.indices.block_height.set_field(pis.as_mut_slice(), u64_to_field(block_height));
        pis
    }

    /// Gives the witness the state root of this block; the previous block's
    /// proof is given to the proof target where the plan is replayed.
    pub fn set_witness(&self, inputs: &mut PartialWitness, state_root: [u64; 4]) -> (r: Result<
        (),
        WitnessConflict,
    >)
        ensures
            r is Ok <==> old(inputs).fits(self.inputs.state_root.elements@, state_root@),
            r is Ok ==> final(inputs).extends(*old(inputs)) && final(inputs).has_arr(
                self.inputs.state_root.elements,
                state_root,
            ),
    {
        inputs.set_hash_target(self.inputs.state_root, state_root)
    }

    /// Gives the witness every public input as it is: the verifier data, the
    /// base state root, the state root and the block height.
    pub fn set_witness_unsafe(
        &self,
        inputs: &mut PartialWitness,
        verifier: &VerifierOnlyCircuitData,
        base_state_root: [u64; 4],
        state_root: [u64; 4],
        block_height: u64,
    ) -> (r: Result<(), WitnessConflict>)
        requires
            self.inputs.verifier.constants_sigmas_cap.0@.len() == verifier.constants_sigmas_cap@.len(),
        ensures
            r is Ok <==> old(inputs).fits(
                verifier_data_targets(self.inputs.verifier) + (self.inputs.base_state_root.elements@
                    + self.inputs.state_root.elements@ + seq![self.inputs.block_height]),
                verifier_data_values(*verifier) + (base_state_root@ + state_root@ + seq![
                    field_of_u64(block_height),
                ]),
            ),
            r is Ok ==> {
                &&& final(inputs).extends(*old(inputs))
                &&& final(inputs).has_arr(self.inputs.verifier.circuit_digest.elements, verifier.circuit_digest)
                &&& final(inputs).has_arr(self.inputs.base_state_root.elements, base_state_root)
                &&& final(inputs).has_arr(self.inputs.state_root.elements, state_root)
                &&& final(inputs).has(self.inputs.block_height, fmod(block_height as int) as u64)
            },
    {
        let b = &self.inputs.base_state_root;
        let st = &self.inputs.state_root;
        let ts: [Target; 9] = [
            b.elements[0],
            b.elements[1],
            b.elements[2],
            b.elements[3],
            st.elements[0],
            st.elements[1],
            st.elements[2],
            st.elements[3],
            self.inputs.block_height,
        ];
        let vs: [u64; 9] = [
            base_state_root[0],
            base_state_root[1],
            base_state_root[2],
            base_state_root[3],
            state_root[0],
            state_root[1],
            state_root[2],
            state_root[3],
            u64_to_field(block_height),
        ];
        let ghost (t1, v1) = (verifier_data_targets(self.inputs.verifier), verifier_data_values(*verifier));
        let ghost w0 = *inputs;
        proof {
            assert(ts@ =~= b.elements@ + st.elements@ + seq![self.inputs.block_height]);
            assert(vs@ =~= base_state_root@ + state_root@ + seq![field_of_u64(block_height)]);
            lemma_verifier_data_len(self.inputs.verifier, *verifier);
            lemma_fits_prefix(w0, t1, v1, ts@, vs@);
        }
        inputs.set_verifier_data_target(&self.inputs.verifier, verifier)?;
        let ghost w1 = *inputs;
        proof {
            lemma_fits_after(w0, w1, t1, v1, ts@, vs@);
        }
        inputs.set_target_arr(&ts, &vs)?;
        proof {
            assert(ts[8] == self.inputs.block_height);
            assert forall|k: int| 0 <= k < 4 implies {
                &&& #[trigger] ts[k] == b.elements[k] && vs[k] == base_state_root[k]
                &&& ts[4 + k] == st.elements[k] && vs[4 + k] == state_root[k]
            } by {}
            assert forall|k: int| #![trigger self.inputs.verifier.circuit_digest.elements[k]] 0 <= k < 4 implies inputs.has(
                self.inputs.verifier.circuit_digest.elements[k],
                verifier.circuit_digest[k],
            ) by {
                assert(w1.has(self.inputs.verifier.circuit_digest.elements[k], verifier.circuit_digest[k]));
            }
        }
        Ok(())
    }
}

/// What verifying a transaction proof needs of the circuit that proves
/// them: the positions of its events, and the circuit itself.
pub struct TxCircuit {
    pub events: embed::PublicIndices,
    pub common: CommonCircuitData,
}

pub struct TxVerifierTargets {
    /// The tx proof.
    pub proof: ProofWithPublicInputsTarget,
    /// The presence flag for the event root.
    pub events_present: BoolTarget,
    /// The event root.
    pub event_root: HashOutTarget,
}

pub struct TxVerifierSubCircuit {
    pub targets: TxVerifierTargets,
}

impl TxVerifierTargets {
    /// Verifies a transaction proof against its (constant) verifier data and
    /// reads its events.
    pub fn build_targets(builder: &mut CircuitBuilder, tx: &TxCircuit) -> (r: Self)
        requires
            tx.events.within(tx.common.num_public_inputs as nat),
            crate::circuit::cap_height_ok(tx.common.cap_height),
        ensures
            final(builder).grows(*old(builder)),
            forall|e: Env| #[trigger]
                final(builder).sat(e) ==> e.verified(
                    tx.common.id,
                    e.verifier_data(tx.common.id),
                    e.vals(r.proof.public_inputs@),
                ),
            r.proof.public_inputs@.len() == tx.common.num_public_inputs,
            r.events_present.target == r.proof.public_inputs@[tx.events.hash_present.0.0 as int],
            r.event_root.elements == tx.events.hash.get_spec(r.proof.public_inputs@),
    {
        let circuit = &tx.common;
        let proof = builder.add_virtual_proof_with_pis(circuit.num_public_inputs);
        let verifier = builder.constant_verifier_data(circuit.id, circuit.cap_height);
        let ghost bc = *builder;
        builder.verify_proof(&proof, &verifier, circuit.id);
        let ghost bv = *builder;
        let pis = proof.public_inputs.as_slice();
        let events_present = tx.events.hash_present.get_target(pis);
        let event_root = tx.events.hash.get_target(pis);
        assert(event_root.elements =~= tx.events.hash.get_spec(pis@));
        proof {
            assert forall|e: Env| #[trigger] builder.sat(e) implies e.verified(
                tx.common.id,
                e.verifier_data(tx.common.id),
                e.vals(proof.public_inputs@),
            ) by {
                assert(bv.sat(e));
                assert(bc.sat(e));
            }
        }
        TxVerifierTargets { proof, events_present, event_root }
    }

    /// The subcircuit has no public inputs of its own.
    pub fn build(self, _public_inputs: &[Target]) -> (r: TxVerifierSubCircuit)
        ensures
            r.targets == self,
    {
        TxVerifierSubCircuit { targets: self }
    }
}

impl TxVerifierSubCircuit {
    /// Gives the witness the public inputs of the transaction proof.
    pub fn set_witness(&self, inputs: &mut PartialWitness, proof: &[u64]) -> (r: Result<
        (),
        WitnessConflict,
    >)
        requires
            self.targets.proof.public_inputs@.len() == proof@.len(),
        ensures
            r is Ok <==> old(inputs).fits(self.targets.proof.public_inputs@, proof@),
            r is Ok ==> final(inputs).wrote(*old(inputs), self.targets.proof.public_inputs@, proof@),
            r is Ok ==> final(inputs).extends(*old(inputs)),
            r is Ok ==> forall|k: int|
                0 <= k < proof@.len() ==> final(inputs).has(
                    #[trigger] self.targets.proof.public_inputs@[k],
                    proof@[k],
                ),
    {
        inputs.set_proof_with_pis_target(&self.targets.proof, proof)
    }
}

/// What verifying a match delta proof needs of the circuit that proves them:
/// the positions of the event hash, the block height and the state hash, and
/// the circuit itself.
pub struct MatchDeltaCircuit {
    pub event_hash: unpruned::PublicIndices,
    pub block_height: propagate::PublicIndices<1>,
    pub state_hash: unpruned::PublicIndices,
    pub common: CommonCircuitData,
}

pub struct MatchDeltaVerifierTargets {
    /// The match delta proof.
    pub proof: ProofWithPublicInputsTarget,
    /// The event root.
    pub event_root: HashOutTarget,
    /// The block height.
    pub block_height: Target,
    /// The state delta root.
    pub state_delta: HashOutTarget,
}

pub struct MatchDeltaVerifierSubCircuit {
    pub targets: MatchDeltaVerifierTargets,
}

impl MatchDeltaVerifierTargets {
    /// Verifies a match delta proof against its (constant) verifier data and
    /// reads its event root, block height and state delta.
    pub fn build_targets(builder: &mut CircuitBuilder, md: &MatchDeltaCircuit) -> (r: Self)
        requires
            md.event_hash.unpruned_hash.within(md.common.num_public_inputs as nat),
            md.block_height.values.0[0].0 < md.common.num_public_inputs,
            md.state_hash.unpruned_hash.within(md.common.num_public_inputs as nat),
            crate::circuit::cap_height_ok(md.common.cap_height),
        ensures
            final(builder).grows(*old(builder)),
            forall|e: Env| #[trigger]
                final(builder).sat(e) ==> e.verified(
                    md.common.id,
                    e.verifier_data(md.common.id),
                    e.vals(r.proof.public_inputs@),
                ),
            r.proof.public_inputs@.len() == md.common.num_public_inputs,
            r.event_root.elements == md.event_hash.unpruned_hash.get_spec(r.proof.public_inputs@),
            r.block_height == r.proof.public_inputs@[md.block_height.values.0[0].0 as int],
            r.state_delta.elements == md.state_hash.unpruned_hash.get_spec(r.proof.public_inputs@),
    {
        let circuit = &md.common;
        let proof = builder.add_virtual_proof_with_pis(circuit.num_public_inputs);
        let verifier = builder.constant_verifier_data(circuit.id, circuit.cap_height);
        let ghost bc = *builder;
        builder.verify_proof(&proof, &verifier, circuit.id);
        let ghost bv = *builder;
        let pis = proof.public_inputs.as_slice();
        let event_root = md.event_hash.unpruned_hash.get_target(pis);
        let block_height = md.block_height.values.0[0].get_target(pis);
        let state_delta = md.state_hash.unpruned_hash.get_target(pis);
        assert(event_root.elements =~= md.event_hash.unpruned_hash.get_spec(pis@));
        assert(state_delta.elements =~= md.state_hash.unpruned_hash.get_spec(pis@));
        proof {
            assert forall|e: Env| #[trigger] builder.sat(e) implies e.verified(
                md.common.id,
                e.verifier_data(md.common.id),
                e.vals(proof.public_inputs@),
            ) by {
                assert(bv.sat(e));
                assert(bc.sat(e));
            }
        }
        MatchDeltaVerifierTargets { proof, event_root, block_height, state_delta }
    }

    /// The subcircuit has no public inputs of its own.
    pub fn build(self, _public_inputs: &[Target]) -> (r: MatchDeltaVerifierSubCircuit)
        ensures
            r.targets == self,
    {
        MatchDeltaVerifierSubCircuit { targets: self }
    }
}

impl MatchDeltaVerifierSubCircuit {
    /// Gives the witness the public inputs of the match delta proof.
    pub fn set_witness(&self, inputs: &mut PartialWitness, proof: &[u64]) -> (r: Result<
        (),
        WitnessConflict,
    >)
        requires
            self.targets.proof.public_inputs@.len() == proof@.len(),
        ensures
            r is Ok <==> old(inputs).fits(self.targets.proof.public_inputs@, proof@),
            r is Ok ==> final(inputs).wrote(*old(inputs), self.targets.proof.public_inputs@, proof@),
            r is Ok ==> final(inputs).extends(*old(inputs)),
            r is Ok ==> forall|k: int|
                0 <= k < proof@.len() ==> final(inputs).has(
                    #[trigger] self.targets.proof.public_inputs@[k],
                    proof@[k],
                ),
    {
        inputs.set_proof_with_pis_target(&self.targets.proof, proof)
    }
}

/// What verifying a state update proof needs of the circuit that proves
/// them: the positions of the summary, the old and new roots and the address,
/// and the circuit itself.
pub struct StateUpdateCircuit {
    pub summarized: summarized::PublicIndices,
    pub old: unpruned::PublicIndices,
    pub new: unpruned::PublicIndices,
    pub address: verify_address::PublicIndices,
    pub common: CommonCircuitData,
}

pub struct StateUpdateVerifierTargets {
    /// The state update proof.
    pub proof: ProofWithPublicInputsTarget,
    /// The summarized root.
    pub summary_root: HashOutTarget,
    /// The old state root.
    pub old_root: HashOutTarget,
    /// The new state root.
    pub new_root: HashOutTarget,
}

pub struct StateUpdateVerifierSubCircuit {
    pub targets: StateUpdateVerifierTargets,
}

impl StateUpdateVerifierTargets {
    /// Verifies a state update proof against its (constant) verifier data,
    /// reads its roots, and proves it covers the whole tree: its summary is
    /// present and its address is the root's, zero.
    pub fn build_targets(builder: &mut CircuitBuilder, su: &StateUpdateCircuit) -> (r: Self)
        requires
            su.summarized.within(su.common.num_public_inputs as nat),
            su.old.unpruned_hash.within(su.common.num_public_inputs as nat),
            su.new.unpruned_hash.within(su.common.num_public_inputs as nat),
            su.address.within(su.common.num_public_inputs as nat),
            crate::circuit::cap_height_ok(su.common.cap_height),
        ensures
            final(builder).grows(*old(builder)),
            forall|e: Env| #[trigger]
                final(builder).sat(e) ==> e.verified(
                    su.common.id,
                    e.verifier_data(su.common.id),
                    e.vals(r.proof.public_inputs@),
                ),
            r.proof.public_inputs@.len() == su.common.num_public_inputs,
            r.summary_root.elements == su.summarized.summary_hash.get_spec(r.proof.public_inputs@),
            r.old_root.elements == su.old.unpruned_hash.get_spec(r.proof.public_inputs@),
            r.new_root.elements == su.new.unpruned_hash.get_spec(r.proof.public_inputs@),
            forall|e: Env|
                #[trigger] final(builder).sat(e) ==> {
                    let pis = r.proof.public_inputs@;
                    &&& e.val(pis[su.summarized.summary_hash_present.0.0 as int]) == 1
                    &&& e.val(pis[su.address.node_address.0 as int]) == 0
                },
    {
        let circuit = &su.common;
        let proof = builder.add_virtual_proof_with_pis(circuit.num_public_inputs);
        let verifier = builder.constant_verifier_data(circuit.id, circuit.cap_height);
        let ghost bc = *builder;
        builder.verify_proof(&proof, &verifier, circuit.id);
        let ghost bv = *builder;
        let pis = proof.public_inputs.as_slice();

        let summary_root = su.summarized.summary_hash.get_target(pis);
        let old_root = su.old.unpruned_hash.get_target(pis);
        let new_root = su.new.unpruned_hash.get_target(pis);

        let _true = builder._true();
        let summary_present = su.summarized.summary_hash_present.get_target(pis);
        builder.connect(summary_present.target, _true.target);

        let zero = builder.zero();
        let address = su.address.node_address.get_target(pis);
        builder.connect(address, zero);

        assert(summary_root.elements =~= su.summarized.summary_hash.get_spec(pis@));
        assert(old_root.elements =~= su.old.unpruned_hash.get_spec(pis@));
        assert(new_root.elements =~= su.new.unpruned_hash.get_spec(pis@));
        proof {
            assert forall|e: Env| #[trigger] builder.sat(e) implies e.verified(
                su.common.id,
                e.verifier_data(su.common.id),
                e.vals(proof.public_inputs@),
            ) by {
                assert(bv.sat(e));
                assert(bc.sat(e));
            }
        }
        StateUpdateVerifierTargets { proof, summary_root, old_root, new_root }
    }

    /// The subcircuit has no public inputs of its own.
    pub fn build(self, _public_inputs: &[Target]) -> (r: StateUpdateVerifierSubCircuit)
        ensures
            r.targets == self,
    {
        StateUpdateVerifierSubCircuit { targets: self }
    }
}

impl StateUpdateVerifierSubCircuit {
    /// Gives the witness the public inputs of the state update proof.
    pub fn set_witness(&self, inputs: &mut PartialWitness, proof: &[u64]) -> (r: Result<
        (),
        WitnessConflict,
    >)
        requires
            self.targets.proof.public_inputs@.len() == proof@.len(),
        ensures
            r is Ok <==> old(inputs).fits(self.targets.proof.public_inputs@, proof@),
            r is Ok ==> final(inputs).wrote(*old(inputs), self.targets.proof.public_inputs@, proof@),
            r is Ok ==> final(inputs).extends(*old(inputs)),
            r is Ok ==> forall|k: int|
                0 <= k < proof@.len() ==> final(inputs).has(
                    #[trigger] self.targets.proof.public_inputs@[k],
                    proof@[k],
                ),
    {
        inputs.set_proof_with_pis_target(&self.targets.proof, proof)
    }
}

} // verus!
