//! Circuits for proving correspondence of all parts of a block: its
//! transactions' events match the state deltas, which summarize the update
//! of the state tree from the previous block's state.
use vstd::prelude::*;

use crate::circuit::{
    lemma_fits_after, lemma_fits_prefix, lemma_wrote_chain, CircuitBuilder, CommonCircuitData, Env, PartialWitness, VerifierOnlyCircuitData,
    WitnessConflict,
};
use crate::gadgets::same_vals;
use crate::indices::all_within;

pub mod core_circuit;

verus! {

/// The positions of the public inputs of a block proof.
#[derive(Clone, PartialEq, Eq, Debug)]
pub struct Indices {
    pub block: core_circuit::PublicIndices,
}

/// A kind of block proof that is, or is not, the base of the chain.
pub trait IsBase {
    const VALUE: bool;
}

/// The base of the chain.
#[derive(Copy, Clone, Debug)]
pub struct Base;

impl IsBase for Base {
    const VALUE: bool = true;
}

/// A block built on a previous one.
#[derive(Copy, Clone, Debug)]
pub struct Block;

impl IsBase for Block {
    const VALUE: bool = false;
}

/// A block proof, by its public inputs, with their positions.
pub struct Proof {
    pub public_inputs: Vec<u64>,
    pub indices: Indices,
}

impl Proof {
    /// The verifier data the proof carries.
    pub fn verifier_data(&self) -> (r: VerifierOnlyCircuitData)
        requires
            self.indices.block.within(self.public_inputs@.len()),
        ensures
            forall|i: int|
                0 <= i < 4 ==> #[trigger] r.circuit_digest[i]
                    == self.public_inputs@[self.indices.block.verifier.circuit_digest.pos(i)],
            r.constants_sigmas_cap@.len() == self.indices.block.verifier.constants_sigmas_cap@.len(),
            forall|k: int, i: int|
                #![trigger r.constants_sigmas_cap@[k][i]]
                0 <= k < r.constants_sigmas_cap@.len() && 0 <= i < 4 ==> r.constants_sigmas_cap@[k][i]
                    == self.public_inputs@[self.indices.block.verifier.constants_sigmas_cap@[k].pos(
                    i,
                )],
    {
        self.indices.block.verifier.get_field(self.public_inputs.as_slice())
    }

    /// The base state root.
    pub fn base_state(&self) -> (r: [u64; 4])
        requires
            self.indices.block.within(self.public_inputs@.len()),
        ensures
            forall|k: int|
                0 <= k < 4 ==> #[trigger] r[k]
                    == self.public_inputs@[self.indices.block.base_state_root.pos(k)],
    {
        self.indices.block.base_state_root.get_field(self.public_inputs.as_slice())
    }

    /// The state root of the block.
    pub fn state(&self) -> (r: [u64; 4])
        requires
            self.indices.block.within(self.public_inputs@.len()),
        ensures
            forall|k: int|
                0 <= k < 4 ==> #[trigger] r[k] == self.public_inputs@[self.indices.block.state_root.pos(
                    k,
                )],
    {
        self.indices.block.state_root.get_field(self.public_inputs.as_slice())
    }

    /// The height of the block.
    pub fn block_height(&self) -> (r: u64)
        requires
            self.indices.block.within(self.public_inputs@.len()),
        ensures
            r == self.public_inputs@[self.indices.block.block_height.0 as int],
    {
        self.indices.block.block_height.get_field(self.public_inputs.as_slice())
    }
}

/// The proof a block is built on: the base of the chain, or a block.
pub enum BaseOrBlockRef<'a> {
    Base(&'a Proof),
    Block(&'a Proof),
}

impl<'a> BaseOrBlockRef<'a> {
    /// The proof held.
    pub open spec fn held(self) -> Proof {
        match self {
            BaseOrBlockRef::Base(p) => *p,
            BaseOrBlockRef::Block(p) => *p,
        }
    }

    /// Whether the proof is the base of the chain.
    pub fn is_base(&self) -> (r: bool)
        ensures
            r == (*self is Base),
    {
        match self {
            BaseOrBlockRef::Base(_) => Base::VALUE,
            BaseOrBlockRef::Block(_) => Block::VALUE,
        }
    }

    /// The proof.
    pub fn get_proof(&self) -> (r: &'a Proof)
        ensures
            *r == self.held(),
    {
        match self {
            BaseOrBlockRef::Base(p) => p,
            BaseOrBlockRef::Block(p) => p,
        }
    }

    /// The positions of the proof's public inputs.
    pub fn indices(&self) -> (r: &'a Indices)
        ensures
            r == match *self {
                BaseOrBlockRef::Base(p) => &p.indices,
                BaseOrBlockRef::Block(p) => &p.indices,
            },
    {
        match self {
            BaseOrBlockRef::Base(p) => &p.indices,
            BaseOrBlockRef::Block(p) => &p.indices,
        }
    }
}

/// The block circuit.
pub struct Circuit {
    /// The tx verifier.
    pub tx: core_circuit::TxVerifierSubCircuit,
    /// The match delta verifier.
    pub match_delta: core_circuit::MatchDeltaVerifierSubCircuit,
    /// The state update verifier.
    pub state_update: core_circuit::StateUpdateVerifierSubCircuit,
    /// The block verifier.
    pub block: core_circuit::SubCircuit,
    /// The plan of the circuit.
    pub circuit: CircuitBuilder,
}

/// What a block proves of its parts: the events of its transactions are the
/// events the state deltas were matched against, the deltas are at the
/// block's height, they are the summary of the state update, and the update
/// goes from the previous block's state to this block's.
pub open spec fn block_links(e: Env, r: Circuit) -> bool {
    let (tx, md, su) = (r.tx.targets, r.match_delta.targets, r.state_update.targets);
    &&& same_vals(e, tx.event_root.elements, md.event_root.elements)
    &&& e.val(md.block_height) == e.val(r.block.inputs.block_height)
    &&& same_vals(e, md.state_delta.elements, su.summary_root.elements)
    &&& same_vals(e, su.old_root.elements, r.block.prev_state_root.elements)
    &&& same_vals(e, su.new_root.elements, r.block.inputs.state_root.elements)
}

impl Circuit {
    /// Plans the block circuit, whose own verifier data has a cap of
    /// `2^cap_height` digests and which the plan numbers `id`; `dummy`
    /// numbers the base circuit that the first block is built on. The block
    /// verifies a proof of its transactions, of the match of their events
    /// with the state deltas, of the state update (see
    /// `core_circuit::StateUpdateVerifierTargets::build_targets`) and of the
    /// previous block (see `core_circuit::chains`), and links them: see
    /// `block_links`.
    #[verifier::rlimit(60)]
    pub fn new(
        tx: &core_circuit::TxCircuit,
        md: &core_circuit::MatchDeltaCircuit,
        su: &core_circuit::StateUpdateCircuit,
        cap_height: usize,
        id: usize,
        dummy: usize,
    ) -> (r: Self)
        requires
            tx.events.within(tx.common.num_public_inputs as nat),
            crate::circuit::cap_height_ok(tx.common.cap_height),
            md.event_hash.unpruned_hash.within(md.common.num_public_inputs as nat),
            md.block_height.values.0[0].0 < md.common.num_public_inputs,
            md.state_hash.unpruned_hash.within(md.common.num_public_inputs as nat),
            crate::circuit::cap_height_ok(md.common.cap_height),
            su.summarized.within(su.common.num_public_inputs as nat),
            su.old.unpruned_hash.within(su.common.num_public_inputs as nat),
            su.new.unpruned_hash.within(su.common.num_public_inputs as nat),
            su.address.within(su.common.num_public_inputs as nat),
            crate::circuit::cap_height_ok(su.common.cap_height),
            crate::circuit::cap_height_ok(cap_height),
        ensures
            r.block.indices.within(r.circuit.public_inputs@.len()),
            r.block.prev_proof.public_inputs@.len() == r.circuit.public_inputs@.len(),
            r.tx.targets.proof.public_inputs@.len() == tx.common.num_public_inputs,
            r.match_delta.targets.proof.public_inputs@.len() == md.common.num_public_inputs,
            r.state_update.targets.proof.public_inputs@.len() == su.common.num_public_inputs,
            r.block.inputs.verifier.constants_sigmas_cap.0@.len()
                == vstd::arithmetic::power2::pow2(cap_height as nat),
            r.tx.targets.event_root.elements == tx.events.hash.get_spec(
                r.tx.targets.proof.public_inputs@,
            ),
            r.match_delta.targets.event_root.elements == md.event_hash.unpruned_hash.get_spec(
                r.match_delta.targets.proof.public_inputs@,
            ),
            r.match_delta.targets.block_height
                == r.match_delta.targets.proof.public_inputs@[md.block_height.values.0[0].0 as int],
            r.match_delta.targets.state_delta.elements == md.state_hash.unpruned_hash.get_spec(
                r.match_delta.targets.proof.public_inputs@,
            ),
            r.state_update.targets.summary_root.elements == su.summarized.summary_hash.get_spec(
                r.state_update.targets.proof.public_inputs@,
            ),
            r.state_update.targets.old_root.elements == su.old.unpruned_hash.get_spec(
                r.state_update.targets.proof.public_inputs@,
            ),
            r.state_update.targets.new_root.elements == su.new.unpruned_hash.get_spec(
                r.state_update.targets.proof.public_inputs@,
            ),
            forall|e: Env|
                e.valid() && #[trigger] r.circuit.sat(e) ==> {
                    let su_pis = r.state_update.targets.proof.public_inputs@;
                    &&& block_links(e, r)
                    &&& core_circuit::chains(
                        e,
                        r.block.inputs,
                        r.block.indices,
                        r.block.prev_proof.public_inputs@,
                    )
                    &&& e.val(su_pis[su.summarized.summary_hash_present.0.0 as int]) == 1
                    &&& e.val(su_pis[su.address.node_address.0 as int]) == 0
                },
    {
        let mut builder = CircuitBuilder::new();
        let block_inputs = core_circuit::default(&mut builder, cap_height);
        let ghost registered = builder.public_inputs@;

        let tx_targets = core_circuit::TxVerifierTargets::build_targets(&mut builder, tx);
        let match_delta_targets = core_circuit::MatchDeltaVerifierTargets::build_targets(
            &mut builder,
            md,
        );
        let state_update_targets = core_circuit::StateUpdateVerifierTargets::build_targets(
            &mut builder,
            su,
        );
        let ghost b0 = builder;
        let common = CommonCircuitData {
            num_public_inputs: builder.num_public_inputs(),
            cap_height,
            id,
        };
        assert(builder.public_inputs@ == registered);
        let block = block_inputs.build(&mut builder, &common, dummy);
        let ghost b1 = builder;

        builder.connect_hashes(tx_targets.event_root, match_delta_targets.event_root);
        let ghost b2 = builder;
        builder.connect(match_delta_targets.block_height, block.inputs.block_height);
        let ghost b3 = builder;
        builder.connect_hashes(match_delta_targets.state_delta, state_update_targets.summary_root);
        let ghost b4 = builder;
        builder.connect_hashes(state_update_targets.old_root, block.prev_state_root);
        let ghost b5 = builder;
        builder.connect_hashes(state_update_targets.new_root, block.inputs.state_root);

        let public_inputs = builder.public_inputs.clone();
        let tx_sub = tx_targets.build(public_inputs.as_slice());
        let match_delta = match_delta_targets.build(public_inputs.as_slice());
        let state_update = state_update_targets.build(public_inputs.as_slice());
        let r = Circuit { tx: tx_sub, match_delta, state_update, block, circuit: builder };
        proof {
            assert forall|e: Env| e.valid() && #[trigger] r.circuit.sat(e) implies {
                let su_pis = r.state_update.targets.proof.public_inputs@;
                &&& block_links(e, r)
                &&& core_circuit::chains(
                    e,
                    r.block.inputs,
                    r.block.indices,
                    r.block.prev_proof.public_inputs@,
                )
                &&& e.val(su_pis[su.summarized.summary_hash_present.0.0 as int]) == 1
                &&& e.val(su_pis[su.address.node_address.0 as int]) == 0
            } by {
                assert(b5.sat(e));
                assert(b4.sat(e));
                assert(b3.sat(e));
                assert(b2.sat(e));
                assert(b1.sat(e));
                assert(b0.sat(e));
                assert(same_vals(
                    e,
                    tx_targets.event_root.elements,
                    match_delta_targets.event_root.elements,
                ));
                assert(same_vals(
                    e,
                    match_delta_targets.state_delta.elements,
                    state_update_targets.summary_root.elements,
                ));
                assert(same_vals(
                    e,
                    state_update_targets.old_root.elements,
                    block.prev_state_root.elements,
                ));
                assert(same_vals(
                    e,
                    state_update_targets.new_root.elements,
                    block.inputs.state_root.elements,
                ));
            }
        }
        r
    }

    /// The positions of the public inputs of a block proof.
    pub fn indices(&self) -> (r: Indices)
        ensures
            r.block.verifier.circuit_digest == self.block.indices.verifier.circuit_digest,
            r.block.verifier.constants_sigmas_cap@
                == self.block.indices.verifier.constants_sigmas_cap@,
            r.block.base_state_root == self.block.indices.base_state_root,
            r.block.state_root == self.block.indices.state_root,
            r.block.block_height == self.block.indices.block_height,
    {
        let idx = &self.block.indices;
        Indices {
            block: core_circuit::PublicIndices {
                verifier: idx.verifier.duplicate(),
                base_state_root: idx.base_state_root,
                state_root: idx.state_root,
                block_height: idx.block_height,
            },
        }
    }

    /// The base proof that the chain starts from: the block circuit's
    /// verifier data (given, as the prover makes it), and the base state
    /// root as both the base and the current state, at height zero.
    pub fn prove_base(&self, verifier: &VerifierOnlyCircuitData, base_state_root: [u64; 4]) -> (r:
        Proof)
        requires
            self.block.indices.within(self.block.prev_proof.public_inputs@.len()),
            verifier.constants_sigmas_cap@.len()
                == self.block.indices.verifier.constants_sigmas_cap@.len(),
        ensures
            r.public_inputs@ == core_circuit::base_inputs(
                self.block.indices,
                self.block.prev_proof.public_inputs@.len(),
                *verifier,
                base_state_root,
                base_state_root,
                0,
            ),
            r.indices.block.verifier.circuit_digest == self.block.indices.verifier.circuit_digest,
            r.indices.block.verifier.constants_sigmas_cap@
                == self.block.indices.verifier.constants_sigmas_cap@,
            r.indices.block.base_state_root == self.block.indices.base_state_root,
            r.indices.block.state_root == self.block.indices.state_root,
            r.indices.block.block_height == self.block.indices.block_height,
    {
        let public_inputs = self.block.prove_base(verifier, base_state_root);
        let indices = self.indices();
        Proof { public_inputs, indices }
    }

    /// Gives the witness the public inputs of the proofs of the block's
    /// transactions, of the match of their events, of the state update, and
    /// of the previous block.
    pub fn set_witness(
        &self,
        inputs: &mut PartialWitness,
        tx_proof: &[u64],
        match_proof: &[u64],
        state_proof: &[u64],
        prev_proof: BaseOrBlockRef,
    ) -> (r: Result<(), WitnessConflict>)
        requires
            self.tx.targets.proof.public_inputs@.len() == tx_proof@.len(),
            self.match_delta.targets.proof.public_inputs@.len() == match_proof@.len(),
            self.state_update.targets.proof.public_inputs@.len() == state_proof@.len(),
            self.block.prev_proof.public_inputs@.len() == prev_proof.held().public_inputs@.len(),
        ensures
            r is Ok <==> old(inputs).fits(
                self.tx.targets.proof.public_inputs@ + self.match_delta.targets.proof.public_inputs@
                    + self.state_update.targets.proof.public_inputs@
                    + self.block.prev_proof.public_inputs@,
                tx_proof@ + match_proof@ + state_proof@ + prev_proof.held().public_inputs@,
            ),
            r is Ok ==> final(inputs).extends(*old(inputs)),
            r is Ok ==> forall|k: int|
                0 <= k < tx_proof@.len() ==> final(inputs).has(
                    #[trigger] self.tx.targets.proof.public_inputs@[k],
                    tx_proof@[k],
                ),
            r is Ok ==> forall|k: int|
                0 <= k < match_proof@.len() ==> final(inputs).has(
                    #[trigger] self.match_delta.targets.proof.public_inputs@[k],
                    match_proof@[k],
                ),
            r is Ok ==> forall|k: int|
                0 <= k < state_proof@.len() ==> final(inputs).has(
                    #[trigger] self.state_update.targets.proof.public_inputs@[k],
                    state_proof@[k],
                ),
            r is Ok ==> forall|k: int|
                0 <= k < prev_proof.held().public_inputs@.len() ==> final(inputs).has(
                    #[trigger] self.block.prev_proof.public_inputs@[k],
                    prev_proof.held().public_inputs@[k],
                ),
    {
        let prev = prev_proof.get_proof();
        let ghost (t1, v1) = (self.tx.targets.proof.public_inputs@, tx_proof@);
        let ghost (t2, v2) = (self.match_delta.targets.proof.public_inputs@, match_proof@);
        let ghost (t3, v3) = (self.state_update.targets.proof.public_inputs@, state_proof@);
        let ghost (t4, v4) = (self.block.prev_proof.public_inputs@, prev_proof.held().public_inputs@);
        let ghost w0 = *inputs;
        proof {
            lemma_fits_prefix(w0, t1 + t2 + t3, v1 + v2 + v3, t4, v4);
            lemma_fits_prefix(w0, t1 + t2, v1 + v2, t3, v3);
            lemma_fits_prefix(w0, t1, v1, t2, v2);
        }
        self.tx.set_witness(inputs, tx_proof)?;
        let ghost w1 = *inputs;
        proof {
            lemma_fits_after(w0, w1, t1, v1, t2, v2);
        }
        self.match_delta.set_witness(inputs, match_proof)?;
        let ghost w2 = *inputs;
        proof {
            lemma_wrote_chain(w0, w1, w2, t1, v1, t2, v2);
            lemma_fits_after(w0, w2, t1 + t2, v1 + v2, t3, v3);
        }
        self.state_update.set_witness(inputs, state_proof)?;
        let ghost w3 = *inputs;
        proof {
            lemma_wrote_chain(w0, w2, w3, t1 + t2, v1 + v2, t3, v3);
            lemma_fits_after(w0, w3, t1 + t2 + t3, v1 + v2 + v3, t4, v4);
        }
        inputs.set_proof_with_pis_target(&self.block.prev_proof, prev.public_inputs.as_slice())?;
        proof {
            assert forall|k: int| 0 <= k < tx_proof@.len() implies inputs.has(
                #[trigger] self.tx.targets.proof.public_inputs@[k],
                tx_proof@[k],
            ) by {
                assert(w1.has(self.tx.targets.proof.public_inputs@[k], tx_proof@[k]));
                assert(w2.has(self.tx.targets.proof.public_inputs@[k], tx_proof@[k]));
                assert(w3.has(self.tx.targets.proof.public_inputs@[k], tx_proof@[k]));
            }
            assert forall|k: int| 0 <= k < match_proof@.len() implies inputs.has(
                #[trigger] self.match_delta.targets.proof.public_inputs@[k],
                match_proof@[k],
            ) by {
                assert(w2.has(self.match_delta.targets.proof.public_inputs@[k], match_proof@[k]));
                assert(w3.has(self.match_delta.targets.proof.public_inputs@[k], match_proof@[k]));
            }
            assert forall|k: int| 0 <= k < state_proof@.len() implies inputs.has(
                #[trigger] self.state_update.targets.proof.public_inputs@[k],
                state_proof@[k],
            ) by {
                assert(w3.has(self.state_update.targets.proof.public_inputs@[k], state_proof@[k]));
            }
        }
        Ok(())
    }
}

} // verus!
