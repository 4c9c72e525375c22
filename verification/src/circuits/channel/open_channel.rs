use vstd::prelude::*;
use crate::circuits::{all_canonical, ProofTuple, RecursiveTargets};
use crate::circuits::channel::{are_canonical, state_proof_is_sound};
use crate::circuits::channel::increment_channel::assigned;
use crate::error::CircuitError;
use crate::gadgets::shot::serialize_shot;
use crate::plonk::circuit_builder::{
    supplied, supplied_all, CircuitBuilder, CircuitConfig, CommonCircuitData, VerifierCircuitTarget,
};
use crate::plonk::circuit_data::{CircuitData, ProofWithPublicInputs};
use crate::plonk::gate::{Assignment, Target};
use crate::plonk::witness::{assign_all, lemma_assign_all, PartialWitness};

verus! {

/// A board proof has the public inputs that its shape announces: the four
/// field elements of a commitment.
pub open spec fn board_proof_is_sound(proof: ProofTuple) -> bool {
    &&& proof.0.public_inputs@.len() == 4
    &&& proof.2.num_public_inputs == 4
    &&& all_canonical(proof.0.public_inputs@)
}

/// Tells whether a proof can be a board proof.
pub fn is_board_proof(proof: &ProofTuple) -> (ok: bool)
    ensures
        ok == board_proof_is_sound(*proof),
{
    proof.0.public_inputs.len() == 4 && proof.2.num_public_inputs == 4 && are_canonical(
        &proof.0.public_inputs,
    )
}

/// The witness of the circuit that opens a channel: the public inputs of
/// the two board proofs on the wires that stand for them, and the opening
/// shot. Fails where a proof has another number of public inputs than its
/// wires expect.
pub fn partial_witness(
    host_t: &RecursiveTargets,
    guest_t: &RecursiveTargets,
    host_p: &ProofTuple,
    guest_p: &ProofTuple,
    shot: [u8; 2],
    shot_t: [Target; 2],
) -> (result: Result<PartialWitness, CircuitError>)
    ensures
        host_p.0.public_inputs@.len() != host_t.proof.public_inputs@.len()
            || guest_p.0.public_inputs@.len() != guest_t.proof.public_inputs@.len() ==> result is Err
            && result->Err_0 == CircuitError::InvalidProof,
        host_p.0.public_inputs@.len() == host_t.proof.public_inputs@.len()
            && guest_p.0.public_inputs@.len() == guest_t.proof.public_inputs@.len() ==> result is Ok
            && result->Ok_0@ == assign_all(
            assign_all(
                Map::<int, u64>::empty(),
                host_t.proof.public_inputs@,
                host_p.0.public_inputs@,
                host_p.0.public_inputs@.len() as int,
            ),
            guest_t.proof.public_inputs@,
            guest_p.0.public_inputs@,
            guest_p.0.public_inputs@.len() as int,
        ).insert(shot_t[0].index as int, shot[0] as u64).insert(
            shot_t[1].index as int,
            shot[1] as u64,
        ),
{
    if host_p.0.public_inputs.len() != host_t.proof.public_inputs.len()
        || guest_p.0.public_inputs.len() != guest_t.proof.public_inputs.len() {
        return Err(CircuitError::InvalidProof);
    }
    let mut pw = PartialWitness::new();
    pw.set_proof_with_pis_target(&host_t.proof, &host_p.0);
    pw.set_proof_with_pis_target(&guest_t.proof, &guest_p.0);
    pw.set_target(shot_t[0], shot[0] as u64);
    pw.set_target(shot_t[1], shot[1] as u64);
    Ok(pw)
}

/// Reads the two commitments out of the public inputs of a proof that
/// opens a channel: the host's, then the guest's. Fails where the proof
/// does not have exactly nine public inputs.
pub fn decode_public(proof: ProofWithPublicInputs) -> (result: Result<
    ([u64; 4], [u64; 4]),
    CircuitError,
>)
    ensures
        proof.public_inputs@.len() != 9 ==> result is Err && result->Err_0
            == CircuitError::InvalidProof,
        proof.public_inputs@.len() == 9 ==> result is Ok && result->Ok_0.0@
            == proof.public_inputs@.subrange(0, 4) && result->Ok_0.1@
            == proof.public_inputs@.subrange(4, 8),
{
    if proof.public_inputs.len() != 9 {
        return Err(CircuitError::InvalidProof);
    }
    let host: [u64; 4] = [
        proof.public_inputs[0],
        proof.public_inputs[1],
        proof.public_inputs[2],
        proof.public_inputs[3],
    ];
    let guest: [u64; 4] = [
        proof.public_inputs[4],
        proof.public_inputs[5],
        proof.public_inputs[6],
        proof.public_inputs[7],
    ];
    assert(host@ =~= proof.public_inputs@.subrange(0, 4));
    assert(guest@ =~= proof.public_inputs@.subrange(4, 8));
    Ok((host, guest))
}

/// The circuit that opens a channel.
pub struct OpenCircuit {
    pub data: CircuitData,
    /// The wires of the board proof of the host.
    pub host: RecursiveTargets,
    /// The wires of the board proof of the guest.
    pub guest: RecursiveTargets,
    /// The wires of the column and the row of the opening shot.
    pub shot_t: [Target; 2],
}

impl OpenCircuit {
    /// `witness` is accepted: it supplies the public inputs of both board
    /// proofs and an opening shot on the grid.
    pub open spec fn accepts(&self, witness: Assignment) -> bool {
        &&& supplied_all(witness, self.host.proof.public_inputs@)
        &&& supplied_all(witness, self.guest.proof.public_inputs@)
        &&& supplied(witness, self.shot_t[0])
        &&& supplied(witness, self.shot_t[1])
        &&& witness[self.shot_t[0].index as int] < 10
        &&& witness[self.shot_t[1].index as int] < 10
    }

    /// The circuit is the opening circuit: its witness wires lie where the
    /// layout puts them, its constraints are satisfied exactly by the
    /// witnesses it accepts, and it then exposes the two commitments and the
    /// serialized opening shot.
    pub open spec fn wf(&self) -> bool {
        &&& self.data.wf()
        &&& self.host.proof.public_inputs@.len() == 4
        &&& self.guest.proof.public_inputs@.len() == 4
        &&& forall|k: int| 0 <= k < 4 ==> (#[trigger] self.host.proof.public_inputs@[k]).index == k
        &&& forall|k: int|
            0 <= k < 4 ==> (#[trigger] self.guest.proof.public_inputs@[k]).index == 4 + k
        &&& self.shot_t[0].index == 8
        &&& self.shot_t[1].index == 9
        &&& self.data.common == (CommonCircuitData {
            config: CircuitConfig { num_wires: 135, num_routed_wires: 80, zero_knowledge: false },
            num_public_inputs: 9,
        })
        &&& forall|witness: Assignment| #[trigger]
            self.data.satisfied(witness) == self.accepts(witness)
        &&& forall|witness: Assignment|
            self.accepts(witness) ==> #[trigger] self.data.outputs(witness) == assigned(
                witness,
                self.host.proof.public_inputs@,
            ) + assigned(witness, self.guest.proof.public_inputs@) + seq![
                (10 * witness[self.shot_t[1].index as int]
                    + witness[self.shot_t[0].index as int]) as u64,
            ]
    }

    /// Lays out the opening circuit for two board proofs of the given
    /// shapes. Fails where one of them does not have the four public inputs
    /// of a commitment.
    pub fn build(host_common: &CommonCircuitData, guest_common: &CommonCircuitData) -> (result:
        Result<OpenCircuit, CircuitError>)
        ensures
            host_common.num_public_inputs == 4 && guest_common.num_public_inputs == 4
                ==> result is Ok,
            !(host_common.num_public_inputs == 4 && guest_common.num_public_inputs == 4)
                ==> result is Err && result->Err_0 == CircuitError::InvalidProof,
            result is Ok ==> result->Ok_0.wf(),
    {
        if host_common.num_public_inputs != 4 || guest_common.num_public_inputs != 4 {
            return Err(CircuitError::InvalidProof);
        }
        let config = CircuitConfig::standard_recursion_config();
        let mut builder = CircuitBuilder::new(config);
        let host_pt = builder.add_virtual_proof_with_pis(host_common);
        let ghost b1 = builder;
        let guest_pt = builder.add_virtual_proof_with_pis(guest_common);
        let ghost b2 = builder;
        let x = builder.add_virtual_target();
        let ghost b3 = builder;
        let y = builder.add_virtual_target();
        let ghost b4 = builder;
        let serialized = serialize_shot(x, y, &mut builder)?;
        let ghost b5 = builder;
        proof {
            b4.lemma_extends_transitive(b3, b2);
            b5.lemma_extends_transitive(b4, b2);
            b5.lemma_extends_transitive(b2, b1);
            b5.lemma_values_kept(b1, Map::<int, u64>::empty(), host_pt.public_inputs@);
            b5.lemma_values_kept(b2, Map::<int, u64>::empty(), guest_pt.public_inputs@);
        }
        builder.register_public_inputs(&host_pt.public_inputs);
        let ghost b6 = builder;
        proof {
            b6.lemma_values_kept(b5, Map::<int, u64>::empty(), guest_pt.public_inputs@);
        }
        builder.register_public_inputs(&guest_pt.public_inputs);
        builder.register_public_input(serialized);
        let ghost b8 = builder;
        let data = builder.build();
        let host = RecursiveTargets {
            verifier: VerifierCircuitTarget { slot: host_pt.slot },
            proof: host_pt,
        };
        let guest = RecursiveTargets {
            verifier: VerifierCircuitTarget { slot: guest_pt.slot },
            proof: guest_pt,
        };
        let circuit = OpenCircuit { data, host, guest, shot_t: [x, y] };
        proof {
            let hs = circuit.host.proof.public_inputs@;
            let gs = circuit.guest.proof.public_inputs@;
            assert(circuit.data.public_inputs@ =~= hs + gs + seq![serialized]);
            assert forall|witness: Assignment|
                #![trigger circuit.data.satisfied(witness)]
                #![trigger circuit.data.outputs(witness)]
                circuit.data.satisfied(witness) == circuit.accepts(witness) && (circuit.accepts(
                    witness,
                ) ==> circuit.data.outputs(witness) == assigned(witness, hs) + assigned(witness, gs)
                    + seq![(10 * witness[y.index as int] + witness[x.index as int]) as u64]) by {
                let w = witness;
                assert(b3.satisfied(w) == (b2.satisfied(w) && supplied(w, x)));
                assert(b2.satisfied(w) == (b1.satisfied(w) && supplied_all(w, gs)));
                assert(b4.value(w, x) == b3.value(w, x));
                assert(circuit.data.satisfied(w) == b8.satisfied(w));
                assert(b8.satisfied(w) == b5.satisfied(w));
                if circuit.accepts(w) {
                    let out = circuit.data.outputs(w);
                    let expected = assigned(w, hs) + assigned(w, gs) + seq![
                        (10 * w[y.index as int] + w[x.index as int]) as u64,
                    ];
                    assert forall|k: int| 0 <= k < 9 implies out[k] == expected[k] by {
                        let t = circuit.data.public_inputs@[k];
                        assert(circuit.data.value(w, t) == b8.value(w, t));
                        assert(b8.value(w, t) == b5.value(w, t));
                        if k < 4 {
                            assert(t == hs[k]);
                            assert(supplied(w, hs[k]));
                            assert(b1.value(w, hs[k]) == w[hs[k].index as int]);
                            assert(b5.value(w, hs[k]) == b1.value(w, hs[k]));
                        } else if k < 8 {
                            assert(t == gs[k - 4]);
                            assert(supplied(w, gs[k - 4]));
                            assert(b2.value(w, gs[k - 4]) == w[gs[k - 4].index as int]);
                            assert(b5.value(w, gs[k - 4]) == b2.value(w, gs[k - 4]));
                        }
                    }
                    assert(out =~= expected);
                }
            }
        }
        Ok(circuit)
    }
}

/// Opens a channel: verifies the board proofs of host and guest and
/// exposes their two commitments and the serialized opening shot. Fails
/// with an invalid proof where one of the two cannot be a board proof, and
/// with an unsatisfied circuit where the shot lies off the grid.
pub fn prove_channel_open(host: ProofTuple, guest: ProofTuple, shot: [u8; 2]) -> (result: Result<
    ProofTuple,
    CircuitError,
>)
    ensures
        !(board_proof_is_sound(host) && board_proof_is_sound(guest)) ==> result is Err
            && result->Err_0 == CircuitError::InvalidProof,
        board_proof_is_sound(host) && board_proof_is_sound(guest) && !(shot[0] < 10 && shot[1]
            < 10) ==> result is Err && result->Err_0 == CircuitError::Unsatisfiable,
        board_proof_is_sound(host) && board_proof_is_sound(guest) && shot[0] < 10 && shot[1] < 10
            ==> result is Ok && result->Ok_0.0.public_inputs@ == host.0.public_inputs@
            + guest.0.public_inputs@ + seq![(10 * shot[1] + shot[0]) as u64] && result->Ok_0.2 == (
        CommonCircuitData {
            config: CircuitConfig { num_wires: 135, num_routed_wires: 80, zero_knowledge: false },
            num_public_inputs: 9,
        }),
        result is Ok ==> state_proof_is_sound(result->Ok_0),
{
    if !(is_board_proof(&host) && is_board_proof(&guest)) {
        return Err(CircuitError::InvalidProof);
    }
    let circuit = OpenCircuit::build(&host.2, &guest.2)?;
    let pw = partial_witness(&circuit.host, &circuit.guest, &host, &guest, shot, circuit.shot_t)?;
    proof {
        let w = pw@;
        let hs = circuit.host.proof.public_inputs@;
        let gs = circuit.guest.proof.public_inputs@;
        let hv = host.0.public_inputs@;
        let gv = guest.0.public_inputs@;
        let w1 = assign_all(Map::<int, u64>::empty(), hs, hv, 4);
        assert forall|k: int| 0 <= k < 4 implies w.contains_key(k) && w[k] == hv[k]
            && w.contains_key(4 + k) && w[4 + k] == gv[k] by {
            lemma_assign_all(Map::<int, u64>::empty(), hs, hv, 4, 0, k);
            lemma_assign_all(w1, gs, gv, 4, 4, k);
            lemma_assign_all(w1, gs, gv, 4, 4, 4 + k);
        }
        assert(supplied_all(w, hs)) by {
            assert forall|k: int| 0 <= k < 4 implies supplied(w, #[trigger] hs[k]) by {
                assert(w[k] == hv[k]);
            }
        }
        assert(supplied_all(w, gs)) by {
            assert forall|k: int| 0 <= k < 4 implies supplied(w, #[trigger] gs[k]) by {
                assert(gs[k].index == 4 + k);
                assert(w[4 + k] == gv[k]);
            }
        }
        assert(assigned(w, hs) =~= hv);
        assert(assigned(w, gs) =~= gv) by {
            assert forall|k: int| 0 <= k < 4 implies assigned(w, gs)[k] == gv[k] by {
                assert(gs[k].index == 4 + k);
            }
        }
    }
    let proof = circuit.data.prove(&pw)?;
    Ok((proof, circuit.data.verifier_only, circuit.data.common))
}

} // verus!
