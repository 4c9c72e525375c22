use vstd::prelude::*;
use crate::circuits::{proof_is_sound, ProofTuple};
use crate::circuits::channel::{
    decoded_state, is_state_proof, state_proof_is_sound, GameTargets, PublicState,
};
use crate::circuits::channel::increment_channel::{assigned, StateIncrementCircuit};
use crate::error::CircuitError;
use crate::field::field_bool;
use crate::plonk::circuit_builder::{
    supplied, supplied_all, CircuitBuilder, CircuitConfig, CommonCircuitData,
};
use crate::plonk::circuit_data::CircuitData;
use crate::plonk::gate::{lemma_select_bool, Assignment, BoolTarget, Target};
use crate::plonk::witness::{assign_all, lemma_assign_all, PartialWitness};

verus! {

/// The damage that decides a game: that of the board which took the last
/// shot, the host's where the turn is 1 and the guest's where it is 0.
pub open spec fn deciding_damage(state: PublicState) -> u64 {
    if state.turn == 1 {
        state.host_damage
    } else {
        state.guest_damage
    }
}

/// What closing a channel exposes: the commitment of the winner, then that
/// of the loser. The loser is the player whose board took the last shot.
pub open spec fn close_outputs(state: PublicState) -> Seq<u64> {
    if state.turn == 1 {
        state.guest + state.host
    } else {
        state.host + state.guest
    }
}

/// The witness of the circuit that closes a channel: the public inputs of
/// the last state proof on the wires that stand for them. Fails where the
/// proof has another number of public inputs than the wires expect.
pub fn partial_witness(state_increment_p: &ProofTuple, targets: &GameTargets) -> (result: Result<
    PartialWitness,
    CircuitError,
>)
    ensures
        state_increment_p.0.public_inputs@.len() != targets.prev_proof.proof.public_inputs@.len()
            ==> result is Err && result->Err_0 == CircuitError::InvalidProof,
        state_increment_p.0.public_inputs@.len() == targets.prev_proof.proof.public_inputs@.len()
            ==> result is Ok && result->Ok_0@ == assign_all(
            Map::<int, u64>::empty(),
            targets.prev_proof.proof.public_inputs@,
            state_increment_p.0.public_inputs@,
            state_increment_p.0.public_inputs@.len() as int,
        ),
{
    if state_increment_p.0.public_inputs.len() != targets.prev_proof.proof.public_inputs.len() {
        return Err(CircuitError::InvalidProof);
    }
    let mut pw = PartialWitness::new();
    pw.set_proof_with_pis_target(&targets.prev_proof.proof, &state_increment_p.0);
    Ok(pw)
}

/// Lays out four wires that carry `when_true` where `turn` is 1 and
/// `when_false` where it is 0.
fn select_commitment(
    builder: &mut CircuitBuilder,
    turn: BoolTarget,
    when_true: [Target; 4],
    when_false: [Target; 4],
) -> (out: Vec<Target>)
    requires
        old(builder).wf(),
        old(builder).has(turn.target),
        old(builder).has_all(when_true@),
        old(builder).has_all(when_false@),
    ensures
        final(builder).wf(),
        final(builder).extends(*old(builder)),
        final(builder).public_inputs@ == old(builder).public_inputs@,
        out@.len() == 4,
        final(builder).has_all(out@),
        forall|witness: Assignment| #[trigger]
            final(builder).satisfied(witness) == old(builder).satisfied(witness),
        forall|witness: Assignment|
            old(builder).value(witness, turn.target) <= 1 ==> #[trigger] final(builder).value_all(
                witness,
                out@,
            ) == if old(builder).value(witness, turn.target) == 1 {
                old(builder).value_all(witness, when_true@)
            } else {
                old(builder).value_all(witness, when_false@)
            },
{
    let ghost b0 = *builder;
    let mut out: Vec<Target> = Vec::new();
    let mut k: usize = 0;
    proof {
        b0.lemma_extends_itself();
    }
    while k < 4
        invariant
            k <= 4,
            b0.wf(),
            b0.has(turn.target),
            b0.has_all(when_true@),
            b0.has_all(when_false@),
            builder.wf(),
            builder.extends(b0),
            builder.public_inputs@ == b0.public_inputs@,
            out@.len() == k,
            builder.has_all(out@),
            forall|witness: Assignment| #[trigger]
                builder.satisfied(witness) == b0.satisfied(witness),
            forall|witness: Assignment, j: int|
                0 <= j < k && b0.value(witness, turn.target) <= 1 ==> #[trigger] builder.value(
                    witness,
                    out@[j],
                ) == if b0.value(witness, turn.target) == 1 {
                    b0.value(witness, when_true@[j])
                } else {
                    b0.value(witness, when_false@[j])
                },
        decreases 4 - k,
    {
        let ghost previous = *builder;
        let ghost earlier = out@;
        proof {
            assert(b0.has(when_true@[k as int]) && b0.has(when_false@[k as int]));
        }
        let limb = builder.select(turn, when_true[k], when_false[k]);
        out.push(limb);
        proof {
            builder.lemma_extends_transitive(previous, b0);
            assert(builder.has_all(out@)) by {
                assert forall|j: int| 0 <= j < out@.len() implies (#[trigger] out@[j]).index
                    < builder.gates@.len() by {
                    if j < k {
                        assert(out@[j] == earlier[j]);
                        assert(previous.has(earlier[j]));
                    }
                }
            }
            assert forall|witness: Assignment, j: int|
                0 <= j < k + 1 && b0.value(witness, turn.target) <= 1 implies #[trigger]
                builder.value(witness, out@[j]) == if b0.value(witness, turn.target) == 1 {
                b0.value(witness, when_true@[j])
            } else {
                b0.value(witness, when_false@[j])
            } by {
                if j < k {
                    assert(out@[j] == earlier[j]);
                    assert(previous.has(earlier[j]));
                    assert(builder.value(witness, earlier[j]) == previous.value(
                        witness,
                        earlier[j],
                    ));
                } else {
                    let t = b0.value(witness, turn.target);
                    let a = b0.value(witness, when_true@[k as int]);
                    let b = b0.value(witness, when_false@[k as int]);
                    assert(previous.value(witness, turn.target) == t);
                    assert(previous.value(witness, when_true@[k as int]) == a);
                    assert(previous.value(witness, when_false@[k as int]) == b);
                    b0.lemma_value_canonical(witness, when_true@[k as int]);
                    b0.lemma_value_canonical(witness, when_false@[k as int]);
                    lemma_select_bool(t, a, b);
                }
            }
        }
        k += 1;
    }
    proof {
        assert forall|witness: Assignment| b0.value(witness, turn.target) <= 1 implies #[trigger]
            builder.value_all(witness, out@) == if b0.value(witness, turn.target) == 1 {
            b0.value_all(witness, when_true@)
        } else {
            b0.value_all(witness, when_false@)
        } by {
            let picked = if b0.value(witness, turn.target) == 1 {
                b0.value_all(witness, when_true@)
            } else {
                b0.value_all(witness, when_false@)
            };
            assert forall|j: int| 0 <= j < 4 implies builder.value_all(witness, out@)[j]
                == picked[j] by {
                assert(builder.value(witness, out@[j]) == if b0.value(witness, turn.target) == 1 {
                    b0.value(witness, when_true@[j])
                } else {
                    b0.value(witness, when_false@[j])
                });
            }
            assert(builder.value_all(witness, out@) =~= picked);
        }
    }
    out
}

/// Lays out the end condition: the damage of the board that took the last
/// shot is constrained to seventeen.
fn constrain_end(builder: &mut CircuitBuilder, prev: &GameTargets)
    requires
        old(builder).wf(),
        prev.within(*old(builder)),
    ensures
        final(builder).wf(),
        final(builder).extends(*old(builder)),
        final(builder).public_inputs@ == old(builder).public_inputs@,
        forall|witness: Assignment|
            prev.state(*old(builder), witness).turn <= 1 ==> #[trigger] final(builder).satisfied(
                witness,
            ) == (old(builder).satisfied(witness) && deciding_damage(
                prev.state(*old(builder), witness),
            ) == 17),
{
    let ghost b0 = *builder;
    let threshold = builder.constant(17);
    let ghost b1 = *builder;
    let damage = builder.select(prev.turn, prev.host_damage, prev.guest_damage);
    let ghost b2 = *builder;
    let end_condition = builder.is_equal(damage, threshold);
    let ghost b3 = *builder;
    let end_const = builder.constant_bool(true);
    let ghost b4 = *builder;
    builder.connect(end_condition.target, end_const.target);
    proof {
        let b5 = *builder;
        b2.lemma_extends_transitive(b1, b0);
        b3.lemma_extends_transitive(b2, b0);
        b4.lemma_extends_transitive(b3, b0);
        b5.lemma_extends_transitive(b4, b0);
        assert forall|witness: Assignment| prev.state(b0, witness).turn <= 1 implies #[trigger]
            b5.satisfied(witness) == (b0.satisfied(witness) && deciding_damage(
            prev.state(b0, witness),
        ) == 17) by {
            let state = prev.state(b0, witness);
            b0.lemma_value_canonical(witness, prev.host_damage);
            b0.lemma_value_canonical(witness, prev.guest_damage);
            assert(b1.value(witness, prev.turn.target) == state.turn);
            assert(b1.value(witness, prev.host_damage) == state.host_damage);
            assert(b1.value(witness, prev.guest_damage) == state.guest_damage);
            lemma_select_bool(state.turn, state.host_damage, state.guest_damage);
            assert(b2.value(witness, damage) == deciding_damage(state));
            assert(b2.value(witness, threshold) == b1.value(witness, threshold));
            assert(b3.value(witness, end_condition.target) == field_bool(
                deciding_damage(state) == 17,
            ));
            assert(b4.value(witness, end_condition.target) == b3.value(
                witness,
                end_condition.target,
            ));
            assert(b4.value(witness, end_const.target) == 1);
            assert(b1.satisfied(witness) == b0.satisfied(witness));
            assert(b2.satisfied(witness) == b1.satisfied(witness));
            assert(b3.satisfied(witness) == b2.satisfied(witness));
            assert(b4.satisfied(witness) == b3.satisfied(witness));
        }
    }
}

/// The circuit that closes a channel.
pub struct CloseCircuit {
    pub data: CircuitData,
    /// The wires of the state that the last state proof exposes.
    pub state: GameTargets,
}

impl CloseCircuit {
    /// The wires of the public inputs of the last state proof.
    pub open spec fn state_inputs(&self) -> Seq<Target> {
        self.state.prev_proof.proof.public_inputs@
    }

    /// The state that `witness` supplies.
    pub open spec fn state_of(&self, witness: Assignment) -> PublicState {
        decoded_state(assigned(witness, self.state_inputs()))
    }

    /// The circuit is the closing circuit: the wires of the state proof lie
    /// first; its constraints need the state to be supplied, and where the
    /// turn of the state is 0 or 1 they are satisfied exactly where the
    /// deciding damage is seventeen; it then exposes the commitment of the
    /// winner and that of the loser.
    pub open spec fn wf(&self) -> bool {
        &&& self.data.wf()
        &&& self.state_inputs().len() == 9 || self.state_inputs().len() == 12
        &&& forall|k: int|
            0 <= k < self.state_inputs().len() ==> (#[trigger] self.state_inputs()[k]).index == k
        &&& self.data.common == (CommonCircuitData {
            config: CircuitConfig { num_wires: 135, num_routed_wires: 80, zero_knowledge: false },
            num_public_inputs: 8,
        })
        &&& forall|witness: Assignment| #[trigger]
            self.data.satisfied(witness) ==> supplied_all(witness, self.state_inputs())
        &&& forall|witness: Assignment|
            supplied_all(witness, self.state_inputs()) && self.state_of(witness).turn <= 1 ==> (
            #[trigger] self.data.satisfied(witness) == (deciding_damage(self.state_of(witness))
                == 17))
        &&& forall|witness: Assignment|
            supplied_all(witness, self.state_inputs()) && self.state_of(witness).turn <= 1
                && deciding_damage(self.state_of(witness)) == 17 ==> #[trigger] self.data.outputs(
                witness,
            ) == close_outputs(self.state_of(witness))
    }

    /// Lays out the closing circuit for a state proof of the given shape.
    /// Fails where the proof has neither nine nor twelve public inputs.
    pub fn build(state_common: &CommonCircuitData) -> (result: Result<CloseCircuit, CircuitError>)
        ensures
            state_common.num_public_inputs == 9 || state_common.num_public_inputs == 12
                ==> result is Ok,
            result is Err ==> result->Err_0 == CircuitError::InvalidProof,
            result is Ok ==> result->Ok_0.wf() && result->Ok_0.state_inputs().len()
                == state_common.num_public_inputs,
    {
        let config = CircuitConfig::standard_recursion_config();
        let mut builder = CircuitBuilder::new(config);
        let prev = StateIncrementCircuit::game_state_targets(state_common, &mut builder)?;
        let ghost b1 = builder;
        constrain_end(&mut builder, &prev);
        let ghost b2 = builder;
        proof {
            prev.lemma_state_kept(b2, b1, Map::<int, u64>::empty());
        }
        let winner = select_commitment(&mut builder, prev.turn, prev.guest, prev.host);
        let ghost b3 = builder;
        proof {
            b3.lemma_extends_transitive(b2, b1);
            prev.lemma_state_kept(b3, b1, Map::<int, u64>::empty());
        }
        let loser = select_commitment(&mut builder, prev.turn, prev.host, prev.guest);
        let ghost b4 = builder;
        proof {
            b4.lemma_extends_transitive(b3, b1);
            b4.lemma_values_kept(b3, Map::<int, u64>::empty(), winner@);
        }
        builder.register_public_inputs(&winner);
        let ghost b5 = builder;
        proof {
            b5.lemma_values_kept(b4, Map::<int, u64>::empty(), loser@);
        }
        builder.register_public_inputs(&loser);
        let ghost b6 = builder;
        let data = builder.build();
        let circuit = CloseCircuit { data, state: prev };
        proof {
            let inputs = circuit.state_inputs();
            assert(circuit.data.public_inputs@ =~= winner@ + loser@);
            assert forall|witness: Assignment|
                #![trigger circuit.data.satisfied(witness)]
                #![trigger circuit.data.outputs(witness)]
                (circuit.data.satisfied(witness) ==> supplied_all(witness, inputs)) && (
                supplied_all(witness, inputs) && circuit.state_of(witness).turn <= 1 ==> (
                circuit.data.satisfied(witness) == (deciding_damage(circuit.state_of(witness))
                    == 17))) && (supplied_all(witness, inputs) && circuit.state_of(witness).turn
                    <= 1 && deciding_damage(circuit.state_of(witness)) == 17
                    ==> circuit.data.outputs(witness) == close_outputs(
                    circuit.state_of(witness),
                )) by {
                let w = witness;
                assert(circuit.data.satisfied(w) == b6.satisfied(w));
                assert(b3.satisfied(w) == b2.satisfied(w));
                assert(b4.satisfied(w) == b3.satisfied(w));
                assert(b6.satisfied(w) == b4.satisfied(w));
                if b2.satisfied(w) {
                    assert(b1.satisfied(w));
                }
                if supplied_all(w, inputs) && circuit.state_of(w).turn <= 1 {
                    let state = circuit.state_of(w);
                    assert(circuit.state.state(b1, w) == state);
                    assert(b1.satisfied(w));
                    circuit.state.lemma_state_kept(b2, b1, w);
                    circuit.state.lemma_state_kept(b3, b1, w);
                    if deciding_damage(state) == 17 {
                        let out = circuit.data.outputs(w);
                        b4.lemma_values_kept(b3, w, winner@);
                        assert(b3.value_all(w, winner@) == if state.turn == 1 {
                            state.guest
                        } else {
                            state.host
                        });
                        assert(b4.value_all(w, loser@) == if state.turn == 1 {
                            state.host
                        } else {
                            state.guest
                        });
                        assert forall|k: int| 0 <= k < 8 implies out[k] == close_outputs(
                            state,
                        )[k] by {
                            let t = circuit.data.public_inputs@[k];
                            assert(circuit.data.value(w, t) == b6.value(w, t));
                            assert(b6.value(w, t) == b4.value(w, t));
                            if k < 4 {
                                assert(t == winner@[k]);
                                assert(b4.value_all(w, winner@)[k] == b4.value(w, winner@[k]));
                            } else {
                                assert(t == loser@[k - 4]);
                                assert(b4.value_all(w, loser@)[k - 4] == b4.value(
                                    w,
                                    loser@[k - 4],
                                ));
                            }
                        }
                        assert(out =~= close_outputs(state));
                    }
                }
            }
        }
        Ok(circuit)
    }
}

/// Closes a channel: verifies the last state proof, demands that the board
/// which took the last shot has been hit seventeen times, and exposes the
/// commitment of the winner and that of the loser. Fails with an invalid
/// proof where the proof cannot be a state proof, and with an unsatisfied
/// circuit where the deciding damage is not seventeen.
pub fn prove_close_channel(state_p: ProofTuple) -> (result: Result<ProofTuple, CircuitError>)
    ensures
        !state_proof_is_sound(state_p) ==> result is Err && result->Err_0
            == CircuitError::InvalidProof,
        state_proof_is_sound(state_p) && deciding_damage(
            decoded_state(state_p.0.public_inputs@),
        ) != 17 ==> result is Err && result->Err_0 == CircuitError::Unsatisfiable,
        state_proof_is_sound(state_p) && deciding_damage(
            decoded_state(state_p.0.public_inputs@),
        ) == 17 ==> result is Ok && result->Ok_0.0.public_inputs@ == close_outputs(
            decoded_state(state_p.0.public_inputs@),
        ) && result->Ok_0.2 == (CommonCircuitData {
            config: CircuitConfig { num_wires: 135, num_routed_wires: 80, zero_knowledge: false },
            num_public_inputs: 8,
        }),
        result is Ok ==> proof_is_sound(result->Ok_0),
{
    if !is_state_proof(&state_p) {
        return Err(CircuitError::InvalidProof);
    }
    let circuit = CloseCircuit::build(&state_p.2)?;
    let pw = partial_witness(&state_p, &circuit.state)?;
    proof {
        let w = pw@;
        let inputs = circuit.state_inputs();
        let values = state_p.0.public_inputs@;
        let n = values.len() as int;
        assert forall|k: int| 0 <= k < n implies w.contains_key(k) && w[k] == values[k] by {
            lemma_assign_all(Map::<int, u64>::empty(), inputs, values, n, 0, k);
        }
        assert(supplied_all(w, inputs)) by {
            assert forall|k: int| 0 <= k < n implies supplied(w, #[trigger] inputs[k]) by {
                assert(w[k] == values[k]);
            }
        }
        assert(assigned(w, inputs) =~= values);
    }
    let proof = circuit.data.prove(&pw)?;
    Ok((proof, circuit.data.verifier_only, circuit.data.common))
}

} // verus!
