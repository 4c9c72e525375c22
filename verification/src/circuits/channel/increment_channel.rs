use vstd::prelude::*;
use crate::circuits::{ProofTuple, RecursiveTargets};
use crate::circuits::channel::{
    decoded_state, encoded_state, increment_allowed, incremented, is_shot_proof, is_state_proof,
    shot_proof_is_sound, state_proof_is_sound, GameState, GameTargets, PublicState,
};
use crate::error::CircuitError;
use crate::field::field_add;
use crate::gadgets::shot::serialize_shot;
use crate::plonk::circuit_builder::{
    supplied, supplied_all, CircuitBuilder, CircuitConfig, CommonCircuitData, VerifierCircuitTarget,
};
use crate::plonk::circuit_data::{CircuitData, ProofWithPublicInputs};
use crate::plonk::gate::{lemma_select_bool, Assignment, BoolTarget, Target};
use crate::plonk::witness::{assign_all, lemma_assign_all, PartialWitness};

verus! {

/// What `witness` assigns to the given wires.
pub open spec fn assigned(witness: Assignment, targets: Seq<Target>) -> Seq<u64> {
    Seq::new(targets.len(), |k: int| witness[targets[k].index as int])
}

/// The circuit that carries a channel on by one shot.
pub struct StateIncrementCircuit {
    pub data: CircuitData,
    /// The wires of the state that the previous proof exposes.
    pub prev: GameTargets,
    /// The wires of the shot proof.
    pub shot: ShotProofTargets,
    /// The wires of the column and the row of the next shot.
    pub shot_t: [Target; 2],
}

/// The wires of a circuit that carry what a shot proof exposes.
pub struct ShotProofTargets {
    pub proof: RecursiveTargets,
    pub commitment: [Target; 4],
    pub hit: BoolTarget,
    pub shot: Target,
}

/// Of two commitments the one that `turn` points at: the guest's for 1,
/// the host's for 0.
pub open spec fn commitment_at_turn(turn: u64, host: Seq<u64>, guest: Seq<u64>) -> Seq<u64> {
    if turn == 1 {
        guest
    } else {
        host
    }
}

impl StateIncrementCircuit {
    /// The state wires of a circuit that verifies a state proof of the shape
    /// `common`: the wires of its public inputs, read as a state. A proof that
    /// opens a channel has no counters and no turn: constants stand for them.
    /// Fails where the proof has neither nine nor twelve public inputs.
    pub fn game_state_targets(common: &CommonCircuitData, builder: &mut CircuitBuilder) -> (result:
        Result<GameTargets, CircuitError>)
        requires
            old(builder).wf(),
        ensures
            final(builder).wf(),
            final(builder).extends(*old(builder)),
            final(builder).public_inputs@ == old(builder).public_inputs@,
            common.num_public_inputs != 9 && common.num_public_inputs != 12 ==> result is Err
                && result->Err_0 == CircuitError::InvalidProof && final(builder).gates@
                    == old(builder).gates@ && final(builder).proofs@ == old(builder).proofs@,
            common.num_public_inputs == 9 || common.num_public_inputs == 12 ==> result is Ok,
            result is Ok ==> {
                let targets = result->Ok_0;
                &&& final(builder).proofs@ == old(builder).proofs@.push(*common)
                &&& targets.prev_proof.proof.slot == old(builder).proofs@.len()
                &&& final(builder).gates@.len() >= old(builder).gates@.len() + common.num_public_inputs
                &&& targets.prev_proof.proof.public_inputs@.len() == common.num_public_inputs
                &&& forall|k: int|
                    0 <= k < common.num_public_inputs ==> (
                    #[trigger] targets.prev_proof.proof.public_inputs@[k]).index
                        == old(builder).gates@.len() + k
                &&& targets.within(*final(builder))
                &&& forall|witness: Assignment| #[trigger]
                    final(builder).satisfied(witness) == (old(builder).satisfied(witness)
                        && supplied_all(witness, targets.prev_proof.proof.public_inputs@))
                &&& forall|witness: Assignment|
                    supplied_all(witness, targets.prev_proof.proof.public_inputs@)
                        ==> #[trigger] targets.state(*final(builder), witness) == decoded_state(
                        assigned(witness, targets.prev_proof.proof.public_inputs@),
                    )
            },
    {
        if common.num_public_inputs != 9 && common.num_public_inputs != 12 {
            proof {
                old(builder).lemma_extends_itself();
            }
            return Err(CircuitError::InvalidProof);
        }
        let ghost b0 = *builder;
        let proof = builder.add_virtual_proof_with_pis(common);
        let ghost b1 = *builder;
        let ghost inputs = proof.public_inputs@;
        let host = [
            proof.public_inputs[0],
            proof.public_inputs[1],
            proof.public_inputs[2],
            proof.public_inputs[3],
        ];
        let guest = [
            proof.public_inputs[4],
            proof.public_inputs[5],
            proof.public_inputs[6],
            proof.public_inputs[7],
        ];
        let verifier = VerifierCircuitTarget { slot: proof.slot };
        if common.num_public_inputs == 12 {
            let host_damage = proof.public_inputs[8];
            let guest_damage = proof.public_inputs[9];
            let turn = BoolTarget { target: proof.public_inputs[10] };
            let shot = proof.public_inputs[11];
            let targets = GameTargets {
                prev_proof: RecursiveTargets { proof, verifier },
                host,
                guest,
                host_damage,
                guest_damage,
                turn,
                shot,
            };
            proof {
                assert forall|witness: Assignment| supplied_all(witness, inputs) implies #[trigger]
                    targets.state(*builder, witness) == decoded_state(assigned(witness, inputs)) by {
                    let state = targets.state(*builder, witness);
                    let expected = decoded_state(assigned(witness, inputs));
                    assert forall|k: int| 0 <= k < 12 implies builder.value(
                        witness,
                        #[trigger] inputs[k],
                    ) == witness[inputs[k].index as int] by {
                        assert(crate::plonk::circuit_builder::supplied(witness, inputs[k]));
                    }
                    assert(state.host =~= expected.host);
                    assert(state.guest =~= expected.guest);
                }
            }
            Ok(targets)
        } else {
            let host_damage = builder.constant(0);
            let guest_damage = builder.constant(0);
            let ghost b3 = *builder;
            let turn = builder.constant_bool(false);
            let shot = proof.public_inputs[8];
            let targets = GameTargets {
                prev_proof: RecursiveTargets { proof, verifier },
                host,
                guest,
                host_damage,
                guest_damage,
                turn,
                shot,
            };
            proof {
                assert(builder.has_all(inputs)) by {
                    assert forall|k: int| 0 <= k < inputs.len() implies (#[trigger] inputs[k]).index
                        < builder.gates@.len() by {
                        assert(b1.has(inputs[k]));
                    }
                }
                assert forall|witness: Assignment| supplied_all(witness, inputs) implies #[trigger]
                    targets.state(*builder, witness) == decoded_state(assigned(witness, inputs)) by {
                    let state = targets.state(*builder, witness);
                    let expected = decoded_state(assigned(witness, inputs));
                    assert forall|k: int| 0 <= k < 9 implies builder.value(
                        witness,
                        #[trigger] inputs[k],
                    ) == witness[inputs[k].index as int] by {
                        assert(crate::plonk::circuit_builder::supplied(witness, inputs[k]));
                        assert(b1.has(inputs[k]));
                        assert(b3.value(witness, inputs[k]) == b1.value(witness, inputs[k]));
                        assert(builder.value(witness, inputs[k]) == b3.value(witness, inputs[k]));
                    }
                    assert(b3.value(witness, host_damage) == 0);
                    assert(builder.value(witness, host_damage) == b3.value(witness, host_damage));
                    assert(builder.value(witness, guest_damage) == b3.value(witness, guest_damage));
                    assert(state.host =~= expected.host);
                    assert(state.guest =~= expected.guest);
                }
            }
            Ok(targets)
        }
    }

    /// The wires of a circuit that verifies a shot proof of the shape
    /// `common`: the wires of its public inputs, read as shot, hit flag and
    /// commitment. Fails where the proof does not have six public inputs.
    pub fn shot_proof_targets(common: &CommonCircuitData, builder: &mut CircuitBuilder) -> (result:
        Result<ShotProofTargets, CircuitError>)
        requires
            old(builder).wf(),
        ensures
            final(builder).wf(),
            final(builder).extends(*old(builder)),
            final(builder).public_inputs@ == old(builder).public_inputs@,
            common.num_public_inputs != 6 ==> result is Err && result->Err_0
                == CircuitError::InvalidProof && final(builder).gates@ == old(builder).gates@
                && final(builder).proofs@ == old(builder).proofs@,
            common.num_public_inputs == 6 ==> result is Ok,
            result is Ok ==> {
                let targets = result->Ok_0;
                let inputs = targets.proof.proof.public_inputs@;
                &&& final(builder).proofs@ == old(builder).proofs@.push(*common)
                &&& targets.proof.proof.slot == old(builder).proofs@.len()
                &&& final(builder).gates@.len() == old(builder).gates@.len() + 6
                &&& inputs.len() == 6
                &&& forall|k: int|
                    0 <= k < 6 ==> (#[trigger] inputs[k]).index == old(builder).gates@.len() + k
                &&& final(builder).has_all(inputs)
                &&& targets.shot == inputs[0]
                &&& targets.hit.target == inputs[1]
                &&& targets.commitment@ == inputs.subrange(2, 6)
                &&& forall|witness: Assignment| #[trigger]
                    final(builder).satisfied(witness) == (old(builder).satisfied(witness)
                        && supplied_all(witness, inputs))
                &&& forall|witness: Assignment, k: int|
                    0 <= k < 6 && supplied_all(witness, inputs) ==> #[trigger] final(builder).value(
                        witness,
                        inputs[k],
                    ) == witness[inputs[k].index as int]
            },
    {
        if common.num_public_inputs != 6 {
            proof {
                old(builder).lemma_extends_itself();
            }
            return Err(CircuitError::InvalidProof);
        }
        let proof = builder.add_virtual_proof_with_pis(common);
        let ghost inputs = proof.public_inputs@;
        let shot = proof.public_inputs[0];
        let hit = BoolTarget { target: proof.public_inputs[1] };
        let commitment = [
            proof.public_inputs[2],
            proof.public_inputs[3],
            proof.public_inputs[4],
            proof.public_inputs[5],
        ];
        let verifier = VerifierCircuitTarget { slot: proof.slot };
        proof {
            assert(commitment@ =~= inputs.subrange(2, 6));
            assert forall|witness: Assignment, k: int|
                0 <= k < 6 && supplied_all(witness, inputs) implies #[trigger] builder.value(
                witness,
                inputs[k],
            ) == witness[inputs[k].index as int] by {
                assert(crate::plonk::circuit_builder::supplied(witness, inputs[k]));
            }
        }
        Ok(ShotProofTargets { proof: RecursiveTargets { proof, verifier }, commitment, hit, shot })
    }

    /// Constrains the commitment that the shot proof exposes to the one the
    /// turn points at: the guest's where the turn wire carries 1, the host's
    /// where it carries 0.
    pub fn constrain_commitment(
        builder: &mut CircuitBuilder,
        prev: &GameTargets,
        shot: &ShotProofTargets,
    ) -> (result: Result<(), CircuitError>)
        requires
            old(builder).wf(),
            prev.within(*old(builder)),
            old(builder).has_all(shot.commitment@),
        ensures
            result is Ok,
            final(builder).wf(),
            final(builder).extends(*old(builder)),
            final(builder).public_inputs@ == old(builder).public_inputs@,
            final(builder).proofs@ == old(builder).proofs@,
            forall|witness: Assignment|
                old(builder).value(witness, prev.turn.target) <= 1
                    ==> #[trigger] final(builder).satisfied(witness)
                    == (old(builder).satisfied(witness) && old(builder).value_all(
                    witness,
                    shot.commitment@,
                ) == commitment_at_turn(
                    old(builder).value(witness, prev.turn.target),
                    old(builder).value_all(witness, prev.host@),
                    old(builder).value_all(witness, prev.guest@),
                )),
    {
        let ghost b0 = *builder;
        let mut k: usize = 0;
        proof {
            b0.lemma_extends_itself();
        }
        while k < 4
            invariant
                k <= 4,
                b0.wf(),
                prev.within(b0),
                b0.has_all(shot.commitment@),
                builder.wf(),
                builder.extends(b0),
                builder.public_inputs@ == b0.public_inputs@,
                builder.proofs@ == b0.proofs@,
                forall|witness: Assignment|
                    b0.value(witness, prev.turn.target) <= 1 ==> #[trigger] builder.satisfied(witness)
                        == (b0.satisfied(witness) && forall|j: int|
                        0 <= j < k ==> #[trigger] b0.value_all(witness, shot.commitment@)[j]
                            == commitment_at_turn(
                            b0.value(witness, prev.turn.target),
                            b0.value_all(witness, prev.host@),
                            b0.value_all(witness, prev.guest@),
                        )[j]),
            decreases 4 - k,
        {
            let ghost previous = *builder;
            proof {
                assert(b0.has(prev.guest@[k as int]) && b0.has(prev.host@[k as int]) && b0.has(
                    shot.commitment@[k as int],
                ));
            }
            let limb = builder.select(prev.turn, prev.guest[k], prev.host[k]);
            let ghost picked = *builder;
            builder.connect(shot.commitment[k], limb);
            proof {
                builder.lemma_extends_transitive(picked, previous);
                builder.lemma_extends_transitive(previous, b0);
                assert forall|witness: Assignment|
                    b0.value(witness, prev.turn.target) <= 1 implies #[trigger] builder.satisfied(
                    witness,
                ) == (b0.satisfied(witness) && forall|j: int|
                    0 <= j < k + 1 ==> #[trigger] b0.value_all(witness, shot.commitment@)[j]
                        == commitment_at_turn(
                        b0.value(witness, prev.turn.target),
                        b0.value_all(witness, prev.host@),
                        b0.value_all(witness, prev.guest@),
                    )[j]) by {
                    let turn = b0.value(witness, prev.turn.target);
                    let g = b0.value(witness, prev.guest@[k as int]);
                    let h = b0.value(witness, prev.host@[k as int]);
                    let c = b0.value(witness, shot.commitment@[k as int]);
                    assert(previous.value(witness, prev.turn.target) == turn);
                    assert(previous.value(witness, prev.guest@[k as int]) == g);
                    assert(previous.value(witness, prev.host@[k as int]) == h);
                    assert(picked.value(witness, shot.commitment@[k as int]) == previous.value(
                        witness,
                        shot.commitment@[k as int],
                    ));
                    assert(previous.value(witness, shot.commitment@[k as int]) == c);
                    b0.lemma_value_canonical(witness, prev.guest@[k as int]);
                    b0.lemma_value_canonical(witness, prev.host@[k as int]);
                    lemma_select_bool(turn, g, h);
                    let picked_value = commitment_at_turn(
                        turn,
                        b0.value_all(witness, prev.host@),
                        b0.value_all(witness, prev.guest@),
                    );
                    assert(picked_value[k as int] == if turn == 1 {
                        g
                    } else {
                        h
                    });
                    assert(b0.value_all(witness, shot.commitment@)[k as int] == c);
                }
            }
            k += 1;
        }
        proof {
            assert forall|witness: Assignment|
                b0.value(witness, prev.turn.target) <= 1 implies #[trigger] builder.satisfied(witness)
                == (b0.satisfied(witness) && b0.value_all(witness, shot.commitment@)
                == commitment_at_turn(
                b0.value(witness, prev.turn.target),
                b0.value_all(witness, prev.host@),
                b0.value_all(witness, prev.guest@),
            )) by {
                let left = b0.value_all(witness, shot.commitment@);
                let right = commitment_at_turn(
                    b0.value(witness, prev.turn.target),
                    b0.value_all(witness, prev.host@),
                    b0.value_all(witness, prev.guest@),
                );
                if forall|j: int| 0 <= j < 4 ==> #[trigger] left[j] == right[j] {
                    assert(left =~= right);
                }
            }
        }
        Ok(())
    }

    /// Constrains the shot that the shot proof checked to the shot that the
    /// previous state announced.
    pub fn constrain_shot(builder: &mut CircuitBuilder, prev: &GameTargets,
        shot: &ShotProofTargets) -> (result:
        Result<(), CircuitError>)
        requires
            old(builder).wf(),
            old(builder).has(prev.shot),
            old(builder).has(shot.shot),
        ensures
            result is Ok,
            final(builder).wf(),
            final(builder).extends(*old(builder)),
            final(builder).public_inputs@ == old(builder).public_inputs@,
            final(builder).proofs@ == old(builder).proofs@,
            forall|witness: Assignment| #[trigger]
                final(builder).satisfied(witness) == (old(builder).satisfied(witness)
                    && old(builder).value(witness, prev.shot)
                    == old(builder).value(witness, shot.shot)),
    {
        builder.connect(prev.shot, shot.shot);
        Ok(())
    }
}

impl StateIncrementCircuit {
    /// The wires of the public inputs of the previous state proof.
    pub open spec fn state_inputs(&self) -> Seq<Target> {
        self.prev.prev_proof.proof.public_inputs@
    }

    /// The wires of the public inputs of the shot proof.
    pub open spec fn shot_inputs(&self) -> Seq<Target> {
        self.shot.proof.proof.public_inputs@
    }

    /// `witness` supplies the public inputs of both proofs and the next
    /// shot.
    pub open spec fn supplied(&self, witness: Assignment) -> bool {
        &&& supplied_all(witness, self.state_inputs())
        &&& supplied_all(witness, self.shot_inputs())
        &&& supplied(witness, self.shot_t[0])
        &&& supplied(witness, self.shot_t[1])
    }

    /// The previous state that `witness` supplies.
    pub open spec fn state_of(&self, witness: Assignment) -> PublicState {
        decoded_state(assigned(witness, self.state_inputs()))
    }

    /// `witness` is accepted: it supplies all inputs, and the increment is
    /// allowed.
    pub open spec fn accepts(&self, witness: Assignment) -> bool {
        &&& self.supplied(witness)
        &&& increment_allowed(
            self.state_of(witness),
            assigned(witness, self.shot_inputs()),
            witness[self.shot_t[0].index as int],
            witness[self.shot_t[1].index as int],
        )
    }

    /// The circuit is an increment circuit: its witness wires lie where
    /// the layout puts them; where the turn of the previous state is 0 or
    /// 1, its constraints are satisfied exactly by the witnesses it
    /// accepts, and it then exposes the incremented state.
    pub open spec fn wf(&self) -> bool {
        &&& self.data.wf()
        &&& self.state_inputs().len() == 9 || self.state_inputs().len() == 12
        &&& self.shot_inputs().len() == 6
        &&& forall|k: int|
            0 <= k < self.state_inputs().len() ==> (#[trigger] self.state_inputs()[k]).index == k
        &&& forall|k: int|
            0 <= k < 6 ==> (#[trigger] self.shot_inputs()[k]).index == self.shot_inputs()[0].index
                + k
        &&& self.shot_inputs()[0].index >= self.state_inputs().len()
        &&& self.shot_t[0].index == self.shot_inputs()[0].index + 6
        &&& self.shot_t[1].index == self.shot_inputs()[0].index + 7
        &&& self.data.common.num_public_inputs == 12
        &&& forall|witness: Assignment| #[trigger]
            self.data.satisfied(witness) ==> self.supplied(witness)
        &&& forall|witness: Assignment|
            self.supplied(witness) && self.state_of(witness).turn <= 1 ==> (
            #[trigger] self.data.satisfied(witness) == self.accepts(witness))
        &&& forall|witness: Assignment|
            self.accepts(witness) && self.state_of(witness).turn <= 1
                ==> #[trigger] self.data.outputs(witness) == encoded_state(
                incremented(
                    self.state_of(witness),
                    witness[self.shot_inputs()[1].index as int],
                    (10 * witness[self.shot_t[1].index as int]
                        + witness[self.shot_t[0].index as int]) as u64,
                ),
            )
    }

    /// Lays out the wires of the inputs: the previous state proof, the
    /// shot proof, and the two coordinates of the next shot.
    fn lay_out_inputs(
        prev_common: &CommonCircuitData,
        shot_common: &CommonCircuitData,
        builder: &mut CircuitBuilder,
    ) -> (result: Result<(GameTargets, ShotProofTargets, [Target; 2]), CircuitError>)
        requires
            old(builder).wf(),
            old(builder).gates@.len() == 0,
            old(builder).public_inputs@.len() == 0,
            forall|witness: Assignment| #[trigger] old(builder).satisfied(witness),
        ensures
            (prev_common.num_public_inputs == 9 || prev_common.num_public_inputs == 12)
                && shot_common.num_public_inputs == 6 ==> result is Ok,
            result is Err ==> result->Err_0 == CircuitError::InvalidProof,
            result is Ok ==> {
                let prev = result->Ok_0.0;
                let shot = result->Ok_0.1;
                let next = result->Ok_0.2;
                let state_inputs = prev.prev_proof.proof.public_inputs@;
                let shot_inputs = shot.proof.proof.public_inputs@;
                &&& final(builder).wf()
                &&& final(builder).config == old(builder).config
                &&& final(builder).public_inputs@.len() == 0
                &&& prev_common.num_public_inputs == 9 || prev_common.num_public_inputs == 12
                &&& state_inputs.len() == prev_common.num_public_inputs
                &&& shot_inputs.len() == 6
                &&& forall|k: int|
                    0 <= k < state_inputs.len() ==> (#[trigger] state_inputs[k]).index == k
                &&& forall|k: int|
                    0 <= k < 6 ==> (#[trigger] shot_inputs[k]).index == shot_inputs[0].index + k
                &&& shot_inputs[0].index >= state_inputs.len()
                &&& next[0].index == shot_inputs[0].index + 6
                &&& next[1].index == shot_inputs[0].index + 7
                &&& prev.within(*final(builder))
                &&& final(builder).has_all(shot_inputs)
                &&& final(builder).has(next[0])
                &&& final(builder).has(next[1])
                &&& shot.shot == shot_inputs[0]
                &&& shot.hit.target == shot_inputs[1]
                &&& shot.commitment@ == shot_inputs.subrange(2, 6)
                &&& forall|witness: Assignment| #[trigger]
                    final(builder).satisfied(witness) == (supplied_all(witness, state_inputs)
                        && supplied_all(witness, shot_inputs) && supplied(witness, next[0])
                        && supplied(witness, next[1]))
                &&& forall|witness: Assignment|
                    supplied_all(witness, state_inputs) ==> #[trigger] prev.state(
                        *final(builder),
                        witness,
                    ) == decoded_state(assigned(witness, state_inputs))
                &&& forall|witness: Assignment|
                    supplied_all(witness, shot_inputs) ==> #[trigger] final(builder).value_all(
                        witness,
                        shot_inputs,
                    ) == assigned(witness, shot_inputs)
                &&& forall|witness: Assignment|
                    supplied(witness, next[0]) ==> #[trigger] final(builder).value(
                        witness,
                        next[0],
                    ) == witness[next[0].index as int]
                &&& forall|witness: Assignment|
                    supplied(witness, next[1]) ==> #[trigger] final(builder).value(
                        witness,
                        next[1],
                    ) == witness[next[1].index as int]
            },
    {
        let prev = StateIncrementCircuit::game_state_targets(prev_common, builder)?;
        let ghost b1 = *builder;
        let shot = StateIncrementCircuit::shot_proof_targets(shot_common, builder)?;
        let ghost b2 = *builder;
        let nx = builder.add_virtual_target();
        let ghost b3 = *builder;
        let ny = builder.add_virtual_target();
        proof {
            let b4 = *builder;
            let state_inputs = prev.prev_proof.proof.public_inputs@;
            let shot_inputs = shot.proof.proof.public_inputs@;
            b4.lemma_extends_transitive(b3, b2);
            b4.lemma_extends_transitive(b2, b1);
            assert forall|witness: Assignment| supplied_all(witness, state_inputs) implies #[trigger]
                prev.state(b4, witness) == decoded_state(assigned(witness, state_inputs)) by {
                prev.lemma_state_kept(b4, b1, witness);
            }
            assert(prev.within(b4)) by {
                prev.lemma_state_kept(b4, b1, Map::<int, u64>::empty());
            }
            assert forall|witness: Assignment| supplied_all(witness, shot_inputs) implies #[trigger]
                b4.value_all(witness, shot_inputs) == assigned(witness, shot_inputs) by {
                b4.lemma_values_kept(b2, witness, shot_inputs);
                assert(b2.value_all(witness, shot_inputs) =~= assigned(witness, shot_inputs)) by {
                    assert forall|k: int| 0 <= k < 6 implies b2.value_all(witness, shot_inputs)[k]
                        == assigned(witness, shot_inputs)[k] by {
                        assert(b2.value(witness, shot_inputs[k])
                            == witness[shot_inputs[k].index as int]);
                    }
                }
            }
            assert(b4.has_all(shot_inputs)) by {
                b4.lemma_values_kept(b2, Map::<int, u64>::empty(), shot_inputs);
            }
            assert forall|witness: Assignment| supplied(witness, nx) implies #[trigger] b4.value(
                witness,
                nx,
            ) == witness[nx.index as int] by {
                assert(b4.value(witness, nx) == b3.value(witness, nx));
            }
        }
        Ok((prev, shot, [nx, ny]))
    }
}

impl StateIncrementCircuit {
    /// Lays out the checks of an increment: the commitment and the shot of
    /// the shot proof against the state, and the range of the next shot.
    /// Returns the wire of the serialized next shot.
    fn lay_out_checks(
        builder: &mut CircuitBuilder,
        prev: &GameTargets,
        shot: &ShotProofTargets,
        next: [Target; 2],
    ) -> (next_shot: Target)
        requires
            old(builder).wf(),
            prev.within(*old(builder)),
            shot.proof.proof.public_inputs@.len() == 6,
            old(builder).has_all(shot.proof.proof.public_inputs@),
            shot.shot == shot.proof.proof.public_inputs@[0],
            shot.commitment@ == shot.proof.proof.public_inputs@.subrange(2, 6),
            old(builder).has(next[0]),
            old(builder).has(next[1]),
        ensures
            final(builder).wf(),
            final(builder).extends(*old(builder)),
            final(builder).public_inputs@ == old(builder).public_inputs@,
            final(builder).has(next_shot),
            forall|witness: Assignment|
                prev.state(*old(builder), witness).turn <= 1
                    ==> #[trigger] final(builder).satisfied(witness)
                    == (old(builder).satisfied(witness) && increment_allowed(
                    prev.state(*old(builder), witness),
                    old(builder).value_all(witness, shot.proof.proof.public_inputs@),
                    old(builder).value(witness, next[0]),
                    old(builder).value(witness, next[1]),
                )),
            forall|witness: Assignment|
                old(builder).value(witness, next[0]) < 10 && old(builder).value(witness, next[1])
                    < 10 ==> #[trigger] final(builder).value(witness, next_shot)
                        == 10 * old(builder).value(witness, next[1])
                        + old(builder).value(witness, next[0]),
    {
        let ghost b0 = *builder;
        let ghost inputs = shot.proof.proof.public_inputs@;
        proof {
            assert(b0.has_all(shot.commitment@)) by {
                assert forall|k: int| 0 <= k < 4 implies (#[trigger] shot.commitment@[k]).index
                    < b0.gates@.len() by {
                    assert(shot.commitment@[k] == inputs[2 + k]);
                    assert(b0.has(inputs[2 + k]));
                }
            }
            assert(b0.has(inputs[0]));
        }
        let _ = StateIncrementCircuit::constrain_commitment(builder, prev, shot);
        let ghost b1 = *builder;
        let _ = StateIncrementCircuit::constrain_shot(builder, prev, shot);
        let ghost b2 = *builder;
        proof {
            b2.lemma_extends_transitive(b1, b0);
        }
        let next_shot = serialize_shot(next[0], next[1], builder).unwrap();
        proof {
            builder.lemma_extends_transitive(b2, b0);
            assert forall|witness: Assignment|
                #![trigger builder.satisfied(witness)]
                #![trigger builder.value(witness, next_shot)]
                (prev.state(b0, witness).turn <= 1 ==> builder.satisfied(witness) == (
                b0.satisfied(witness) && increment_allowed(
                    prev.state(b0, witness),
                    b0.value_all(witness, inputs),
                    b0.value(witness, next[0]),
                    b0.value(witness, next[1]),
                ))) && (b0.value(witness, next[0]) < 10 && b0.value(witness, next[1]) < 10
                    ==> builder.value(witness, next_shot) == 10 * b0.value(witness, next[1])
                    + b0.value(witness, next[0])) by {
                assert(b2.value(witness, next[0]) == b0.value(witness, next[0]));
                assert(b2.value(witness, next[1]) == b0.value(witness, next[1]));
                assert(b1.value(witness, prev.shot) == b0.value(witness, prev.shot));
                assert(b1.value(witness, shot.shot) == b0.value(witness, shot.shot));
                assert(b0.value_all(witness, shot.commitment@) =~= b0.value_all(
                    witness,
                    inputs,
                ).subrange(2, 6));
                assert(b0.value_all(witness, inputs)[0] == b0.value(witness, shot.shot));
            }
        }
        next_shot
    }

    /// Lays out the new state of an increment: the two damage counters and
    /// the turn.
    fn lay_out_update(builder: &mut CircuitBuilder, prev: &GameTargets, hit: BoolTarget) -> (out: (
        Target,
        Target,
        Target,
    ))
        requires
            old(builder).wf(),
            prev.within(*old(builder)),
            old(builder).has(hit.target),
        ensures
            final(builder).wf(),
            final(builder).extends(*old(builder)),
            final(builder).public_inputs@ == old(builder).public_inputs@,
            final(builder).has(out.0),
            final(builder).has(out.1),
            final(builder).has(out.2),
            forall|witness: Assignment| #[trigger]
                final(builder).satisfied(witness) == old(builder).satisfied(witness),
            forall|witness: Assignment|
                #![trigger final(builder).value(witness, out.0)]
                #![trigger final(builder).value(witness, out.1)]
                #![trigger final(builder).value(witness, out.2)]
                prev.state(*old(builder), witness).turn <= 1 ==> {
                    let after = incremented(
                        prev.state(*old(builder), witness),
                        old(builder).value(witness, hit.target),
                        0,
                    );
                    &&& final(builder).value(witness, out.0) == after.host_damage
                    &&& final(builder).value(witness, out.1) == after.guest_damage
                    &&& final(builder).value(witness, out.2) == after.turn
                },
    {
        let ghost b0 = *builder;
        let zero = builder.constant(0);
        let ghost b1 = *builder;
        let next_turn = builder.is_equal(prev.turn.target, zero);
        let ghost b2 = *builder;
        let host_raised = builder.add(prev.host_damage, hit.target);
        let ghost b3 = *builder;
        let host_next = builder.select(prev.turn, prev.host_damage, host_raised);
        let ghost b4 = *builder;
        let guest_raised = builder.add(prev.guest_damage, hit.target);
        let ghost b5 = *builder;
        let guest_next = builder.select(prev.turn, guest_raised, prev.guest_damage);
        proof {
            let b6 = *builder;
            b2.lemma_extends_transitive(b1, b0);
            b3.lemma_extends_transitive(b2, b0);
            b4.lemma_extends_transitive(b3, b0);
            b5.lemma_extends_transitive(b4, b0);
            b6.lemma_extends_transitive(b5, b0);
            b6.lemma_extends_transitive(b5, b4);
            b6.lemma_extends_transitive(b4, b3);
            b6.lemma_extends_transitive(b3, b2);
            assert forall|witness: Assignment|
                #![trigger b6.value(witness, host_next)]
                #![trigger b6.value(witness, guest_next)]
                #![trigger b6.value(witness, next_turn.target)]
                prev.state(b0, witness).turn <= 1 implies ({
                let after = incremented(prev.state(b0, witness), b0.value(witness, hit.target), 0);
                &&& b6.value(witness, host_next) == after.host_damage
                &&& b6.value(witness, guest_next) == after.guest_damage
                &&& b6.value(witness, next_turn.target) == after.turn
            }) by {
                let state = prev.state(b0, witness);
                let h = b0.value(witness, hit.target);
                b0.lemma_value_canonical(witness, prev.host_damage);
                b0.lemma_value_canonical(witness, prev.guest_damage);
                crate::field::lemma_results_canonical(state.host_damage, h);
                crate::field::lemma_results_canonical(state.guest_damage, h);
                assert(b1.value(witness, prev.turn.target) == state.turn);
                assert(b1.value(witness, zero) == 0);
                assert(b2.value(witness, prev.host_damage) == state.host_damage);
                assert(b2.value(witness, hit.target) == h);
                assert(b3.value(witness, prev.turn.target) == state.turn);
                assert(b3.value(witness, prev.host_damage) == state.host_damage);
                lemma_select_bool(state.turn, state.host_damage, field_add(state.host_damage, h));
                assert(b4.value(witness, prev.guest_damage) == state.guest_damage);
                assert(b4.value(witness, hit.target) == h);
                assert(b5.value(witness, prev.turn.target) == state.turn);
                assert(b5.value(witness, prev.guest_damage) == state.guest_damage);
                lemma_select_bool(state.turn, field_add(state.guest_damage, h), state.guest_damage);
                assert(b6.value(witness, host_next) == b4.value(witness, host_next));
                assert(b6.value(witness, next_turn.target) == b2.value(witness, next_turn.target));
            }
            assert forall|witness: Assignment| #[trigger]
                b6.satisfied(witness) == b0.satisfied(witness) by {
                assert(b1.satisfied(witness) == b0.satisfied(witness));
                assert(b2.satisfied(witness) == b1.satisfied(witness));
                assert(b3.satisfied(witness) == b2.satisfied(witness));
                assert(b4.satisfied(witness) == b3.satisfied(witness));
                assert(b5.satisfied(witness) == b4.satisfied(witness));
            }
        }
        (host_next, guest_next, next_turn.target)
    }
}

impl StateIncrementCircuit {
    /// Lays out the increment circuit for a previous state proof and a shot
    /// proof of the given shapes. Fails where the state proof has neither
    /// nine nor twelve public inputs, or the shot proof has not six.
    pub fn build(prev_common: &CommonCircuitData, shot_common: &CommonCircuitData) -> (result:
        Result<StateIncrementCircuit, CircuitError>)
        ensures
            (prev_common.num_public_inputs == 9 || prev_common.num_public_inputs == 12)
                && shot_common.num_public_inputs == 6 ==> result is Ok,
            result is Err ==> result->Err_0 == CircuitError::InvalidProof,
            result is Ok ==> result->Ok_0.wf() && result->Ok_0.data.common.config == (
            CircuitConfig { num_wires: 135, num_routed_wires: 80, zero_knowledge: false })
                && result->Ok_0.state_inputs().len() == prev_common.num_public_inputs,
    {
        let config = CircuitConfig::standard_recursion_config();
        let mut builder = CircuitBuilder::new(config);
        let (prev, shot, next) = StateIncrementCircuit::lay_out_inputs(
            prev_common,
            shot_common,
            &mut builder,
        )?;
        let ghost b4 = builder;
        let next_shot = StateIncrementCircuit::lay_out_checks(&mut builder, &prev, &shot, next);
        let ghost b7 = builder;
        proof {
            prev.lemma_state_kept(b7, b4, Map::<int, u64>::empty());
            assert(b4.has(shot.proof.proof.public_inputs@[1]));
        }
        let (host_next, guest_next, next_turn) = StateIncrementCircuit::lay_out_update(
            &mut builder,
            &prev,
            shot.hit,
        );
        let ghost b13 = builder;
        let mut outputs: Vec<Target> = Vec::new();
        outputs.push(prev.host[0]);
        outputs.push(prev.host[1]);
        outputs.push(prev.host[2]);
        outputs.push(prev.host[3]);
        outputs.push(prev.guest[0]);
        outputs.push(prev.guest[1]);
        outputs.push(prev.guest[2]);
        outputs.push(prev.guest[3]);
        outputs.push(host_next);
        outputs.push(guest_next);
        outputs.push(next_turn);
        outputs.push(next_shot);
        proof {
            b13.lemma_extends_transitive(b7, b4);
            prev.lemma_state_kept(b13, b4, Map::<int, u64>::empty());
            assert(b13.has_all(outputs@)) by {
                assert forall|k: int| 0 <= k < outputs@.len() implies (#[trigger] outputs@[k]).index
                    < b13.gates@.len() by {
                    if k < 4 {
                        assert(b13.has(prev.host@[k]));
                    } else if k < 8 {
                        assert(b13.has(prev.guest@[k - 4]));
                    }
                }
            }
        }
        builder.register_public_inputs(&outputs);
        let ghost b14 = builder;
        let data = builder.build();
        let circuit = StateIncrementCircuit { data, prev, shot, shot_t: next };
        proof {
            let state_inputs = circuit.state_inputs();
            let shot_inputs = circuit.shot_inputs();
            assert(circuit.data.public_inputs@ =~= outputs@);
            assert forall|witness: Assignment|
                #![trigger circuit.data.satisfied(witness)]
                #![trigger circuit.data.outputs(witness)]
                (circuit.data.satisfied(witness) ==> circuit.supplied(witness)) && (
                circuit.supplied(witness) && circuit.state_of(witness).turn <= 1 ==> (
                circuit.data.satisfied(witness) == circuit.accepts(witness))) && (circuit.accepts(
                    witness,
                ) && circuit.state_of(witness).turn <= 1 ==> circuit.data.outputs(witness)
                    == encoded_state(
                    incremented(
                        circuit.state_of(witness),
                        witness[shot_inputs[1].index as int],
                        (10 * witness[next[1].index as int] + witness[next[0].index as int]) as u64,
                    ),
                )) by {
                let w = witness;
                assert(circuit.data.satisfied(w) == b14.satisfied(w));
                assert(b14.satisfied(w) == b13.satisfied(w));
                assert(b13.satisfied(w) == b7.satisfied(w));
                assert(b4.satisfied(w) == circuit.supplied(w));
                if b7.satisfied(w) {
                    assert(b4.satisfied(w));
                }
                if circuit.supplied(w) && circuit.state_of(w).turn <= 1 {
                    let state = circuit.state_of(w);
                    let sh = assigned(w, shot_inputs);
                    let vx = w[next[0].index as int];
                    let vy = w[next[1].index as int];
                    assert(prev.state(b4, w) == state);
                    assert(b4.value_all(w, shot_inputs) == sh);
                    assert(b4.value(w, next[0]) == vx);
                    assert(b4.value(w, next[1]) == vy);
                    assert(b7.satisfied(w) == circuit.accepts(w));
                    if circuit.accepts(w) {
                        let hit = sh[1];
                        let after = incremented(state, hit, (10 * vy + vx) as u64);
                        let out = circuit.data.outputs(w);
                        assert forall|k: int| 0 <= k < 12 implies out[k] == b13.value(
                            w,
                            outputs@[k],
                        ) by {
                            assert(circuit.data.value(w, outputs@[k]) == b14.value(
                                w,
                                outputs@[k],
                            ));
                            assert(b14.value(w, outputs@[k]) == b13.value(w, outputs@[k]));
                        }
                        prev.lemma_state_kept(b13, b4, w);
                        prev.lemma_state_kept(b7, b4, w);
                        assert(b7.value(w, shot.hit.target) == b4.value(w, shot.hit.target));
                        assert(b4.value_all(w, shot_inputs)[1] == b4.value(w, shot.hit.target));
                        assert(b13.value(w, next_shot) == b7.value(w, next_shot));
                        assert forall|k: int| 0 <= k < 4 implies b13.value(w, prev.host@[k])
                            == state.host[k] && b13.value(w, prev.guest@[k]) == state.guest[k] by {
                            assert(prev.state(b13, w).host[k] == state.host[k]);
                            assert(prev.state(b13, w).guest[k] == state.guest[k]);
                        }
                        assert(b13.value(w, host_next) == after.host_damage);
                        assert(b13.value(w, guest_next) == after.guest_damage);
                        assert(b13.value(w, next_turn) == after.turn);
                        assert(out =~= encoded_state(after));
                    }
                }
            }
        }
        Ok(circuit)
    }
}

impl StateIncrementCircuit {
    /// Adds the previous state proof to a witness: its public inputs on the
    /// wires that stand for them. Fails where the proof has another number
    /// of public inputs than the wires expect.
    pub fn witness_prev_state(
        pw: &mut PartialWitness,
        prev_state: &ProofTuple,
        game_state_t: &GameTargets,
    ) -> (result: Result<(), CircuitError>)
        ensures
            prev_state.0.public_inputs@.len() != game_state_t.prev_proof.proof.public_inputs@.len()
                ==> result is Err && result->Err_0 == CircuitError::InvalidProof && final(pw)@
                == old(pw)@,
            prev_state.0.public_inputs@.len() == game_state_t.prev_proof.proof.public_inputs@.len()
                ==> result is Ok && final(pw)@ == assign_all(
                old(pw)@,
                game_state_t.prev_proof.proof.public_inputs@,
                prev_state.0.public_inputs@,
                prev_state.0.public_inputs@.len() as int,
            ),
    {
        if prev_state.0.public_inputs.len() != game_state_t.prev_proof.proof.public_inputs.len() {
            return Err(CircuitError::InvalidProof);
        }
        pw.set_proof_with_pis_target(&game_state_t.prev_proof.proof, &prev_state.0);
        Ok(())
    }

    /// Adds the shot proof to a witness: its public inputs on the wires
    /// that stand for them. Fails where the proof has another number of
    /// public inputs than the wires expect.
    pub fn witness_shot(pw: &mut PartialWitness, shot_p: &ProofTuple,
        shot_pt: &RecursiveTargets) -> (result:
        Result<(), CircuitError>)
        ensures
            shot_p.0.public_inputs@.len() != shot_pt.proof.public_inputs@.len() ==> result is Err
                && result->Err_0 == CircuitError::InvalidProof && final(pw)@ == old(pw)@,
            shot_p.0.public_inputs@.len() == shot_pt.proof.public_inputs@.len() ==> result is Ok
                && final(pw)@ == assign_all(
                old(pw)@,
                shot_pt.proof.public_inputs@,
                shot_p.0.public_inputs@,
                shot_p.0.public_inputs@.len() as int,
            ),
    {
        if shot_p.0.public_inputs.len() != shot_pt.proof.public_inputs.len() {
            return Err(CircuitError::InvalidProof);
        }
        pw.set_proof_with_pis_target(&shot_pt.proof, &shot_p.0);
        Ok(())
    }

    /// Adds the next shot to a witness: its column and its row.
    pub fn witness_next_shot(
        pw: &mut PartialWitness,
        next_shot: [u8; 2],
        next_shot_t: [Target; 2],
    ) -> (result: Result<(), CircuitError>)
        ensures
            result is Ok,
            final(pw)@ == old(pw)@.insert(next_shot_t[0].index as int, next_shot[0] as u64).insert(
                next_shot_t[1].index as int,
                next_shot[1] as u64,
            ),
    {
        pw.set_target(next_shot_t[0], next_shot[0] as u64);
        pw.set_target(next_shot_t[1], next_shot[1] as u64);
        Ok(())
    }

    /// Carries a channel on by one shot: verifies the previous state proof
    /// and the shot proof, and exposes the incremented state. Fails with
    /// an invalid proof where one of the two cannot be what it is handed in
    /// as, and with an unsatisfied circuit where the increment is not
    /// allowed.
    pub fn prove(prev: ProofTuple, shot: ProofTuple, next: [u8; 2]) -> (result: Result<
        ProofTuple,
        CircuitError,
    >)
        ensures
            !(state_proof_is_sound(prev) && shot_proof_is_sound(shot)) ==> result is Err
                && result->Err_0 == CircuitError::InvalidProof,
            state_proof_is_sound(prev) && shot_proof_is_sound(shot) && !increment_allowed(
                decoded_state(prev.0.public_inputs@),
                shot.0.public_inputs@,
                next[0] as u64,
                next[1] as u64,
            ) ==> result is Err && result->Err_0 == CircuitError::Unsatisfiable,
            state_proof_is_sound(prev) && shot_proof_is_sound(shot) && increment_allowed(
                decoded_state(prev.0.public_inputs@),
                shot.0.public_inputs@,
                next[0] as u64,
                next[1] as u64,
            ) ==> result is Ok && result->Ok_0.0.public_inputs@ == encoded_state(
                incremented(
                    decoded_state(prev.0.public_inputs@),
                    shot.0.public_inputs@[1],
                    (10 * next[1] + next[0]) as u64,
                ),
            ) && result->Ok_0.2 == (CommonCircuitData {
                config: CircuitConfig {
                    num_wires: 135,
                    num_routed_wires: 80,
                    zero_knowledge: false,
                },
                num_public_inputs: 12,
            }),
            result is Ok ==> state_proof_is_sound(result->Ok_0),
    {
        if !(is_state_proof(&prev) && is_shot_proof(&shot)) {
            return Err(CircuitError::InvalidProof);
        }
        let circuit = StateIncrementCircuit::build(&prev.2, &shot.2)?;
        let mut pw = PartialWitness::new();
        StateIncrementCircuit::witness_prev_state(&mut pw, &prev, &circuit.prev)?;
        let ghost w1 = pw@;
        StateIncrementCircuit::witness_shot(&mut pw, &shot, &circuit.shot.proof)?;
        let ghost w2 = pw@;
        StateIncrementCircuit::witness_next_shot(&mut pw, next, circuit.shot_t)?;
        proof {
            let w = pw@;
            let state_inputs = circuit.state_inputs();
            let shot_inputs = circuit.shot_inputs();
            let n = state_inputs.len() as int;
            let s0 = shot_inputs[0].index as int;
            assert forall|k: int| 0 <= k < n implies w.contains_key(k) && w[k]
                == prev.0.public_inputs@[k] by {
                lemma_assign_all(
                    Map::<int, u64>::empty(),
                    state_inputs,
                    prev.0.public_inputs@,
                    n,
                    0,
                    k,
                );
                lemma_assign_all(w1, shot_inputs, shot.0.public_inputs@, 6, s0, k);
            }
            assert forall|k: int| 0 <= k < 6 implies w.contains_key(s0 + k) && w[s0 + k]
                == shot.0.public_inputs@[k] by {
                lemma_assign_all(w1, shot_inputs, shot.0.public_inputs@, 6, s0, s0 + k);
            }
            assert(assigned(w, state_inputs) =~= prev.0.public_inputs@);
            assert(assigned(w, shot_inputs) =~= shot.0.public_inputs@) by {
                assert forall|k: int| 0 <= k < 6 implies assigned(w, shot_inputs)[k]
                    == shot.0.public_inputs@[k] by {
                    assert(shot_inputs[k].index == s0 + k);
                }
            }
            assert(supplied_all(w, state_inputs)) by {
                assert forall|k: int| 0 <= k < n implies supplied(w, #[trigger] state_inputs[k]) by {
                    assert(w[k] == prev.0.public_inputs@[k]);
                }
            }
            assert(supplied_all(w, shot_inputs)) by {
                assert forall|k: int| 0 <= k < 6 implies supplied(w, #[trigger] shot_inputs[k]) by {
                    assert(shot_inputs[k].index == s0 + k);
                    assert(w[s0 + k] == shot.0.public_inputs@[k]);
                }
            }
            assert(circuit.supplied(w));
            assert(shot_inputs[1].index == s0 + 1);
            assert(w[s0 + 1] == shot.0.public_inputs@[1]);
        }
        let proof = circuit.data.prove(&pw)?;
        Ok((proof, circuit.data.verifier_only, circuit.data.common))
    }
}

/// Reads the state of a channel out of the public inputs of a proof that
/// carries it on: the commitments as they are, the counters and the shot
/// taken to a byte, the turn as whether it is not zero. Fails where the
/// proof does not have exactly twelve public inputs.
pub fn decode_public(proof: ProofWithPublicInputs) -> (result: Result<GameState, CircuitError>)
    ensures
        proof.public_inputs@.len() != 12 ==> result is Err && result->Err_0
            == CircuitError::InvalidProof,
        proof.public_inputs@.len() == 12 ==> result is Ok && {
            let state = result->Ok_0;
            let inputs = proof.public_inputs@;
            &&& state.host@ == inputs.subrange(0, 4)
            &&& state.guest@ == inputs.subrange(4, 8)
            &&& state.host_damage == inputs[8] % 256
            &&& state.guest_damage == inputs[9] % 256
            &&& state.turn == (inputs[10] != 0)
            &&& state.shot == inputs[11] % 256
        },
{
    if proof.public_inputs.len() != 12 {
        return Err(CircuitError::InvalidProof);
    }
    let host: [u64; 4] = [
        proof.public_inputs[0],
        proof.public_inputs[1],
        proof.public_inputs[2],
        proof.public_inputs[3],
    ];
    let guest: [u64; 4] = [
        proof.public_inputs[4],
        proof.public_inputs[5],
        proof.public_inputs[6],
        proof.public_inputs[7],
    ];
    assert(host@ =~= proof.public_inputs@.subrange(0, 4));
    assert(guest@ =~= proof.public_inputs@.subrange(4, 8));
    Ok(
        GameState {
            host,
            guest,
            host_damage: (proof.public_inputs[8] % 256) as u8,
            guest_damage: (proof.public_inputs[9] % 256) as u8,
            turn: proof.public_inputs[10] != 0,
            shot: (proof.public_inputs[11] % 256) as u8,
        },
    )
}

/// Carries a channel on by one shot: the previous state proof, the proof
/// for the shot that the state announced, and the next shot go in, the
/// proof of the incremented state comes out.
pub fn prove_channel_increment(prev_p: ProofTuple, shot_p: ProofTuple, shot: [u8; 2]) -> (result:
    Result<ProofTuple, CircuitError>)
    ensures
        !(state_proof_is_sound(prev_p) && shot_proof_is_sound(shot_p)) ==> result is Err
            && result->Err_0 == CircuitError::InvalidProof,
        state_proof_is_sound(prev_p) && shot_proof_is_sound(shot_p) && !increment_allowed(
            decoded_state(prev_p.0.public_inputs@),
            shot_p.0.public_inputs@,
            shot[0] as u64,
            shot[1] as u64,
        ) ==> result is Err && result->Err_0 == CircuitError::Unsatisfiable,
        state_proof_is_sound(prev_p) && shot_proof_is_sound(shot_p) && increment_allowed(
            decoded_state(prev_p.0.public_inputs@),
            shot_p.0.public_inputs@,
            shot[0] as u64,
            shot[1] as u64,
        ) ==> result is Ok && result->Ok_0.0.public_inputs@ == encoded_state(
            incremented(
                decoded_state(prev_p.0.public_inputs@),
                shot_p.0.public_inputs@[1],
                (10 * shot[1] + shot[0]) as u64,
            ),
        ) && result->Ok_0.2 == (CommonCircuitData {
            config: CircuitConfig { num_wires: 135, num_routed_wires: 80, zero_knowledge: false },
            num_public_inputs: 12,
        }),
        result is Ok ==> state_proof_is_sound(result->Ok_0),
{
    StateIncrementCircuit::prove(prev_p, shot_p, shot)
}

} // verus!
