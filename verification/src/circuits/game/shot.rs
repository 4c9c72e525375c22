use vstd::prelude::*;
use crate::board::Board;
use crate::circuits::{all_canonical, proof_is_sound, shield, ProofTuple, RecursiveTargets};
use crate::circuits::channel::{shot_is_sound, shot_proof_is_sound};
use crate::error::CircuitError;
use crate::field::{field_bool, is_canonical};
use crate::gadgets::board::hash_board;
use crate::gadgets::shot::{check_hit, serialize_shot};
use crate::packing::{bit_of, lemma_bit_of_le_value};
use crate::plonk::circuit_builder::{
    supplied, supplied_all, CircuitBuilder, CircuitConfig, CommonCircuitData, HashOutTarget,
};
use crate::plonk::circuit_data::{CircuitData, ProofWithPublicInputs};
use crate::plonk::gate::{Assignment, Target};
use crate::plonk::witness::{assign_all, PartialWitness};

verus! {

/// What a shot proof exposes: the serialized shot, whether it hit, and the
/// commitment to the board it was checked against.
#[derive(Clone, Copy, Debug)]
pub struct ShotCircuitOutputs {
    pub shot: u8,
    pub hit: bool,
    pub commitment: [u64; 4],
}

/// The circuit that looks a shot up on a committed board.
pub struct ShotCircuit {
    pub data: CircuitData,
    /// The wires of the two words of the packed bitmap.
    pub board_t: [Target; 2],
    /// The wires of the column and the row of the shot.
    pub shot_t: [Target; 2],
    /// The wires of the commitment.
    pub commitment: HashOutTarget,
}

/// What the shot circuit exposes for a packed board, a shot and a
/// commitment: the serialized shot, the digit of the board at the shot,
/// and the commitment.
pub open spec fn shot_outputs(limbs: Seq<u64>, x: u64, y: u64, commitment: Seq<u64>) -> Seq<u64> {
    let shot = 10 * y + x;
    seq![
        shot as u64,
        field_bool(bit_of(limbs[shot / 64] as nat, (shot % 64) as nat)),
        commitment[0],
        commitment[1],
        commitment[2],
        commitment[3],
    ]
}

impl ShotCircuit {
    /// `witness` is accepted: it supplies a packed board, a shot on the
    /// grid, and a commitment.
    pub open spec fn accepts(&self, witness: Assignment) -> bool {
        &&& supplied(witness, self.board_t[0])
        &&& supplied(witness, self.board_t[1])
        &&& supplied(witness, self.shot_t[0])
        &&& supplied(witness, self.shot_t[1])
        &&& witness[self.shot_t[0].index as int] < 10
        &&& witness[self.shot_t[1].index as int] < 10
        &&& supplied_all(witness, self.commitment.elements@)
    }

    /// What `witness` assigns to the wires of the packed board.
    pub open spec fn limbs_of(&self, witness: Assignment) -> Seq<u64> {
        seq![witness[self.board_t[0].index as int], witness[self.board_t[1].index as int]]
    }

    /// What `witness` assigns to the wires of the commitment.
    pub open spec fn commitment_of(&self, witness: Assignment) -> Seq<u64> {
        Seq::new(4, |k: int| witness[self.commitment.elements[k].index as int])
    }

    /// The circuit is the shot circuit: its witness wires lie where the
    /// layout puts them, its constraints are satisfied exactly by the
    /// witnesses it accepts, and it then exposes the serialized shot, the
    /// digit of the board at the shot, and the commitment.
    pub open spec fn wf(&self) -> bool {
        &&& self.data.wf()
        &&& self.board_t[0].index == 0
        &&& self.board_t[1].index == 1
        &&& self.shot_t[0].index == 2
        &&& self.shot_t[1].index == 3
        &&& forall|k: int|
            0 <= k < 4 ==> (#[trigger] self.commitment.elements[k]).index
                == self.commitment.elements[0].index + k
        &&& self.commitment.elements[0].index >= 4
        &&& self.data.proofs@.len() == 0
        &&& self.data.common.num_public_inputs == 6
        &&& forall|witness: Assignment| #[trigger]
            self.data.satisfied(witness) == self.accepts(witness)
        &&& forall|witness: Assignment|
            self.accepts(witness) ==> #[trigger] self.data.outputs(witness) == shot_outputs(
                self.limbs_of(witness),
                witness[self.shot_t[0].index as int],
                witness[self.shot_t[1].index as int],
                self.commitment_of(witness),
            )
    }

    /// The configuration of the inner proof: wide enough to look a board of
    /// 128 wires up in one gate, without blinding.
    pub fn config_inner() -> (result: Result<CircuitConfig, CircuitError>)
        ensures
            result == Ok::<CircuitConfig, CircuitError>(
                CircuitConfig { num_wires: 137, num_routed_wires: 130, zero_knowledge: false },
            ),
    {
        let mut config = CircuitConfig::standard_recursion_config();
        config.num_wires = 137;
        config.num_routed_wires = 130;
        Ok(config)
    }

    /// The configuration of the outer proof: the usual one for recursion,
    /// with blinding.
    pub fn config_outer() -> (result: Result<CircuitConfig, CircuitError>)
        ensures
            result == Ok::<CircuitConfig, CircuitError>(
                CircuitConfig { num_wires: 135, num_routed_wires: 80, zero_knowledge: true },
            ),
    {
        let mut config = CircuitConfig::standard_recursion_config();
        config.zero_knowledge = true;
        Ok(config)
    }

    /// Lays out the shot circuit. Fails where the configuration is too
    /// narrow to look a board up in one gate.
    pub fn build(config: &CircuitConfig) -> (result: Result<ShotCircuit, CircuitError>)
        ensures
            config.num_routed_wires >= 130 && config.num_wires >= 137 ==> result is Ok,
            !(config.num_routed_wires >= 130 && config.num_wires >= 137) ==> result is Err
                && result->Err_0 == CircuitError::ConfigMismatch,
            result is Ok ==> result->Ok_0.wf() && result->Ok_0.data.common.config == *config
                && result->Ok_0.data.common.num_public_inputs == 6,
    {
        if config.num_routed_wires < 130 || config.num_wires < 137 {
            return Err(CircuitError::ConfigMismatch);
        }
        proof {
            vstd::arithmetic::power2::lemma2_to64();
        }
        let mut builder = CircuitBuilder::new(*config);
        let b0 = builder.add_virtual_target();
        let ghost s1 = builder;
        let b1 = builder.add_virtual_target();
        let ghost s2 = builder;
        let x = builder.add_virtual_target();
        let ghost s3 = builder;
        let y = builder.add_virtual_target();
        let ghost s4 = builder;
        let board_t = [b0, b1];
        let shot_t = [x, y];
        let serialized_t = serialize_shot(x, y, &mut builder).unwrap();
        let ghost s5 = builder;
        builder.register_public_input(serialized_t);
        let ghost s6 = builder;
        let hit = check_hit(board_t, serialized_t, &mut builder).unwrap();
        let ghost s7 = builder;
        builder.register_public_input(hit);
        let ghost s8 = builder;
        let commitment = hash_board(board_t, &mut builder).unwrap();
        let ghost s9 = builder;
        let mut outputs: Vec<Target> = Vec::new();
        outputs.push(commitment.elements[0]);
        outputs.push(commitment.elements[1]);
        outputs.push(commitment.elements[2]);
        outputs.push(commitment.elements[3]);
        builder.register_public_inputs(&outputs);
        let ghost s10 = builder;
        let data = builder.build();
        let circuit = ShotCircuit { data, board_t, shot_t, commitment };
        proof {
            assert(circuit.data.public_inputs@ =~= seq![
                serialized_t,
                hit,
                commitment.elements[0],
                commitment.elements[1],
                commitment.elements[2],
                commitment.elements[3],
            ]);
            assert forall|witness: Assignment|
                #![trigger circuit.data.satisfied(witness)]
                #![trigger circuit.data.outputs(witness)]
                circuit.data.satisfied(witness) == circuit.accepts(witness) && (circuit.accepts(
                    witness,
                ) ==> circuit.data.outputs(witness) == shot_outputs(
                    circuit.limbs_of(witness),
                    witness[x.index as int],
                    witness[y.index as int],
                    circuit.commitment_of(witness),
                )) by {
                let w = witness;
                // the four inputs read the witness
                let given = supplied(w, b0) && supplied(w, b1) && supplied(w, x) && supplied(w, y);
                assert(s4.satisfied(w) == given);
                assert(s2.value(w, b0) == s1.value(w, b0));
                assert(s3.value(w, b0) == s2.value(w, b0));
                assert(s4.value(w, b0) == s3.value(w, b0));
                assert(s3.value(w, b1) == s2.value(w, b1));
                assert(s4.value(w, b1) == s3.value(w, b1));
                assert(s4.value(w, x) == s3.value(w, x));
                assert(s6.satisfied(w) == s5.satisfied(w));
                assert(s8.satisfied(w) == s7.satisfied(w));
                assert(s10.satisfied(w) == s9.satisfied(w));
                assert(circuit.data.satisfied(w) == s10.satisfied(w));
                if given {
                    let vx = w[x.index as int];
                    let vy = w[y.index as int];
                    assert(s4.value(w, x) == vx && s4.value(w, y) == vy);
                    assert(s4.value(w, b0) == w[b0.index as int]);
                    assert(s4.value(w, b1) == w[b1.index as int]);
                    if vx < 10 && vy < 10 {
                        let shot = (10 * vy + vx) as u64;
                        assert(s5.value(w, serialized_t) == shot);
                        assert(s6.value(w, serialized_t) == shot);
                        assert(s5.value(w, b0) == s4.value(w, b0));
                        assert(s6.value(w, b0) == s5.value(w, b0));
                        assert(s5.value(w, b1) == s4.value(w, b1));
                        assert(s6.value(w, b1) == s5.value(w, b1));
                        assert(board_t[shot as int / 64] == if shot < 64 {
                            b0
                        } else {
                            b1
                        });
                        if circuit.accepts(w) {
                            let out = circuit.data.outputs(w);
                            let expected = shot_outputs(
                                circuit.limbs_of(w),
                                vx,
                                vy,
                                circuit.commitment_of(w),
                            );
                            assert(s7.value(w, serialized_t) == shot);
                            assert(s8.value(w, serialized_t) == shot);
                            assert(s9.value(w, serialized_t) == shot);
                            assert(s10.value(w, serialized_t) == shot);
                            assert(circuit.data.value(w, serialized_t) == s10.value(
                                w,
                                serialized_t,
                            ));
                            assert(s8.value(w, hit) == s7.value(w, hit));
                            assert(s9.value(w, hit) == s8.value(w, hit));
                            assert(s10.value(w, hit) == s9.value(w, hit));
                            assert(circuit.data.value(w, hit) == s10.value(w, hit));
                            assert forall|k: int| 0 <= k < 4 implies circuit.data.value(
                                w,
                                #[trigger] commitment.elements[k],
                            ) == w[commitment.elements[k].index as int] by {
                                assert(supplied(w, commitment.elements@[k]));
                                assert(s10.value(w, commitment.elements[k]) == s9.value(
                                    w,
                                    commitment.elements[k],
                                ));
                                assert(circuit.data.value(w, commitment.elements[k])
                                    == s10.value(w, commitment.elements[k]));
                            }
                            assert(out =~= expected);
                        }
                    }
                }
            }
        }
        Ok(circuit)
    }
}

impl ShotCircuit {
    /// The witness of the inner proof, short of the commitment: the packed
    /// bitmap of the board and the two coordinates of the shot on their
    /// wires.
    pub fn partial_witness_inner(
        shot: [u8; 2],
        board: Board,
        shot_t: [Target; 2],
        board_t: [Target; 2],
    ) -> (result: Result<PartialWitness, CircuitError>)
        requires
            board.on_grid(),
        ensures
            result is Ok,
            result->Ok_0@ == Map::<int, u64>::empty().insert(
                board_t[0].index as int,
                board.limbs()[0],
            ).insert(board_t[1].index as int, board.limbs()[1]).insert(
                shot_t[0].index as int,
                shot[0] as u64,
            ).insert(shot_t[1].index as int, shot[1] as u64),
    {
        let limbs = board.canonical();
        let mut witness = PartialWitness::new();
        witness.set_target(board_t[0], limbs[0]);
        witness.set_target(board_t[1], limbs[1]);
        witness.set_target(shot_t[0], shot[0] as u64);
        witness.set_target(shot_t[1], shot[1] as u64);
        Ok(witness)
    }

    /// Adds the commitment to a witness: the digest is the prover's to
    /// supply.
    pub fn witness_commitment(
        witness: &mut PartialWitness,
        target: HashOutTarget,
        commitment: [u64; 4],
    )
        ensures
            final(witness)@ == old(witness)@.insert(
                target.elements[0].index as int,
                commitment[0],
            ).insert(target.elements[1].index as int, commitment[1]).insert(
                target.elements[2].index as int,
                commitment[2],
            ).insert(target.elements[3].index as int, commitment[3]),
    {
        witness.set_target(target.elements[0], commitment[0]);
        witness.set_target(target.elements[1], commitment[1]);
        witness.set_target(target.elements[2], commitment[2]);
        witness.set_target(target.elements[3], commitment[3]);
    }

    /// The witness of the outer proof: the public inputs of the inner proof
    /// on the wires that stand for them. Fails where the proof has another
    /// number of public inputs than the wires expect.
    pub fn partial_witness_outer(inner: ProofTuple, targets: RecursiveTargets) -> (result: Result<
        PartialWitness,
        CircuitError,
    >)
        ensures
            inner.0.public_inputs@.len() != targets.proof.public_inputs@.len() ==> result is Err
                && result->Err_0 == CircuitError::InvalidProof,
            inner.0.public_inputs@.len() == targets.proof.public_inputs@.len() ==> result is Ok
                && result->Ok_0@ == assign_all(
                Map::<int, u64>::empty(),
                targets.proof.public_inputs@,
                inner.0.public_inputs@,
                inner.0.public_inputs@.len() as int,
            ),
    {
        if inner.0.public_inputs.len() != targets.proof.public_inputs.len() {
            return Err(CircuitError::InvalidProof);
        }
        let mut witness = PartialWitness::new();
        witness.set_proof_with_pis_target(&targets.proof, &inner.0);
        Ok(witness)
    }

    /// Lays out the shot circuit under the configuration of the inner proof.
    pub fn new() -> (result: Result<ShotCircuit, CircuitError>)
        ensures
            result is Ok,
            result->Ok_0.wf(),
            result->Ok_0.data.common == (CommonCircuitData {
                config: CircuitConfig {
                    num_wires: 137,
                    num_routed_wires: 130,
                    zero_knowledge: false,
                },
                num_public_inputs: 6,
            }),
    {
        let config = ShotCircuit::config_inner().unwrap();
        ShotCircuit::build(&config)
    }

    /// Proves with this circuit whether a shot hits a board. The proof
    /// exposes the serialized shot, 1 or 0 for whether the cell of the shot
    /// is occupied, and as commitment what `hasher` returns for the packed
    /// bitmap of the board. Fails, with an unsatisfied circuit, exactly
    /// where the shot lies off the grid or the digest is not made of field
    /// elements.
    pub fn prove<H: Fn([u64; 2]) -> [u64; 4]>(&self, board: Board, shot: [u8; 2], hasher: H) -> (result:
        Result<ProofWithPublicInputs, CircuitError>)
        requires
            self.wf(),
            board.on_grid(),
            forall|limbs: [u64; 2]| call_requires(hasher, (limbs,)),
        ensures
            result is Ok ==> shot[0] < 10 && shot[1] < 10 && exists|
                limbs: [u64; 2],
                digest: [u64; 4],
            |
                limbs@ == board.limbs() && call_ensures(hasher, (limbs,), digest)
                    && result->Ok_0.public_inputs@ == seq![
                    (10 * shot[1] + shot[0]) as u64,
                    field_bool(board.bitmap()[10 * shot[1] + shot[0]]),
                    digest[0],
                    digest[1],
                    digest[2],
                    digest[3],
                ],
            result is Ok ==> shot_is_sound(result->Ok_0.public_inputs@),
            result is Err ==> result->Err_0 == CircuitError::Unsatisfiable,
            shot[0] < 10 && shot[1] < 10 && (forall|limbs: [u64; 2], digest: [u64; 4]|
                call_ensures(hasher, (limbs,), digest) ==> all_canonical(digest@))
                ==> result is Ok,
    {
        let mut witness = ShotCircuit::partial_witness_inner(
            shot,
            board,
            self.shot_t,
            self.board_t,
        ).unwrap();
        let commitment = hasher(board.canonical());
        ShotCircuit::witness_commitment(&mut witness, self.commitment, commitment);
        proof {
            let w = witness@;
            board.lemma_limbs_canonical();
            assert(self.commitment.elements[1].index == self.commitment.elements[0].index + 1);
            assert(self.commitment.elements[2].index == self.commitment.elements[0].index + 2);
            assert(self.commitment.elements[3].index == self.commitment.elements[0].index + 3);
            if all_canonical(commitment@) {
                assert forall|k: int| 0 <= k < 4 implies supplied(
                    w,
                    #[trigger] self.commitment.elements@[k],
                ) by {
                    assert(is_canonical(commitment@[k]));
                }
            }
            if self.accepts(w) {
                let at = 10 * shot[1] + shot[0];
                assert(self.limbs_of(w) =~= board.limbs());
                assert(self.commitment_of(w) =~= commitment@);
                if at < 64 {
                    lemma_bit_of_le_value(board.bitmap().subrange(0, 64), at);
                } else {
                    lemma_bit_of_le_value(board.bitmap().subrange(64, 100), at - 64);
                }
            }
        }
        self.data.prove(&witness)
    }

    /// Checks the shape of a proof of this circuit.
    pub fn verify(&self, proof: &ProofWithPublicInputs) -> (result: Result<(), CircuitError>)
        ensures
            result is Ok <==> proof.public_inputs@.len() == self.data.common.num_public_inputs
                && all_canonical(proof.public_inputs@),
            result is Err ==> result->Err_0 == CircuitError::InvalidProof,
    {
        self.data.verify(proof)
    }

    /// Proves whether a shot hits a board, under the configuration of the
    /// inner proof. See `prove`.
    pub fn prove_inner<H: Fn([u64; 2]) -> [u64; 4]>(board: Board, shot: [u8; 2], hasher: H) -> (result:
        Result<ProofTuple, CircuitError>)
        requires
            board.on_grid(),
            forall|limbs: [u64; 2]| call_requires(hasher, (limbs,)),
        ensures
            result is Ok ==> shot[0] < 10 && shot[1] < 10 && exists|
                limbs: [u64; 2],
                digest: [u64; 4],
            |
                limbs@ == board.limbs() && call_ensures(hasher, (limbs,), digest)
                    && result->Ok_0.0.public_inputs@ == seq![
                    (10 * shot[1] + shot[0]) as u64,
                    field_bool(board.bitmap()[10 * shot[1] + shot[0]]),
                    digest[0],
                    digest[1],
                    digest[2],
                    digest[3],
                ],
            result is Ok ==> result->Ok_0.2 == (CommonCircuitData {
                config: CircuitConfig {
                    num_wires: 137,
                    num_routed_wires: 130,
                    zero_knowledge: false,
                },
                num_public_inputs: 6,
            }),
            result is Ok ==> shot_proof_is_sound(result->Ok_0),
            result is Err ==> result->Err_0 == CircuitError::Unsatisfiable,
            shot[0] < 10 && shot[1] < 10 && (forall|limbs: [u64; 2], digest: [u64; 4]|
                call_ensures(hasher, (limbs,), digest) ==> all_canonical(digest@))
                ==> result is Ok,
    {
        let circuit = ShotCircuit::new().unwrap();
        let proof = circuit.prove(board, shot, hasher)?;
        Ok((proof, circuit.data.verifier_only, circuit.data.common))
    }

    /// Wraps an inner proof in the blinded outer proof, which exposes the
    /// same public inputs.
    pub fn prove_outer(inner: ProofTuple) -> (result: Result<ProofTuple, CircuitError>)
        ensures
            inner.0.public_inputs@.len() != inner.2.num_public_inputs ==> result is Err
                && result->Err_0 == CircuitError::InvalidProof,
            inner.0.public_inputs@.len() == inner.2.num_public_inputs && !all_canonical(
                inner.0.public_inputs@,
            ) ==> result is Err && result->Err_0 == CircuitError::Unsatisfiable,
            proof_is_sound(inner) ==> result is Ok && result->Ok_0.0.public_inputs@
                == inner.0.public_inputs@ && result->Ok_0.2 == (CommonCircuitData {
                config: CircuitConfig {
                    num_wires: 135,
                    num_routed_wires: 80,
                    zero_knowledge: true,
                },
                num_public_inputs: inner.2.num_public_inputs,
            }),
            result is Ok ==> proof_is_sound(result->Ok_0),
    {
        let config = ShotCircuit::config_outer().unwrap();
        shield(&inner, config)
    }

    /// Reads the outputs of a shot proof out of its public inputs: the
    /// shot, taken to a byte, whether the hit flag is not zero, and the
    /// commitment. Fails where the proof does not have exactly six public
    /// inputs.
    pub fn decode_public(proof: ProofWithPublicInputs) -> (result: Result<
        ShotCircuitOutputs,
        CircuitError,
    >)
        ensures
            proof.public_inputs@.len() == 6 ==> result is Ok && result->Ok_0.shot
                == proof.public_inputs@[0] % 256 && result->Ok_0.hit == (proof.public_inputs@[1]
                != 0) && result->Ok_0.commitment@ == proof.public_inputs@.subrange(2, 6),
            proof.public_inputs@.len() != 6 ==> result is Err && result->Err_0
                == CircuitError::InvalidProof,
    {
        if proof.public_inputs.len() != 6 {
            return Err(CircuitError::InvalidProof);
        }
        let shot: u8 = (proof.public_inputs[0] % 256) as u8;
        let hit = proof.public_inputs[1] != 0;
        let commitment: [u64; 4] = [
            proof.public_inputs[2],
            proof.public_inputs[3],
            proof.public_inputs[4],
            proof.public_inputs[5],
        ];
        assert(commitment@ =~= proof.public_inputs@.subrange(2, 6));
        Ok(ShotCircuitOutputs { shot, hit, commitment })
    }
}

} // verus!
