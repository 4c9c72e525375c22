use vstd::prelude::*;
use crate::board::Board;
use crate::circuits::{all_canonical, proof_is_sound, shield, ProofTuple, RecursiveTargets};
use crate::error::CircuitError;
use crate::field::{field_bool, is_canonical};
use crate::gadgets::board::{cell_value, decompose_board, hash_board, place_ship, recompose_board};
use crate::gadgets::fleet::{
    cell_is_free, cover_count, last_is_clear, lemma_count_unit, lemma_last_is_clear,
    lemma_place_step, placeable, placements_overlap, Placement,
};
use crate::packing::lemma_le_value_padding;
use crate::plonk::circuit_builder::{
    supplied, supplied_all, CircuitBuilder, CircuitConfig, CommonCircuitData, HashOutTarget,
};
use crate::plonk::circuit_data::{CircuitData, ProofWithPublicInputs};
use crate::plonk::gate::{lemma_weighted_sum_bits, weighted_sum, Assignment, BoolTarget, Target};
use crate::plonk::witness::{assign_all, PartialWitness};
use crate::ship::{ships_overlap, Ship};

verus! {

/// The three wires of a ship: the column and row of its head and its
/// orientation.
pub type ShipTarget = (Target, Target, BoolTarget);

/// The length of the ship at position `j` of a board: 5, 4, 3, 3, 2.
pub open spec fn ship_length(j: int) -> usize {
    if j == 0 {
        5
    } else if j == 1 {
        4
    } else if j == 2 || j == 3 {
        3
    } else {
        2
    }
}

/// The ship that `witness` assigns to the wires `ship`, of the given length.
pub open spec fn placement_of(witness: Assignment, ship: ShipTarget, length: usize) -> Placement {
    Placement {
        x: witness[ship.0.index as int],
        y: witness[ship.1.index as int],
        z: witness[ship.2.target.index as int],
        length,
    }
}

/// The five ships that `witness` assigns to the wires `ships`.
pub open spec fn fleet_of(witness: Assignment, ships: Seq<ShipTarget>) -> Seq<Placement> {
    Seq::new(5, |j: int| placement_of(witness, ships[j], ship_length(j)))
}

/// `witness` assigns canonical values to the wires of the ship, and 0 or 1
/// to its orientation.
pub open spec fn ship_supplied(witness: Assignment, ship: ShipTarget) -> bool {
    &&& supplied(witness, ship.0)
    &&& supplied(witness, ship.1)
    &&& supplied(witness, ship.2.target)
    &&& witness[ship.2.target.index as int] <= 1
}

/// `witness` assigns values to the wires of all five ships.
pub open spec fn ships_supplied(witness: Assignment, ships: Seq<ShipTarget>) -> bool {
    forall|j: int| 0 <= j < 5 ==> ship_supplied(witness, #[trigger] ships[j])
}

/// The wires of the ship carry what `witness` assigns to them.
pub open spec fn ship_reads(builder: CircuitBuilder, witness: Assignment, ship: ShipTarget) -> bool {
    &&& builder.value(witness, ship.0) == witness[ship.0.index as int]
    &&& builder.value(witness, ship.1) == witness[ship.1.index as int]
    &&& builder.value(witness, ship.2.target) == witness[ship.2.target.index as int]
}

/// The wires of the ship are wires of the circuit.
pub open spec fn has_ship(builder: CircuitBuilder, ship: ShipTarget) -> bool {
    builder.has(ship.0) && builder.has(ship.1) && builder.has(ship.2.target)
}

/// The state of the layout once the first `placed` ships are on the board:
/// the constraints so far say that the ships are supplied and those
/// `placed` ships are placeable, and the board wires carry their cover
/// counts.
pub open spec fn stage_holds(
    builder: CircuitBuilder,
    board: Seq<Target>,
    ships: Seq<ShipTarget>,
    placed: int,
) -> bool {
    &&& forall|witness: Assignment| #[trigger]
        builder.satisfied(witness) == (ships_supplied(witness, ships) && placeable(
            fleet_of(witness, ships).take(placed),
        ))
    &&& forall|witness: Assignment, i: int|
        0 <= i < 128 && ships_supplied(witness, ships) && placeable(
            fleet_of(witness, ships).take(placed),
        ) ==> #[trigger] builder.value(witness, board[i]) == cover_count(
            fleet_of(witness, ships).take(placed),
            i,
        )
    &&& forall|witness: Assignment, j: int|
        0 <= j < 5 && ships_supplied(witness, ships) ==> #[trigger] ship_reads(
            builder,
            witness,
            ships[j],
        )
    &&& forall|witness: Assignment, j: int|
        0 <= j < 5 ==> #[trigger] builder.value(witness, ships[j].2.target) <= 1
}

/// Places the ship at position `placed` of the fleet on the board.
fn place_next<const L: usize>(
    ship: ShipTarget,
    board: Vec<Target>,
    builder: &mut CircuitBuilder,
    Ghost(ships): Ghost<Seq<ShipTarget>>,
    Ghost(placed): Ghost<int>,
) -> (out: Vec<Target>)
    requires
        old(builder).wf(),
        0 <= placed < 5,
        L == ship_length(placed),
        ships.len() == 5,
        ship == ships[placed],
        forall|j: int| 0 <= j < 5 ==> has_ship(*old(builder), #[trigger] ships[j]),
        board@.len() == 128,
        old(builder).has_all(board@),
        old(builder).config.admits_table(128, 7),
        stage_holds(*old(builder), board@, ships, placed),
    ensures
        final(builder).wf(),
        final(builder).extends(*old(builder)),
        final(builder).public_inputs@ == old(builder).public_inputs@,
        final(builder).proofs@ == old(builder).proofs@,
        out@.len() == 128,
        final(builder).has_all(out@),
        stage_holds(*final(builder), out@, ships, placed + 1),
{
    let ghost prev = *builder;
    let ghost board_prev = board@;
    proof {
        assert(has_ship(prev, ships[placed]));
    }
    let out = place_ship::<L>(ship, board, builder).unwrap();
    proof {
        let next = *builder;
        assert forall|witness: Assignment, j: int|
            0 <= j < 5 && ships_supplied(witness, ships) implies #[trigger] ship_reads(
            next,
            witness,
            ships[j],
        ) by {
            assert(has_ship(prev, ships[j]));
            assert(ship_reads(prev, witness, ships[j]));
            assert(next.value(witness, ships[j].0) == prev.value(witness, ships[j].0));
            assert(next.value(witness, ships[j].1) == prev.value(witness, ships[j].1));
            assert(next.value(witness, ships[j].2.target) == prev.value(
                witness,
                ships[j].2.target,
            ));
        }
        assert forall|witness: Assignment, j: int| 0 <= j < 5 implies #[trigger] next.value(
            witness,
            ships[j].2.target,
        ) <= 1 by {
            assert(has_ship(prev, ships[j]));
            assert(next.value(witness, ships[j].2.target) == prev.value(
                witness,
                ships[j].2.target,
            ));
        }
        assert forall|witness: Assignment|
            #![trigger next.satisfied(witness)]
            #![trigger fleet_of(witness, ships)]
            (next.satisfied(witness) == (ships_supplied(witness, ships) && placeable(
                fleet_of(witness, ships).take(placed + 1),
            ))) && (ships_supplied(witness, ships) && placeable(
                fleet_of(witness, ships).take(placed + 1),
            ) ==> forall|i: int|
                0 <= i < 128 ==> next.value(witness, #[trigger] out@[i]) == cover_count(
                    fleet_of(witness, ships).take(placed + 1),
                    i,
                )) by {
            let fleet = fleet_of(witness, ships);
            assert(fleet.take(placed + 1) =~= fleet.take(placed).push(fleet[placed]));
            assert(prev.value(witness, ships[placed].2.target) <= 1);
            if ships_supplied(witness, ships) {
                assert(ship_supplied(witness, ships[placed]));
                assert(ship_reads(prev, witness, ships[placed]));
                lemma_place_step(
                    prev,
                    next,
                    witness,
                    board_prev,
                    out@,
                    fleet.take(placed),
                    fleet[placed],
                    true,
                );
            } else {
                assert(!prev.satisfied(witness));
            }
        }
    }
    out
}

/// The cover counts of the 64 cells from `from` on, as wire values.
pub open spec fn cover_digits(fleet: Seq<Placement>, from: int) -> Seq<u64> {
    Seq::new(64, |i: int| cover_count(fleet, from + i) as u64)
}

/// Lays out the wires of the five ships: for each its column, its row and
/// its orientation, in this order.
fn add_ship_targets(builder: &mut CircuitBuilder) -> (ships: [ShipTarget; 5])
    requires
        old(builder).wf(),
    ensures
        final(builder).wf(),
        final(builder).extends(*old(builder)),
        final(builder).public_inputs@ == old(builder).public_inputs@,
        final(builder).proofs@ == old(builder).proofs@,
        final(builder).gates@.len() == old(builder).gates@.len() + 15,
        forall|j: int|
            0 <= j < 5 ==> {
                &&& (#[trigger] ships[j]).0.index == old(builder).gates@.len() + 3 * j
                &&& ships[j].1.index == old(builder).gates@.len() + 3 * j + 1
                &&& ships[j].2.target.index == old(builder).gates@.len() + 3 * j + 2
            },
        forall|witness: Assignment| #[trigger]
            final(builder).satisfied(witness) == (old(builder).satisfied(witness)
                && ships_supplied(witness, ships@)),
        forall|witness: Assignment, j: int|
            0 <= j < 5 && ships_supplied(witness, ships@) ==> #[trigger] ship_reads(
                *final(builder),
                witness,
                ships@[j],
            ),
        forall|witness: Assignment, j: int|
            0 <= j < 5 ==> #[trigger] final(builder).value(witness, ships@[j].2.target) <= 1,
{
    let ghost before = *builder;
    let filler = Target { index: 0 };
    let mut ships: [ShipTarget; 5] = [(filler, filler, BoolTarget { target: filler }); 5];
    let mut made: usize = 0;
    proof {
        before.lemma_extends_itself();
    }
    while made < 5
        invariant
            made <= 5,
            before.wf(),
            builder.wf(),
            builder.extends(before),
            builder.public_inputs@ == before.public_inputs@,
            builder.proofs@ == before.proofs@,
            builder.gates@.len() == before.gates@.len() + 3 * made,
            forall|j: int|
                0 <= j < made ==> {
                    &&& (#[trigger] ships[j]).0.index == before.gates@.len() + 3 * j
                    &&& ships[j].1.index == before.gates@.len() + 3 * j + 1
                    &&& ships[j].2.target.index == before.gates@.len() + 3 * j + 2
                },
            forall|witness: Assignment| #[trigger]
                builder.satisfied(witness) == (before.satisfied(witness) && forall|j: int|
                    0 <= j < made ==> ship_supplied(witness, #[trigger] ships@[j])),
            forall|witness: Assignment, j: int|
                0 <= j < made && ship_supplied(witness, ships@[j]) ==> #[trigger] ship_reads(
                    *builder,
                    witness,
                    ships@[j],
                ),
            forall|witness: Assignment, j: int|
                0 <= j < made ==> #[trigger] builder.value(witness, ships@[j].2.target) <= 1,
        decreases 5 - made,
    {
        let ghost previous = *builder;
        let ghost earlier = ships;
        let x = builder.add_virtual_target();
        let ghost b1 = *builder;
        let y = builder.add_virtual_target();
        let ghost b2 = *builder;
        let z = builder.add_virtual_bool_target_safe();
        ships[made] = (x, y, z);
        proof {
            let fresh = (x, y, z);
            assert forall|witness: Assignment| #[trigger]
                builder.satisfied(witness) == (before.satisfied(witness) && forall|j: int|
                    0 <= j < made + 1 ==> ship_supplied(witness, #[trigger] ships@[j])) by {
                assert(forall|j: int| 0 <= j < made ==> ships@[j] == earlier@[j]);
                assert(ships@[made as int] == fresh);
                if forall|j: int| 0 <= j < made + 1 ==> ship_supplied(witness, #[trigger] ships@[j]) {
                    assert(ship_supplied(witness, ships@[made as int]));
                    assert forall|j: int| 0 <= j < made implies ship_supplied(
                        witness,
                        #[trigger] earlier@[j],
                    ) by {
                        assert(ship_supplied(witness, ships@[j]));
                    }
                }
                if previous.satisfied(witness) && ship_supplied(witness, fresh) {
                    assert forall|j: int| 0 <= j < made + 1 implies ship_supplied(
                        witness,
                        #[trigger] ships@[j],
                    ) by {
                        if j < made {
                            assert(ship_supplied(witness, earlier@[j]));
                        }
                    }
                }
            }
            assert forall|witness: Assignment, j: int|
                0 <= j < made + 1 && ship_supplied(witness, ships@[j]) implies #[trigger] ship_reads(
                *builder,
                witness,
                ships@[j],
            ) by {
                if j < made {
                    assert(ships@[j] == earlier@[j]);
                    assert(ship_reads(previous, witness, earlier@[j]));
                    assert(previous.has(earlier@[j].0) && previous.has(earlier@[j].1)
                        && previous.has(earlier@[j].2.target));
                    assert(builder.value(witness, earlier@[j].0) == previous.value(
                        witness,
                        earlier@[j].0,
                    ));
                    assert(builder.value(witness, earlier@[j].1) == previous.value(
                        witness,
                        earlier@[j].1,
                    ));
                    assert(builder.value(witness, earlier@[j].2.target) == previous.value(
                        witness,
                        earlier@[j].2.target,
                    ));
                } else {
                    assert(b2.value(witness, x) == b1.value(witness, x));
                    assert(builder.value(witness, x) == b2.value(witness, x));
                    assert(builder.value(witness, y) == b2.value(witness, y));
                }
            }
            assert forall|witness: Assignment, j: int| 0 <= j < made + 1 implies #[trigger]
                builder.value(witness, ships@[j].2.target) <= 1 by {
                if j < made {
                    assert(ships@[j] == earlier@[j]);
                    assert(previous.has(earlier@[j].2.target));
                    assert(builder.value(witness, earlier@[j].2.target) == previous.value(
                        witness,
                        earlier@[j].2.target,
                    ));
                }
            }
        }
        made += 1;
    }
    ships
}

/// What a proof of a valid board exposes: the commitment to the board.
#[derive(Clone, Copy, Debug)]
pub struct BoardCircuitOutputs {
    pub commitment: [u64; 4],
}

/// The circuit that accepts a board whose ships lie on the grid without
/// overlap, and exposes the commitment to its packed bitmap.
pub struct BoardCircuit {
    pub data: CircuitData,
    /// The wires of the five ships, in the order of the lengths 5, 4, 3, 3, 2.
    pub ships: [ShipTarget; 5],
    /// The wires of the two words of the packed bitmap.
    pub board: [Target; 2],
    /// The wires of the commitment.
    pub commitment: HashOutTarget,
}

impl BoardCircuit {
    /// `witness` is accepted: it supplies five ships that can be placed one
    /// after the other, and a commitment.
    pub open spec fn accepts(&self, witness: Assignment) -> bool {
        &&& ships_supplied(witness, self.ships@)
        &&& placeable(fleet_of(witness, self.ships@))
        &&& supplied_all(witness, self.commitment.elements@)
    }

    /// The circuit is the board circuit: its witness wires lie where the
    /// layout puts them, its constraints are satisfied exactly by the
    /// witnesses it accepts, the words of the packed bitmap carry the cover
    /// counts of the ships, and its public inputs are the commitment.
    pub open spec fn wf(&self) -> bool {
        &&& self.data.wf()
        &&& forall|j: int|
            0 <= j < 5 ==> {
                &&& (#[trigger] self.ships[j]).0.index == 3 * j
                &&& self.ships[j].1.index == 3 * j + 1
                &&& self.ships[j].2.target.index == 3 * j + 2
            }
        &&& forall|k: int|
            0 <= k < 4 ==> (#[trigger] self.commitment.elements[k]).index
                == self.commitment.elements[0].index + k
        &&& self.commitment.elements[0].index >= 15
        &&& self.commitment.elements[0].index + 4 <= self.data.gates@.len()
        &&& self.data.public_inputs@ == self.commitment.elements@
        &&& self.data.proofs@.len() == 0
        &&& forall|witness: Assignment| #[trigger]
            self.data.satisfied(witness) == self.accepts(witness)
        &&& forall|witness: Assignment|
            self.accepts(witness) ==> #[trigger] self.data.value(witness, self.board[0])
                == weighted_sum(cover_digits(fleet_of(witness, self.ships@), 0))
        &&& forall|witness: Assignment|
            self.accepts(witness) ==> #[trigger] self.data.value(witness, self.board[1])
                == weighted_sum(cover_digits(fleet_of(witness, self.ships@), 64))
        &&& forall|witness: Assignment, k: int|
            0 <= k < 4 && self.accepts(witness) ==> #[trigger] self.data.value(
                witness,
                self.commitment.elements[k],
            ) == witness[self.commitment.elements[k].index as int]
    }

    /// The configuration of the inner proof: wide enough to look a board of
    /// 128 wires up in one gate, without blinding.
    pub fn config_inner() -> (result: Result<CircuitConfig, CircuitError>)
        ensures
            result == Ok::<CircuitConfig, CircuitError>(
                CircuitConfig { num_wires: 137, num_routed_wires: 130, zero_knowledge: false },
            ),
    {
        let mut config = CircuitConfig::standard_recursion_config();
        config.num_wires = 137;
        config.num_routed_wires = 130;
        Ok(config)
    }

    /// The configuration of the outer proof: the usual one for recursion,
    /// with blinding.
    pub fn config_outer() -> (result: Result<CircuitConfig, CircuitError>)
        ensures
            result == Ok::<CircuitConfig, CircuitError>(
                CircuitConfig { num_wires: 135, num_routed_wires: 80, zero_knowledge: true },
            ),
    {
        let mut config = CircuitConfig::standard_recursion_config();
        config.zero_knowledge = true;
        Ok(config)
    }

    /// Lays out the board circuit. Fails where the configuration is too
    /// narrow to look a board up in one gate.
    pub fn build(config: &CircuitConfig) -> (result: Result<BoardCircuit, CircuitError>)
        ensures
            config.num_routed_wires >= 130 && config.num_wires >= 137 ==> result is Ok,
            !(config.num_routed_wires >= 130 && config.num_wires >= 137) ==> result is Err
                && result->Err_0 == CircuitError::ConfigMismatch,
            result is Ok ==> result->Ok_0.wf() && result->Ok_0.data.common.config == *config
                && result->Ok_0.data.common.num_public_inputs == 4,
    {
        if config.num_routed_wires < 130 || config.num_wires < 137 {
            return Err(CircuitError::ConfigMismatch);
        }
        proof {
            vstd::arithmetic::power2::lemma2_to64();
        }
        let mut builder = CircuitBuilder::new(*config);
        let ships = add_ship_targets(&mut builder);
        let ghost b_ships = builder;
        let zero0 = builder.constant(0);
        let zero1 = builder.constant(0);
        let ghost b_zero = builder;
        let blank = decompose_board([zero0, zero1], &mut builder).unwrap();
        proof {
            let b = builder;
            assert forall|j: int| 0 <= j < 5 implies has_ship(b, #[trigger] ships@[j]) by {}
            assert forall|witness: Assignment, j: int|
                0 <= j < 5 && ships_supplied(witness, ships@) implies #[trigger] ship_reads(
                b,
                witness,
                ships@[j],
            ) by {
                assert(ship_reads(b_ships, witness, ships@[j]));
                assert(b.value(witness, ships@[j].0) == b_ships.value(witness, ships@[j].0));
                assert(b.value(witness, ships@[j].1) == b_ships.value(witness, ships@[j].1));
                assert(b.value(witness, ships@[j].2.target) == b_ships.value(
                    witness,
                    ships@[j].2.target,
                ));
            }
            assert forall|witness: Assignment, j: int| 0 <= j < 5 implies #[trigger] b.value(
                witness,
                ships@[j].2.target,
            ) <= 1 by {
                assert(b.value(witness, ships@[j].2.target) == b_ships.value(
                    witness,
                    ships@[j].2.target,
                ));
            }
            assert forall|witness: Assignment| #[trigger]
                b.satisfied(witness) == (ships_supplied(witness, ships@) && placeable(
                    fleet_of(witness, ships@).take(0),
                )) by {
                assert(fleet_of(witness, ships@).take(0) =~= Seq::<Placement>::empty());
            }
            assert forall|witness: Assignment, i: int|
                0 <= i < 128 && ships_supplied(witness, ships@) && placeable(
                    fleet_of(witness, ships@).take(0),
                ) implies #[trigger] b.value(witness, blank@[i]) == cover_count(
                fleet_of(witness, ships@).take(0),
                i,
            ) by {
                assert(fleet_of(witness, ships@).take(0) =~= Seq::<Placement>::empty());
                assert(b_zero.value(witness, zero0) == 0);
                assert(b_zero.value(witness, zero1) == 0);
                crate::packing::lemma_bit_of_zero((i % 64) as nat);
            }
            assert(stage_holds(b, blank@, ships@, 0));
        }
        let board_1 = place_next::<5>(ships[0], blank, &mut builder, Ghost(ships@), Ghost(0));
        let board_2 = place_next::<4>(ships[1], board_1, &mut builder, Ghost(ships@), Ghost(1));
        let board_3 = place_next::<3>(ships[2], board_2, &mut builder, Ghost(ships@), Ghost(2));
        let board_4 = place_next::<3>(ships[3], board_3, &mut builder, Ghost(ships@), Ghost(3));
        let board_5 = place_next::<2>(ships[4], board_4, &mut builder, Ghost(ships@), Ghost(4));
        let ghost b_placed = builder;
        let ghost wires = board_5@;
        let board = recompose_board(board_5, &mut builder).unwrap();
        let ghost b_packed = builder;
        let commitment = hash_board(board, &mut builder).unwrap();
        let ghost b_hashed = builder;
        let mut outputs: Vec<Target> = Vec::new();
        outputs.push(commitment.elements[0]);
        outputs.push(commitment.elements[1]);
        outputs.push(commitment.elements[2]);
        outputs.push(commitment.elements[3]);
        proof {
            assert(outputs@ =~= commitment.elements@);
        }
        builder.register_public_inputs(&outputs);
        let ghost b_final = builder;
        let data = builder.build();
        let circuit = BoardCircuit { data, ships, board, commitment };
        proof {
            assert(circuit.data.public_inputs@ =~= commitment.elements@);
            assert forall|witness: Assignment|
                #![trigger circuit.data.satisfied(witness)]
                #![trigger circuit.accepts(witness)]
                (circuit.data.satisfied(witness) == circuit.accepts(witness)) && (circuit.accepts(
                    witness,
                ) ==> circuit.data.value(witness, board[0]) == weighted_sum(
                    cover_digits(fleet_of(witness, ships@), 0),
                ) && circuit.data.value(witness, board[1]) == weighted_sum(
                    cover_digits(fleet_of(witness, ships@), 64),
                ) && forall|k: int|
                    0 <= k < 4 ==> #[trigger] circuit.data.value(witness, commitment.elements[k])
                        == witness[commitment.elements[k].index as int]) by {
                let fleet = fleet_of(witness, ships@);
                assert(fleet.take(5) =~= fleet);
                assert(circuit.data.satisfied(witness) == b_final.satisfied(witness));
                assert(b_hashed.satisfied(witness) == b_final.satisfied(witness));
                assert(b_packed.satisfied(witness) == b_placed.satisfied(witness));
                if circuit.accepts(witness) {
                    assert(b_placed.value_all(witness, wires.subrange(0, 64)) =~= cover_digits(
                        fleet,
                        0,
                    )) by {
                        assert forall|i: int| 0 <= i < 64 implies b_placed.value_all(
                            witness,
                            wires.subrange(0, 64),
                        )[i] == cover_digits(fleet, 0)[i] by {
                            assert(b_placed.value(witness, wires[i]) == cover_count(fleet, i));
                            crate::gadgets::fleet::lemma_count_zero(fleet, i);
                        }
                    }
                    assert(b_placed.value_all(witness, wires.subrange(64, 128)) =~= cover_digits(
                        fleet,
                        64,
                    )) by {
                        assert forall|i: int| 0 <= i < 64 implies b_placed.value_all(
                            witness,
                            wires.subrange(64, 128),
                        )[i] == cover_digits(fleet, 64)[i] by {
                            assert(b_placed.value(witness, wires[64 + i]) == cover_count(
                                fleet,
                                64 + i,
                            ));
                            crate::gadgets::fleet::lemma_count_zero(fleet, 64 + i);
                        }
                    }
                    assert(b_hashed.value(witness, board[0]) == b_packed.value(witness, board[0]));
                    assert(b_hashed.value(witness, board[1]) == b_packed.value(witness, board[1]));
                    assert(b_final.value(witness, board[0]) == b_hashed.value(witness, board[0]));
                    assert(b_final.value(witness, board[1]) == b_hashed.value(witness, board[1]));
                    assert(circuit.data.value(witness, board[0]) == b_final.value(
                        witness,
                        board[0],
                    ));
                    assert(circuit.data.value(witness, board[1]) == b_final.value(
                        witness,
                        board[1],
                    ));
                    assert forall|k: int| 0 <= k < 4 implies #[trigger] circuit.data.value(
                        witness,
                        commitment.elements[k],
                    ) == witness[commitment.elements[k].index as int] by {
                        assert(supplied(witness, commitment.elements@[k]));
                        assert(b_final.value(witness, commitment.elements[k]) == b_hashed.value(
                            witness,
                            commitment.elements[k],
                        ));
                        assert(circuit.data.value(witness, commitment.elements[k])
                            == b_final.value(witness, commitment.elements[k]));
                    }
                }
            }
        }
        Ok(circuit)
    }
}

/// A ship of a board as the circuit sees it.
pub open spec fn placement_for<const L: usize>(ship: Ship<L>) -> Placement {
    Placement { x: ship.x as u64, y: ship.y as u64, z: field_bool(ship.z), length: L }
}

/// The five ships of a board as the circuit sees them.
pub open spec fn board_fleet(board: Board) -> Seq<Placement> {
    seq![
        placement_for(board.carrier),
        placement_for(board.battleship),
        placement_for(board.cruiser),
        placement_for(board.submarine),
        placement_for(board.destroyer),
    ]
}

/// The circuit's view of a ship agrees with the ship: same cells, same
/// condition for lying on the grid.
pub proof fn lemma_placement_for<const L: usize>(ship: Ship<L>)
    requires
        0 < L <= 10,
    ensures
        placement_for(ship).fits() <==> ship.in_range(),
        forall|i: int| placement_for(ship).covers(i) <==> ship.occupies(i),
{
    let p = placement_for(ship);
    assert forall|k: int| cell_value(p.x, p.y, p.z, k) == #[trigger] ship.cell(k) by {}
    assert forall|i: int| p.covers(i) <==> ship.occupies(i) by {
        if p.covers(i) {
            let k = choose|k: int| 0 <= k < L && #[trigger] cell_value(p.x, p.y, p.z, k) == i;
            assert(ship.cell(k) == i);
        }
        if ship.occupies(i) {
            let k = choose|k: int| 0 <= k < L && #[trigger] ship.cell(k) == i;
            assert(cell_value(p.x, p.y, p.z, k) == i);
        }
    }
}

/// Two ships overlap exactly where the circuit's views of them do.
pub proof fn lemma_overlap_for<const A: usize, const B: usize>(a: Ship<A>, b: Ship<B>)
    requires
        0 < A <= 10,
        0 < B <= 10,
    ensures
        placements_overlap(placement_for(a), placement_for(b)) <==> ships_overlap(a, b),
{
    lemma_placement_for(a);
    lemma_placement_for(b);
    if placements_overlap(placement_for(a), placement_for(b)) {
        let i = choose|i: int| placement_for(a).covers(i) && placement_for(b).covers(i);
        assert(a.occupies(i) && b.occupies(i));
    }
    if ships_overlap(a, b) {
        let i = choose|i: int| a.occupies(i) && b.occupies(i);
        assert(placement_for(a).covers(i) && placement_for(b).covers(i));
    }
}

/// The ships of a board can be placed one after the other exactly where the
/// board is a legal placement.
pub proof fn lemma_placeable_is_valid(board: Board)
    ensures
        placeable(board_fleet(board)) <==> board.valid(),
{
    let fleet = board_fleet(board);
    let f1 = fleet.take(1);
    let f2 = fleet.take(2);
    let f3 = fleet.take(3);
    let f4 = fleet.take(4);
    assert(fleet.drop_last() =~= f4);
    assert(f4.drop_last() =~= f3);
    assert(f3.drop_last() =~= f2);
    assert(f2.drop_last() =~= f1);
    assert(f1.drop_last() =~= Seq::<Placement>::empty());
    lemma_placement_for(board.carrier);
    lemma_placement_for(board.battleship);
    lemma_placement_for(board.cruiser);
    lemma_placement_for(board.submarine);
    lemma_placement_for(board.destroyer);
    lemma_overlap_for(board.carrier, board.battleship);
    lemma_overlap_for(board.carrier, board.cruiser);
    lemma_overlap_for(board.battleship, board.cruiser);
    lemma_overlap_for(board.carrier, board.submarine);
    lemma_overlap_for(board.battleship, board.submarine);
    lemma_overlap_for(board.cruiser, board.submarine);
    lemma_overlap_for(board.carrier, board.destroyer);
    lemma_overlap_for(board.battleship, board.destroyer);
    lemma_overlap_for(board.cruiser, board.destroyer);
    lemma_overlap_for(board.submarine, board.destroyer);
    lemma_last_is_clear(f1);
    lemma_last_is_clear(f2);
    lemma_last_is_clear(f3);
    lemma_last_is_clear(f4);
    lemma_last_is_clear(fleet);
    assert(f2[0] == fleet[0]);
    assert(f3[0] == fleet[0] && f3[1] == fleet[1]);
    assert(f4[0] == fleet[0] && f4[1] == fleet[1] && f4[2] == fleet[2]);
    assert(f1.last() == fleet[0] && f2.last() == fleet[1] && f3.last() == fleet[2] && f4.last()
        == fleet[3] && fleet.last() == fleet[4]);
    assert(f2[1] == fleet[1] && f3[2] == fleet[2] && f4[3] == fleet[3]);
    assert(placeable(f1) <==> fleet[0].fits()) by {
        reveal_with_fuel(placeable, 2);
    }
    assert(placeable(f2) <==> placeable(f1) && fleet[1].fits() && last_is_clear(f2));
    assert(placeable(f3) <==> placeable(f2) && fleet[2].fits() && last_is_clear(f3));
    assert(placeable(f4) <==> placeable(f3) && fleet[3].fits() && last_is_clear(f4));
    assert(placeable(fleet) <==> placeable(f4) && fleet[4].fits() && last_is_clear(fleet));
}

/// `witness` with the values of `ship` assigned to the wires `target`.
pub open spec fn with_ship(witness: Assignment, target: ShipTarget, ship: (u8, u8, bool)) -> Assignment {
    witness.insert(target.0.index as int, ship.0 as u64).insert(
        target.1.index as int,
        ship.1 as u64,
    ).insert(target.2.target.index as int, field_bool(ship.2))
}

/// The witness that assigns the five ships of `board` to the wires `targets`.
pub open spec fn board_witness(targets: Seq<ShipTarget>, board: Board) -> Assignment {
    with_ship(
        with_ship(
            with_ship(
                with_ship(
                    with_ship(
                        Map::<int, u64>::empty(),
                        targets[0],
                        (board.carrier.x, board.carrier.y, board.carrier.z),
                    ),
                    targets[1],
                    (board.battleship.x, board.battleship.y, board.battleship.z),
                ),
                targets[2],
                (board.cruiser.x, board.cruiser.y, board.cruiser.z),
            ),
            targets[3],
            (board.submarine.x, board.submarine.y, board.submarine.z),
        ),
        targets[4],
        (board.destroyer.x, board.destroyer.y, board.destroyer.z),
    )
}

/// `witness` with the four elements of `commitment` assigned to the wires
/// `target`.
pub open spec fn with_commitment(
    witness: Assignment,
    target: HashOutTarget,
    commitment: Seq<u64>,
) -> Assignment {
    witness.insert(target.elements[0].index as int, commitment[0]).insert(
        target.elements[1].index as int,
        commitment[1],
    ).insert(target.elements[2].index as int, commitment[2]).insert(
        target.elements[3].index as int,
        commitment[3],
    )
}

/// Assigns the three values of a ship to its wires.
fn witness_ship(witness: &mut PartialWitness, target: ShipTarget, ship: (u8, u8, bool))
    ensures
        final(witness)@ == with_ship(old(witness)@, target, ship),
{
    witness.set_target(target.0, ship.0 as u64);
    witness.set_target(target.1, ship.1 as u64);
    witness.set_bool_target(target.2, ship.2);
}

impl BoardCircuit {
    /// The witness of the inner proof: the five ships of the board on the
    /// wires of the circuit.
    pub fn partial_witness_inner(targets: [ShipTarget; 5], board: Board) -> (result: Result<
        PartialWitness,
        CircuitError,
    >)
        ensures
            result is Ok,
            result->Ok_0@ == board_witness(targets@, board),
    {
        let mut witness = PartialWitness::new();
        witness_ship(&mut witness, targets[0], board.carrier.canonical());
        witness_ship(&mut witness, targets[1], board.battleship.canonical());
        witness_ship(&mut witness, targets[2], board.cruiser.canonical());
        witness_ship(&mut witness, targets[3], board.submarine.canonical());
        witness_ship(&mut witness, targets[4], board.destroyer.canonical());
        Ok(witness)
    }

    /// Adds the commitment to a witness: the digest is the prover's to
    /// supply.
    pub fn witness_commitment(
        witness: &mut PartialWitness,
        target: HashOutTarget,
        commitment: [u64; 4],
    )
        ensures
            final(witness)@ == with_commitment(old(witness)@, target, commitment@),
    {
        witness.set_target(target.elements[0], commitment[0]);
        witness.set_target(target.elements[1], commitment[1]);
        witness.set_target(target.elements[2], commitment[2]);
        witness.set_target(target.elements[3], commitment[3]);
    }

    /// The witness of the outer proof: the public inputs of the inner proof
    /// on the wires that stand for them. Fails where the proof has another
    /// number of public inputs than the wires expect.
    pub fn partial_witness_outer(inner: ProofTuple, targets: RecursiveTargets) -> (result: Result<
        PartialWitness,
        CircuitError,
    >)
        ensures
            inner.0.public_inputs@.len() != targets.proof.public_inputs@.len() ==> result is Err
                && result->Err_0 == CircuitError::InvalidProof,
            inner.0.public_inputs@.len() == targets.proof.public_inputs@.len() ==> result is Ok
                && result->Ok_0@ == assign_all(
                Map::<int, u64>::empty(),
                targets.proof.public_inputs@,
                inner.0.public_inputs@,
                inner.0.public_inputs@.len() as int,
            ),
    {
        if inner.0.public_inputs.len() != targets.proof.public_inputs.len() {
            return Err(CircuitError::InvalidProof);
        }
        let mut witness = PartialWitness::new();
        witness.set_proof_with_pis_target(&targets.proof, &inner.0);
        Ok(witness)
    }

    /// Under the witness of a board and a commitment, the circuit accepts
    /// exactly where the board is a legal placement and the commitment is
    /// made of field elements; the packed bitmap then carries the cover
    /// counts of the board.
    pub proof fn lemma_accepts_board(self, board: Board, commitment: Seq<u64>)
        requires
            self.wf(),
            commitment.len() == 4,
        ensures
            self.accepts(with_commitment(board_witness(self.ships@, board), self.commitment, commitment))
                <==> board.valid() && all_canonical(commitment),
            fleet_of(
                with_commitment(board_witness(self.ships@, board), self.commitment, commitment),
                self.ships@,
            ) == board_fleet(board),
            forall|k: int|
                0 <= k < 4 ==> with_commitment(
                    board_witness(self.ships@, board),
                    self.commitment,
                    commitment,
                )[self.commitment.elements[k].index as int] == #[trigger] commitment[k],
    {
        let w = with_commitment(board_witness(self.ships@, board), self.commitment, commitment);
        let ships = self.ships@;
        assert(ships[0] == self.ships[0] && ships[1] == self.ships[1] && ships[2] == self.ships[2]
            && ships[3] == self.ships[3] && ships[4] == self.ships[4]);
        assert(self.commitment.elements[1].index == self.commitment.elements[0].index + 1);
        assert(self.commitment.elements[2].index == self.commitment.elements[0].index + 2);
        assert(self.commitment.elements[3].index == self.commitment.elements[0].index + 3);
        assert(fleet_of(w, ships) =~= board_fleet(board));
        lemma_placeable_is_valid(board);
        assert(ships_supplied(w, ships)) by {
            assert forall|j: int| 0 <= j < 5 implies ship_supplied(w, #[trigger] ships[j]) by {}
        }
        if all_canonical(commitment) {
            assert forall|k: int| 0 <= k < 4 implies supplied(
                w,
                #[trigger] self.commitment.elements@[k],
            ) by {
                assert(is_canonical(commitment[k]));
            }
        }
        if supplied_all(w, self.commitment.elements@) {
            assert forall|k: int| 0 <= k < 4 implies is_canonical(#[trigger] commitment[k]) by {
                assert(supplied(w, self.commitment.elements@[k]));
            }
        }
    }
}

impl BoardCircuit {
    /// Lays out the board circuit under the configuration of the inner
    /// proof.
    pub fn new() -> (result: Result<BoardCircuit, CircuitError>)
        ensures
            result is Ok,
            result->Ok_0.wf(),
            result->Ok_0.data.common == (CommonCircuitData {
                config: CircuitConfig {
                    num_wires: 137,
                    num_routed_wires: 130,
                    zero_knowledge: false,
                },
                num_public_inputs: 4,
            }),
    {
        let config = BoardCircuit::config_inner().unwrap();
        BoardCircuit::build(&config)
    }

    /// Proves with this circuit that a board is a legal placement. The
    /// commitment the proof exposes is what `hasher` returns for the packed
    /// bitmap of the board. Fails, with an unsatisfied circuit, exactly
    /// where the board is no legal placement or the digest is not made of
    /// field elements.
    pub fn prove<H: Fn([u64; 2]) -> [u64; 4]>(&self, board: Board, hasher: H) -> (result: Result<
        ProofWithPublicInputs,
        CircuitError,
    >)
        requires
            self.wf(),
            forall|limbs: [u64; 2]| call_requires(hasher, (limbs,)),
        ensures
            result is Ok ==> board.valid() && exists|limbs: [u64; 2], digest: [u64; 4]|
                limbs@ == board.limbs() && call_ensures(hasher, (limbs,), digest)
                    && result->Ok_0.public_inputs@ == digest@,
            result is Ok ==> all_canonical(result->Ok_0.public_inputs@),
            result is Err ==> result->Err_0 == CircuitError::Unsatisfiable,
            board.valid() && (forall|limbs: [u64; 2], digest: [u64; 4]|
                call_ensures(hasher, (limbs,), digest) ==> all_canonical(digest@))
                ==> result is Ok,
    {
        let mut witness = BoardCircuit::partial_witness_inner(self.ships, board).unwrap();
        let valid = board.is_valid();
        let commitment: [u64; 4] = if valid {
            proof {
                board.lemma_valid_on_grid();
            }
            hasher(board.canonical())
        } else {
            [0u64; 4]
        };
        BoardCircuit::witness_commitment(&mut witness, self.commitment, commitment);
        proof {
            self.lemma_accepts_board(board, commitment@);
            let w = witness@;
            if self.accepts(w) {
                assert(self.data.outputs(w) =~= commitment@) by {
                    assert forall|k: int| 0 <= k < 4 implies self.data.outputs(w)[k]
                        == commitment@[k] by {
                        assert(self.data.value(w, self.commitment.elements[k])
                            == w[self.commitment.elements[k].index as int]);
                    }
                }
            }
        }
        self.data.prove(&witness)
    }

    /// Checks the shape of a proof of this circuit.
    pub fn verify(&self, proof: &ProofWithPublicInputs) -> (result: Result<(), CircuitError>)
        ensures
            result is Ok <==> proof.public_inputs@.len() == self.data.common.num_public_inputs
                && all_canonical(proof.public_inputs@),
            result is Err ==> result->Err_0 == CircuitError::InvalidProof,
    {
        self.data.verify(proof)
    }

    /// Proves that a board is a legal placement, under the configuration
    /// of the inner proof. See `prove`.
    pub fn prove_inner<H: Fn([u64; 2]) -> [u64; 4]>(board: Board, hasher: H) -> (result: Result<
        ProofTuple,
        CircuitError,
    >)
        requires
            forall|limbs: [u64; 2]| call_requires(hasher, (limbs,)),
        ensures
            result is Ok ==> board.valid() && exists|limbs: [u64; 2], digest: [u64; 4]|
                limbs@ == board.limbs() && call_ensures(hasher, (limbs,), digest)
                    && result->Ok_0.0.public_inputs@ == digest@,
            result is Ok ==> result->Ok_0.2 == (CommonCircuitData {
                config: CircuitConfig {
                    num_wires: 137,
                    num_routed_wires: 130,
                    zero_knowledge: false,
                },
                num_public_inputs: 4,
            }),
            result is Ok ==> proof_is_sound(result->Ok_0),
            result is Err ==> result->Err_0 == CircuitError::Unsatisfiable,
            board.valid() && (forall|limbs: [u64; 2], digest: [u64; 4]|
                call_ensures(hasher, (limbs,), digest) ==> all_canonical(digest@))
                ==> result is Ok,
    {
        let circuit = BoardCircuit::new().unwrap();
        let proof = circuit.prove(board, hasher)?;
        Ok((proof, circuit.data.verifier_only, circuit.data.common))
    }

    /// Proves that a board is a legal placement, under a configuration of
    /// the caller's choice. Fails with a configuration mismatch where that
    /// is too narrow for the circuit.
    pub fn inner<H: Fn([u64; 2]) -> [u64; 4]>(board: Board, config: &CircuitConfig,
        hasher: H) -> (result:
        Result<ProofTuple, CircuitError>)
        requires
            forall|limbs: [u64; 2]| call_requires(hasher, (limbs,)),
        ensures
            !(config.num_routed_wires >= 130 && config.num_wires >= 137) ==> result is Err
                && result->Err_0 == CircuitError::ConfigMismatch,
            result is Ok ==> board.valid() && exists|limbs: [u64; 2], digest: [u64; 4]|
                limbs@ == board.limbs() && call_ensures(hasher, (limbs,), digest)
                    && result->Ok_0.0.public_inputs@ == digest@,
            result is Ok ==> result->Ok_0.2 == (CommonCircuitData {
                config: *config,
                num_public_inputs: 4,
            }) && proof_is_sound(result->Ok_0),
            config.num_routed_wires >= 130 && config.num_wires >= 137 && result is Err
                ==> result->Err_0 == CircuitError::Unsatisfiable,
            config.num_routed_wires >= 130 && config.num_wires >= 137 && board.valid() && (forall|
                limbs: [u64; 2],
                digest: [u64; 4],
            |
                call_ensures(hasher, (limbs,), digest) ==> all_canonical(digest@))
                ==> result is Ok,
    {
        let circuit = BoardCircuit::build(config)?;
        let proof = circuit.prove(board, hasher)?;
        Ok((proof, circuit.data.verifier_only, circuit.data.common))
    }

    /// Wraps an inner proof in a proof that verifies it and exposes the same
    /// commitment, under a configuration of the caller's choice.
    pub fn outer(inner: &ProofTuple, config: &CircuitConfig) -> (result: Result<
        ProofTuple,
        CircuitError,
    >)
        ensures
            inner.0.public_inputs@.len() != inner.2.num_public_inputs ==> result is Err
                && result->Err_0 == CircuitError::InvalidProof,
            inner.0.public_inputs@.len() == inner.2.num_public_inputs && !all_canonical(
                inner.0.public_inputs@,
            ) ==> result is Err && result->Err_0 == CircuitError::Unsatisfiable,
            proof_is_sound(*inner) ==> result is Ok && result->Ok_0.0.public_inputs@
                == inner.0.public_inputs@ && result->Ok_0.2 == (CommonCircuitData {
                config: *config,
                num_public_inputs: inner.2.num_public_inputs,
            }),
            result is Ok ==> proof_is_sound(result->Ok_0),
    {
        shield(inner, *config)
    }

    /// Wraps an inner proof in the blinded outer proof, which exposes the
    /// same commitment.
    pub fn prove_outer(inner: ProofTuple) -> (result: Result<ProofTuple, CircuitError>)
        ensures
            inner.0.public_inputs@.len() != inner.2.num_public_inputs ==> result is Err
                && result->Err_0 == CircuitError::InvalidProof,
            inner.0.public_inputs@.len() == inner.2.num_public_inputs && !all_canonical(
                inner.0.public_inputs@,
            ) ==> result is Err && result->Err_0 == CircuitError::Unsatisfiable,
            proof_is_sound(inner) ==> result is Ok && result->Ok_0.0.public_inputs@
                == inner.0.public_inputs@ && result->Ok_0.2 == (CommonCircuitData {
                config: CircuitConfig {
                    num_wires: 135,
                    num_routed_wires: 80,
                    zero_knowledge: true,
                },
                num_public_inputs: inner.2.num_public_inputs,
            }),
            result is Ok ==> proof_is_sound(result->Ok_0),
    {
        let config = BoardCircuit::config_outer().unwrap();
        shield(&inner, config)
    }

    /// Reads the commitment out of the public inputs of a board proof.
    /// Fails where the proof does not have exactly four of them.
    pub fn decode_public(proof: ProofWithPublicInputs) -> (result: Result<
        BoardCircuitOutputs,
        CircuitError,
    >)
        ensures
            proof.public_inputs@.len() == 4 ==> result is Ok && result->Ok_0.commitment@
                == proof.public_inputs@,
            proof.public_inputs@.len() != 4 ==> result is Err && result->Err_0
                == CircuitError::InvalidProof,
    {
        if proof.public_inputs.len() != 4 {
            return Err(CircuitError::InvalidProof);
        }
        let commitment: [u64; 4] = [
            proof.public_inputs[0],
            proof.public_inputs[1],
            proof.public_inputs[2],
            proof.public_inputs[3],
        ];
        assert(commitment@ =~= proof.public_inputs@);
        Ok(BoardCircuitOutputs { commitment })
    }
}

/// The cover counts of a legal board are its bitmap: 1 on the occupied
/// cells, 0 on the others and beyond the grid.
pub proof fn lemma_counts_are_bitmap(board: Board, i: int)
    requires
        board.valid(),
    ensures
        cover_count(board_fleet(board), i) == if 0 <= i < 100 && board.bitmap()[i] {
            1nat
        } else {
            0nat
        },
{
    let fleet = board_fleet(board);
    lemma_placeable_is_valid(board);
    lemma_count_unit(fleet, i);
    lemma_placement_for(board.carrier);
    lemma_placement_for(board.battleship);
    lemma_placement_for(board.cruiser);
    lemma_placement_for(board.submarine);
    lemma_placement_for(board.destroyer);
    if board.occupied(i) {
        let t = crate::board::lemma_occupied_by_segment(board, i);
        assert(0 <= i < 100);
        assert(!cell_is_free(fleet, i)) by {
            if board.carrier.occupies(i) {
                assert(fleet[0].covers(i));
            } else if board.battleship.occupies(i) {
                assert(fleet[1].covers(i));
            } else if board.cruiser.occupies(i) {
                assert(fleet[2].covers(i));
            } else if board.submarine.occupies(i) {
                assert(fleet[3].covers(i));
            } else {
                assert(fleet[4].covers(i));
            }
        }
    } else {
        assert(cell_is_free(fleet, i)) by {
            assert forall|j: int| 0 <= j < fleet.len() implies !(#[trigger] fleet[j]).covers(i) by {
            }
        }
    }
}

impl BoardCircuit {
    /// Under the witness of a legal board, the wires of the packed bitmap
    /// carry the two words of `Board::limbs`: what is hashed in the circuit
    /// is what is hashed outside it.
    pub proof fn lemma_packed_wires(self, board: Board, commitment: Seq<u64>)
        requires
            self.wf(),
            commitment.len() == 4,
            board.valid(),
            all_canonical(commitment),
        ensures
            self.data.value(
                with_commitment(board_witness(self.ships@, board), self.commitment, commitment),
                self.board[0],
            ) == board.limbs()[0],
            self.data.value(
                with_commitment(board_witness(self.ships@, board), self.commitment, commitment),
                self.board[1],
            ) == board.limbs()[1],
    {
        let w = with_commitment(board_witness(self.ships@, board), self.commitment, commitment);
        let fleet = board_fleet(board);
        self.lemma_accepts_board(board, commitment);
        board.lemma_limbs_canonical();
        let low = board.bitmap().subrange(0, 64);
        let high = Seq::new(64, |i: int| 64 + i < 100 && board.bitmap()[64 + i]);
        assert(cover_digits(fleet, 0) =~= Seq::new(low.len(), |i: int| field_bool(low[i]))) by {
            assert forall|i: int| 0 <= i < 64 implies cover_digits(fleet, 0)[i] == field_bool(
                low[i],
            ) by {
                lemma_counts_are_bitmap(board, i);
            }
        }
        assert(cover_digits(fleet, 64) =~= Seq::new(high.len(), |i: int| field_bool(high[i]))) by {
            assert forall|i: int| 0 <= i < 64 implies cover_digits(fleet, 64)[i] == field_bool(
                high[i],
            ) by {
                lemma_counts_are_bitmap(board, 64 + i);
            }
        }
        lemma_le_value_padding(high, 36);
        assert(high.subrange(0, 36) =~= board.bitmap().subrange(64, 100));
        lemma_weighted_sum_bits(low);
        lemma_weighted_sum_bits(high);
    }
}

} // verus!
