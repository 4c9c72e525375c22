use vstd::prelude::*;
use crate::field::lemma_add_small;
use crate::gadgets::board::{
    cell_value, cells_free, lemma_cells_on_grid, placed_value, placement_fits, ship_covers,
};
use crate::plonk::circuit_builder::CircuitBuilder;
use crate::plonk::gate::{Assignment, Target};

verus! {

/// A ship as the circuit sees it: the values of its three wires and its
/// length.
pub struct Placement {
    pub x: u64,
    pub y: u64,
    pub z: u64,
    pub length: usize,
}

impl Placement {
    /// The ship occupies the cell with serialized index `i`.
    pub open spec fn covers(self, i: int) -> bool {
        ship_covers(self.x, self.y, self.z, self.length as int, i)
    }

    /// The ship lies on the grid.
    pub open spec fn fits(self) -> bool {
        self.z <= 1 && placement_fits(self.x, self.y, self.z, self.length as int)
    }
}

/// The number of the given ships that occupy the cell with index `i`.
pub open spec fn cover_count(fleet: Seq<Placement>, i: int) -> nat
    decreases fleet.len(),
{
    if fleet.len() == 0 {
        0
    } else {
        cover_count(fleet.drop_last(), i) + if fleet.last().covers(i) {
            1nat
        } else {
            0nat
        }
    }
}

/// None of the ships of the fleet occupies the cell `i`.
pub open spec fn cell_is_free(fleet: Seq<Placement>, i: int) -> bool {
    forall|j: int| 0 <= j < fleet.len() ==> !(#[trigger] fleet[j]).covers(i)
}

/// The last ship of the fleet occupies no cell that an earlier one occupies.
pub open spec fn last_is_clear(fleet: Seq<Placement>) -> bool {
    forall|k: int|
        0 <= k < fleet.last().length ==> cell_is_free(
            fleet.drop_last(),
            #[trigger] cell_value(fleet.last().x, fleet.last().y, fleet.last().z, k),
        )
}

/// The ships can be placed one after the other: each lies on the grid and
/// occupies no cell that an earlier one occupies.
pub open spec fn placeable(fleet: Seq<Placement>) -> bool
    decreases fleet.len(),
{
    if fleet.len() == 0 {
        true
    } else {
        &&& placeable(fleet.drop_last())
        &&& fleet.last().fits()
        &&& last_is_clear(fleet)
    }
}

/// A cell that no ship occupies has count zero, and the other way round.
pub proof fn lemma_count_zero(fleet: Seq<Placement>, i: int)
    ensures
        cover_count(fleet, i) == 0 <==> cell_is_free(fleet, i),
        cover_count(fleet, i) <= fleet.len(),
    decreases fleet.len(),
{
    if fleet.len() > 0 {
        let front = fleet.drop_last();
        lemma_count_zero(front, i);
        if cell_is_free(fleet, i) {
            assert forall|j: int| 0 <= j < front.len() implies !(#[trigger] front[j]).covers(
                i,
            ) by {
                assert(front[j] == fleet[j]);
            }
            assert(!fleet[fleet.len() - 1].covers(i));
        }
        if cell_is_free(front, i) && !fleet.last().covers(i) {
            assert forall|j: int| 0 <= j < fleet.len() implies !(#[trigger] fleet[j]).covers(
                i,
            ) by {
                if j < front.len() {
                    assert(front[j] == fleet[j]);
                }
            }
        }
    }
}

/// One step of laying a fleet out: if the board wires carry the cover
/// counts of the ships placed so far, and the next ship is placed by
/// constraining its cells to zero and raising them by one, then the
/// constraints say that the longer fleet is placeable and the new board
/// wires carry its cover counts.
pub proof fn lemma_place_step(
    prev: CircuitBuilder,
    next: CircuitBuilder,
    witness: Assignment,
    board_prev: Seq<Target>,
    board_next: Seq<Target>,
    fleet: Seq<Placement>,
    ship: Placement,
    given: bool,
)
    requires
        fleet.len() < 16,
        board_prev.len() == 128,
        board_next.len() == 128,
        ship.z <= 1,
        prev.satisfied(witness) == (given && placeable(fleet)),
        placeable(fleet) ==> forall|i: int|
            0 <= i < 128 ==> prev.value(witness, #[trigger] board_prev[i]) == cover_count(
                fleet,
                i,
            ),
        next.satisfied(witness) == (prev.satisfied(witness) && placement_fits(
            ship.x,
            ship.y,
            ship.z,
            ship.length as int,
        ) && cells_free(prev, witness, board_prev, ship.x, ship.y, ship.z, ship.length as int)),
        placement_fits(ship.x, ship.y, ship.z, ship.length as int) ==> forall|i: int|
            0 <= i < 128 ==> next.value(witness, #[trigger] board_next[i]) == placed_value(
                prev.value(witness, board_prev[i]),
                ship_covers(ship.x, ship.y, ship.z, ship.length as int, i),
            ),
    ensures
        next.satisfied(witness) == (given && placeable(fleet.push(ship))),
        placeable(fleet.push(ship)) ==> forall|i: int|
            0 <= i < 128 ==> next.value(witness, #[trigger] board_next[i]) == cover_count(
                fleet.push(ship),
                i,
            ),
{
    let longer = fleet.push(ship);
    assert(longer.drop_last() =~= fleet);
    assert(longer.last() == ship);
    if placeable(fleet) && ship.fits() {
        // the cells are free on the wires exactly where they are free of ships
        let free = cells_free(prev, witness, board_prev, ship.x, ship.y, ship.z, ship.length as int);
        assert(free == last_is_clear(longer)) by {
            if free {
                assert forall|k: int| 0 <= k < ship.length implies cell_is_free(
                    fleet,
                    #[trigger] cell_value(ship.x, ship.y, ship.z, k),
                ) by {
                    let at = cell_value(ship.x, ship.y, ship.z, k);
                    lemma_cells_on_grid(ship.x, ship.y, ship.z, ship.length as int, k);
                    assert(prev.value(witness, board_prev[at]) == cover_count(fleet, at));
                    lemma_count_zero(fleet, at);
                }
            }
            if last_is_clear(longer) {
                assert forall|k: int| 0 <= k < ship.length implies prev.value(
                    witness,
                    board_prev[#[trigger] cell_value(ship.x, ship.y, ship.z, k)],
                ) == 0 by {
                    let at = cell_value(ship.x, ship.y, ship.z, k);
                    lemma_cells_on_grid(ship.x, ship.y, ship.z, ship.length as int, k);
                    assert(prev.value(witness, board_prev[at]) == cover_count(fleet, at));
                    lemma_count_zero(fleet, at);
                }
            }
        }
    }
    if placeable(longer) {
        assert forall|i: int| 0 <= i < 128 implies next.value(witness, #[trigger] board_next[i])
            == cover_count(longer, i) by {
            lemma_count_zero(fleet, i);
            assert(prev.value(witness, board_prev[i]) == cover_count(fleet, i));
            lemma_add_small(cover_count(fleet, i) as u64, 1);
        }
    }
}

/// Two ships occupy a common cell.
pub open spec fn placements_overlap(a: Placement, b: Placement) -> bool {
    exists|i: int| a.covers(i) && b.covers(i)
}

/// The last ship of a fleet is clear of the earlier ones exactly where it
/// overlaps none of them.
pub proof fn lemma_last_is_clear(fleet: Seq<Placement>)
    requires
        fleet.len() > 0,
    ensures
        last_is_clear(fleet) <==> forall|j: int|
            0 <= j < fleet.len() - 1 ==> !placements_overlap(#[trigger] fleet[j], fleet.last()),
{
    let ship = fleet.last();
    let front = fleet.drop_last();
    if last_is_clear(fleet) {
        assert forall|j: int| 0 <= j < fleet.len() - 1 implies !placements_overlap(
            #[trigger] fleet[j],
            ship,
        ) by {
            if placements_overlap(fleet[j], ship) {
                let i = choose|i: int| fleet[j].covers(i) && ship.covers(i);
                let k = choose|k: int|
                    0 <= k < ship.length && #[trigger] cell_value(ship.x, ship.y, ship.z, k) == i;
                assert(cell_is_free(front, cell_value(ship.x, ship.y, ship.z, k)));
                assert(front[j] == fleet[j]);
            }
        }
    }
    if forall|j: int| 0 <= j < fleet.len() - 1 ==> !placements_overlap(#[trigger] fleet[j], ship) {
        assert forall|k: int| 0 <= k < ship.length implies cell_is_free(
            front,
            #[trigger] cell_value(ship.x, ship.y, ship.z, k),
        ) by {
            let i = cell_value(ship.x, ship.y, ship.z, k);
            assert(ship.covers(i));
            assert forall|j: int| 0 <= j < front.len() implies !(#[trigger] front[j]).covers(i) by {
                assert(front[j] == fleet[j]);
                assert(!placements_overlap(fleet[j], ship));
            }
        }
    }
}

/// On a placeable fleet every cell is occupied by at most one ship.
pub proof fn lemma_count_unit(fleet: Seq<Placement>, i: int)
    requires
        placeable(fleet),
    ensures
        cover_count(fleet, i) == if cell_is_free(fleet, i) {
            0nat
        } else {
            1nat
        },
    decreases fleet.len(),
{
    lemma_count_zero(fleet, i);
    if fleet.len() > 0 {
        let front = fleet.drop_last();
        let ship = fleet.last();
        lemma_count_unit(front, i);
        lemma_count_zero(front, i);
        if ship.covers(i) {
            let k = choose|k: int|
                0 <= k < ship.length && #[trigger] cell_value(ship.x, ship.y, ship.z, k) == i;
            assert(cell_is_free(front, cell_value(ship.x, ship.y, ship.z, k)));
        }
    }
}

} // verus!
