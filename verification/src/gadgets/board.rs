use vstd::prelude::*;
use vstd::arithmetic::power2::lemma2_to64;
use crate::error::CircuitError;
use crate::field::{field_add, field_bool, field_mul, lemma_add_small, lemma_mul_small};
use crate::gadgets::range::less_than_10;
use crate::packing::bit_of;
use crate::plonk::circuit_builder::{
    copy_targets, supplied, supplied_all, CircuitBuilder, HashOutTarget,
};
use crate::plonk::gate::{lemma_select_bool, weighted_sum, Assignment, BoolTarget, Target};

verus! {

/// Splits the two words of a packed board into their 128 binary digits:
/// the 64 digits of the first word, lowest first, then those of the second.
pub fn decompose_board(board: [Target; 2], builder: &mut CircuitBuilder) -> (result: Result<
    Vec<Target>,
    CircuitError,
>)
    requires
        old(builder).wf(),
        old(builder).has(board[0]),
        old(builder).has(board[1]),
        old(builder).config.num_routed_wires > 64,
    ensures
        result is Ok,
        final(builder).wf(),
        final(builder).extends(*old(builder)),
        final(builder).public_inputs@ == old(builder).public_inputs@,
        final(builder).proofs@ == old(builder).proofs@,
        result->Ok_0@.len() == 128,
        final(builder).has_all(result->Ok_0@),
        forall|witness: Assignment| #[trigger]
            final(builder).satisfied(witness) == old(builder).satisfied(witness),
        forall|witness: Assignment, k: int|
            0 <= k < 128 ==> #[trigger] final(builder).value(witness, result->Ok_0@[k])
                == field_bool(
                bit_of(old(builder).value(witness, board[k / 64]) as nat, (k % 64) as nat),
            ),
{
    let ghost before = *builder;
    let front = builder.split_le_base(board[0], 64);
    let ghost middle = *builder;
    let back = builder.split_le_base(board[1], 64);
    let ghost front_digits = front@;
    let mut bits: Vec<Target> = front;
    let mut k: usize = 0;
    while k < 64
        invariant
            k <= 64,
            back@.len() == 64,
            bits@.len() == 64 + k,
            front_digits.len() == 64,
            forall|j: int| 0 <= j < 64 ==> #[trigger] bits@[j] == front_digits[j],
            forall|j: int| 64 <= j < 64 + k ==> #[trigger] bits@[j] == back@[j - 64],
        decreases 64 - k,
    {
        bits.push(back[k]);
        k += 1;
    }
    proof {
        lemma2_to64();
        assert forall|witness: Assignment, k: int| 0 <= k < 128 implies #[trigger] builder.value(
            witness,
            bits@[k],
        ) == field_bool(bit_of(before.value(witness, board[k / 64]) as nat, (k % 64) as nat)) by {
            if k < 64 {
                assert(bits@[k] == front_digits[k]);
                assert(middle.has(front_digits[k]));
                assert(builder.value(witness, front_digits[k])
                    == middle.value(witness, front_digits[k]));
            } else {
                assert(bits@[k] == back@[k - 64]);
                assert(middle.value(witness, board[1]) == before.value(witness, board[1]));
            }
        }
        assert forall|witness: Assignment| #[trigger]
            builder.satisfied(witness) == before.satisfied(witness) by {
            assert(middle.value(witness, board[1]) == before.value(witness, board[1]));
        }
        assert(builder.has_all(bits@)) by {
            assert forall|j: int| 0 <= j < bits@.len() implies (#[trigger] bits@[j]).index
                < builder.gates@.len() by {
                if j < 64 {
                    assert(bits@[j] == front_digits[j]);
                } else {
                    assert(bits@[j] == back@[j - 64]);
                }
            }
        }
    }
    Ok(bits)
}

/// The coordinate that is range-checked for the cell `offset` steps from the
/// head `(x, y)`: the row for a vertical ship, the column for a horizontal one.
pub open spec fn offset_coordinate(x: u64, y: u64, z: u64, offset: u64) -> u64 {
    if z == 1 {
        field_add(y, offset)
    } else {
        field_add(x, offset)
    }
}

/// The serialized index of the cell `offset` steps from the head `(x, y)`,
/// as the field computes it.
pub open spec fn offset_cell(x: u64, y: u64, z: u64, offset: u64) -> u64 {
    if z == 1 {
        field_add(x, field_mul(field_add(y, offset), 10))
    } else {
        field_add(field_add(x, offset), field_mul(y, 10))
    }
}

/// A ship of `length` cells with head `(x, y)` lies on the grid.
pub open spec fn placement_fits(x: u64, y: u64, z: u64, length: int) -> bool {
    &&& x < 10
    &&& y < 10
    &&& length > 0 ==> if z == 1 {
        y + length - 1 < 10
    } else {
        x + length - 1 < 10
    }
}

/// The serialized index of the cell `k` steps from the head `(x, y)`.
pub open spec fn cell_value(x: u64, y: u64, z: u64, k: int) -> int {
    if z == 1 {
        10 * (y + k) + x
    } else {
        10 * y + x + k
    }
}

/// On the grid the field computes cell indices without reduction.
pub proof fn lemma_offset_cell_small(x: u64, y: u64, z: u64, offset: u64)
    requires
        x < 10,
        y < 10,
        offset < 256,
    ensures
        offset_coordinate(x, y, z, offset) == if z == 1 {
            y + offset
        } else {
            x + offset
        },
        offset_cell(x, y, z, offset) == cell_value(x, y, z, offset as int),
{
    lemma_add_small(y, offset);
    lemma_add_small(x, offset);
    lemma_mul_small((y + offset) as u64, 10);
    lemma_mul_small(y, 10);
    lemma_add_small(x, (10 * (y + offset)) as u64);
    lemma_add_small((x + offset) as u64, (10 * y) as u64);
}

/// Lays out the serialized index of the cell `offset` steps from the head of
/// a ship, and constrains the coordinate that moves with the offset to
/// `0..10`.
pub fn generate_coordiante(
    x: Target,
    y: Target,
    z: BoolTarget,
    offset: usize,
    builder: &mut CircuitBuilder,
) -> (result: Result<Target, CircuitError>)
    requires
        old(builder).wf(),
        old(builder).has(x),
        old(builder).has(y),
        old(builder).has(z.target),
        offset < 256,
    ensures
        result is Ok,
        final(builder).wf(),
        final(builder).extends(*old(builder)),
        final(builder).has(result->Ok_0),
        final(builder).public_inputs@ == old(builder).public_inputs@,
        final(builder).proofs@ == old(builder).proofs@,
        forall|witness: Assignment|
            old(builder).value(witness, z.target) <= 1 ==> #[trigger] final(builder).satisfied(
                witness,
            ) == (old(builder).satisfied(witness) && offset_coordinate(
                old(builder).value(witness, x),
                old(builder).value(witness, y),
                old(builder).value(witness, z.target),
                offset as u64,
            ) < 10),
        forall|witness: Assignment|
            old(builder).value(witness, z.target) <= 1 ==> #[trigger] final(builder).value(
                witness,
                result->Ok_0,
            ) == offset_cell(
                old(builder).value(witness, x),
                old(builder).value(witness, y),
                old(builder).value(witness, z.target),
                offset as u64,
            ),
{
    let ghost b0 = *builder;
    let offset_t = builder.constant(offset as u64);
    let ten_t = builder.constant(10);
    let ghost b2 = *builder;
    let x_offset_t = builder.add(x, offset_t);
    let ghost b3 = *builder;
    let y_offset_t = builder.add(y, offset_t);
    let ghost b4 = *builder;
    let range_check_t = builder.select(z, y_offset_t, x_offset_t);
    let ghost b5 = *builder;
    less_than_10(range_check_t, builder)?;
    let ghost b6 = *builder;
    let x_t = builder.select(z, x, x_offset_t);
    let ghost b7 = *builder;
    let y_t = builder.select(z, y_offset_t, y);
    let ghost b8 = *builder;
    let y_serialized_t = builder.mul(y_t, ten_t);
    let ghost b9 = *builder;
    let cell = builder.add(x_t, y_serialized_t);
    proof {
        assert forall|witness: Assignment|
            #![trigger builder.satisfied(witness)]
            #![trigger builder.value(witness, cell)]
            b0.value(witness, z.target) <= 1 implies (builder.satisfied(witness) == (
        b0.satisfied(witness) && offset_coordinate(
            b0.value(witness, x),
            b0.value(witness, y),
            b0.value(witness, z.target),
            offset as u64,
        ) < 10)) && builder.value(witness, cell) == offset_cell(
            b0.value(witness, x),
            b0.value(witness, y),
            b0.value(witness, z.target),
            offset as u64,
        ) by {
            let vx = b0.value(witness, x);
            let vy = b0.value(witness, y);
            let vz = b0.value(witness, z.target);
            let off = offset as u64;
            b0.lemma_value_canonical(witness, x);
            b0.lemma_value_canonical(witness, y);
            // the operands keep their values while the gates are laid out
            assert(b2.value(witness, x) == vx && b2.value(witness, y) == vy);
            assert(b2.value(witness, offset_t) == off);
            assert(b2.value(witness, ten_t) == 10);
            assert(b3.value(witness, y) == vy && b3.value(witness, offset_t) == off);
            let xo = field_add(vx, off);
            let yo = field_add(vy, off);
            crate::field::lemma_results_canonical(vx, off);
            crate::field::lemma_results_canonical(vy, off);
            assert(b3.value(witness, x_offset_t) == xo);
            assert(b4.value(witness, y_offset_t) == yo);
            assert(b4.value(witness, x_offset_t) == xo);
            assert(b2.value(witness, z.target) == vz);
            assert(b3.value(witness, z.target) == vz);
            assert(b4.value(witness, z.target) == vz);
            lemma_select_bool(vz, yo, xo);
            assert(b5.value(witness, range_check_t) == offset_coordinate(vx, vy, vz, off));
            assert(b5.value(witness, z.target) == vz);
            assert(b6.value(witness, z.target) == vz);
            assert(b5.value(witness, x) == vx);
            assert(b4.value(witness, x) == vx);
            assert(b3.value(witness, x) == vx);
            assert(b6.value(witness, x) == vx);
            assert(b5.value(witness, x_offset_t) == xo);
            assert(b6.value(witness, x_offset_t) == xo);
            lemma_select_bool(vz, vx, xo);
            assert(b7.value(witness, x_t) == if vz == 1 { vx } else { xo });
            assert(b7.value(witness, z.target) == vz);
            assert(b5.value(witness, y_offset_t) == yo);
            assert(b6.value(witness, y_offset_t) == yo);
            assert(b7.value(witness, y_offset_t) == yo);
            assert(b4.value(witness, y) == vy);
            assert(b5.value(witness, y) == vy);
            assert(b6.value(witness, y) == vy);
            assert(b7.value(witness, y) == vy);
            lemma_select_bool(vz, yo, vy);
            assert(b8.value(witness, y_t) == if vz == 1 { yo } else { vy });
            assert(b3.value(witness, ten_t) == 10);
            assert(b4.value(witness, ten_t) == 10);
            assert(b5.value(witness, ten_t) == 10);
            assert(b6.value(witness, ten_t) == 10);
            assert(b7.value(witness, ten_t) == 10);
            assert(b8.value(witness, ten_t) == 10);
            assert(b8.value(witness, x_t) == b7.value(witness, x_t));
            assert(b9.value(witness, x_t) == b8.value(witness, x_t));
        }
    }
    Ok(cell)
}

/// Constrains the head of a ship to the grid and lays out the serialized
/// indices of its `L` cells, each with the range check of its own offset.
pub fn ship_to_coordinates<const L: usize>(
    ship: (Target, Target, BoolTarget),
    builder: &mut CircuitBuilder,
) -> (result: Result<[Target; L], CircuitError>)
    requires
        old(builder).wf(),
        old(builder).has(ship.0),
        old(builder).has(ship.1),
        old(builder).has(ship.2.target),
        L <= 256,
    ensures
        result is Ok,
        final(builder).wf(),
        final(builder).extends(*old(builder)),
        final(builder).public_inputs@ == old(builder).public_inputs@,
        final(builder).proofs@ == old(builder).proofs@,
        forall|k: int| 0 <= k < L ==> final(builder).has(#[trigger] result->Ok_0[k]),
        forall|witness: Assignment|
            old(builder).value(witness, ship.2.target) <= 1
                ==> #[trigger] final(builder).satisfied(witness)
                == (old(builder).satisfied(witness) && placement_fits(
                old(builder).value(witness, ship.0),
                old(builder).value(witness, ship.1),
                old(builder).value(witness, ship.2.target),
                L as int,
            )),
        forall|witness: Assignment, k: int|
            0 <= k < L && old(builder).value(witness, ship.2.target) <= 1 && old(builder).value(
                witness,
                ship.0,
            ) < 10 && old(builder).value(witness, ship.1) < 10
                ==> #[trigger] final(builder).value(witness, result->Ok_0[k]) == cell_value(
                old(builder).value(witness, ship.0),
                old(builder).value(witness, ship.1),
                old(builder).value(witness, ship.2.target),
                k,
            ),
{
    let (x, y, z) = ship;
    let ghost b0 = *builder;
    less_than_10(x, builder)?;
    let ghost b1 = *builder;
    less_than_10(y, builder)?;
    proof {
        assert forall|witness: Assignment| #[trigger]
            builder.satisfied(witness) == (b0.satisfied(witness) && b0.value(witness, x) < 10
                && b0.value(witness, y) < 10) by {
            assert(b1.value(witness, y) == b0.value(witness, y));
        }
    }
    let mut cells: [Target; L] = [x; L];
    let mut i: usize = 0;
    while i < L
        invariant
            i <= L <= 256,
            b0.wf(),
            b0.has(x),
            b0.has(y),
            b0.has(z.target),
            builder.wf(),
            builder.extends(b0),
            builder.public_inputs@ == b0.public_inputs@,
            builder.proofs@ == b0.proofs@,
            forall|k: int| 0 <= k < L ==> builder.has(#[trigger] cells[k]),
            forall|witness: Assignment|
                b0.value(witness, z.target) <= 1 ==> #[trigger] builder.satisfied(witness) == (
                b0.satisfied(witness) && placement_fits(
                    b0.value(witness, x),
                    b0.value(witness, y),
                    b0.value(witness, z.target),
                    i as int,
                )),
            forall|witness: Assignment, k: int|
                0 <= k < i && b0.value(witness, z.target) <= 1 && b0.value(witness, x) < 10
                    && b0.value(witness, y) < 10 ==> #[trigger] builder.value(
                    witness,
                    cells[k],
                ) == cell_value(
                    b0.value(witness, x),
                    b0.value(witness, y),
                    b0.value(witness, z.target),
                    k,
                ),
        decreases L - i,
    {
        let ghost previous = *builder;
        let ghost earlier = cells;
        let cell = generate_coordiante(x, y, z, i, builder)?;
        cells[i] = cell;
        proof {
            assert forall|k: int| 0 <= k < L implies builder.has(#[trigger] cells[k]) by {
                if k != i {
                    assert(cells[k] == earlier[k]);
                    assert(previous.has(earlier[k]));
                }
            }
            assert forall|witness: Assignment|
                b0.value(witness, z.target) <= 1 implies #[trigger] builder.satisfied(witness) == (
            b0.satisfied(witness) && placement_fits(
                b0.value(witness, x),
                b0.value(witness, y),
                b0.value(witness, z.target),
                i + 1,
            )) by {
                let vx = b0.value(witness, x);
                let vy = b0.value(witness, y);
                let vz = b0.value(witness, z.target);
                assert(previous.value(witness, x) == vx);
                assert(previous.value(witness, y) == vy);
                assert(previous.value(witness, z.target) == vz);
                if vx < 10 && vy < 10 {
                    lemma_offset_cell_small(vx, vy, vz, i as u64);
                }
            }
            assert forall|witness: Assignment, k: int|
                0 <= k < i + 1 && b0.value(witness, z.target) <= 1 && b0.value(witness, x) < 10
                    && b0.value(witness, y) < 10 implies #[trigger] builder.value(
                witness,
                cells[k],
            ) == cell_value(
                b0.value(witness, x),
                b0.value(witness, y),
                b0.value(witness, z.target),
                k,
            ) by {
                let vx = b0.value(witness, x);
                let vy = b0.value(witness, y);
                let vz = b0.value(witness, z.target);
                assert(previous.value(witness, x) == vx);
                assert(previous.value(witness, y) == vy);
                assert(previous.value(witness, z.target) == vz);
                if k < i {
                    assert(cells[k] == earlier[k]);
                    assert(previous.has(earlier[k]));
                    assert(builder.value(witness, earlier[k]) == previous.value(
                        witness,
                        earlier[k],
                    ));
                } else {
                    lemma_offset_cell_small(vx, vy, vz, i as u64);
                }
            }
        }
        i += 1;
    }
    Ok(cells)
}

/// Lays out a wire that carries 1 where `value` is one of `coordinates` and
/// 0 where it is none: the product of `coordinates[k] - value` over all `k`,
/// compared with zero.
pub fn interpolate_bitflip_bool<const L: usize>(
    value: Target,
    coordinates: [Target; L],
    builder: &mut CircuitBuilder,
) -> (result: Result<BoolTarget, CircuitError>)
    requires
        old(builder).wf(),
        old(builder).has(value),
        forall|k: int| 0 <= k < L ==> old(builder).has(#[trigger] coordinates[k]),
    ensures
        result is Ok,
        final(builder).wf(),
        final(builder).extends(*old(builder)),
        final(builder).has(result->Ok_0.target),
        final(builder).public_inputs@ == old(builder).public_inputs@,
        final(builder).proofs@ == old(builder).proofs@,
        forall|witness: Assignment| #[trigger]
            final(builder).satisfied(witness) == old(builder).satisfied(witness),
        forall|witness: Assignment| #[trigger]
            final(builder).value(witness, result->Ok_0.target) == field_bool(
                is_among(*old(builder), witness, value, coordinates@, L as int),
            ),
{
    let ghost b0 = *builder;
    let mut product = builder.constant(1);
    let mut i: usize = 0;
    while i < L
        invariant
            i <= L,
            b0.wf(),
            b0.has(value),
            forall|k: int| 0 <= k < L ==> b0.has(#[trigger] coordinates[k]),
            builder.wf(),
            builder.extends(b0),
            builder.has(product),
            builder.public_inputs@ == b0.public_inputs@,
            builder.proofs@ == b0.proofs@,
            forall|witness: Assignment| #[trigger]
                builder.satisfied(witness) == b0.satisfied(witness),
            forall|witness: Assignment| #[trigger]
                builder.value(witness, product) == 0 <==> is_among(
                    b0,
                    witness,
                    value,
                    coordinates@,
                    i as int,
                ),
        decreases L - i,
    {
        let ghost previous = *builder;
        let ghost running = product;
        let difference = builder.sub(coordinates[i], value);
        product = builder.mul(product, difference);
        proof {
            assert forall|witness: Assignment| #[trigger]
                builder.value(witness, product) == 0 <==> is_among(
                    b0,
                    witness,
                    value,
                    coordinates@,
                    i + 1,
                ) by {
                let v = b0.value(witness, value);
                let c = b0.value(witness, coordinates[i as int]);
                let r = previous.value(witness, running);
                assert(previous.value(witness, value) == v);
                assert(previous.value(witness, coordinates[i as int]) == c);
                b0.lemma_value_canonical(witness, value);
                b0.lemma_value_canonical(witness, coordinates[i as int]);
                previous.lemma_value_canonical(witness, running);
                crate::field::lemma_sub_zero(c, v);
                crate::field::lemma_mul_zero(r, crate::field::field_sub(c, v));
                if is_among(b0, witness, value, coordinates@, i as int) {
                    let k = choose|k: int|
                        0 <= k < i && b0.value(witness, #[trigger] coordinates@[k]) == v;
                    assert(0 <= k < i + 1);
                }
                if c == v {
                    assert(b0.value(witness, coordinates@[i as int]) == v);
                }
            }
        }
        i += 1;
    }
    let zero = builder.constant(0);
    let flag = builder.is_equal(product, zero);
    Ok(flag)
}

/// Under `witness`, one of the first `count` of `candidates` carries the
/// value that `value` carries.
pub open spec fn is_among(
    builder: CircuitBuilder,
    witness: Assignment,
    value: Target,
    candidates: Seq<Target>,
    count: int,
) -> bool {
    exists|k: int|
        0 <= k < count && builder.value(witness, #[trigger] candidates[k]) == builder.value(
            witness,
            value,
        )
}

/// Under `witness`, the cells of the ship with head `(x, y)` all carry zero
/// on `board`.
pub open spec fn cells_free(
    builder: CircuitBuilder,
    witness: Assignment,
    board: Seq<Target>,
    x: u64,
    y: u64,
    z: u64,
    length: int,
) -> bool {
    forall|k: int|
        0 <= k < length ==> builder.value(witness, board[#[trigger] cell_value(x, y, z, k)]) == 0
}

/// The ship with head `(x, y)` occupies the cell with serialized index `i`.
pub open spec fn ship_covers(x: u64, y: u64, z: u64, length: int, i: int) -> bool {
    exists|k: int| 0 <= k < length && #[trigger] cell_value(x, y, z, k) == i
}

/// The cells of a ship that lies on the grid are cells of the grid.
pub proof fn lemma_cells_on_grid(x: u64, y: u64, z: u64, length: int, k: int)
    requires
        placement_fits(x, y, z, length),
        0 <= k < length,
    ensures
        0 <= cell_value(x, y, z, k) < 100,
{
}

/// Constrains the board to carry zero at each of the given cells.
fn constrain_free<const L: usize>(
    cells: [Target; L],
    board: &Vec<Target>,
    builder: &mut CircuitBuilder,
    Ghost(b0): Ghost<CircuitBuilder>,
    Ghost(ship): Ghost<(Target, Target, BoolTarget)>,
)
    requires
        old(builder).wf(),
        b0.wf(),
        old(builder).extends(b0),
        b0.has(ship.0),
        b0.has(ship.1),
        b0.has(ship.2.target),
        board@.len() == 128,
        b0.has_all(board@),
        old(builder).config.admits_table(128, 7),
        forall|k: int| 0 <= k < L ==> old(builder).has(#[trigger] cells[k]),
        forall|witness: Assignment, k: int|
            0 <= k < L && b0.value(witness, ship.2.target) <= 1 && b0.value(witness, ship.0) < 10
                && b0.value(witness, ship.1) < 10 ==> #[trigger] old(builder).value(
                witness,
                cells[k],
            ) == cell_value(
                b0.value(witness, ship.0),
                b0.value(witness, ship.1),
                b0.value(witness, ship.2.target),
                k,
            ),
        forall|witness: Assignment|
            b0.value(witness, ship.2.target) <= 1 ==> #[trigger] old(builder).satisfied(witness)
                == (b0.satisfied(witness) && placement_fits(
                b0.value(witness, ship.0),
                b0.value(witness, ship.1),
                b0.value(witness, ship.2.target),
                L as int,
            )),
    ensures
        final(builder).wf(),
        final(builder).extends(*old(builder)),
        final(builder).public_inputs@ == old(builder).public_inputs@,
        final(builder).proofs@ == old(builder).proofs@,
        forall|witness: Assignment|
            b0.value(witness, ship.2.target) <= 1 ==> #[trigger] final(builder).satisfied(witness)
                == (b0.satisfied(witness) && placement_fits(
                b0.value(witness, ship.0),
                b0.value(witness, ship.1),
                b0.value(witness, ship.2.target),
                L as int,
            ) && cells_free(
                b0,
                witness,
                board@,
                b0.value(witness, ship.0),
                b0.value(witness, ship.1),
                b0.value(witness, ship.2.target),
                L as int,
            )),
{
    let ghost start = *builder;
    let zero = builder.constant(0);
    let mut k: usize = 0;
    while k < L
        invariant
            k <= L,
            b0.wf(),
            start.wf(),
            start.extends(b0),
            builder.wf(),
            builder.extends(start),
            builder.has(zero),
            builder.public_inputs@ == start.public_inputs@,
            builder.proofs@ == start.proofs@,
            b0.has(ship.0),
            b0.has(ship.1),
            b0.has(ship.2.target),
            board@.len() == 128,
            b0.has_all(board@),
            start.config.admits_table(128, 7),
            forall|j: int| 0 <= j < L ==> start.has(#[trigger] cells[j]),
            forall|witness: Assignment| #[trigger] builder.value(witness, zero) == 0,
            forall|witness: Assignment, j: int|
                0 <= j < L && b0.value(witness, ship.2.target) <= 1 && b0.value(witness, ship.0)
                    < 10 && b0.value(witness, ship.1) < 10 ==> #[trigger] start.value(
                    witness,
                    cells[j],
                ) == cell_value(
                    b0.value(witness, ship.0),
                    b0.value(witness, ship.1),
                    b0.value(witness, ship.2.target),
                    j,
                ),
            forall|witness: Assignment|
                b0.value(witness, ship.2.target) <= 1 ==> #[trigger] builder.satisfied(witness)
                    == (b0.satisfied(witness) && placement_fits(
                    b0.value(witness, ship.0),
                    b0.value(witness, ship.1),
                    b0.value(witness, ship.2.target),
                    L as int,
                ) && cells_free(
                    b0,
                    witness,
                    board@,
                    b0.value(witness, ship.0),
                    b0.value(witness, ship.1),
                    b0.value(witness, ship.2.target),
                    k as int,
                )),
        decreases L - k,
    {
        let ghost previous = *builder;
        let table = copy_targets(board);
        proof {
            assert(previous.has_all(table@)) by {
                assert forall|j: int| 0 <= j < table@.len() implies (#[trigger] table@[j]).index
                    < previous.gates@.len() by {
                    assert(b0.has(board@[j]));
                }
            }
            assert(previous.has(cells[k as int]));
        }
        let found = builder.random_access(cells[k], table);
        let ghost looked = *builder;
        builder.connect(found, zero);
        proof {
            assert forall|witness: Assignment|
                b0.value(witness, ship.2.target) <= 1 implies #[trigger] builder.satisfied(witness)
                == (b0.satisfied(witness) && placement_fits(
                b0.value(witness, ship.0),
                b0.value(witness, ship.1),
                b0.value(witness, ship.2.target),
                L as int,
            ) && cells_free(
                b0,
                witness,
                board@,
                b0.value(witness, ship.0),
                b0.value(witness, ship.1),
                b0.value(witness, ship.2.target),
                k + 1,
            )) by {
                let vx = b0.value(witness, ship.0);
                let vy = b0.value(witness, ship.1);
                let vz = b0.value(witness, ship.2.target);
                let free_before = cells_free(b0, witness, board@, vx, vy, vz, k as int);
                let free_after = cells_free(b0, witness, board@, vx, vy, vz, k + 1);
                if placement_fits(vx, vy, vz, L as int) {
                    lemma_cells_on_grid(vx, vy, vz, L as int, k as int);
                    let at = cell_value(vx, vy, vz, k as int);
                    assert(start.value(witness, cells[k as int]) == at);
                    assert(previous.value(witness, cells[k as int]) == at);
                    assert(b0.has(board@[at]));
                    assert(start.value(witness, board@[at]) == b0.value(witness, board@[at]));
                    assert(previous.value(witness, board@[at]) == start.value(
                        witness,
                        board@[at],
                    ));
                    assert(looked.value(witness, found) == b0.value(witness, board@[at]));
                    assert(looked.value(witness, zero) == 0);
                    if free_after {
                        assert(b0.value(witness, board@[cell_value(vx, vy, vz, k as int)]) == 0);
                    }
                    if free_before && b0.value(witness, board@[at]) == 0 {
                        assert(free_after);
                    }
                }
            }
        }
        k += 1;
    }
}

/// The value a board wire carries once a ship has been placed: one more
/// where the ship covers the cell, the same where it does not.
pub open spec fn placed_value(before: u64, covered: bool) -> u64 {
    if covered {
        field_add(before, 1)
    } else {
        before
    }
}

/// Lays out the board after the ship: each of the 100 cells goes up by one
/// where the ship covers it; the 28 wires of padding pass through.
fn flip_cells<const L: usize>(
    cells: [Target; L],
    board: &Vec<Target>,
    builder: &mut CircuitBuilder,
    Ghost(b0): Ghost<CircuitBuilder>,
    Ghost(ship): Ghost<(Target, Target, BoolTarget)>,
) -> (out: Vec<Target>)
    requires
        old(builder).wf(),
        b0.wf(),
        old(builder).extends(b0),
        b0.has(ship.0),
        b0.has(ship.1),
        b0.has(ship.2.target),
        board@.len() == 128,
        b0.has_all(board@),
        forall|k: int| 0 <= k < L ==> old(builder).has(#[trigger] cells[k]),
        forall|witness: Assignment, k: int|
            0 <= k < L && b0.value(witness, ship.2.target) <= 1 && b0.value(witness, ship.0) < 10
                && b0.value(witness, ship.1) < 10 ==> #[trigger] old(builder).value(
                witness,
                cells[k],
            ) == cell_value(
                b0.value(witness, ship.0),
                b0.value(witness, ship.1),
                b0.value(witness, ship.2.target),
                k,
            ),
    ensures
        final(builder).wf(),
        final(builder).extends(*old(builder)),
        final(builder).public_inputs@ == old(builder).public_inputs@,
        final(builder).proofs@ == old(builder).proofs@,
        out@.len() == 128,
        final(builder).has_all(out@),
        forall|witness: Assignment| #[trigger]
            final(builder).satisfied(witness) == old(builder).satisfied(witness),
        forall|witness: Assignment, i: int|
            0 <= i < 128 && b0.value(witness, ship.2.target) <= 1 && placement_fits(
                b0.value(witness, ship.0),
                b0.value(witness, ship.1),
                b0.value(witness, ship.2.target),
                L as int,
            ) ==> #[trigger] final(builder).value(witness, out@[i]) == placed_value(
                b0.value(witness, board@[i]),
                ship_covers(
                    b0.value(witness, ship.0),
                    b0.value(witness, ship.1),
                    b0.value(witness, ship.2.target),
                    L as int,
                    i,
                ),
            ),
{
    let ghost start = *builder;
    let one = builder.constant(1);
    let mut out: Vec<Target> = Vec::new();
    let mut i: usize = 0;
    while i < 128
        invariant
            i <= 128,
            b0.wf(),
            start.wf(),
            start.extends(b0),
            builder.wf(),
            builder.extends(start),
            builder.has(one),
            builder.public_inputs@ == start.public_inputs@,
            builder.proofs@ == start.proofs@,
            b0.has(ship.0),
            b0.has(ship.1),
            b0.has(ship.2.target),
            board@.len() == 128,
            b0.has_all(board@),
            out@.len() == i,
            builder.has_all(out@),
            forall|j: int| 0 <= j < L ==> start.has(#[trigger] cells[j]),
            forall|witness: Assignment| #[trigger] builder.value(witness, one) == 1,
            forall|witness: Assignment| #[trigger]
                builder.satisfied(witness) == start.satisfied(witness),
            forall|witness: Assignment, j: int|
                0 <= j < L && b0.value(witness, ship.2.target) <= 1 && b0.value(witness, ship.0)
                    < 10 && b0.value(witness, ship.1) < 10 ==> #[trigger] start.value(
                    witness,
                    cells[j],
                ) == cell_value(
                    b0.value(witness, ship.0),
                    b0.value(witness, ship.1),
                    b0.value(witness, ship.2.target),
                    j,
                ),
            forall|witness: Assignment, j: int|
                0 <= j < i && b0.value(witness, ship.2.target) <= 1 && placement_fits(
                    b0.value(witness, ship.0),
                    b0.value(witness, ship.1),
                    b0.value(witness, ship.2.target),
                    L as int,
                ) ==> #[trigger] builder.value(witness, out@[j]) == placed_value(
                    b0.value(witness, board@[j]),
                    ship_covers(
                        b0.value(witness, ship.0),
                        b0.value(witness, ship.1),
                        b0.value(witness, ship.2.target),
                        L as int,
                        j,
                    ),
                ),
        decreases 128 - i,
    {
        let ghost previous = *builder;
        let ghost earlier = out@;
        let cell = board[i];
        proof {
            assert(b0.has(board@[i as int]));
        }
        let next = if i < 100 {
            let index = builder.constant(i as u64);
            let ghost b1 = *builder;
            let flipped = builder.add(cell, one);
            let ghost b2 = *builder;
            proof {
                assert forall|k: int| 0 <= k < L implies b2.has(#[trigger] cells[k]) by {
                    assert(start.has(cells[k]));
                }
            }
            let should_flip = interpolate_bitflip_bool::<L>(index, cells, builder).unwrap();
            let ghost b3 = *builder;
            let chosen = builder.select(should_flip, flipped, cell);
            proof {
                assert forall|witness: Assignment|
                    b0.value(witness, ship.2.target) <= 1 && placement_fits(
                        b0.value(witness, ship.0),
                        b0.value(witness, ship.1),
                        b0.value(witness, ship.2.target),
                        L as int,
                    ) implies #[trigger] builder.value(witness, chosen) == placed_value(
                    b0.value(witness, board@[i as int]),
                    ship_covers(
                        b0.value(witness, ship.0),
                        b0.value(witness, ship.1),
                        b0.value(witness, ship.2.target),
                        L as int,
                        i as int,
                    ),
                ) by {
                    let vx = b0.value(witness, ship.0);
                    let vy = b0.value(witness, ship.1);
                    let vz = b0.value(witness, ship.2.target);
                    let old_value = b0.value(witness, cell);
                    b0.lemma_value_canonical(witness, cell);
                    crate::field::lemma_results_canonical(old_value, 1);
                    assert(start.value(witness, cell) == old_value);
                    assert(previous.value(witness, cell) == old_value);
                    assert(b1.value(witness, cell) == old_value);
                    assert(b1.value(witness, one) == 1);
                    assert(b2.value(witness, flipped) == field_add(old_value, 1));
                    assert(b3.value(witness, flipped) == field_add(old_value, 1));
                    assert(b2.value(witness, cell) == old_value);
                    assert(b3.value(witness, cell) == old_value);
                    assert(b2.value(witness, index) == i);
                    let among = is_among(b2, witness, index, cells@, L as int);
                    let covered = ship_covers(vx, vy, vz, L as int, i as int);
                    assert(among == covered) by {
                        assert forall|k: int| 0 <= k < L implies b2.value(
                            witness,
                            #[trigger] cells@[k],
                        ) == cell_value(vx, vy, vz, k) by {
                            assert(start.value(witness, cells[k]) == cell_value(vx, vy, vz, k));
                            assert(previous.value(witness, cells[k]) == start.value(
                                witness,
                                cells[k],
                            ));
                            assert(b1.value(witness, cells[k]) == previous.value(
                                witness,
                                cells[k],
                            ));
                            assert(b2.value(witness, cells[k]) == b1.value(witness, cells[k]));
                        }
                        if among {
                            let k = choose|k: int|
                                0 <= k < L && b2.value(witness, #[trigger] cells@[k]) == b2.value(
                                    witness,
                                    index,
                                );
                            assert(cell_value(vx, vy, vz, k) == i);
                        }
                        if covered {
                            let k = choose|k: int|
                                0 <= k < L && #[trigger] cell_value(vx, vy, vz, k) == i;
                            assert(b2.value(witness, cells@[k]) == b2.value(witness, index));
                        }
                    }
                    lemma_select_bool(field_bool(among), field_add(old_value, 1), old_value);
                }
            }
            chosen
        } else {
            proof {
                assert forall|witness: Assignment|
                    b0.value(witness, ship.2.target) <= 1 && placement_fits(
                        b0.value(witness, ship.0),
                        b0.value(witness, ship.1),
                        b0.value(witness, ship.2.target),
                        L as int,
                    ) implies #[trigger] builder.value(witness, cell) == placed_value(
                    b0.value(witness, board@[i as int]),
                    ship_covers(
                        b0.value(witness, ship.0),
                        b0.value(witness, ship.1),
                        b0.value(witness, ship.2.target),
                        L as int,
                        i as int,
                    ),
                ) by {
                    let vx = b0.value(witness, ship.0);
                    let vy = b0.value(witness, ship.1);
                    let vz = b0.value(witness, ship.2.target);
                    assert(start.value(witness, cell) == b0.value(witness, cell));
                    assert(builder.value(witness, cell) == start.value(witness, cell));
                    if ship_covers(vx, vy, vz, L as int, i as int) {
                        let k = choose|k: int|
                            0 <= k < L && #[trigger] cell_value(vx, vy, vz, k) == i;
                        lemma_cells_on_grid(vx, vy, vz, L as int, k);
                    }
                }
            }
            cell
        };
        out.push(next);
        proof {
            assert(builder.has_all(out@)) by {
                assert forall|j: int| 0 <= j < out@.len() implies (#[trigger] out@[j]).index
                    < builder.gates@.len() by {
                    if j < i {
                        assert(out@[j] == earlier[j]);
                        assert(previous.has(earlier[j]));
                    }
                }
            }
            assert forall|witness: Assignment, j: int|
                0 <= j < i + 1 && b0.value(witness, ship.2.target) <= 1 && placement_fits(
                    b0.value(witness, ship.0),
                    b0.value(witness, ship.1),
                    b0.value(witness, ship.2.target),
                    L as int,
                ) implies #[trigger] builder.value(witness, out@[j]) == placed_value(
                b0.value(witness, board@[j]),
                ship_covers(
                    b0.value(witness, ship.0),
                    b0.value(witness, ship.1),
                    b0.value(witness, ship.2.target),
                    L as int,
                    j,
                ),
            ) by {
                if j < i {
                    assert(out@[j] == earlier[j]);
                    assert(previous.has(earlier[j]));
                    assert(builder.value(witness, earlier[j]) == previous.value(
                        witness,
                        earlier[j],
                    ));
                } else {
                    assert(out@[j] == next);
                }
            }
        }
        i += 1;
    }
    out
}

/// Places a ship on a board: constrains the ship to lie on the grid and its
/// cells to be free, and lays out the board with those cells raised by one.
pub fn place_ship<const L: usize>(
    ship: (Target, Target, BoolTarget),
    board: Vec<Target>,
    builder: &mut CircuitBuilder,
) -> (result: Result<Vec<Target>, CircuitError>)
    requires
        old(builder).wf(),
        old(builder).has(ship.0),
        old(builder).has(ship.1),
        old(builder).has(ship.2.target),
        board@.len() == 128,
        old(builder).has_all(board@),
        old(builder).config.admits_table(128, 7),
        L <= 256,
    ensures
        result is Ok,
        final(builder).wf(),
        final(builder).extends(*old(builder)),
        final(builder).public_inputs@ == old(builder).public_inputs@,
        final(builder).proofs@ == old(builder).proofs@,
        result->Ok_0@.len() == 128,
        final(builder).has_all(result->Ok_0@),
        forall|witness: Assignment|
            old(builder).value(witness, ship.2.target) <= 1
                ==> #[trigger] final(builder).satisfied(witness)
                == (old(builder).satisfied(witness) && placement_fits(
                old(builder).value(witness, ship.0),
                old(builder).value(witness, ship.1),
                old(builder).value(witness, ship.2.target),
                L as int,
            ) && cells_free(
                *old(builder),
                witness,
                board@,
                old(builder).value(witness, ship.0),
                old(builder).value(witness, ship.1),
                old(builder).value(witness, ship.2.target),
                L as int,
            )),
        forall|witness: Assignment, i: int|
            0 <= i < 128 && old(builder).value(witness, ship.2.target) <= 1 && placement_fits(
                old(builder).value(witness, ship.0),
                old(builder).value(witness, ship.1),
                old(builder).value(witness, ship.2.target),
                L as int,
            ) ==> #[trigger] final(builder).value(witness, result->Ok_0@[i]) == placed_value(
                old(builder).value(witness, board@[i]),
                ship_covers(
                    old(builder).value(witness, ship.0),
                    old(builder).value(witness, ship.1),
                    old(builder).value(witness, ship.2.target),
                    L as int,
                    i,
                ),
            ),
{
    let ghost b0 = *builder;
    let cells = ship_to_coordinates::<L>(ship, builder)?;
    constrain_free::<L>(cells, &board, builder, Ghost(b0), Ghost(ship));
    let ghost b2 = *builder;
    let out = flip_cells::<L>(cells, &board, builder, Ghost(b0), Ghost(ship));
    Ok(out)
}

/// Sums the first 64 board wires into one word and the other 64 into a
/// second, each as a little-endian binary number in the field.
pub fn recompose_board(board: Vec<Target>, builder: &mut CircuitBuilder) -> (result: Result<
    [Target; 2],
    CircuitError,
>)
    requires
        old(builder).wf(),
        board@.len() == 128,
        old(builder).has_all(board@),
    ensures
        result is Ok,
        final(builder).wf(),
        final(builder).extends(*old(builder)),
        final(builder).public_inputs@ == old(builder).public_inputs@,
        final(builder).proofs@ == old(builder).proofs@,
        final(builder).has(result->Ok_0[0]),
        final(builder).has(result->Ok_0[1]),
        forall|witness: Assignment| #[trigger]
            final(builder).satisfied(witness) == old(builder).satisfied(witness),
        forall|witness: Assignment| #[trigger]
            final(builder).value(witness, result->Ok_0[0]) == weighted_sum(
                old(builder).value_all(witness, board@.subrange(0, 64)),
            ),
        forall|witness: Assignment| #[trigger]
            final(builder).value(witness, result->Ok_0[1]) == weighted_sum(
                old(builder).value_all(witness, board@.subrange(64, 128)),
            ),
{
    let ghost b0 = *builder;
    let low = copy_range(&board, 0, 64);
    let high = copy_range(&board, 64, 128);
    let front = builder.le_sum(low);
    let ghost b1 = *builder;
    proof {
        assert(b1.has_all(high@)) by {
            assert forall|j: int| 0 <= j < high@.len() implies (#[trigger] high@[j]).index
                < b1.gates@.len() by {
                assert(b0.has(board@[64 + j]));
            }
        }
    }
    let back = builder.le_sum(high);
    proof {
        assert forall|witness: Assignment| #[trigger]
            builder.value(witness, back) == weighted_sum(
                b0.value_all(witness, board@.subrange(64, 128)),
            ) by {
            assert(b1.value_all(witness, high@) =~= b0.value_all(witness, high@)) by {
                assert forall|j: int| 0 <= j < 64 implies b1.value_all(witness, high@)[j]
                    == b0.value_all(witness, high@)[j] by {
                    assert(b0.has(board@[64 + j]));
                    assert(b1.value(witness, high@[j]) == b0.value(witness, high@[j]));
                }
            }
        }
    }
    Ok([front, back])
}

/// The part of `targets` from `from` up to `to`.
fn copy_range(targets: &Vec<Target>, from: usize, to: usize) -> (part: Vec<Target>)
    requires
        from <= to <= targets@.len(),
    ensures
        part@ == targets@.subrange(from as int, to as int),
{
    let mut part: Vec<Target> = Vec::new();
    let mut k: usize = from;
    while k < to
        invariant
            from <= k <= to <= targets@.len(),
            part@ == targets@.subrange(from as int, k as int),
        decreases to - k,
    {
        part.push(targets[k]);
        k += 1;
        proof {
            assert(part@ == targets@.subrange(from as int, k as int));
        }
    }
    part
}

/// Lays out the commitment to a packed board: the digest of its two words.
pub fn hash_board(board: [Target; 2], builder: &mut CircuitBuilder) -> (result: Result<
    HashOutTarget,
    CircuitError,
>)
    requires
        old(builder).wf(),
        old(builder).has(board[0]),
        old(builder).has(board[1]),
    ensures
        result is Ok,
        final(builder).wf(),
        final(builder).extends(*old(builder)),
        final(builder).public_inputs@ == old(builder).public_inputs@,
        final(builder).proofs@ == old(builder).proofs@,
        final(builder).gates@.len() == old(builder).gates@.len() + 4,
        final(builder).has_all(result->Ok_0.elements@),
        forall|k: int|
            0 <= k < 4 ==> (#[trigger] result->Ok_0.elements[k]).index == old(builder).gates@.len() + k,
        forall|witness: Assignment| #[trigger]
            final(builder).satisfied(witness) == (old(builder).satisfied(witness)
                && supplied_all(witness, result->Ok_0.elements@)),
        forall|witness: Assignment, k: int|
            0 <= k < 4 && supplied(witness, result->Ok_0.elements[k])
                ==> #[trigger] final(builder).value(witness, result->Ok_0.elements[k])
                == witness[result->Ok_0.elements[k].index as int],
{
    let mut inputs: Vec<Target> = Vec::new();
    inputs.push(board[0]);
    inputs.push(board[1]);
    let digest = builder.hash_n_to_hash_no_pad(inputs);
    Ok(digest)
}

} // verus!
