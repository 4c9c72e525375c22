use vstd::prelude::*;
use crate::error::CircuitError;
use crate::field::{field_bool, lemma_add_small, lemma_mul_small};
use crate::gadgets::board::decompose_board;
use crate::gadgets::range::less_than_10;
use crate::packing::bit_of;
use crate::plonk::circuit_builder::CircuitBuilder;
use crate::plonk::gate::{Assignment, Target};

verus! {

/// Constrains both coordinates of a shot to `0..10` and lays out its
/// serialized index `10 * y + x`.
pub fn serialize_shot(x: Target, y: Target, builder: &mut CircuitBuilder) -> (result: Result<
    Target,
    CircuitError,
>)
    requires
        old(builder).wf(),
        old(builder).has(x),
        old(builder).has(y),
    ensures
        result is Ok,
        final(builder).wf(),
        final(builder).extends(*old(builder)),
        final(builder).has(result->Ok_0),
        final(builder).public_inputs@ == old(builder).public_inputs@,
        final(builder).proofs@ == old(builder).proofs@,
        forall|witness: Assignment| #[trigger]
            final(builder).satisfied(witness) == (old(builder).satisfied(witness)
                && old(builder).value(witness, x) < 10 && old(builder).value(witness, y) < 10),
        forall|witness: Assignment|
            old(builder).value(witness, x) < 10 && old(builder).value(witness, y) < 10
                ==> #[trigger] final(builder).value(witness, result->Ok_0)
                    == 10 * old(builder).value(witness, y) + old(builder).value(witness, x),
{
    let ghost before = *builder;
    less_than_10(x, builder)?;
    let ghost first = *builder;
    less_than_10(y, builder)?;
    let ghost second = *builder;
    let ten = builder.constant(10);
    let ghost third = *builder;
    let y_serialized = builder.mul(y, ten);
    let ghost fourth = *builder;
    let serialized = builder.add(x, y_serialized);
    proof {
        assert forall|witness: Assignment| #[trigger]
            builder.satisfied(witness) == (before.satisfied(witness) && before.value(witness, x)
                < 10 && before.value(witness, y) < 10) by {
            assert(first.value(witness, y) == before.value(witness, y));
        }
        assert forall|witness: Assignment|
            before.value(witness, x) < 10 && before.value(witness, y) < 10 implies #[trigger]
            builder.value(witness, serialized) == 10 * before.value(witness, y) + before.value(
            witness,
            x,
        ) by {
            let vx = before.value(witness, x);
            let vy = before.value(witness, y);
            assert(first.value(witness, y) == vy);
            assert(second.value(witness, y) == vy);
            assert(third.value(witness, y) == vy);
            assert(first.value(witness, x) == vx);
            assert(second.value(witness, x) == vx);
            assert(third.value(witness, x) == vx);
            assert(fourth.value(witness, x) == vx);
            lemma_mul_small(vy, 10);
            lemma_add_small(vx, (10 * vy) as u64);
        }
    }
    Ok(serialized)
}

/// Looks the serialized shot up in the digits of the packed board. The
/// result carries 1 where the cell is occupied and 0 where it is not.
pub fn check_hit(board: [Target; 2], shot: Target, builder: &mut CircuitBuilder) -> (result: Result<
    Target,
    CircuitError,
>)
    requires
        old(builder).wf(),
        old(builder).has(board[0]),
        old(builder).has(board[1]),
        old(builder).has(shot),
        old(builder).config.admits_table(128, 7),
    ensures
        result is Ok,
        final(builder).wf(),
        final(builder).extends(*old(builder)),
        final(builder).has(result->Ok_0),
        final(builder).public_inputs@ == old(builder).public_inputs@,
        final(builder).proofs@ == old(builder).proofs@,
        forall|witness: Assignment| #[trigger]
            final(builder).satisfied(witness) == (old(builder).satisfied(witness)
                && old(builder).value(witness, shot) < 128),
        forall|witness: Assignment|
            old(builder).value(witness, shot) < 128 ==> #[trigger] final(builder).value(
                witness,
                result->Ok_0,
            ) == field_bool(
                bit_of(
                    old(builder).value(witness, board[old(builder).value(witness, shot) as int / 64])
                        as nat,
                    (old(builder).value(witness, shot) % 64) as nat,
                ),
            ),
{
    let ghost before = *builder;
    let bits = decompose_board(board, builder)?;
    let ghost middle = *builder;
    let ghost digits = bits@;
    let hit = builder.random_access(shot, bits);
    proof {
        assert forall|witness: Assignment| #[trigger]
            builder.satisfied(witness) == (before.satisfied(witness) && before.value(
                witness,
                shot,
            ) < 128) by {
            assert(middle.value(witness, shot) == before.value(witness, shot));
        }
        assert forall|witness: Assignment| before.value(witness, shot) < 128 implies #[trigger]
            builder.value(witness, hit) == field_bool(
            bit_of(
                before.value(witness, board[before.value(witness, shot) as int / 64]) as nat,
                (before.value(witness, shot) % 64) as nat,
            ),
        ) by {
            let s = before.value(witness, shot);
            assert(middle.value(witness, shot) == s);
            assert(middle.value(witness, digits[s as int]) == field_bool(
                bit_of(before.value(witness, board[s as int / 64]) as nat, (s as int % 64) as nat),
            ));
        }
    }
    Ok(hit)
}

} // verus!
