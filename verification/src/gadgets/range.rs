use vstd::prelude::*;
use crate::error::CircuitError;
use crate::field::{lemma_mul_zero, lemma_sub_zero};
use crate::plonk::circuit_builder::CircuitBuilder;
use crate::plonk::gate::{Assignment, Target};

verus! {

/// Constrains `value` to lie in `0..10`: lays out the product of
/// `i - value` over the ten `i` of that range and constrains it to zero.
pub fn less_than_10(value: Target, builder: &mut CircuitBuilder) -> (result: Result<
    (),
    CircuitError,
>)
    requires
        old(builder).wf(),
        old(builder).has(value),
    ensures
        result is Ok,
        final(builder).wf(),
        final(builder).extends(*old(builder)),
        final(builder).public_inputs@ == old(builder).public_inputs@,
        final(builder).proofs@ == old(builder).proofs@,
        forall|witness: Assignment| #[trigger]
            final(builder).satisfied(witness) == (old(builder).satisfied(witness)
                && old(builder).value(witness, value) < 10),
{
    let ghost before = *builder;
    let mut product = builder.constant(1);
    let mut i: u64 = 0;
    while i < 10
        invariant
            i <= 10,
            before.wf(),
            before.has(value),
            builder.wf(),
            builder.extends(before),
            builder.has(product),
            builder.public_inputs@ == before.public_inputs@,
            builder.proofs@ == before.proofs@,
            forall|witness: Assignment| #[trigger]
                builder.satisfied(witness) == before.satisfied(witness),
            forall|witness: Assignment| #[trigger]
                builder.value(witness, product) == 0 <==> before.value(witness, value) < i,
        decreases 10 - i,
    {
        let ghost previous = *builder;
        let ghost running = product;
        let candidate = builder.constant(i);
        let difference = builder.sub(candidate, value);
        product = builder.mul(product, difference);
        proof {
            assert forall|witness: Assignment| #[trigger]
                builder.value(witness, product) == 0 <==> before.value(witness, value) < i
                    + 1 by {
                let v = before.value(witness, value);
                let r = previous.value(witness, running);
                before.lemma_value_canonical(witness, value);
                previous.lemma_value_canonical(witness, running);
                lemma_sub_zero(i, v);
                lemma_mul_zero(r, crate::field::field_sub(i, v));
            }
        }
        i += 1;
    }
    let zero = builder.constant(0);
    builder.connect(product, zero);
    Ok(())
}

} // verus!
