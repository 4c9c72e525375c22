use std::collections::HashMap;
use vstd::prelude::*;
use vstd::std_specs::hash::group_hash_axioms;
use crate::plonk::circuit_builder::ProofWithPublicInputsTarget;
use crate::plonk::circuit_data::ProofWithPublicInputs;
use crate::plonk::gate::{Assignment, BoolTarget, Target};

verus! {

/// The values a prover assigns to some wires of a circuit before proving.
pub struct PartialWitness {
    pub target_values: HashMap<usize, u64>,
}

impl View for PartialWitness {
    type V = Assignment;

    open spec fn view(&self) -> Assignment {
        Map::new(
            |i: int| 0 <= i <= usize::MAX && self.target_values@.contains_key(i as usize),
            |i: int| self.target_values@[i as usize],
        )
    }
}

impl PartialWitness {
    /// A witness that assigns nothing.
    pub fn new() -> (witness: Self)
        ensures
            witness@ == Map::<int, u64>::empty(),
    {
        let witness = PartialWitness { target_values: HashMap::new() };
        assert(witness@ =~= Map::<int, u64>::empty());
        witness
    }

    /// Assigns `value` to `target`, in place of what was assigned to it.
    pub fn set_target(&mut self, target: Target, value: u64)
        ensures
            final(self)@ == old(self)@.insert(target.index as int, value),
    {
        broadcast use group_hash_axioms;

        let _ = self.target_values.insert(target.index, value);
        assert(self@ =~= old(self)@.insert(target.index as int, value));
    }

    /// Assigns 1 for `true` and 0 for `false` to `target`.
    pub fn set_bool_target(&mut self, target: BoolTarget, value: bool)
        ensures
            final(self)@ == old(self)@.insert(
                target.target.index as int,
                crate::field::field_bool(value),
            ),
    {
        self.set_target(target.target, if value { 1 } else { 0 });
    }

    /// The value assigned to the wire with the given index, if any.
    pub fn get(&self, index: usize) -> (value: Option<u64>)
        ensures
            value == if self@.contains_key(index as int) {
                Some(self@[index as int])
            } else {
                None
            },
    {
        broadcast use group_hash_axioms;

        match self.target_values.get(&index) {
            Some(value) => Some(*value),
            None => None,
        }
    }
}

/// `witness` with the first `count` of `values` assigned to the first
/// `count` of `targets`, in their order.
pub open spec fn assign_all(
    witness: Assignment,
    targets: Seq<Target>,
    values: Seq<u64>,
    count: int,
) -> Assignment
    decreases count,
{
    if count <= 0 {
        witness
    } else {
        assign_all(witness, targets, values, count - 1).insert(
            targets[count - 1].index as int,
            values[count - 1],
        )
    }
}

impl PartialWitness {
    /// Assigns the public inputs of `proof` to the wires that stand for
    /// them.
    pub fn set_proof_with_pis_target(
        &mut self,
        target: &ProofWithPublicInputsTarget,
        proof: &ProofWithPublicInputs,
    )
        requires
            target.public_inputs@.len() == proof.public_inputs@.len(),
        ensures
            final(self)@ == assign_all(
                old(self)@,
                target.public_inputs@,
                proof.public_inputs@,
                proof.public_inputs@.len() as int,
            ),
    {
        let mut k: usize = 0;
        while k < proof.public_inputs.len()
            invariant
                k <= proof.public_inputs@.len(),
                target.public_inputs@.len() == proof.public_inputs@.len(),
                self@ == assign_all(
                    old(self)@,
                    target.public_inputs@,
                    proof.public_inputs@,
                    k as int,
                ),
            decreases proof.public_inputs@.len() - k,
        {
            self.set_target(target.public_inputs[k], proof.public_inputs[k]);
            k += 1;
        }
    }
}

/// Assigning to wires that follow one another: each gets its value, and
/// the other wires keep theirs.
pub proof fn lemma_assign_all(
    witness: Assignment,
    targets: Seq<Target>,
    values: Seq<u64>,
    count: int,
    base: int,
    i: int,
)
    requires
        0 <= count <= targets.len(),
        count <= values.len(),
        forall|k: int| 0 <= k < count ==> (#[trigger] targets[k]).index == base + k,
    ensures
        base <= i < base + count ==> assign_all(witness, targets, values, count).contains_key(i)
            && assign_all(witness, targets, values, count)[i] == values[i - base],
        !(base <= i < base + count) ==> assign_all(witness, targets, values, count).contains_key(i)
            == witness.contains_key(i) && assign_all(witness, targets, values, count)[i]
            == witness[i],
    decreases count,
{
    if count > 0 {
        lemma_assign_all(witness, targets, values, count - 1, base, i);
        assert(targets[count - 1].index == base + count - 1);
    }
}

} // verus!
