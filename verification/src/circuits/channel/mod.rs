use vstd::prelude::*;
use crate::circuits::{all_canonical, ProofTuple, RecursiveTargets};
use crate::field::{field_add, field_bool, is_canonical, ORDER};
use crate::plonk::circuit_builder::CircuitBuilder;
use crate::plonk::gate::{Assignment, BoolTarget, Target};

pub mod close_channel;
pub mod increment_channel;
pub mod open_channel;

verus! {

/// The wires of a circuit that carry the state of a channel, read off the
/// public inputs of the state proof the circuit verifies.
pub struct GameTargets {
    pub prev_proof: RecursiveTargets,
    /// The commitment to the board of the host.
    pub host: [Target; 4],
    /// The commitment to the board of the guest.
    pub guest: [Target; 4],
    /// The number of hits on the board of the host.
    pub host_damage: Target,
    /// The number of hits on the board of the guest.
    pub guest_damage: Target,
    /// Whose board the next shot is checked against: the host's where the
    /// wire carries 0, the guest's where it carries 1.
    pub turn: BoolTarget,
    /// The serialized shot that the next increment has to check.
    pub shot: Target,
}

/// The state of a channel as a proof exposes it.
#[derive(Clone, Copy, Debug)]
pub struct GameState {
    pub host: [u64; 4],
    pub guest: [u64; 4],
    pub host_damage: u8,
    pub guest_damage: u8,
    pub turn: bool,
    pub shot: u8,
}

/// The state of a channel as field elements: the two commitments, the two
/// damage counters, the turn and the serialized shot to check next.
pub struct PublicState {
    pub host: Seq<u64>,
    pub guest: Seq<u64>,
    pub host_damage: u64,
    pub guest_damage: u64,
    pub turn: u64,
    pub shot: u64,
}

/// The state that the public inputs of a state proof stand for. A proof
/// with nine public inputs opens a channel: nothing is hit yet, and the
/// first shot is checked against the board of the host.
pub open spec fn decoded_state(inputs: Seq<u64>) -> PublicState {
    if inputs.len() == 9 {
        PublicState {
            host: inputs.subrange(0, 4),
            guest: inputs.subrange(4, 8),
            host_damage: 0,
            guest_damage: 0,
            turn: 0,
            shot: inputs[8],
        }
    } else {
        PublicState {
            host: inputs.subrange(0, 4),
            guest: inputs.subrange(4, 8),
            host_damage: inputs[8],
            guest_damage: inputs[9],
            turn: inputs[10],
            shot: inputs[11],
        }
    }
}

/// The public inputs that a state stands for, in their fixed order.
pub open spec fn encoded_state(state: PublicState) -> Seq<u64> {
    state.host + state.guest + seq![
        state.host_damage,
        state.guest_damage,
        state.turn,
        state.shot,
    ]
}

impl GameTargets {
    /// The state that the wires carry under `witness`.
    pub open spec fn state(&self, builder: CircuitBuilder, witness: Assignment) -> PublicState {
        PublicState {
            host: builder.value_all(witness, self.host@),
            guest: builder.value_all(witness, self.guest@),
            host_damage: builder.value(witness, self.host_damage),
            guest_damage: builder.value(witness, self.guest_damage),
            turn: builder.value(witness, self.turn.target),
            shot: builder.value(witness, self.shot),
        }
    }

    /// All the wires are wires of the circuit.
    pub open spec fn within(&self, builder: CircuitBuilder) -> bool {
        &&& builder.has_all(self.prev_proof.proof.public_inputs@)
        &&& builder.has_all(self.host@)
        &&& builder.has_all(self.guest@)
        &&& builder.has(self.host_damage)
        &&& builder.has(self.guest_damage)
        &&& builder.has(self.turn.target)
        &&& builder.has(self.shot)
    }
}

/// The state after an increment: the commitments stay, the board that the
/// turn points at takes the hit, the turn changes sides, and the next shot
/// is announced.
pub open spec fn incremented(prev: PublicState, hit: u64, next_shot: u64) -> PublicState {
    PublicState {
        host: prev.host,
        guest: prev.guest,
        host_damage: if prev.turn == 1 {
            prev.host_damage
        } else {
            field_add(prev.host_damage, hit)
        },
        guest_damage: if prev.turn == 1 {
            field_add(prev.guest_damage, hit)
        } else {
            prev.guest_damage
        },
        turn: field_bool(prev.turn == 0),
        shot: next_shot,
    }
}

/// An increment is allowed: the shot proof was made against the board that
/// the turn points at, for the shot that the state announced, and the next
/// shot lies on the grid.
pub open spec fn increment_allowed(prev: PublicState, shot: Seq<u64>, x: u64, y: u64) -> bool {
    &&& shot.subrange(2, 6) == if prev.turn == 1 {
        prev.guest
    } else {
        prev.host
    }
    &&& shot[0] == prev.shot
    &&& x < 10
    &&& y < 10
}

/// The public inputs are those of a state proof: nine or twelve field
/// elements, with a turn of 0 or 1.
pub open spec fn state_is_sound(inputs: Seq<u64>) -> bool {
    &&& inputs.len() == 9 || inputs.len() == 12
    &&& all_canonical(inputs)
    &&& decoded_state(inputs).turn <= 1
}

/// The public inputs are those of a shot proof: six field elements, with a
/// hit flag of 0 or 1.
pub open spec fn shot_is_sound(inputs: Seq<u64>) -> bool {
    &&& inputs.len() == 6
    &&& all_canonical(inputs)
    &&& inputs[1] <= 1
}

/// Tells whether all of `values` are canonical field elements.
pub fn are_canonical(values: &Vec<u64>) -> (ok: bool)
    ensures
        ok == all_canonical(values@),
{
    let mut k: usize = 0;
    while k < values.len()
        invariant
            k <= values.len(),
            forall|j: int| 0 <= j < k ==> is_canonical(#[trigger] values@[j]),
        decreases values.len() - k,
    {
        if values[k] >= ORDER {
            return false;
        }
        k += 1;
    }
    true
}

impl GameTargets {
    /// The state wires carry the same state in a continuation of the
    /// circuit.
    pub proof fn lemma_state_kept(
        &self,
        after: CircuitBuilder,
        before: CircuitBuilder,
        witness: Assignment,
    )
        requires
            after.extends(before),
            self.within(before),
        ensures
            self.state(after, witness) == self.state(before, witness),
            self.within(after),
    {
        after.lemma_values_kept(before, witness, self.host@);
        after.lemma_values_kept(before, witness, self.guest@);
        after.lemma_values_kept(before, witness, self.prev_proof.proof.public_inputs@);
        assert(after.value(witness, self.host_damage) == before.value(witness, self.host_damage));
        assert(after.value(witness, self.guest_damage) == before.value(
            witness,
            self.guest_damage,
        ));
        assert(after.value(witness, self.turn.target) == before.value(witness, self.turn.target));
        assert(after.value(witness, self.shot) == before.value(witness, self.shot));
    }
}

/// A state proof has the public inputs that its shape announces, and they
/// are those of a state proof.
pub open spec fn state_proof_is_sound(proof: ProofTuple) -> bool {
    proof.0.public_inputs@.len() == proof.2.num_public_inputs && state_is_sound(
        proof.0.public_inputs@,
    )
}

/// A shot proof has the public inputs that its shape announces, and they
/// are those of a shot proof.
pub open spec fn shot_proof_is_sound(proof: ProofTuple) -> bool {
    proof.0.public_inputs@.len() == proof.2.num_public_inputs && shot_is_sound(
        proof.0.public_inputs@,
    )
}

/// Tells whether a proof can be a state proof.
pub fn is_state_proof(proof: &ProofTuple) -> (ok: bool)
    ensures
        ok == state_proof_is_sound(*proof),
{
    let count = proof.0.public_inputs.len();
    if count != proof.2.num_public_inputs || (count != 9 && count != 12) {
        return false;
    }
    if !are_canonical(&proof.0.public_inputs) {
        return false;
    }
    count == 9 || proof.0.public_inputs[10] <= 1
}

/// Tells whether a proof can be a shot proof.
pub fn is_shot_proof(proof: &ProofTuple) -> (ok: bool)
    ensures
        ok == shot_proof_is_sound(*proof),
{
    let count = proof.0.public_inputs.len();
    if count != proof.2.num_public_inputs || count != 6 {
        return false;
    }
    if !are_canonical(&proof.0.public_inputs) {
        return false;
    }
    proof.0.public_inputs[1] <= 1
}

/// The turn changes sides with every increment.
pub proof fn lemma_turn_alternates(prev: PublicState, hit: u64, next_shot: u64)
    requires
        prev.turn <= 1,
    ensures
        incremented(prev, hit, next_shot).turn <= 1,
        (incremented(prev, hit, next_shot).turn == 1) == !(prev.turn == 1),
{
}

/// An increment raises exactly one damage counter, that of the board the
/// turn points at, by exactly the hit flag; the other counter stays. The
/// counters are field elements: the one before the last of them is left
/// out, where adding 1 wraps around.
pub proof fn lemma_damage_step(prev: PublicState, hit: u64, next_shot: u64)
    requires
        prev.turn <= 1,
        hit <= 1,
        prev.host_damage < ORDER - 1,
        prev.guest_damage < ORDER - 1,
    ensures
        prev.turn == 0 ==> incremented(prev, hit, next_shot).host_damage == prev.host_damage + hit
            && incremented(prev, hit, next_shot).guest_damage == prev.guest_damage,
        prev.turn == 1 ==> incremented(prev, hit, next_shot).guest_damage == prev.guest_damage
            + hit && incremented(prev, hit, next_shot).host_damage == prev.host_damage,
        incremented(prev, hit, next_shot).host_damage >= prev.host_damage,
        incremented(prev, hit, next_shot).guest_damage >= prev.guest_damage,
{
    crate::field::lemma_add_small(prev.host_damage, hit);
    crate::field::lemma_add_small(prev.guest_damage, hit);
}

/// The state after a chain of increments, each given by its hit flag and
/// the shot it announces.
pub open spec fn run(state: PublicState, steps: Seq<(u64, u64)>) -> PublicState
    decreases steps.len(),
{
    if steps.len() == 0 {
        state
    } else {
        incremented(run(state, steps.drop_last()), steps.last().0, steps.last().1)
    }
}

/// Across any chain of increments neither damage counter goes down, and
/// together they go up by the number of hits at most. The chain has to be
/// short enough for the counters not to wrap around the field.
pub proof fn lemma_damage_chain(state: PublicState, steps: Seq<(u64, u64)>)
    requires
        state.turn <= 1,
        forall|k: int| 0 <= k < steps.len() ==> (#[trigger] steps[k]).0 <= 1,
        state.host_damage + steps.len() < ORDER - 1,
        state.guest_damage + steps.len() < ORDER - 1,
    ensures
        run(state, steps).turn <= 1,
        run(state, steps).host_damage >= state.host_damage,
        run(state, steps).guest_damage >= state.guest_damage,
        run(state, steps).host_damage + run(state, steps).guest_damage <= state.host_damage
            + state.guest_damage + steps.len(),
        run(state, steps).host == state.host,
        run(state, steps).guest == state.guest,
    decreases steps.len(),
{
    if steps.len() > 0 {
        let front = steps.drop_last();
        lemma_damage_chain(state, front);
        let before = run(state, front);
        assert(steps.last() == steps[steps.len() - 1]);
        lemma_damage_step(before, steps.last().0, steps.last().1);
        lemma_turn_alternates(before, steps.last().0, steps.last().1);
    }
}

/// A shot proof against another commitment than the one the turn points
/// at does not allow an increment, and neither does one for another shot
/// than the one the state announced.
pub proof fn lemma_mismatch_refused(prev: PublicState, shot: Seq<u64>, x: u64, y: u64)
    requires
        shot.subrange(2, 6) != (if prev.turn == 1 {
            prev.guest
        } else {
            prev.host
        }) || shot[0] != prev.shot,
    ensures
        !increment_allowed(prev, shot, x, y),
{
}

} // verus!
