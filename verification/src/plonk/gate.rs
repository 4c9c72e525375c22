use vstd::prelude::*;
use vstd::arithmetic::power2::pow2;
use crate::field::{
    field_add, field_bool, field_mul, field_sub, is_canonical, lemma_results_canonical, ORDER,
};
use crate::packing::{bit_of, le_value, lemma_le_value_first};

verus! {

/// A wire of a circuit, named by the position of its driving gate.
#[derive(Clone, Copy, Debug, PartialEq, Eq, Structural)]
pub struct Target {
    pub index: usize,
}

/// A wire that is meant to carry 0 or 1.
#[derive(Clone, Copy, Debug, PartialEq, Eq, Structural)]
pub struct BoolTarget {
    pub target: Target,
}

/// One step of a circuit. Every gate drives exactly one wire, whose index is
/// that gate's position; a gate that only constrains drives a wire that is
/// always zero.
#[derive(Debug)]
pub enum Gate {
    /// A wire whose value the witness supplies.
    Virtual,
    /// A witness wire constrained to 0 or 1.
    VirtualBool,
    /// A fixed field element.
    Constant { value: u64 },
    Add { left: Target, right: Target },
    Sub { left: Target, right: Target },
    Mul { left: Target, right: Target },
    /// `condition * when_true - (condition * when_false - when_false)`:
    /// `when_true` if the condition is 1, `when_false` if it is 0.
    Select { condition: Target, when_true: Target, when_false: Target },
    /// 1 if the two wires agree, 0 if not.
    IsEqual { left: Target, right: Target },
    /// Constrains two wires to agree.
    Connect { left: Target, right: Target },
    /// The entry of `table` at the position the `index` wire holds;
    /// constrains that position to lie within the table.
    RandomAccess { index: Target, table: Vec<Target> },
    /// The binary digit of `source` at `position`; constrains `source` to
    /// have no digit at or above `width`.
    Bit { source: Target, position: usize, width: usize },
    /// The sum of `bits[i] * 2^i`, computed in the field.
    LeSum { bits: Vec<Target> },
    /// Element `element` of the four-element sponge digest of `inputs`. The
    /// permutation is not modelled: the witness supplies the value.
    Digest { inputs: Vec<Target>, element: usize },
    /// Public input `element` of the proof verified in slot `proof`. The
    /// witness supplies the value.
    ProofInput { proof: usize, element: usize },
}

/// An assignment of values to the witness wires of a circuit.
pub type Assignment = Map<int, u64>;

/// The value `Select` drives.
pub open spec fn select_value(condition: u64, when_true: u64, when_false: u64) -> u64 {
    field_sub(
        field_mul(condition, when_true),
        field_sub(field_mul(condition, when_false), when_false),
    )
}

/// The value `LeSum` drives for the given digits, lowest first.
pub open spec fn weighted_sum(digits: Seq<u64>) -> u64
    decreases digits.len(),
{
    if digits.len() == 0 {
        0
    } else {
        field_add(digits[0], field_mul(2, weighted_sum(digits.drop_first())))
    }
}

/// The values of the given wires.
pub open spec fn read_all(wires: Seq<Target>, prior: Seq<u64>) -> Seq<u64> {
    Seq::new(wires.len(), |k: int| prior[wires[k].index as int])
}

/// All the given wires come before `position`.
pub open spec fn all_before(wires: Seq<Target>, position: int) -> bool {
    forall|k: int| 0 <= k < wires.len() ==> (#[trigger] wires[k]).index < position
}

impl Gate {
    /// This gate reads only wires before `position`.
    pub open spec fn well_formed(self, position: int) -> bool {
        match self {
            Gate::Virtual | Gate::VirtualBool => true,
            Gate::Constant { value } => is_canonical(value),
            Gate::Add { left, right }
            | Gate::Sub { left, right }
            | Gate::Mul { left, right }
            | Gate::IsEqual { left, right }
            | Gate::Connect { left, right } => left.index < position && right.index < position,
            Gate::Select { condition, when_true, when_false } => {
                &&& condition.index < position
                &&& when_true.index < position
                &&& when_false.index < position
            },
            Gate::RandomAccess { index, table } => {
                &&& index.index < position
                &&& table@.len() > 0
                &&& all_before(table@, position)
            },
            Gate::Bit { source, position: digit, width } => {
                &&& source.index < position
                &&& digit < width <= 64
            },
            Gate::LeSum { bits } => all_before(bits@, position),
            Gate::Digest { inputs, element } => all_before(inputs@, position) && element < 4,
            Gate::ProofInput { proof, element } => true,
        }
    }

    /// The constraint of this gate holds, given the values `prior` of the
    /// wires before it and the witness value for its own wire.
    pub open spec fn holds(self, prior: Seq<u64>, witness: Assignment) -> bool {
        let own = prior.len() as int;
        match self {
            Gate::Virtual | Gate::Digest { .. } | Gate::ProofInput { .. } => {
                witness.dom().contains(own) && is_canonical(witness[own])
            },
            Gate::VirtualBool => witness.dom().contains(own) && witness[own] <= 1,
            Gate::Connect { left, right } => prior[left.index as int] == prior[right.index as int],
            Gate::RandomAccess { index, table } => prior[index.index as int] < table@.len(),
            Gate::Bit { source, position, width } => prior[source.index as int] < pow2(
                width as nat,
            ),
            _ => true,
        }
    }

    /// The value this gate drives onto its wire, given the values `prior` of
    /// the wires before it. Where the constraint fails the value is zero.
    pub open spec fn output(self, prior: Seq<u64>, witness: Assignment) -> u64 {
        let own = prior.len() as int;
        match self {
            Gate::Virtual
            | Gate::VirtualBool
            | Gate::Digest { .. }
            | Gate::ProofInput { .. } => if self.holds(prior, witness) {
                witness[own]
            } else {
                0
            },
            Gate::Constant { value } => value,
            Gate::Add { left, right } => field_add(
                prior[left.index as int],
                prior[right.index as int],
            ),
            Gate::Sub { left, right } => field_sub(
                prior[left.index as int],
                prior[right.index as int],
            ),
            Gate::Mul { left, right } => field_mul(
                prior[left.index as int],
                prior[right.index as int],
            ),
            Gate::Select { condition, when_true, when_false } => select_value(
                prior[condition.index as int],
                prior[when_true.index as int],
                prior[when_false.index as int],
            ),
            Gate::IsEqual { left, right } => field_bool(
                prior[left.index as int] == prior[right.index as int],
            ),
            Gate::Connect { .. } => 0,
            Gate::RandomAccess { index, table } => if self.holds(prior, witness) {
                prior[table@[prior[index.index as int] as int].index as int]
            } else {
                0
            },
            Gate::Bit { source, position, width } => field_bool(
                bit_of(prior[source.index as int] as nat, position as nat),
            ),
            Gate::LeSum { bits } => weighted_sum(read_all(bits@, prior)),
        }
    }
}

/// Every gate reads only wires that come before it.
pub open spec fn well_formed(gates: Seq<Gate>) -> bool {
    forall|i: int| 0 <= i < gates.len() ==> (#[trigger] gates[i]).well_formed(i)
}

/// The values of all wires, in order, under the given witness.
pub open spec fn values(gates: Seq<Gate>, witness: Assignment) -> Seq<u64>
    decreases gates.len(),
{
    if gates.len() == 0 {
        Seq::empty()
    } else {
        let prior = values(gates.drop_last(), witness);
        prior.push(gates.last().output(prior, witness))
    }
}

/// Every constraint of the circuit holds under the given witness.
pub open spec fn satisfied(gates: Seq<Gate>, witness: Assignment) -> bool
    decreases gates.len(),
{
    if gates.len() == 0 {
        true
    } else {
        &&& satisfied(gates.drop_last(), witness)
        &&& gates.last().holds(values(gates.drop_last(), witness), witness)
    }
}

pub proof fn lemma_values_len(gates: Seq<Gate>, witness: Assignment)
    ensures
        values(gates, witness).len() == gates.len(),
    decreases gates.len(),
{
    if gates.len() > 0 {
        lemma_values_len(gates.drop_last(), witness);
    }
}

/// Appending a gate appends its output and adds its constraint.
pub proof fn lemma_push(gates: Seq<Gate>, gate: Gate, witness: Assignment)
    ensures
        values(gates.push(gate), witness) == values(gates, witness).push(
            gate.output(values(gates, witness), witness),
        ),
        satisfied(gates.push(gate), witness) == (satisfied(gates, witness) && gate.holds(
            values(gates, witness),
            witness,
        )),
        values(gates, witness).len() == gates.len(),
{
    assert(gates.push(gate).drop_last() =~= gates);
    lemma_values_len(gates, witness);
}

/// The value `LeSum` drives is canonical.
pub proof fn lemma_weighted_sum_canonical(digits: Seq<u64>)
    ensures
        is_canonical(weighted_sum(digits)),
{
    if digits.len() > 0 {
        lemma_results_canonical(digits[0], field_mul(2, weighted_sum(digits.drop_first())));
    }
}

/// Every wire of a well-formed circuit carries a canonical value.
pub proof fn lemma_values_canonical(gates: Seq<Gate>, witness: Assignment, i: int)
    requires
        well_formed(gates),
        0 <= i < gates.len(),
    ensures
        is_canonical(values(gates, witness)[i]),
    decreases gates.len(),
{
    let front = gates.drop_last();
    lemma_values_len(front, witness);
    assert(well_formed(front)) by {
        assert forall|k: int| 0 <= k < front.len() implies (#[trigger] front[k]).well_formed(
            k,
        ) by {
            assert(gates[k].well_formed(k));
        }
    }
    if i < front.len() {
        lemma_values_canonical(front, witness, i);
    } else {
        let gate = gates.last();
        let prior = values(front, witness);
        assert(gate.well_formed(i));
        match gate {
            Gate::RandomAccess { index, table } => {
                if gate.holds(prior, witness) {
                    let at = prior[index.index as int] as int;
                    assert(table@[at].index < i);
                    lemma_values_canonical(front, witness, table@[at].index as int);
                }
            },
            Gate::Add { left, right } | Gate::Sub { left, right } | Gate::Mul { left, right } => {
                lemma_results_canonical(prior[left.index as int], prior[right.index as int]);
            },
            Gate::Select { condition, when_true, when_false } => {
                let c = prior[condition.index as int];
                let a = prior[when_true.index as int];
                let b = prior[when_false.index as int];
                lemma_results_canonical(field_mul(c, a), field_sub(field_mul(c, b), b));
            },
            Gate::LeSum { bits } => {
                lemma_weighted_sum_canonical(read_all(bits@, prior));
            },
            _ => {},
        }
    }
}

/// With a condition that is 0 or 1, `Select` picks one of its two values.
pub proof fn lemma_select_bool(condition: u64, when_true: u64, when_false: u64)
    requires
        condition <= 1,
        is_canonical(when_true),
        is_canonical(when_false),
    ensures
        select_value(condition, when_true, when_false) == if condition == 1 {
            when_true
        } else {
            when_false
        },
{
    crate::field::lemma_sub_basics(when_true);
    crate::field::lemma_sub_basics(when_false);
    crate::field::lemma_sub_negation(when_false);
    crate::field::lemma_sub_zero(0, when_false);
}

/// Over digits that are 0 or 1, and short of the field order, `LeSum`
/// drives the number with those binary digits.
pub proof fn lemma_weighted_sum_bits(bits: Seq<bool>)
    requires
        le_value(bits) < ORDER,
    ensures
        weighted_sum(Seq::new(bits.len(), |i: int| field_bool(bits[i]))) == le_value(bits),
    decreases bits.len(),
{
    let digits = Seq::new(bits.len(), |i: int| field_bool(bits[i]));
    if bits.len() > 0 {
        let rest = bits.drop_first();
        let rest_digits = Seq::new(rest.len(), |i: int| field_bool(rest[i]));
        lemma_le_value_first(bits);
        vstd::arithmetic::power2::lemma2_to64();
        lemma_weighted_sum_bits(rest);
        assert(digits.drop_first() =~= rest_digits);
        crate::field::lemma_mul_small(2, le_value(rest) as u64);
        crate::field::lemma_add_small(digits[0], (2 * le_value(rest)) as u64);
    }
}

} // verus!
