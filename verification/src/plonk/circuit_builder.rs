use vstd::prelude::*;
use vstd::arithmetic::power2::pow2;
use crate::field::{field_add, field_bool, field_mul, field_sub, is_canonical};
use crate::packing::bit_of;
use crate::plonk::circuit_data::{CircuitData, VerifierOnlyCircuitData};
use crate::plonk::gate::{
    all_before, lemma_push, lemma_values_canonical, lemma_values_len, read_all, satisfied,
    select_value, values, weighted_sum, well_formed, Assignment, BoolTarget, Gate, Target,
};

verus! {

/// The shape parameters of a proof system instance that the circuits depend on.
#[derive(Clone, Copy, Debug, PartialEq, Eq, Structural)]
pub struct CircuitConfig {
    pub num_wires: usize,
    pub num_routed_wires: usize,
    pub zero_knowledge: bool,
}

impl CircuitConfig {
    /// The usual configuration for recursion: 135 wires, 80 of them routed,
    /// no blinding.
    pub fn standard_recursion_config() -> (config: Self)
        ensures
            config == (CircuitConfig {
                num_wires: 135,
                num_routed_wires: 80,
                zero_knowledge: false,
            }),
    {
        CircuitConfig { num_wires: 135, num_routed_wires: 80, zero_knowledge: false }
    }

    /// A table of `size` entries can be looked up in one gate: `size` is
    /// `2^bits`, and the `size + 2` routed wires and `size + 2 + bits`
    /// wires fit.
    pub open spec fn admits_table(self, size: int, bits: nat) -> bool {
        &&& size == pow2(bits)
        &&& size + 2 <= self.num_routed_wires
        &&& size + 2 + bits <= self.num_wires
    }
}

/// What a circuit that verifies a proof has to know of the circuit that made
/// it: its configuration and the number of its public inputs.
#[derive(Clone, Copy, Debug, PartialEq, Eq, Structural)]
pub struct CommonCircuitData {
    pub config: CircuitConfig,
    pub num_public_inputs: usize,
}

/// The wires that carry the public inputs of a proof that a circuit
/// verifies, and the slot of that proof among the proofs it verifies.
#[derive(Debug)]
pub struct ProofWithPublicInputsTarget {
    pub slot: usize,
    pub public_inputs: Vec<Target>,
}

/// Stands for the verifier data of the proof in a slot.
#[derive(Clone, Copy, Debug)]
pub struct VerifierCircuitTarget {
    pub slot: usize,
}

/// The four wires of a digest.
#[derive(Clone, Copy, Debug)]
pub struct HashOutTarget {
    pub elements: [Target; 4],
}

/// A copy of `targets`.
pub fn copy_targets(targets: &Vec<Target>) -> (copy: Vec<Target>)
    ensures
        copy@ == targets@,
{
    let mut copy: Vec<Target> = Vec::new();
    let mut k: usize = 0;
    while k < targets.len()
        invariant
            k <= targets.len(),
            copy@ == targets@.subrange(0, k as int),
        decreases targets.len() - k,
    {
        copy.push(targets[k]);
        k += 1;
        proof {
            assert(copy@ == targets@.subrange(0, k as int));
        }
    }
    proof {
        assert(targets@.subrange(0, targets@.len() as int) == targets@);
    }
    copy
}

/// A circuit under construction: the gates laid out so far, the wires
/// registered as public inputs, and the shapes of the proofs it verifies.
pub struct CircuitBuilder {
    pub config: CircuitConfig,
    pub gates: Vec<Gate>,
    pub public_inputs: Vec<Target>,
    pub proofs: Vec<CommonCircuitData>,
}

impl CircuitBuilder {
    /// `target` is a wire of this circuit.
    pub open spec fn has(&self, target: Target) -> bool {
        target.index < self.gates@.len()
    }

    /// All of `targets` are wires of this circuit.
    pub open spec fn has_all(&self, targets: Seq<Target>) -> bool {
        all_before(targets, self.gates@.len() as int)
    }

    /// The value of `target` under `witness`.
    pub open spec fn value(&self, witness: Assignment, target: Target) -> u64 {
        values(self.gates@, witness)[target.index as int]
    }

    /// The values of `targets` under `witness`.
    pub open spec fn value_all(&self, witness: Assignment, targets: Seq<Target>) -> Seq<u64> {
        read_all(targets, values(self.gates@, witness))
    }

    /// Every constraint laid out so far holds under `witness`.
    pub open spec fn satisfied(&self, witness: Assignment) -> bool {
        satisfied(self.gates@, witness)
    }

    /// Gates read only earlier wires, and public inputs are wires.
    pub open spec fn wf(&self) -> bool {
        &&& well_formed(self.gates@)
        &&& self.has_all(self.public_inputs@)
    }

    /// This circuit continues `before`: same configuration, the wires of
    /// `before` with their values, its public inputs and proof slots first,
    /// and at least its constraints.
    pub open spec fn extends(&self, before: Self) -> bool {
        &&& self.config == before.config
        &&& before.gates@.len() <= self.gates@.len()
        &&& before.public_inputs@.len() <= self.public_inputs@.len()
        &&& self.public_inputs@.subrange(0, before.public_inputs@.len() as int)
            == before.public_inputs@
        &&& before.proofs@.len() <= self.proofs@.len()
        &&& self.proofs@.subrange(0, before.proofs@.len() as int) == before.proofs@
        &&& forall|witness: Assignment, target: Target|
            before.has(target) ==> #[trigger] self.value(witness, target) == before.value(
                witness,
                target,
            )
        &&& forall|witness: Assignment| #[trigger]
            self.satisfied(witness) ==> before.satisfied(witness)
    }

    /// Every wire carries a canonical value.
    pub proof fn lemma_value_canonical(self, witness: Assignment, target: Target)
        requires
            self.wf(),
            self.has(target),
        ensures
            is_canonical(self.value(witness, target)),
    {
        lemma_values_canonical(self.gates@, witness, target.index as int);
    }

    /// Continuation is transitive.
    pub proof fn lemma_extends_transitive(self, middle: Self, before: Self)
        requires
            self.extends(middle),
            middle.extends(before),
        ensures
            self.extends(before),
    {
        assert(self.public_inputs@.subrange(0, before.public_inputs@.len() as int)
            =~= before.public_inputs@) by {
            assert forall|k: int| 0 <= k < before.public_inputs@.len() implies self.public_inputs@[k]
                == before.public_inputs@[k] by {
                assert(middle.public_inputs@.subrange(0, before.public_inputs@.len() as int)[k]
                    == before.public_inputs@[k]);
                assert(self.public_inputs@.subrange(0, middle.public_inputs@.len() as int)[k]
                    == middle.public_inputs@[k]);
            }
        }
        assert(self.proofs@.subrange(0, before.proofs@.len() as int) =~= before.proofs@) by {
            assert forall|k: int| 0 <= k < before.proofs@.len() implies self.proofs@[k]
                == before.proofs@[k] by {
                assert(middle.proofs@.subrange(0, before.proofs@.len() as int)[k]
                    == before.proofs@[k]);
                assert(self.proofs@.subrange(0, middle.proofs@.len() as int)[k]
                    == middle.proofs@[k]);
            }
        }
        assert forall|witness: Assignment, target: Target| before.has(target) implies #[trigger]
            self.value(witness, target) == before.value(witness, target) by {
            assert(middle.value(witness, target) == before.value(witness, target));
        }
        assert forall|witness: Assignment| #[trigger] self.satisfied(witness) implies before.satisfied(
            witness,
        ) by {
            assert(middle.satisfied(witness));
        }
    }

    /// Wires keep their values in a continuation.
    pub proof fn lemma_values_kept(self, before: Self, witness: Assignment, targets: Seq<Target>)
        requires
            self.extends(before),
            before.has_all(targets),
        ensures
            self.value_all(witness, targets) == before.value_all(witness, targets),
            self.has_all(targets),
    {
        assert(self.value_all(witness, targets) =~= before.value_all(witness, targets)) by {
            assert forall|k: int| 0 <= k < targets.len() implies self.value_all(witness, targets)[k]
                == before.value_all(witness, targets)[k] by {
                assert(before.has(targets[k]));
                assert(self.value(witness, targets[k]) == before.value(witness, targets[k]));
            }
        }
        assert forall|k: int| 0 <= k < targets.len() implies (#[trigger] targets[k]).index
            < self.gates@.len() by {
            assert(before.has(targets[k]));
        }
    }

    /// A circuit continues itself.
    pub proof fn lemma_extends_itself(self)
        ensures
            self.extends(self),
    {
        assert(self.public_inputs@.subrange(0, self.public_inputs@.len() as int)
            == self.public_inputs@);
        assert(self.proofs@.subrange(0, self.proofs@.len() as int) == self.proofs@);
    }

    pub fn new(config: CircuitConfig) -> (builder: Self)
        ensures
            builder.wf(),
            builder.config == config,
            builder.gates@.len() == 0,
            builder.public_inputs@.len() == 0,
            builder.proofs@.len() == 0,
            forall|witness: Assignment| #[trigger] builder.satisfied(witness),
    {
        CircuitBuilder {
            config,
            gates: Vec::new(),
            public_inputs: Vec::new(),
            proofs: Vec::new(),
        }
    }

    /// Lays out one gate and returns the wire it drives.
    pub fn add_gate(&mut self, gate: Gate) -> (out: Target)
        requires
            old(self).wf(),
            gate.well_formed(old(self).gates@.len() as int),
        ensures
            final(self).wf(),
            final(self).extends(*old(self)),
            final(self).gates@ == old(self).gates@.push(gate),
            final(self).public_inputs@ == old(self).public_inputs@,
            final(self).proofs@ == old(self).proofs@,
            out.index == old(self).gates@.len(),
            forall|witness: Assignment| #[trigger]
                values(old(self).gates@, witness).len() == old(self).gates@.len(),
            forall|witness: Assignment| #[trigger]
                final(self).satisfied(witness) == (old(self).satisfied(witness) && gate.holds(
                    values(old(self).gates@, witness),
                    witness,
                )),
            forall|witness: Assignment| #[trigger]
                final(self).value(witness, out) == gate.output(
                    values(old(self).gates@, witness),
                    witness,
                ),
    {
        let out = Target { index: self.gates.len() };
        let ghost before = self.gates@;
        self.gates.push(gate);
        proof {
            assert(self.gates@ == before.push(gate));
            assert forall|witness: Assignment| #[trigger]
                values(before, witness).len() == before.len() by {
                lemma_values_len(before, witness);
            }
            assert forall|witness: Assignment| #![trigger values(self.gates@, witness)]
                values(self.gates@, witness) == values(before, witness).push(
                    gate.output(values(before, witness), witness),
                ) && values(before, witness).len() == before.len() by {
                lemma_push(before, gate, witness);
            }
            assert forall|witness: Assignment| #![trigger satisfied(self.gates@, witness)]
                satisfied(self.gates@, witness) == (satisfied(before, witness) && gate.holds(
                    values(before, witness),
                    witness,
                )) by {
                lemma_push(before, gate, witness);
            }
            assert(self.public_inputs@.subrange(0, self.public_inputs@.len() as int)
                == self.public_inputs@);
            assert(self.proofs@.subrange(0, self.proofs@.len() as int) == self.proofs@);
        }
        out
    }

    /// A wire that carries the fixed element `value`.
    pub fn constant(&mut self, value: u64) -> (out: Target)
        requires
            old(self).wf(),
            is_canonical(value),
        ensures
            final(self).wf(),
            final(self).extends(*old(self)),
            final(self).has(out),
            final(self).public_inputs@ == old(self).public_inputs@,
            final(self).proofs@ == old(self).proofs@,
            forall|witness: Assignment| #[trigger]
                final(self).satisfied(witness) == old(self).satisfied(witness),
            forall|witness: Assignment| #[trigger] final(self).value(witness, out) == value,
    {
        self.add_gate(Gate::Constant { value })
    }

    /// A wire that carries 1 for `true` and 0 for `false`.
    pub fn constant_bool(&mut self, value: bool) -> (out: BoolTarget)
        requires
            old(self).wf(),
        ensures
            final(self).wf(),
            final(self).extends(*old(self)),
            final(self).has(out.target),
            final(self).public_inputs@ == old(self).public_inputs@,
            final(self).proofs@ == old(self).proofs@,
            forall|witness: Assignment| #[trigger]
                final(self).satisfied(witness) == old(self).satisfied(witness),
            forall|witness: Assignment| #[trigger]
                final(self).value(witness, out.target) == field_bool(value),
    {
        let target = self.add_gate(Gate::Constant { value: if value { 1 } else { 0 } });
        BoolTarget { target }
    }

    /// A wire that carries `left + right`.
    pub fn add(&mut self, left: Target, right: Target) -> (out: Target)
        requires
            old(self).wf(),
            old(self).has(left),
            old(self).has(right),
        ensures
            final(self).wf(),
            final(self).extends(*old(self)),
            final(self).has(out),
            final(self).public_inputs@ == old(self).public_inputs@,
            final(self).proofs@ == old(self).proofs@,
            forall|witness: Assignment| #[trigger]
                final(self).satisfied(witness) == old(self).satisfied(witness),
            forall|witness: Assignment| #[trigger]
                final(self).value(witness, out) == field_add(
                    old(self).value(witness, left),
                    old(self).value(witness, right),
                ),
    {
        self.add_gate(Gate::Add { left, right })
    }

    /// A wire that carries `left - right`.
    pub fn sub(&mut self, left: Target, right: Target) -> (out: Target)
        requires
            old(self).wf(),
            old(self).has(left),
            old(self).has(right),
        ensures
            final(self).wf(),
            final(self).extends(*old(self)),
            final(self).has(out),
            final(self).public_inputs@ == old(self).public_inputs@,
            final(self).proofs@ == old(self).proofs@,
            forall|witness: Assignment| #[trigger]
                final(self).satisfied(witness) == old(self).satisfied(witness),
            forall|witness: Assignment| #[trigger]
                final(self).value(witness, out) == field_sub(
                    old(self).value(witness, left),
                    old(self).value(witness, right),
                ),
    {
        self.add_gate(Gate::Sub { left, right })
    }

    /// A wire that carries `left * right`.
    pub fn mul(&mut self, left: Target, right: Target) -> (out: Target)
        requires
            old(self).wf(),
            old(self).has(left),
            old(self).has(right),
        ensures
            final(self).wf(),
            final(self).extends(*old(self)),
            final(self).has(out),
            final(self).public_inputs@ == old(self).public_inputs@,
            final(self).proofs@ == old(self).proofs@,
            forall|witness: Assignment| #[trigger]
                final(self).satisfied(witness) == old(self).satisfied(witness),
            forall|witness: Assignment| #[trigger]
                final(self).value(witness, out) == field_mul(
                    old(self).value(witness, left),
                    old(self).value(witness, right),
                ),
    {
        self.add_gate(Gate::Mul { left, right })
    }

    /// A wire that carries `when_true` where `condition` is 1 and
    /// `when_false` where it is 0.
    pub fn select(&mut self, condition: BoolTarget, when_true: Target, when_false: Target) -> (out:
        Target)
        requires
            old(self).wf(),
            old(self).has(condition.target),
            old(self).has(when_true),
            old(self).has(when_false),
        ensures
            final(self).wf(),
            final(self).extends(*old(self)),
            final(self).has(out),
            final(self).public_inputs@ == old(self).public_inputs@,
            final(self).proofs@ == old(self).proofs@,
            forall|witness: Assignment| #[trigger]
                final(self).satisfied(witness) == old(self).satisfied(witness),
            forall|witness: Assignment| #[trigger]
                final(self).value(witness, out) == select_value(
                    old(self).value(witness, condition.target),
                    old(self).value(witness, when_true),
                    old(self).value(witness, when_false),
                ),
    {
        self.add_gate(Gate::Select { condition: condition.target, when_true, when_false })
    }

    /// A wire that carries 1 where the two wires agree and 0 where not.
    pub fn is_equal(&mut self, left: Target, right: Target) -> (out: BoolTarget)
        requires
            old(self).wf(),
            old(self).has(left),
            old(self).has(right),
        ensures
            final(self).wf(),
            final(self).extends(*old(self)),
            final(self).has(out.target),
            final(self).public_inputs@ == old(self).public_inputs@,
            final(self).proofs@ == old(self).proofs@,
            forall|witness: Assignment| #[trigger]
                final(self).satisfied(witness) == old(self).satisfied(witness),
            forall|witness: Assignment| #[trigger]
                final(self).value(witness, out.target) == field_bool(
                    old(self).value(witness, left) == old(self).value(witness, right),
                ),
    {
        let target = self.add_gate(Gate::IsEqual { left, right });
        BoolTarget { target }
    }

    /// Constrains the two wires to carry the same value.
    pub fn connect(&mut self, left: Target, right: Target)
        requires
            old(self).wf(),
            old(self).has(left),
            old(self).has(right),
        ensures
            final(self).wf(),
            final(self).extends(*old(self)),
            final(self).public_inputs@ == old(self).public_inputs@,
            final(self).proofs@ == old(self).proofs@,
            forall|witness: Assignment| #[trigger]
                final(self).satisfied(witness) == (old(self).satisfied(witness)
                    && old(self).value(witness, left) == old(self).value(witness, right)),
    {
        let _ = self.add_gate(Gate::Connect { left, right });
    }

    /// A wire that carries the entry of `table` at the position that `index`
    /// carries. The circuit is unsatisfied where that position lies outside
    /// the table.
    pub fn random_access(&mut self, index: Target, table: Vec<Target>) -> (out: Target)
        requires
            old(self).wf(),
            old(self).has(index),
            old(self).has_all(table@),
            table@.len() >= 2,
            exists|bits: nat| old(self).config.admits_table(table@.len() as int, bits),
        ensures
            final(self).wf(),
            final(self).extends(*old(self)),
            final(self).has(out),
            final(self).public_inputs@ == old(self).public_inputs@,
            final(self).proofs@ == old(self).proofs@,
            forall|witness: Assignment| #[trigger]
                final(self).satisfied(witness) == (old(self).satisfied(witness)
                    && old(self).value(witness, index) < table@.len()),
            forall|witness: Assignment|
                old(self).value(witness, index) < table@.len() ==> #[trigger] final(self).value(
                    witness,
                    out,
                ) == old(self).value(witness, table@[old(self).value(witness, index) as int]),
    {
        self.add_gate(Gate::RandomAccess { index, table })
    }

    /// The `num_limbs` lowest binary digits of `source`, lowest first. The
    /// circuit is unsatisfied where `source` has a higher digit.
    pub fn split_le_base(&mut self, source: Target, num_limbs: usize) -> (digits: Vec<Target>)
        requires
            old(self).wf(),
            old(self).has(source),
            0 < num_limbs <= 64,
            num_limbs < old(self).config.num_routed_wires,
        ensures
            final(self).wf(),
            final(self).extends(*old(self)),
            final(self).public_inputs@ == old(self).public_inputs@,
            final(self).proofs@ == old(self).proofs@,
            digits@.len() == num_limbs,
            final(self).has_all(digits@),
            forall|witness: Assignment| #[trigger]
                final(self).satisfied(witness) == (old(self).satisfied(witness)
                    && old(self).value(witness, source) < pow2(num_limbs as nat)),
            forall|witness: Assignment, k: int|
                0 <= k < num_limbs ==> #[trigger] final(self).value(witness, digits@[k])
                    == field_bool(bit_of(old(self).value(witness, source) as nat, k as nat)),
    {
        let mut digits: Vec<Target> = Vec::new();
        let mut position: usize = 0;
        let ghost before = *self;
        proof {
            before.lemma_extends_itself();
        }
        while position < num_limbs
            invariant
                position <= num_limbs <= 64,
                before.wf(),
                before.has(source),
                self.wf(),
                self.extends(before),
                self.public_inputs@ == before.public_inputs@,
                self.proofs@ == before.proofs@,
                digits@.len() == position,
                self.has_all(digits@),
                forall|witness: Assignment| #[trigger]
                    self.satisfied(witness) == (before.satisfied(witness) && (position == 0
                        || before.value(witness, source) < pow2(num_limbs as nat))),
                forall|witness: Assignment, k: int|
                    0 <= k < position ==> #[trigger] self.value(witness, digits@[k])
                        == field_bool(bit_of(before.value(witness, source) as nat, k as nat)),
            decreases num_limbs - position,
        {
            let ghost previous = *self;
            let digit = self.add_gate(Gate::Bit { source, position, width: num_limbs });
            digits.push(digit);
            position += 1;
            proof {
                assert forall|witness: Assignment| #[trigger]
                    self.satisfied(witness) == (before.satisfied(witness) && before.value(
                        witness,
                        source,
                    ) < pow2(num_limbs as nat)) by {
                    assert(previous.value(witness, source) == before.value(witness, source));
                }
                assert forall|witness: Assignment, k: int| 0 <= k < position implies #[trigger]
                    self.value(witness, digits@[k]) == field_bool(
                    bit_of(before.value(witness, source) as nat, k as nat),
                ) by {
                    assert(previous.value(witness, source) == before.value(witness, source));
                    if k < position - 1 {
                        assert(previous.has(digits@[k]));
                        assert(self.value(witness, digits@[k]) == previous.value(
                            witness,
                            digits@[k],
                        ));
                    }
                }
            }
        }
        digits
    }

    /// A wire that carries the sum of `bits[i] * 2^i`, computed in the field.
    pub fn le_sum(&mut self, bits: Vec<Target>) -> (out: Target)
        requires
            old(self).wf(),
            old(self).has_all(bits@),
        ensures
            final(self).wf(),
            final(self).extends(*old(self)),
            final(self).has(out),
            final(self).public_inputs@ == old(self).public_inputs@,
            final(self).proofs@ == old(self).proofs@,
            forall|witness: Assignment| #[trigger]
                final(self).satisfied(witness) == old(self).satisfied(witness),
            forall|witness: Assignment| #[trigger]
                final(self).value(witness, out) == weighted_sum(
                    old(self).value_all(witness, bits@),
                ),
    {
        self.add_gate(Gate::LeSum { bits })
    }

    /// A wire whose value the witness supplies.
    pub fn add_virtual_target(&mut self) -> (out: Target)
        requires
            old(self).wf(),
        ensures
            final(self).wf(),
            final(self).extends(*old(self)),
            final(self).has(out),
            out.index == old(self).gates@.len(),
            final(self).gates@.len() == old(self).gates@.len() + 1,
            final(self).public_inputs@ == old(self).public_inputs@,
            final(self).proofs@ == old(self).proofs@,
            forall|witness: Assignment| #[trigger]
                final(self).satisfied(witness) == (old(self).satisfied(witness) && supplied(
                    witness,
                    out,
                )),
            forall|witness: Assignment|
                supplied(witness, out) ==> #[trigger] final(self).value(witness, out)
                    == witness[out.index as int],
    {
        self.add_gate(Gate::Virtual)
    }

    /// `count` wires whose values the witness supplies.
    pub fn add_virtual_targets(&mut self, count: usize) -> (out: Vec<Target>)
        requires
            old(self).wf(),
        ensures
            final(self).wf(),
            final(self).extends(*old(self)),
            final(self).public_inputs@ == old(self).public_inputs@,
            final(self).proofs@ == old(self).proofs@,
            out@.len() == count,
            final(self).has_all(out@),
            final(self).gates@.len() == old(self).gates@.len() + count,
            forall|k: int| 0 <= k < count ==> (#[trigger] out@[k]).index == old(self).gates@.len() + k,
            forall|witness: Assignment| #[trigger]
                final(self).satisfied(witness) == (old(self).satisfied(witness) && supplied_all(
                    witness,
                    out@,
                )),
            forall|witness: Assignment, k: int|
                0 <= k < count && supplied(witness, out@[k]) ==> #[trigger] final(self).value(
                    witness,
                    out@[k],
                ) == witness[out@[k].index as int],
    {
        let mut out: Vec<Target> = Vec::new();
        let mut made: usize = 0;
        let ghost before = *self;
        proof {
            before.lemma_extends_itself();
        }
        while made < count
            invariant
                made <= count,
                before.wf(),
                self.wf(),
                self.extends(before),
                self.public_inputs@ == before.public_inputs@,
                self.proofs@ == before.proofs@,
                out@.len() == made,
                self.has_all(out@),
                self.gates@.len() == before.gates@.len() + made,
                forall|k: int| 0 <= k < made ==> (#[trigger] out@[k]).index == before.gates@.len() + k,
                forall|witness: Assignment| #[trigger]
                    self.satisfied(witness) == (before.satisfied(witness) && supplied_all(
                        witness,
                        out@,
                    )),
                forall|witness: Assignment, k: int|
                    0 <= k < made && supplied(witness, out@[k]) ==> #[trigger] self.value(
                        witness,
                        out@[k],
                    ) == witness[out@[k].index as int],
            decreases count - made,
        {
            let ghost previous = *self;
            let ghost earlier = out@;
            let target = self.add_virtual_target();
            out.push(target);
            made += 1;
            proof {
                assert forall|witness: Assignment| #[trigger]
                    self.satisfied(witness) == (before.satisfied(witness) && supplied_all(
                        witness,
                        out@,
                    )) by {
                    assert(forall|k: int| 0 <= k < earlier.len() ==> out@[k] == earlier[k]);
                    assert(out@[made - 1] == target);
                }
                assert forall|witness: Assignment, k: int|
                    0 <= k < made && supplied(witness, out@[k]) implies #[trigger] self.value(
                    witness,
                    out@[k],
                ) == witness[out@[k].index as int] by {
                    if k < made - 1 {
                        assert(previous.has(out@[k]));
                        assert(self.value(witness, out@[k]) == previous.value(witness, out@[k]));
                    }
                }
            }
        }
        out
    }

    /// A witness wire that is constrained to carry 0 or 1.
    pub fn add_virtual_bool_target_safe(&mut self) -> (out: BoolTarget)
        requires
            old(self).wf(),
        ensures
            final(self).wf(),
            final(self).extends(*old(self)),
            final(self).has(out.target),
            out.target.index == old(self).gates@.len(),
            final(self).gates@.len() == old(self).gates@.len() + 1,
            final(self).public_inputs@ == old(self).public_inputs@,
            final(self).proofs@ == old(self).proofs@,
            forall|witness: Assignment| #[trigger]
                final(self).satisfied(witness) == (old(self).satisfied(witness) && supplied(
                    witness,
                    out.target,
                ) && witness[out.target.index as int] <= 1),
            forall|witness: Assignment|
                supplied(witness, out.target) && witness[out.target.index as int] <= 1
                    ==> #[trigger] final(self).value(witness, out.target)
                    == witness[out.target.index as int],
            forall|witness: Assignment| #[trigger] final(self).value(witness, out.target) <= 1,
    {
        let target = self.add_gate(Gate::VirtualBool);
        BoolTarget { target }
    }

    /// Makes `target` the next public input of the circuit.
    pub fn register_public_input(&mut self, target: Target)
        requires
            old(self).wf(),
            old(self).has(target),
        ensures
            final(self).wf(),
            final(self).extends(*old(self)),
            final(self).gates@ == old(self).gates@,
            final(self).public_inputs@ == old(self).public_inputs@.push(target),
            final(self).proofs@ == old(self).proofs@,
    {
        let ghost before = *self;
        self.public_inputs.push(target);
        proof {
            assert(self.public_inputs@.subrange(0, before.public_inputs@.len() as int)
                == before.public_inputs@);
            assert(self.proofs@.subrange(0, self.proofs@.len() as int) == self.proofs@);
        }
    }

    /// Makes `targets` the next public inputs of the circuit, in their order.
    pub fn register_public_inputs(&mut self, targets: &Vec<Target>)
        requires
            old(self).wf(),
            old(self).has_all(targets@),
        ensures
            final(self).wf(),
            final(self).extends(*old(self)),
            final(self).gates@ == old(self).gates@,
            final(self).public_inputs@ == old(self).public_inputs@ + targets@,
            final(self).proofs@ == old(self).proofs@,
    {
        let ghost before = *self;
        let mut k: usize = 0;
        proof {
            before.lemma_extends_itself();
            assert(self.public_inputs@ == before.public_inputs@ + targets@.subrange(0, 0));
        }
        while k < targets.len()
            invariant
                k <= targets.len(),
                before.wf(),
                before.has_all(targets@),
                self.wf(),
                self.extends(before),
                self.gates@ == before.gates@,
                self.proofs@ == before.proofs@,
                self.public_inputs@ == before.public_inputs@ + targets@.subrange(0, k as int),
            decreases targets.len() - k,
        {
            self.register_public_input(targets[k]);
            k += 1;
            proof {
                assert(targets@.subrange(0, k as int) == targets@.subrange(0, k - 1).push(
                    targets@[k - 1],
                ));
                assert(self.public_inputs@ == before.public_inputs@ + targets@.subrange(
                    0,
                    k as int,
                ));
                assert(self.public_inputs@.subrange(0, before.public_inputs@.len() as int)
                    == before.public_inputs@);
            }
        }
        proof {
            assert(targets@.subrange(0, targets@.len() as int) == targets@);
        }
    }

    /// The four wires of the sponge digest of `inputs`, hashed without
    /// padding. The permutation is not modelled: the witness supplies the
    /// four values.
    pub fn hash_n_to_hash_no_pad(&mut self, inputs: Vec<Target>) -> (digest: HashOutTarget)
        requires
            old(self).wf(),
            old(self).has_all(inputs@),
        ensures
            final(self).wf(),
            final(self).extends(*old(self)),
            final(self).public_inputs@ == old(self).public_inputs@,
            final(self).proofs@ == old(self).proofs@,
            final(self).gates@.len() == old(self).gates@.len() + 4,
            final(self).has_all(digest.elements@),
            forall|k: int|
                0 <= k < 4 ==> (#[trigger] digest.elements[k]).index == old(self).gates@.len() + k,
            forall|witness: Assignment| #[trigger]
                final(self).satisfied(witness) == (old(self).satisfied(witness) && supplied_all(
                    witness,
                    digest.elements@,
                )),
            forall|witness: Assignment, k: int|
                0 <= k < 4 && supplied(witness, digest.elements[k]) ==> #[trigger] final(self).value(
                    witness,
                    digest.elements[k],
                ) == witness[digest.elements[k].index as int],
    {
        let ghost before = *self;
        let copy0 = copy_targets(&inputs);
        let copy1 = copy_targets(&inputs);
        let copy2 = copy_targets(&inputs);
        let e0 = self.add_gate(Gate::Digest { inputs: copy0, element: 0 });
        let ghost b1 = *self;
        let e1 = self.add_gate(Gate::Digest { inputs: copy1, element: 1 });
        let ghost b2 = *self;
        let e2 = self.add_gate(Gate::Digest { inputs: copy2, element: 2 });
        let ghost b3 = *self;
        let e3 = self.add_gate(Gate::Digest { inputs, element: 3 });
        let digest = HashOutTarget { elements: [e0, e1, e2, e3] };
        proof {
            assert forall|witness: Assignment, k: int|
                0 <= k < 4 && supplied(witness, digest.elements[k]) implies #[trigger] self.value(
                witness,
                digest.elements[k],
            ) == witness[digest.elements[k].index as int] by {
                assert(b1.has(e0) && b2.has(e1) && b3.has(e2));
                assert(b2.value(witness, e0) == b1.value(witness, e0));
                assert(b3.value(witness, e0) == b2.value(witness, e0));
                assert(self.value(witness, e0) == b3.value(witness, e0));
                assert(b3.value(witness, e1) == b2.value(witness, e1));
                assert(self.value(witness, e1) == b3.value(witness, e1));
                assert(self.value(witness, e2) == b3.value(witness, e2));
            }
        }
        digest
    }

    /// Wires for the public inputs of a proof of a circuit of the shape
    /// `common`, which this circuit verifies. The witness supplies the
    /// public inputs with the proof.
    pub fn add_virtual_proof_with_pis(&mut self, common: &CommonCircuitData) -> (proof:
        ProofWithPublicInputsTarget)
        requires
            old(self).wf(),
        ensures
            final(self).wf(),
            final(self).extends(*old(self)),
            final(self).public_inputs@ == old(self).public_inputs@,
            final(self).proofs@ == old(self).proofs@.push(*common),
            proof.slot == old(self).proofs@.len(),
            proof.public_inputs@.len() == common.num_public_inputs,
            final(self).has_all(proof.public_inputs@),
            final(self).gates@.len() == old(self).gates@.len() + common.num_public_inputs,
            forall|k: int|
                0 <= k < common.num_public_inputs ==> (#[trigger] proof.public_inputs@[k]).index
                    == old(self).gates@.len() + k,
            forall|witness: Assignment| #[trigger]
                final(self).satisfied(witness) == (old(self).satisfied(witness) && supplied_all(
                    witness,
                    proof.public_inputs@,
                )),
            forall|witness: Assignment, k: int|
                0 <= k < common.num_public_inputs && supplied(witness, proof.public_inputs@[k])
                    ==> #[trigger] final(self).value(witness, proof.public_inputs@[k])
                    == witness[proof.public_inputs@[k].index as int],
    {
        let slot = self.proofs.len();
        let count = common.num_public_inputs;
        let mut out: Vec<Target> = Vec::new();
        let mut made: usize = 0;
        let ghost before = *self;
        proof {
            before.lemma_extends_itself();
        }
        while made < count
            invariant
                made <= count,
                before.wf(),
                self.wf(),
                self.extends(before),
                self.public_inputs@ == before.public_inputs@,
                self.proofs@ == before.proofs@,
                slot == before.proofs@.len(),
                out@.len() == made,
                self.has_all(out@),
                self.gates@.len() == before.gates@.len() + made,
                forall|k: int| 0 <= k < made ==> (#[trigger] out@[k]).index == before.gates@.len() + k,
                forall|witness: Assignment| #[trigger]
                    self.satisfied(witness) == (before.satisfied(witness) && supplied_all(
                        witness,
                        out@,
                    )),
                forall|witness: Assignment, k: int|
                    0 <= k < made && supplied(witness, out@[k]) ==> #[trigger] self.value(
                        witness,
                        out@[k],
                    ) == witness[out@[k].index as int],
            decreases count - made,
        {
            let ghost previous = *self;
            let ghost earlier = out@;
            let target = self.add_gate(Gate::ProofInput { proof: slot, element: made });
            out.push(target);
            made += 1;
            proof {
                assert forall|witness: Assignment| #[trigger]
                    self.satisfied(witness) == (before.satisfied(witness) && supplied_all(
                        witness,
                        out@,
                    )) by {
                    assert(forall|k: int| 0 <= k < earlier.len() ==> out@[k] == earlier[k]);
                    assert(out@[made - 1] == target);
                }
                assert forall|witness: Assignment, k: int|
                    0 <= k < made && supplied(witness, out@[k]) implies #[trigger] self.value(
                    witness,
                    out@[k],
                ) == witness[out@[k].index as int] by {
                    if k < made - 1 {
                        assert(previous.has(out@[k]));
                        assert(self.value(witness, out@[k]) == previous.value(witness, out@[k]));
                    }
                }
            }
        }
        let ghost grown = *self;
        self.proofs.push(*common);
        proof {
            assert(self.gates@ == grown.gates@);
            assert(self.proofs@.subrange(0, before.proofs@.len() as int) == before.proofs@);
            assert(self.public_inputs@.subrange(0, before.public_inputs@.len() as int)
                == before.public_inputs@);
            assert forall|witness: Assignment| #[trigger]
                self.satisfied(witness) == grown.satisfied(witness) by {}
            assert forall|witness: Assignment, target: Target| #[trigger]
                self.value(witness, target) == grown.value(witness, target) by {}
        }
        ProofWithPublicInputsTarget { slot, public_inputs: out }
    }

    /// Finishes the circuit.
    pub fn build(self) -> (data: CircuitData)
        requires
            self.wf(),
        ensures
            data.wf(),
            data.gates@ == self.gates@,
            data.public_inputs@ == self.public_inputs@,
            data.proofs@ == self.proofs@,
            data.common == (CommonCircuitData {
                config: self.config,
                num_public_inputs: self.public_inputs@.len() as usize,
            }),
            data.verifier_only == (VerifierOnlyCircuitData {
                num_gates: self.gates@.len() as usize,
            }),
    {
        let common = CommonCircuitData {
            config: self.config,
            num_public_inputs: self.public_inputs.len(),
        };
        let verifier_only = VerifierOnlyCircuitData { num_gates: self.gates.len() };
        CircuitData {
            common,
            verifier_only,
            gates: self.gates,
            public_inputs: self.public_inputs,
            proofs: self.proofs,
        }
    }
}

/// The witness gives the wire `target` a canonical value.
pub open spec fn supplied(witness: Assignment, target: Target) -> bool {
    witness.dom().contains(target.index as int) && is_canonical(witness[target.index as int])
}

/// The witness gives each of `targets` a canonical value.
pub open spec fn supplied_all(witness: Assignment, targets: Seq<Target>) -> bool {
    forall|k: int| 0 <= k < targets.len() ==> supplied(witness, #[trigger] targets[k])
}

} // verus!
