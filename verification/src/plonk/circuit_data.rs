use vstd::prelude::*;
use vstd::arithmetic::power2::{lemma2_to64, lemma_pow2_pos, pow2};
use vstd::bits::lemma_u64_shr_is_div;
use crate::error::CircuitError;
use crate::field::{add_mod, is_canonical, mul_mod, sub_mod, ORDER};
use crate::packing::read_bit;
use crate::plonk::circuit_builder::CommonCircuitData;
use crate::plonk::gate::{
    all_before, lemma_push, read_all, satisfied, values, weighted_sum, well_formed, Assignment,
    Gate, Target,
};
use crate::plonk::witness::PartialWitness;

verus! {

/// The public inputs a proof exposes. The argument of knowledge itself is
/// the proof system's and is not part of this model.
#[derive(Debug)]
pub struct ProofWithPublicInputs {
    pub public_inputs: Vec<u64>,
}

/// What identifies the circuit a proof was made for, beside its shape.
#[derive(Clone, Copy, Debug, PartialEq, Eq, Structural)]
pub struct VerifierOnlyCircuitData {
    pub num_gates: usize,
}

/// A finished circuit.
pub struct CircuitData {
    pub common: CommonCircuitData,
    pub verifier_only: VerifierOnlyCircuitData,
    pub gates: Vec<Gate>,
    pub public_inputs: Vec<Target>,
    pub proofs: Vec<CommonCircuitData>,
}

/// All of `targets` come before `bound`.
fn targets_before(targets: &Vec<Target>, bound: usize) -> (ok: bool)
    ensures
        ok == all_before(targets@, bound as int),
{
    let mut k: usize = 0;
    while k < targets.len()
        invariant
            k <= targets.len(),
            forall|j: int| 0 <= j < k ==> (#[trigger] targets@[j]).index < bound,
        decreases targets.len() - k,
    {
        if targets[k].index >= bound {
            return false;
        }
        k += 1;
    }
    true
}

/// Tells whether a gate reads only wires before `position`.
fn gate_is_well_formed(gate: &Gate, position: usize) -> (ok: bool)
    ensures
        ok == gate.well_formed(position as int),
{
    match gate {
        Gate::Virtual => true,
        Gate::VirtualBool => true,
        Gate::Constant { value } => *value < ORDER,
        Gate::Add { left, right } => left.index < position && right.index < position,
        Gate::Sub { left, right } => left.index < position && right.index < position,
        Gate::Mul { left, right } => left.index < position && right.index < position,
        Gate::IsEqual { left, right } => left.index < position && right.index < position,
        Gate::Connect { left, right } => left.index < position && right.index < position,
        Gate::Select { condition, when_true, when_false } => condition.index < position
            && when_true.index < position && when_false.index < position,
        Gate::RandomAccess { index, table } => index.index < position && table.len() > 0
            && targets_before(table, position),
        Gate::Bit { source, position: digit, width } => source.index < position && *digit < *width
            && *width <= 64,
        Gate::LeSum { bits } => targets_before(bits, position),
        Gate::Digest { inputs, element } => targets_before(inputs, position) && *element < 4,
        Gate::ProofInput { .. } => true,
    }
}

/// The field sum of `digits[i] * 2^i` over the values of the given wires.
fn sum_digits(bits: &Vec<Target>, prior: &Vec<u64>) -> (sum: u64)
    requires
        all_before(bits@, prior@.len() as int),
    ensures
        sum == weighted_sum(read_all(bits@, prior@)),
        is_canonical(sum),
{
    let ghost digits = read_all(bits@, prior@);
    let mut sum: u64 = 0;
    let mut k: usize = bits.len();
    proof {
        assert(digits.subrange(bits@.len() as int, bits@.len() as int) =~= Seq::<u64>::empty());
    }
    while k > 0
        invariant
            k <= bits@.len(),
            digits == read_all(bits@, prior@),
            all_before(bits@, prior@.len() as int),
            sum == weighted_sum(digits.subrange(k as int, bits@.len() as int)),
            is_canonical(sum),
        decreases k,
    {
        k -= 1;
        let digit = prior[bits[k].index];
        let doubled = mul_mod(2, sum);
        proof {
            let tail = digits.subrange(k as int, bits@.len() as int);
            assert(tail.drop_first() =~= digits.subrange(k + 1, bits@.len() as int));
            assert(tail[0] == digit);
        }
        sum = add_mod(digit, doubled);
    }
    proof {
        assert(digits.subrange(0, bits@.len() as int) =~= digits);
    }
    sum
}

/// The value a gate drives, or nothing where its constraint fails.
fn evaluate_gate(gate: &Gate, prior: &Vec<u64>, witness: &PartialWitness) -> (out: Option<u64>)
    requires
        gate.well_formed(prior@.len() as int),
        forall|i: int| 0 <= i < prior@.len() ==> is_canonical(#[trigger] prior@[i]),
    ensures
        out is Some <==> gate.holds(prior@, witness@),
        out is Some ==> out->Some_0 == gate.output(prior@, witness@) && is_canonical(
            out->Some_0,
        ),
{
    let own = prior.len();
    match gate {
        Gate::Virtual | Gate::Digest { .. } | Gate::ProofInput { .. } => {
            match witness.get(own) {
                Some(value) => if value < ORDER {
                    Some(value)
                } else {
                    None
                },
                None => None,
            }
        },
        Gate::VirtualBool => {
            match witness.get(own) {
                Some(value) => if value <= 1 {
                    Some(value)
                } else {
                    None
                },
                None => None,
            }
        },
        Gate::Constant { value } => Some(*value),
        Gate::Add { left, right } => Some(add_mod(prior[left.index], prior[right.index])),
        Gate::Sub { left, right } => Some(sub_mod(prior[left.index], prior[right.index])),
        Gate::Mul { left, right } => Some(mul_mod(prior[left.index], prior[right.index])),
        Gate::Select { condition, when_true, when_false } => {
            let c = prior[condition.index];
            let a = prior[when_true.index];
            let b = prior[when_false.index];
            Some(sub_mod(mul_mod(c, a), sub_mod(mul_mod(c, b), b)))
        },
        Gate::IsEqual { left, right } => if prior[left.index] == prior[right.index] {
            Some(1)
        } else {
            Some(0)
        },
        Gate::Connect { left, right } => if prior[left.index] == prior[right.index] {
            Some(0)
        } else {
            None
        },
        Gate::RandomAccess { index, table } => {
            let at = prior[index.index];
            if at < table.len() as u64 {
                Some(prior[table[at as usize].index])
            } else {
                None
            }
        },
        Gate::Bit { source, position, width } => {
            let value = prior[source.index];
            proof {
                lemma2_to64();
                if *width < 64 {
                    lemma_u64_shr_is_div(value, *width as u64);
                    lemma_pow2_pos(*width as nat);
                    let w = pow2(*width as nat) as int;
                    if value < w {
                        vstd::arithmetic::div_mod::lemma_basic_div(value as int, w);
                    } else {
                        vstd::arithmetic::div_mod::lemma_div_non_zero(value as int, w);
                    }
                }
            }
            if *width < 64 && (value >> (*width as u64)) != 0 {
                None
            } else if read_bit(value, *position) {
                Some(1)
            } else {
                Some(0)
            }
        },
        Gate::LeSum { bits } => Some(sum_digits(bits, prior)),
    }
}

impl CircuitData {
    /// Gates read only earlier wires, and public inputs are wires.
    pub open spec fn wf(&self) -> bool {
        &&& well_formed(self.gates@)
        &&& all_before(self.public_inputs@, self.gates@.len() as int)
    }

    /// Every constraint holds under `witness`.
    pub open spec fn satisfied(&self, witness: Assignment) -> bool {
        satisfied(self.gates@, witness)
    }

    /// The value of `target` under `witness`.
    pub open spec fn value(&self, witness: Assignment, target: Target) -> u64 {
        values(self.gates@, witness)[target.index as int]
    }

    /// The values of the public inputs under `witness`.
    pub open spec fn outputs(&self, witness: Assignment) -> Seq<u64> {
        read_all(self.public_inputs@, values(self.gates@, witness))
    }

    /// Tells whether gates read only earlier wires and public inputs are wires.
    pub fn is_well_formed(&self) -> (ok: bool)
        ensures
            ok == self.wf(),
    {
        let mut i: usize = 0;
        while i < self.gates.len()
            invariant
                i <= self.gates@.len(),
                forall|j: int| 0 <= j < i ==> (#[trigger] self.gates@[j]).well_formed(j),
            decreases self.gates@.len() - i,
        {
            if !gate_is_well_formed(&self.gates[i], i) {
                return false;
            }
            i += 1;
        }
        targets_before(&self.public_inputs, self.gates.len())
    }

    /// Computes every wire from the witness and checks every constraint.
    /// Succeeds exactly where the witness satisfies the circuit, and then
    /// exposes the values of the public inputs.
    pub fn prove(&self, witness: &PartialWitness) -> (result: Result<
        ProofWithPublicInputs,
        CircuitError,
    >)
        ensures
            !self.wf() ==> result == Err::<ProofWithPublicInputs, CircuitError>(
                CircuitError::Malformed,
            ),
            self.wf() && !self.satisfied(witness@) ==> result == Err::<
                ProofWithPublicInputs,
                CircuitError,
            >(CircuitError::Unsatisfiable),
            self.wf() && self.satisfied(witness@) ==> result is Ok
                && result->Ok_0.public_inputs@ == self.outputs(witness@),
            result is Ok ==> result->Ok_0.public_inputs@.len() == self.public_inputs@.len()
                && forall|k: int|
                0 <= k < result->Ok_0.public_inputs@.len() ==> is_canonical(
                    #[trigger] result->Ok_0.public_inputs@[k],
                ),
    {
        if !self.is_well_formed() {
            return Err(CircuitError::Malformed);
        }
        let mut wires: Vec<u64> = Vec::new();
        let mut i: usize = 0;
        let n = self.gates.len();
        proof {
            assert(self.gates@.subrange(0, 0) =~= Seq::<Gate>::empty());
        }
        while i < n
            invariant
                i <= n == self.gates@.len(),
                self.wf(),
                wires@ == values(self.gates@.subrange(0, i as int), witness@),
                wires@.len() == i,
                satisfied(self.gates@.subrange(0, i as int), witness@),
                forall|j: int| 0 <= j < i ==> is_canonical(#[trigger] wires@[j]),
            decreases n - i,
        {
            proof {
                let done = self.gates@.subrange(0, i as int);
                assert(self.gates@.subrange(0, i + 1) =~= done.push(self.gates@[i as int]));
                lemma_push(done, self.gates@[i as int], witness@);
                assert(self.gates@[i as int].well_formed(i as int));
            }
            match evaluate_gate(&self.gates[i], &wires, witness) {
                Some(value) => {
                    wires.push(value);
                },
                None => {
                    proof {
                        lemma_unsatisfied_prefix(self.gates@, witness@, i + 1);
                    }
                    return Err(CircuitError::Unsatisfiable);
                },
            }
            i += 1;
        }
        proof {
            assert(self.gates@.subrange(0, n as int) =~= self.gates@);
        }
        let mut public_inputs: Vec<u64> = Vec::new();
        let mut k: usize = 0;
        while k < self.public_inputs.len()
            invariant
                k <= self.public_inputs@.len(),
                self.wf(),
                wires@ == values(self.gates@, witness@),
                wires@.len() == self.gates@.len(),
                forall|j: int| 0 <= j < wires@.len() ==> is_canonical(#[trigger] wires@[j]),
                forall|j: int| 0 <= j < k ==> is_canonical(#[trigger] public_inputs@[j]),
                public_inputs@ == self.outputs(witness@).subrange(0, k as int),
            decreases self.public_inputs@.len() - k,
        {
            public_inputs.push(wires[self.public_inputs[k].index]);
            k += 1;
            proof {
                assert(public_inputs@ =~= self.outputs(witness@).subrange(0, k as int));
            }
        }
        proof {
            assert(self.outputs(witness@).subrange(0, k as int) =~= self.outputs(witness@));
        }
        Ok(ProofWithPublicInputs { public_inputs })
    }
}

/// A circuit with an unsatisfied beginning is unsatisfied.
pub proof fn lemma_unsatisfied_prefix(gates: Seq<Gate>, witness: Assignment, count: int)
    requires
        0 <= count <= gates.len(),
        !satisfied(gates.subrange(0, count), witness),
    ensures
        !satisfied(gates, witness),
    decreases gates.len() - count,
{
    if count < gates.len() {
        assert(gates.subrange(0, count + 1).drop_last() =~= gates.subrange(0, count));
        lemma_unsatisfied_prefix(gates, witness, count + 1);
    } else {
        assert(gates.subrange(0, count) =~= gates);
    }
}

impl CircuitData {
    /// Checks what can be checked of a proof short of its argument of
    /// knowledge: that it exposes as many public inputs as the circuit has,
    /// and that they are field elements.
    pub fn verify(&self, proof: &ProofWithPublicInputs) -> (result: Result<(), CircuitError>)
        ensures
            result is Ok <==> proof.public_inputs@.len() == self.common.num_public_inputs
                && forall|k: int|
                0 <= k < proof.public_inputs@.len() ==> is_canonical(
                    #[trigger] proof.public_inputs@[k],
                ),
            result is Err ==> result->Err_0 == CircuitError::InvalidProof,
    {
        if proof.public_inputs.len() != self.common.num_public_inputs {
            return Err(CircuitError::InvalidProof);
        }
        let mut k: usize = 0;
        while k < proof.public_inputs.len()
            invariant
                k <= proof.public_inputs@.len(),
                forall|j: int| 0 <= j < k ==> is_canonical(#[trigger] proof.public_inputs@[j]),
            decreases proof.public_inputs@.len() - k,
        {
            if proof.public_inputs[k] >= ORDER {
                return Err(CircuitError::InvalidProof);
            }
            k += 1;
        }
        Ok(())
    }
}

} // verus!
