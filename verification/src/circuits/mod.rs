use vstd::prelude::*;
use crate::error::CircuitError;
use crate::field::is_canonical;
use crate::plonk::circuit_builder::{
    CircuitBuilder, CircuitConfig, CommonCircuitData, ProofWithPublicInputsTarget,
    VerifierCircuitTarget,
};
use crate::plonk::circuit_data::{ProofWithPublicInputs, VerifierOnlyCircuitData};
use crate::plonk::witness::{lemma_assign_all, PartialWitness};

pub mod channel;
pub mod game;

verus! {

/// A proof with all that is needed to verify it, natively or inside another
/// circuit: the proof with its public inputs, the verifier data, and the
/// shape of its circuit.
pub type ProofTuple = (ProofWithPublicInputs, VerifierOnlyCircuitData, CommonCircuitData);

/// The wires of a circuit that stand for a proof it verifies.
#[derive(Debug)]
pub struct RecursiveTargets {
    pub proof: ProofWithPublicInputsTarget,
    pub verifier: VerifierCircuitTarget,
}

/// All of `values` are canonical field elements.
pub open spec fn all_canonical(values: Seq<u64>) -> bool {
    forall|k: int| 0 <= k < values.len() ==> is_canonical(#[trigger] values[k])
}

/// A proof has the public inputs that its shape announces, and they are
/// field elements.
pub open spec fn proof_is_sound(proof: ProofTuple) -> bool {
    &&& proof.0.public_inputs@.len() == proof.2.num_public_inputs
    &&& all_canonical(proof.0.public_inputs@)
}

/// Wraps a proof in a circuit that verifies it and exposes the same public
/// inputs, under the given configuration.
pub fn shield(inner: &ProofTuple, config: CircuitConfig) -> (result: Result<
    ProofTuple,
    CircuitError,
>)
    ensures
        inner.0.public_inputs@.len() != inner.2.num_public_inputs ==> result is Err
            && result->Err_0 == CircuitError::InvalidProof,
        inner.0.public_inputs@.len() == inner.2.num_public_inputs && !all_canonical(
            inner.0.public_inputs@,
        ) ==> result is Err && result->Err_0 == CircuitError::Unsatisfiable,
        proof_is_sound(*inner) ==> result is Ok && result->Ok_0.0.public_inputs@
            == inner.0.public_inputs@ && result->Ok_0.2 == (CommonCircuitData {
            config,
            num_public_inputs: inner.2.num_public_inputs,
        }),
        result is Ok ==> proof_is_sound(result->Ok_0),
{
    if inner.0.public_inputs.len() != inner.2.num_public_inputs {
        return Err(CircuitError::InvalidProof);
    }
    let mut builder = CircuitBuilder::new(config);
    let ghost b0 = builder;
    let pt = builder.add_virtual_proof_with_pis(&inner.2);
    let ghost b1 = builder;
    builder.register_public_inputs(&pt.public_inputs);
    let ghost b2 = builder;
    let data = builder.build();
    let mut witness = PartialWitness::new();
    witness.set_proof_with_pis_target(&pt, &inner.0);
    proof {
        let w = witness@;
        let n = inner.0.public_inputs@.len() as int;
        assert forall|k: int| 0 <= k < n implies w.contains_key(k) && w[k]
            == #[trigger] inner.0.public_inputs@[k] by {
            lemma_assign_all(
                Map::<int, u64>::empty(),
                pt.public_inputs@,
                inner.0.public_inputs@,
                n,
                0,
                k,
            );
        }
        assert(data.public_inputs@ =~= pt.public_inputs@);
        assert(data.satisfied(w) == b1.satisfied(w));
        assert(b1.satisfied(w) == all_canonical(inner.0.public_inputs@)) by {
            if all_canonical(inner.0.public_inputs@) {
                assert forall|k: int| 0 <= k < n implies crate::plonk::circuit_builder::supplied(
                    w,
                    #[trigger] pt.public_inputs@[k],
                ) by {
                    assert(w[0 + k] == inner.0.public_inputs@[k]);
                }
            }
            if b1.satisfied(w) {
                assert forall|k: int| 0 <= k < n implies is_canonical(
                    #[trigger] inner.0.public_inputs@[k],
                ) by {
                    assert(crate::plonk::circuit_builder::supplied(w, pt.public_inputs@[k]));
                    assert(w[0 + k] == inner.0.public_inputs@[k]);
                }
            }
        }
        if all_canonical(inner.0.public_inputs@) {
            assert(data.outputs(w) =~= inner.0.public_inputs@) by {
                assert forall|k: int| 0 <= k < n implies data.outputs(w)[k]
                    == inner.0.public_inputs@[k] by {
                    assert(crate::plonk::circuit_builder::supplied(w, pt.public_inputs@[k]));
                    assert(b1.value(w, pt.public_inputs@[k]) == w[pt.public_inputs@[k].index as int]);
                    assert(w[0 + k] == inner.0.public_inputs@[k]);
                    assert(data.value(w, pt.public_inputs@[k]) == b1.value(
                        w,
                        pt.public_inputs@[k],
                    ));
                }
            }
        }
    }
    let proof = data.prove(&witness)?;
    Ok((proof, data.verifier_only, data.common))
}

} // verus!
