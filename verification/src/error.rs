use vstd::prelude::*;

verus! {

/// Why a circuit could not be laid out or proved.
#[derive(Clone, Copy, Debug, PartialEq, Eq, Structural)]
pub enum CircuitError {
    /// No assignment of the remaining wires satisfies the constraints under
    /// the given witness.
    Unsatisfiable,
    /// A proof handed in for recursive verification does not have the public
    /// inputs of a proof of its kind.
    InvalidProof,
    /// The configuration is too narrow for the circuit that is to be laid
    /// out under it.
    ConfigMismatch,
    /// A gate reads a wire that does not come before it.
    Malformed,
}

} // verus!
