//! Verification of proofs, from merkle inclusion proofs to zero-knowledge proofs.

use vstd::prelude::*;

use crate::dispatch::DispatchError;

verus! {

/// Why a proof was not accepted.
#[derive(Clone, Copy, Debug, PartialEq, Eq, Structural)]
pub enum VerifyError {
    /// The proof is invalid.
    InvalidProof,
    /// The program or verification key is not registered.
    UnknownProgram,
    /// The public inputs are malformed.
    InvalidInputs,
}

/// The message a dispatch error carries for each way a proof can fail.
pub open spec fn verify_error_message(e: VerifyError) -> &'static str {
    match e {
        VerifyError::InvalidProof => "InvalidProof",
        VerifyError::UnknownProgram => "UnknownProgram",
        VerifyError::InvalidInputs => "InvalidInputs",
    }
}

impl From<VerifyError> for DispatchError {
    fn from(e: VerifyError) -> (r: DispatchError) {
        match e {
            VerifyError::InvalidProof => DispatchError::Other("InvalidProof"),
            VerifyError::UnknownProgram => DispatchError::Other("UnknownProgram"),
            VerifyError::InvalidInputs => DispatchError::Other("InvalidInputs"),
        }
    }
}

impl vstd::std_specs::convert::FromSpecImpl<VerifyError> for DispatchError {
    open spec fn obeys_from_spec() -> bool {
        true
    }

    open spec fn from_spec(e: VerifyError) -> DispatchError {
        DispatchError::Other(verify_error_message(e))
    }
}

/// Verifies proofs of a program's statements: implemented by each verifier.
pub trait ProofVerifier {
    /// The proof blob.
    type Proof;
    /// The public inputs and outputs visible to the verifier.
    type PublicInputs;
    /// Identifies the verification program (a verification key, a circuit id); `()` for
    /// verifiers that need no program selection.
    type ProgramId;

    /// Verifies a proof for the given program and public inputs.
    fn verify(
        program: &Self::ProgramId,
        proof: &Self::Proof,
        public_inputs: &Self::PublicInputs,
    ) -> Result<(), VerifyError>;
}

} // verus!
