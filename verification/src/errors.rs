//! The errors that the commitment scheme reports.

use vstd::prelude::*;

verus! {

/// Why a commitment, an opening or a verification failed.
#[derive(Clone, Copy, Debug, PartialEq, Eq, Structural)]
pub enum ProofVerifyError {
    /// The prover key holds fewer powers than the polynomial has
    /// coefficients: the powers it holds, then the coefficients.
    KeyLengthError(usize, usize),
    /// The verifier rejects the proof.
    InternalError,
}

impl ProofVerifyError {
    /// A description of the error.
    pub fn message(&self) -> (s: String)
        ensures
            s@ == match *self {
                ProofVerifyError::KeyLengthError(_, _) => "Length Error: SRS Length is too short"@,
                ProofVerifyError::InternalError => "Invalid proof"@,
            },
    {
        match self {
            ProofVerifyError::KeyLengthError(_, _) => "Length Error: SRS Length is too short".to_string(),
            ProofVerifyError::InternalError => "Invalid proof".to_string(),
        }
    }
}

} // verus!
