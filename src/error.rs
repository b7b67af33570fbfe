//! The ways in which the function's operations fail.
use vstd::prelude::*;

verus! {

/// Why an operation failed.
#[derive(Clone, Copy, Debug, PartialEq, Eq, Structural)]
pub enum VrfError {
    /// The public key is not on the curve, or is the point at infinity.
    InvalidPublicKey,
    /// The secret key is zero.
    InvalidSecretKey,
    /// No curve point was found for the input within the bound on attempts.
    ProofGenerationError,
    /// A proof's point is not on the curve, or is the point at infinity.
    MalformedProofEncoding,
}

} // verus!
