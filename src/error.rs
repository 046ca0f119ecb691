use vstd::prelude::*;

verus! {

/// Why an operation on the operator registry failed.
#[derive(Clone, Copy, Debug, PartialEq, Eq, Structural)]
pub enum AuthError {
    /// The caller does not hold the owner capability.
    NotOwner,
    /// Rotation parameters do not decode as `(address[], uint256[], uint256)`.
    MalformedParams,
    /// A proof does not decode, or its operator set is not well formed.
    MalformedProof,
    /// Operators are empty, not strictly ascending, or the first one is zero.
    InvalidOperators,
    /// The number of weights differs from the number of operators.
    InvalidWeights,
    /// The threshold is zero or exceeds the total weight.
    InvalidThreshold,
    /// The operator set was already committed.
    DuplicateOperators,
    /// A signature does not recover to a signer.
    InvalidSignature,
    /// A signer does not match any operator at or after the cursor.
    UnmatchedSigner,
    /// All signatures were consumed without reaching the threshold.
    InsufficientWeight,
}

} // verus!
