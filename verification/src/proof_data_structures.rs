//! Keys and proofs as they are stored and sent: the canonical byte encoding
//! of the proof system's values, one type for each role so that a key or a
//! proof of one statement is not taken for one of the other.

use vstd::prelude::*;

verus! {

/// A verifying key for tree membership.
pub struct TreeVerifyingKey {
    pub bytes: Vec<u8>,
}

/// A proof of tree membership.
pub struct TreeProof {
    pub bytes: Vec<u8>,
}

/// A verifying key for a predicate.
pub struct PredVerifyingKey {
    pub bytes: Vec<u8>,
}

/// A proof that a predicate holds.
pub struct PredProof {
    pub bytes: Vec<u8>,
}

} // verus!
