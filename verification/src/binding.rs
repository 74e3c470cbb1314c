//! Binding a membership proof to a predicate proof.
//!
//! The two proofs are made and verified apart. What ties them together is
//! one public value: the commitment to the attributes is a public input of
//! both, and a verifier accepts the pair only where both proofs speak of
//! the very same field elements.

use vstd::prelude::*;
use crate::bytes::bytes_eq;
use crate::com_tree::verify_tree_memb;
use crate::groth16::groth16_verdict;
use crate::pred::{pred_inputs, verify_pred, PredPublicInput};
use crate::proof_data_structures::{PredProof, TreeProof, TreeVerifyingKey};

verus! {

/// Whether two vectors of field elements are the same, element by element.
pub fn inputs_eq(a: &Vec<Vec<u8>>, b: &Vec<Vec<u8>>) -> (same: bool)
    ensures
        same == (a.deep_view() == b.deep_view()),
{
    if a.len() != b.len() {
        assert(a.deep_view().len() != b.deep_view().len());
        return false;
    }
    let n: usize = a.len();
    let mut i: usize = 0;
    while i < n
        invariant
            n == a@.len(),
            n == b@.len(),
            i <= n,
            forall|j: int| 0 <= j < i ==> (#[trigger] a@[j])@ == b@[j]@,
        decreases n - i,
    {
        if !bytes_eq(&a[i], &b[i]) {
            assert(a.deep_view()[i as int] =~= a@[i as int]@);
            assert(b.deep_view()[i as int] =~= b@[i as int]@);
            return false;
        }
        i += 1;
    }
    assert(a.deep_view() =~= b.deep_view()) by {
        assert forall|j: int| 0 <= j < n implies a.deep_view()[j] == b.deep_view()[j] by {
            assert(a.deep_view()[j] =~= a@[j]@);
            assert(b.deep_view()[j] =~= b@[j]@);
        }
    }
    true
}

/// What a verifier is shown for tree membership: a proof, the commitment to
/// the attributes and the root, the two as field elements.
pub struct MembershipShow {
    pub proof: TreeProof,
    pub attrs_com: Vec<Vec<u8>>,
    pub merkle_root: Vec<Vec<u8>>,
}

/// What a verifier is shown for a predicate: a proof, the commitment to the
/// attributes and the commitment to the root, the two as field elements.
pub struct PredicateShow {
    pub proof: PredProof,
    pub attrs_com: Vec<Vec<u8>>,
    pub merkle_root_com: Vec<Vec<u8>>,
}

/// Whether a membership show and a predicate show are accepted as one
/// statement, "this commitment is in the tree, and the attributes behind
/// it satisfy the predicate": both proofs verify, and the commitment to
/// the attributes is the same in both.
pub open spec fn linked(
    tree_vk: Seq<u8>,
    membership: MembershipShow,
    prepared: PredPublicInput,
    predicate: PredicateShow,
) -> bool {
    &&& groth16_verdict(
        tree_vk,
        membership.proof.bytes@,
        membership.attrs_com.deep_view() + membership.merkle_root.deep_view(),
    ) == Some(true)
    &&& groth16_verdict(
        prepared.vk@,
        predicate.proof.bytes@,
        pred_inputs(
            predicate.attrs_com.deep_view(),
            predicate.merkle_root_com.deep_view(),
            prepared.pinput.deep_view(),
        ),
    ) == Some(true)
    &&& membership.attrs_com.deep_view() == predicate.attrs_com.deep_view()
}

/// Verifies a membership proof and a predicate proof and checks that they
/// speak of one commitment.
pub fn verify_linked(
    tree_vk: &TreeVerifyingKey,
    membership: &MembershipShow,
    prepared: &PredPublicInput,
    predicate: &PredicateShow,
) -> (ok: bool)
    ensures
        ok == linked(tree_vk.bytes@, *membership, *prepared, *predicate),
{
    inputs_eq(&membership.attrs_com, &predicate.attrs_com) && verify_tree_memb(
        tree_vk,
        &membership.proof,
        &membership.attrs_com,
        &membership.merkle_root,
    ) && verify_pred(prepared, &predicate.proof, &predicate.attrs_com, &predicate.merkle_root_com)
}

/// A pair of shows whose commitments differ is refused, whatever the
/// proofs are.
pub proof fn lemma_unequal_commitments_are_refused(
    tree_vk: Seq<u8>,
    membership: MembershipShow,
    prepared: PredPublicInput,
    predicate: PredicateShow,
)
    requires
        membership.attrs_com.deep_view() != predicate.attrs_com.deep_view(),
    ensures
        !linked(tree_vk, membership, prepared, predicate),
{
}

} // verus!
