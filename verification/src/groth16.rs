//! The pairing-based proof system, as far as a verifier needs it.
//!
//! Keys, proofs and field elements cross this boundary in their canonical
//! byte encoding over BLS12-381.

use vstd::prelude::*;
use ark_bls12_381::{Bls12_381, Fr};
use ark_groth16::{PreparedVerifyingKey, Proof, VerifyingKey};
use ark_serialize::CanonicalDeserialize;

verus! {

/// What Groth16 verification says of an encoded verifying key, an encoded
/// proof and a vector of encoded public inputs: whether the proof is
/// accepted, or `None` where the verifier gives no verdict, because one of
/// the three does not decode or because it ends in an error, as it does for
/// a key that does not fit the number of inputs.
pub uninterp spec fn groth16_verdict(vk: Seq<u8>, proof: Seq<u8>, inputs: Seq<Seq<u8>>) -> Option<
    bool,
>;

/// Calls `ark_groth16::verify_proof` on the decoded key, proof and inputs.
/// Nothing is claimed of the verdict but that it is the one that the
/// verifier gives for these bytes, the same whenever it is asked. The key,
/// the proof and each input are decoded with `CanonicalDeserialize`, which
/// checks every group and field element; a failure to decode and an error
/// of the verifier both come back as `None`.
#[verifier::external_body]
pub(crate) fn groth16_verify(vk: &Vec<u8>, proof: &Vec<u8>, inputs: &Vec<Vec<u8>>) -> (verdict:
    Option<bool>)
    ensures
        verdict == groth16_verdict(vk@, proof@, inputs.deep_view()),
{
    let vk = VerifyingKey::<Bls12_381>::deserialize(&vk[..]).ok()?;
    let proof = Proof::<Bls12_381>::deserialize(&proof[..]).ok()?;
    let mut elements: Vec<Fr> = Vec::new();
    for input in inputs.iter() {
        elements.push(Fr::deserialize(&input[..]).ok()?);
    }
    ark_groth16::verify_proof(&PreparedVerifyingKey::from(vk), &proof, &elements).ok()
}

/// Whether a verdict is an acceptance. A verifier never fails: whatever is
/// not an acceptance is a refusal.
pub fn accepted(verdict: Option<bool>) -> (ok: bool)
    ensures
        ok == (verdict == Some(true)),
{
    match verdict {
        Some(ok) => ok,
        None => false,
    }
}

/// The public inputs `first` followed by the public inputs `second`.
pub fn concat_inputs(first: &Vec<Vec<u8>>, second: &Vec<Vec<u8>>) -> (all: Vec<Vec<u8>>)
    ensures
        all.deep_view() == first.deep_view() + second.deep_view(),
{
    let mut all: Vec<Vec<u8>> = Vec::new();
    let mut i: usize = 0;
    while i < first.len()
        invariant
            i <= first@.len(),
            all@.len() == i,
            forall|j: int| 0 <= j < i ==> (#[trigger] all@[j])@ == first@[j]@,
        decreases first@.len() - i,
    {
        all.push(first[i].clone());
        i += 1;
    }
    let mut k: usize = 0;
    while k < second.len()
        invariant
            k <= second@.len(),
            all@.len() == first@.len() + k,
            forall|j: int| 0 <= j < first@.len() ==> (#[trigger] all@[j])@ == first@[j]@,
            forall|j: int| 0 <= j < k ==> (#[trigger] all@[first@.len() + j])@ == second@[j]@,
        decreases second@.len() - k,
    {
        all.push(second[k].clone());
        k += 1;
    }
    assert(all.deep_view() =~= first.deep_view() + second.deep_view()) by {
        assert forall|j: int| 0 <= j < all@.len() implies all.deep_view()[j] == (first.deep_view()
            + second.deep_view())[j] by {
            if j >= first@.len() {
                assert(all@[first@.len() + (j - first@.len())]@ == second@[j - first@.len()]@);
            }
        }
    }
    all
}

} // verus!
