//! Predicates over attributes: the statement that the attributes behind a
//! public commitment satisfy a predicate of the verifier's choice.

use vstd::prelude::*;
use crate::bytes::bytes_eq;
use crate::groth16::{accepted, concat_inputs, groth16_verdict, groth16_verify};
use crate::proof_data_structures::{PredProof, PredVerifyingKey};

verus! {

/// An attribute record: it has a default, which fixes the shape of a
/// statement before any real record exists, and it can be committed to.
pub trait Attrs: Default {
    /// The commitment to this record.
    fn commit(&self) -> Vec<u8>;
}

/// Any predicate that someone might want to prove over an attribute record.
pub trait PredicateChecker<A: Attrs> {
    /// Whether the record satisfies the predicate.
    fn pred(&self, attrs: &A) -> bool;

    /// The field elements that are the public inputs of this predicate, in
    /// their order. The commitment to the attributes is not among them.
    fn public_inputs(&self) -> Vec<Vec<u8>>;
}

/// Why no predicate statement was built.
#[derive(Clone, Copy, Debug, PartialEq, Eq, Structural)]
pub enum ProvingError {
    /// The attributes do not satisfy the predicate, so no witness exists.
    PredicateFalse,
}

/// The predicate statement as a prover holds it: the attributes behind a
/// public commitment satisfy the checker's predicate. The commitment to the
/// Merkle root is public too; nothing in the statement constrains it.
pub struct PredicateProver<P, A> {
    pub checker: P,
    pub attrs: A,
    pub merkle_root_com: Vec<u8>,
}

impl<A: Attrs, P: PredicateChecker<A>> PredicateProver<P, A> {
    /// Builds the statement once the checker has answered: with the answer
    /// `true` the prover is made, with `false` there is nothing to prove.
    pub fn checked(checker: P, attrs: A, merkle_root_com: Vec<u8>, holds: bool) -> (res: Result<
        PredicateProver<P, A>,
        ProvingError,
    >)
        ensures
            holds ==> res == Ok::<PredicateProver<P, A>, ProvingError>(
                PredicateProver { checker, attrs, merkle_root_com },
            ),
            !holds ==> res == Err::<PredicateProver<P, A>, ProvingError>(
                ProvingError::PredicateFalse,
            ),
    {
        if holds {
            Ok(PredicateProver { checker, attrs, merkle_root_com })
        } else {
            Err(ProvingError::PredicateFalse)
        }
    }

    /// The public commitment of the statement: the commitment to the
    /// attributes that the prover holds.
    pub fn attrs_com(&self) -> (com: Vec<u8>)
        ensures
            call_ensures(<A as Attrs>::commit, (&self.attrs,), com),
    {
        self.attrs.commit()
    }

    /// Checks the statement against a public commitment, as the
    /// constraints of the predicate circuit do: the attributes commit to
    /// `attrs_com`, and they satisfy the predicate.
    pub fn is_satisfied(&self, attrs_com: &Vec<u8>) -> (ok: bool)
        ensures
            exists|com: Vec<u8>, holds: bool|
                call_ensures(<A as Attrs>::commit, (&self.attrs,), com) && call_ensures(
                    <P as PredicateChecker<A>>::pred,
                    (&self.checker, &self.attrs),
                    holds,
                ) && ok == statement_holds(com@, attrs_com@, holds),
    {
        let com = self.attrs.commit();
        let holds = self.checker.pred(&self.attrs);
        enforce(&com, attrs_com, holds)
    }
}

/// What the predicate statement demands: the commitment recomputed from
/// the witnessed attributes is the public one, and the predicate holds.
pub open spec fn statement_holds(recomputed: Seq<u8>, attrs_com: Seq<u8>, holds: bool) -> bool {
    recomputed == attrs_com && holds
}

/// Decides the predicate statement from the recomputed commitment and the
/// checker's answer.
pub fn enforce(recomputed: &Vec<u8>, attrs_com: &Vec<u8>, holds: bool) -> (ok: bool)
    ensures
        ok == statement_holds(recomputed@, attrs_com@, holds),
{
    bytes_eq(recomputed, attrs_com) && holds
}

/// Sets the predicate statement up for key generation, with the default
/// attribute record and a default commitment to the root.
pub fn gen_pred_crs<A: Attrs, P: PredicateChecker<A>>(checker: P, merkle_root_com: Vec<u8>) -> (prover:
    PredicateProver<P, A>)
    ensures
        prover.checker == checker,
        prover.merkle_root_com == merkle_root_com,
        call_ensures(<A as Default>::default, (), prover.attrs),
{
    PredicateProver { checker, attrs: A::default(), merkle_root_com }
}

/// Builds the predicate statement for `attrs`. No statement is built for
/// attributes that the checker refuses.
pub fn prove_pred<A: Attrs, P: PredicateChecker<A>>(
    checker: P,
    attrs: A,
    merkle_root_com: Vec<u8>,
) -> (res: Result<PredicateProver<P, A>, ProvingError>)
    ensures
        match res {
            Ok(prover) => {
                &&& prover == (PredicateProver { checker, attrs, merkle_root_com })
                &&& call_ensures(<P as PredicateChecker<A>>::pred, (&checker, &attrs), true)
            },
            Err(e) => {
                &&& e == ProvingError::PredicateFalse
                &&& call_ensures(<P as PredicateChecker<A>>::pred, (&checker, &attrs), false)
            },
        },
{
    let holds = checker.pred(&attrs);
    PredicateProver::checked(checker, attrs, merkle_root_com, holds)
}

/// What a verifier prepares before a proof arrives: the verifying key and
/// the predicate's own public inputs.
pub struct PredPublicInput {
    pub vk: Vec<u8>,
    pub pinput: Vec<Vec<u8>>,
}

/// Prepares the part of the public inputs that the checker fixes.
pub fn prepare_pred_inputs<A: Attrs, P: PredicateChecker<A>>(
    vk: &PredVerifyingKey,
    checker: &P,
) -> (prepared: PredPublicInput)
    ensures
        prepared.vk@ == vk.bytes@,
        call_ensures(<P as PredicateChecker<A>>::public_inputs, (checker,), prepared.pinput),
{
    PredPublicInput { vk: vk.bytes.clone(), pinput: checker.public_inputs() }
}

/// The full public-input vector of a predicate proof: the commitment to the
/// attributes, then the commitment to the root, then the predicate's own.
pub open spec fn pred_inputs(
    attrs_com: Seq<Seq<u8>>,
    merkle_root_com: Seq<Seq<u8>>,
    pinput: Seq<Seq<u8>>,
) -> Seq<Seq<u8>> {
    attrs_com + merkle_root_com + pinput
}

/// Verifies a predicate proof against a commitment to attributes and a
/// commitment to a root, both given as field elements.
pub fn verify_pred(
    prepared: &PredPublicInput,
    proof: &PredProof,
    attrs_com: &Vec<Vec<u8>>,
    merkle_root_com: &Vec<Vec<u8>>,
) -> (ok: bool)
    ensures
        ok == (groth16_verdict(
            prepared.vk@,
            proof.bytes@,
            pred_inputs(
                attrs_com.deep_view(),
                merkle_root_com.deep_view(),
                prepared.pinput.deep_view(),
            ),
        ) == Some(true)),
{
    let public = concat_inputs(attrs_com, merkle_root_com);
    let all_inputs = concat_inputs(&public, &prepared.pinput);
    accepted(groth16_verify(&prepared.vk, &proof.bytes, &all_inputs))
}

} // verus!
