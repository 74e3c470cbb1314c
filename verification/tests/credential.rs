use std::cmp::Ordering;
use std::sync::OnceLock;

use ark_bls12_381::{Bls12_381, Fr};
use ark_crypto_primitives::commitment::injective_map::constraints::CommitmentCompressorGadget;
use ark_crypto_primitives::commitment::injective_map::PedersenCommCompressor;
use ark_crypto_primitives::commitment::pedersen::{
    Parameters as ComParams, Randomness as ComRandomness,
};
use ark_crypto_primitives::commitment::{CommitmentGadget, CommitmentScheme};
use ark_crypto_primitives::crh::injective_map::constraints::{
    PedersenCRHCompressorGadget, TECompressorGadget,
};
use ark_crypto_primitives::crh::injective_map::{PedersenCRHCompressor, TECompressor};
use ark_crypto_primitives::crh::{pedersen, TwoToOneCRH, TwoToOneCRHGadget};
use ark_ed_on_bls12_381::constraints::EdwardsVar;
use ark_ed_on_bls12_381::EdwardsProjective;
use ark_ff::{FromBytes, ToBytes, UniformRand};
use ark_groth16::{create_random_proof, generate_random_parameters, ProvingKey};
use ark_r1cs_std::alloc::AllocVar;
use ark_r1cs_std::boolean::Boolean;
use ark_r1cs_std::eq::EqGadget;
use ark_r1cs_std::fields::fp::FpVar;
use ark_r1cs_std::uint8::UInt8;
use ark_r1cs_std::{ToBitsGadget, ToBytesGadget};
use ark_relations::r1cs::{
    ConstraintSynthesizer, ConstraintSystem, ConstraintSystemRef, SynthesisError,
};
use ark_serialize::CanonicalSerialize;
use ark_std::rand::Rng;

use zkcreds::binding::{verify_linked, MembershipShow, PredicateShow};
use zkcreds::com_tree::{
    gen_tree_memb_crs, verify_tree_memb, ComTree, ComTreeConfig, TreeMembershipProver,
};
use zkcreds::hash::TwoToOneHash;
use zkcreds::path::SparseMerkleTreePath;
use zkcreds::pred::{
    gen_pred_crs, prepare_pred_inputs, prove_pred, verify_pred, Attrs, PredicateChecker,
    PredicateProver, ProvingError,
};
use zkcreds::proof_data_structures::{PredProof, PredVerifyingKey, TreeProof, TreeVerifyingKey};

// ---- the primitives: Pedersen over Jubjub, compressed to one field element ----

#[derive(Clone)]
struct TreeWindow;

impl pedersen::Window for TreeWindow {
    const WINDOW_SIZE: usize = 4;
    const NUM_WINDOWS: usize = 128;
}

#[derive(Clone)]
struct ComWindow;

impl pedersen::Window for ComWindow {
    const WINDOW_SIZE: usize = 4;
    const NUM_WINDOWS: usize = 36;
}

type TreeH = PedersenCRHCompressor<EdwardsProjective, TECompressor, TreeWindow>;
type TreeHG = PedersenCRHCompressorGadget<
    EdwardsProjective,
    TECompressor,
    TreeWindow,
    EdwardsVar,
    TECompressorGadget,
>;
type TreeParams = pedersen::Parameters<EdwardsProjective>;
type Com = PedersenCommCompressor<EdwardsProjective, TECompressor, ComWindow>;
type ComG = CommitmentCompressorGadget<
    EdwardsProjective,
    TECompressor,
    ComWindow,
    EdwardsVar,
    TECompressorGadget,
>;

fn tree_params() -> &'static TreeParams {
    static PARAMS: OnceLock<TreeParams> = OnceLock::new();
    PARAMS.get_or_init(|| <TreeH as TwoToOneCRH>::setup(&mut ark_std::test_rng()).unwrap())
}

fn com_params() -> &'static ComParams<EdwardsProjective> {
    static PARAMS: OnceLock<ComParams<EdwardsProjective>> = OnceLock::new();
    PARAMS.get_or_init(|| <Com as CommitmentScheme>::setup(&mut ark_std::test_rng()).unwrap())
}

/// A field element as a block of 32 bytes.
fn block(element: &Fr) -> Vec<u8> {
    let mut bytes = Vec::new();
    element.write(&mut bytes).unwrap();
    bytes
}

fn element(block: &[u8]) -> Fr {
    Fr::read(block).unwrap()
}

fn encoded<T: CanonicalSerialize>(value: &T) -> Vec<u8> {
    let mut bytes = Vec::new();
    value.serialize(&mut bytes).unwrap();
    bytes
}

/// The Pedersen hash with its parameters.
struct PedersenHasher;

impl TwoToOneHash for PedersenHasher {
    fn evaluate(&self, left: &Vec<u8>, right: &Vec<u8>) -> Vec<u8> {
        block(&<TreeH as TwoToOneCRH>::evaluate(tree_params(), left, right).unwrap())
    }

    fn default_output(&self) -> Vec<u8> {
        block(&<TreeH as TwoToOneCRH>::Output::default())
    }
}

fn config() -> ComTreeConfig<PedersenHasher> {
    ComTreeConfig { hasher: PedersenHasher, default_leaf: block(&Fr::from(0u64)) }
}

// ---- the attributes and the predicate ----

#[derive(Clone, Default)]
struct NameAndBirthYear {
    nonce: ComRandomness<EdwardsProjective>,
    name: [u8; 16],
    birth_year: u16,
}

impl NameAndBirthYear {
    fn new<R: Rng>(rng: &mut R, name: &[u8], birth_year: u16) -> NameAndBirthYear {
        let mut padded = [0u8; 16];
        padded[..name.len()].copy_from_slice(name);
        NameAndBirthYear { nonce: ComRandomness::rand(rng), name: padded, birth_year }
    }

    fn to_bytes(&self) -> Vec<u8> {
        let mut bytes = self.name.to_vec();
        bytes.extend_from_slice(&self.birth_year.to_le_bytes());
        bytes
    }
}

impl Attrs for NameAndBirthYear {
    fn commit(&self) -> Vec<u8> {
        block(&Com::commit(com_params(), &self.to_bytes(), &self.nonce).unwrap())
    }
}

/// Holds of those born in or before a given year.
#[derive(Clone)]
struct AgeChecker {
    threshold_birth_year: u16,
}

impl AgeChecker {
    fn at_least_21_in(reference_year: u16) -> AgeChecker {
        AgeChecker { threshold_birth_year: reference_year - 21 }
    }
}

impl PredicateChecker<NameAndBirthYear> for AgeChecker {
    fn pred(&self, attrs: &NameAndBirthYear) -> bool {
        attrs.birth_year <= self.threshold_birth_year
    }

    fn public_inputs(&self) -> Vec<Vec<u8>> {
        vec![block(&Fr::from(self.threshold_birth_year as u64))]
    }
}

// ---- the circuits ----

/// The path recomputes to the public root from a leaf pair that holds the
/// public commitment.
struct MembershipCircuit {
    attrs_com: Vec<u8>,
    root: Vec<u8>,
    path: SparseMerkleTreePath,
}

impl MembershipCircuit {
    fn of(prover: TreeMembershipProver<PedersenHasher>) -> MembershipCircuit {
        MembershipCircuit {
            attrs_com: prover.attrs_com.clone(),
            root: prover.root.clone(),
            path: prover.witness_path(),
        }
    }
}

fn pair_var(
    cs: &ConstraintSystemRef<Fr>,
    pair: &(Vec<u8>, Vec<u8>),
) -> Result<(FpVar<Fr>, FpVar<Fr>), SynthesisError> {
    let left = FpVar::new_witness(cs.clone(), || Ok(element(&pair.0)))?;
    let right = FpVar::new_witness(cs.clone(), || Ok(element(&pair.1)))?;
    Ok((left, right))
}

fn enforce_one_of(node: &FpVar<Fr>, pair: &(FpVar<Fr>, FpVar<Fr>)) -> Result<(), SynthesisError> {
    let is_left = node.is_eq(&pair.0)?;
    let is_right = node.is_eq(&pair.1)?;
    is_left.or(&is_right)?.enforce_equal(&Boolean::TRUE)
}

fn parent_var(
    params: &<TreeHG as TwoToOneCRHGadget<TreeH, Fr>>::ParametersVar,
    pair: &(FpVar<Fr>, FpVar<Fr>),
) -> Result<FpVar<Fr>, SynthesisError> {
    <TreeHG as TwoToOneCRHGadget<TreeH, Fr>>::evaluate(
        params,
        &pair.0.to_bytes()?,
        &pair.1.to_bytes()?,
    )
}

impl ConstraintSynthesizer<Fr> for MembershipCircuit {
    fn generate_constraints(self, cs: ConstraintSystemRef<Fr>) -> Result<(), SynthesisError> {
        let attrs_com = FpVar::new_input(cs.clone(), || Ok(element(&self.attrs_com)))?;
        let root = FpVar::new_input(cs.clone(), || Ok(element(&self.root)))?;
        let params = <TreeHG as TwoToOneCRHGadget<TreeH, Fr>>::ParametersVar::new_constant(
            cs.clone(),
            tree_params(),
        )?;
        let leaves = pair_var(&cs, &self.path.leaf_hashes)?;
        enforce_one_of(&attrs_com, &leaves)?;
        let mut reached = parent_var(&params, &leaves)?;
        for pair in self.path.inner_hashes.iter() {
            let pair = pair_var(&cs, pair)?;
            enforce_one_of(&reached, &pair)?;
            reached = parent_var(&params, &pair)?;
        }
        reached.enforce_equal(&root)
    }
}

/// The witnessed attributes commit to the public commitment and satisfy the
/// predicate; the commitment to the root is public and unconstrained.
struct PredicateCircuit {
    threshold_birth_year: u16,
    attrs: NameAndBirthYear,
    merkle_root_com: Vec<u8>,
}

impl PredicateCircuit {
    fn of(prover: PredicateProver<AgeChecker, NameAndBirthYear>) -> PredicateCircuit {
        PredicateCircuit {
            threshold_birth_year: prover.checker.threshold_birth_year,
            attrs: prover.attrs,
            merkle_root_com: prover.merkle_root_com,
        }
    }
}

impl ConstraintSynthesizer<Fr> for PredicateCircuit {
    fn generate_constraints(self, cs: ConstraintSystemRef<Fr>) -> Result<(), SynthesisError> {
        let attrs_com = FpVar::new_input(cs.clone(), || Ok(element(&self.attrs.commit())))?;
        let _root_com = FpVar::new_input(cs.clone(), || Ok(element(&self.merkle_root_com)))?;

        let params = <ComG as CommitmentGadget<Com, Fr>>::ParametersVar::new_constant(
            cs.clone(),
            com_params(),
        )?;
        let nonce = <ComG as CommitmentGadget<Com, Fr>>::RandomnessVar::new_witness(
            cs.clone(),
            || Ok(&self.attrs.nonce),
        )?;
        let name = UInt8::new_witness_vec(cs.clone(), &self.attrs.name)?;
        let year = UInt8::new_witness_vec(cs.clone(), &self.attrs.birth_year.to_le_bytes())?;
        let mut record = name;
        record.extend(year.iter().cloned());
        let recomputed = <ComG as CommitmentGadget<Com, Fr>>::commit(&params, &record, &nonce)?;
        attrs_com.enforce_equal(&recomputed)?;

        let threshold =
            FpVar::new_input(cs.clone(), || Ok(Fr::from(self.threshold_birth_year as u64)))?;
        let year_bits = year.to_bits_le()?;
        let birth_year = Boolean::le_bits_to_fp_var(&year_bits)?;
        let success = birth_year.is_cmp(&threshold, Ordering::Less, true)?;
        success.enforce_equal(&Boolean::TRUE)
    }
}

// ---- the lifecycle: keys and proofs as the library takes them ----

fn tree_keys<R: Rng>(rng: &mut R, height: u32) -> (ProvingKey<Bls12_381>, TreeVerifyingKey) {
    let config = config();
    let setup = MembershipCircuit::of(gen_tree_memb_crs(&config, height));
    let pk: ProvingKey<Bls12_381> = generate_random_parameters(setup, rng).unwrap();
    let vk = TreeVerifyingKey { bytes: encoded(&pk.vk) };
    (pk, vk)
}

fn tree_proof<R: Rng>(
    rng: &mut R,
    pk: &ProvingKey<Bls12_381>,
    prover: TreeMembershipProver<PedersenHasher>,
) -> TreeProof {
    let proof = create_random_proof(MembershipCircuit::of(prover), pk, rng).unwrap();
    TreeProof { bytes: encoded(&proof) }
}

fn pred_keys<R: Rng>(rng: &mut R, checker: &AgeChecker) -> (ProvingKey<Bls12_381>, PredVerifyingKey) {
    let setup = PredicateCircuit::of(gen_pred_crs(checker.clone(), block(&Fr::from(0u64))));
    let pk: ProvingKey<Bls12_381> = generate_random_parameters(setup, rng).unwrap();
    let vk = PredVerifyingKey { bytes: encoded(&pk.vk) };
    (pk, vk)
}

fn pred_proof<R: Rng>(
    rng: &mut R,
    pk: &ProvingKey<Bls12_381>,
    prover: PredicateProver<AgeChecker, NameAndBirthYear>,
) -> PredProof {
    let proof = create_random_proof(PredicateCircuit::of(prover), pk, rng).unwrap();
    PredProof { bytes: encoded(&proof) }
}

fn flip(bytes: &[u8], bit: usize) -> Vec<u8> {
    let mut flipped = bytes.to_vec();
    flipped[bit / 8] ^= 1 << (bit % 8);
    flipped
}

// ---- the tests ----

/// A commitment in the tree is proved to be there, and the proof verifies.
#[test]
fn test_com_tree_proof() {
    let mut rng = ark_std::test_rng();
    let tree_height = 32;

    // Make a attribute to put in the tree
    let person = NameAndBirthYear::new(&mut rng, b"Andrew", 1992);
    let person_com = person.commit();

    // Generate the membership circuit's CRS
    let (pk, vk) = tree_keys(&mut rng, tree_height);

    // Make a tree and "issue", i.e., put the person commitment in the tree at index 17
    let leaf_idx = 17;
    let mut tree = ComTree::empty(config(), tree_height);
    tree.insert(leaf_idx, &person_com);

    // The person can now prove membership in the tree
    let prover = tree.prove_membership(leaf_idx, person_com.clone()).unwrap();
    let proof = tree_proof(&mut rng, &pk, prover);

    assert!(verify_tree_memb(&vk, &proof, &vec![person_com], &vec![tree.root()]));
}

#[test]
fn membership_and_predicate_proofs_are_linked_by_the_commitment() {
    let mut rng = ark_std::test_rng();
    let tree_height = 32;
    let person = NameAndBirthYear::new(&mut rng, b"Andrew", 1992);
    let person_com = person.commit();
    let checker = AgeChecker::at_least_21_in(2021);

    let (tree_pk, tree_vk) = tree_keys(&mut rng, tree_height);
    let (pred_pk, pred_vk) = pred_keys(&mut rng, &checker);

    let mut tree = ComTree::empty(config(), tree_height);
    tree.insert(17, &person_com);
    let root = tree.root();
    let root_com = block(&Fr::from(5u64));

    let tree_prover = tree.prove_membership(17, person_com.clone()).unwrap();
    let membership = MembershipShow {
        proof: tree_proof(&mut rng, &tree_pk, tree_prover),
        attrs_com: vec![person_com.clone()],
        merkle_root: vec![root.clone()],
    };
    assert!(verify_tree_memb(&tree_vk, &membership.proof, &membership.attrs_com, &membership.merkle_root));

    let pred_prover = prove_pred(checker.clone(), person.clone(), root_com.clone()).unwrap();
    let attrs_com = pred_prover.attrs_com();
    let predicate = PredicateShow {
        proof: pred_proof(&mut rng, &pred_pk, pred_prover),
        attrs_com: vec![attrs_com],
        merkle_root_com: vec![root_com.clone()],
    };
    let prepared = prepare_pred_inputs(&pred_vk, &checker);
    assert!(verify_pred(&prepared, &predicate.proof, &predicate.attrs_com, &predicate.merkle_root_com));

    assert_eq!(membership.attrs_com, predicate.attrs_com);
    assert!(verify_linked(&tree_vk, &membership, &prepared, &predicate));

    // the same proofs, shown for another commitment on one side
    let other = PredicateShow {
        proof: PredProof { bytes: predicate.proof.bytes.clone() },
        attrs_com: vec![block(&Fr::from(1u64))],
        merkle_root_com: vec![root_com],
    };
    assert!(!verify_linked(&tree_vk, &membership, &prepared, &other));
}

#[test]
fn no_predicate_statement_for_someone_too_young() {
    let mut rng = ark_std::test_rng();
    let person = NameAndBirthYear::new(&mut rng, b"Andrew", 2010);
    let checker = AgeChecker::at_least_21_in(2021);
    let res = prove_pred(checker.clone(), person.clone(), block(&Fr::from(5u64)));
    assert_eq!(res.err(), Some(ProvingError::PredicateFalse));

    // and the circuit has no satisfying witness for these attributes
    let unchecked = PredicateProver { checker, attrs: person, merkle_root_com: block(&Fr::from(5u64)) };
    let cs = ConstraintSystem::<Fr>::new_ref();
    PredicateCircuit::of(unchecked).generate_constraints(cs.clone()).unwrap();
    assert!(!cs.is_satisfied().unwrap());
}

#[test]
fn predicate_circuit_is_satisfied_where_the_library_builds_the_statement() {
    let mut rng = ark_std::test_rng();
    let person = NameAndBirthYear::new(&mut rng, b"Andrew", 1992);
    let prover =
        prove_pred(AgeChecker::at_least_21_in(2021), person, block(&Fr::from(5u64))).unwrap();
    let cs = ConstraintSystem::<Fr>::new_ref();
    PredicateCircuit::of(prover).generate_constraints(cs.clone()).unwrap();
    assert!(cs.is_satisfied().unwrap());
}

#[test]
fn predicate_proof_is_refused_for_other_public_inputs() {
    let mut rng = ark_std::test_rng();
    let person = NameAndBirthYear::new(&mut rng, b"Andrew", 1992);
    let checker = AgeChecker::at_least_21_in(2021);
    let (pk, vk) = pred_keys(&mut rng, &checker);
    let root_com = block(&Fr::from(5u64));
    let prover = prove_pred(checker.clone(), person, root_com.clone()).unwrap();
    let attrs_com = prover.attrs_com();
    let proof = pred_proof(&mut rng, &pk, prover);
    let prepared = prepare_pred_inputs(&vk, &checker);
    assert!(verify_pred(&prepared, &proof, &vec![attrs_com.clone()], &vec![root_com.clone()]));

    // another threshold on the verifier's side
    let other = prepare_pred_inputs(&vk, &AgeChecker::at_least_21_in(2022));
    assert!(!verify_pred(&other, &proof, &vec![attrs_com.clone()], &vec![root_com.clone()]));
    // another commitment to the root
    assert!(!verify_pred(&prepared, &proof, &vec![attrs_com.clone()], &vec![block(&Fr::from(6u64))]));
    // the public inputs in another order
    assert!(!verify_pred(&prepared, &proof, &vec![root_com.clone()], &vec![attrs_com.clone()]));
    // too few inputs
    assert!(!verify_pred(&prepared, &proof, &vec![attrs_com], &vec![]));
}

#[test]
fn membership_proof_is_refused_for_a_flipped_root_or_commitment() {
    let mut rng = ark_std::test_rng();
    let height = 3;
    let person_com = NameAndBirthYear::new(&mut rng, b"Andrew", 1992).commit();
    let (pk, vk) = tree_keys(&mut rng, height);
    let mut tree = ComTree::empty(config(), height);
    tree.insert(5, &person_com);
    let root = tree.root();
    let proof = tree_proof(&mut rng, &pk, tree.prove_membership(5, person_com.clone()).unwrap());
    assert!(verify_tree_memb(&vk, &proof, &vec![person_com.clone()], &vec![root.clone()]));
    for bit in (0..256).step_by(5) {
        assert!(!verify_tree_memb(&vk, &proof, &vec![person_com.clone()], &vec![flip(&root, bit)]));
        assert!(!verify_tree_memb(&vk, &proof, &vec![flip(&person_com, bit)], &vec![root.clone()]));
    }
    // the inputs in the other order
    assert!(!verify_tree_memb(&vk, &proof, &vec![root.clone()], &vec![person_com.clone()]));
    // the root of the tree after another insertion
    tree.insert(6, &block(&Fr::from(3u64)));
    assert!(!verify_tree_memb(&vk, &proof, &vec![person_com], &vec![tree.root()]));
}

#[test]
fn key_for_another_height_is_refused() {
    let mut rng = ark_std::test_rng();
    let person_com = NameAndBirthYear::new(&mut rng, b"Andrew", 1992).commit();
    let (pk3, vk3) = tree_keys(&mut rng, 3);
    let (_pk4, vk4) = tree_keys(&mut rng, 4);
    let mut tree = ComTree::empty(config(), 3);
    tree.insert(2, &person_com);
    let proof = tree_proof(&mut rng, &pk3, tree.prove_membership(2, person_com.clone()).unwrap());
    assert!(verify_tree_memb(&vk3, &proof, &vec![person_com.clone()], &vec![tree.root()]));
    assert!(!verify_tree_memb(&vk4, &proof, &vec![person_com], &vec![tree.root()]));
}

#[test]
fn malformed_keys_proofs_and_inputs_are_refused() {
    let mut rng = ark_std::test_rng();
    let person_com = NameAndBirthYear::new(&mut rng, b"Andrew", 1992).commit();
    let (pk, vk) = tree_keys(&mut rng, 2);
    let mut tree = ComTree::empty(config(), 2);
    tree.insert(0, &person_com);
    let root = tree.root();
    let proof = tree_proof(&mut rng, &pk, tree.prove_membership(0, person_com.clone()).unwrap());
    assert!(verify_tree_memb(&vk, &proof, &vec![person_com.clone()], &vec![root.clone()]));

    let no_key = TreeVerifyingKey { bytes: vec![] };
    assert!(!verify_tree_memb(&no_key, &proof, &vec![person_com.clone()], &vec![root.clone()]));
    let short_key = TreeVerifyingKey { bytes: vk.bytes[..vk.bytes.len() - 1].to_vec() };
    assert!(!verify_tree_memb(&short_key, &proof, &vec![person_com.clone()], &vec![root.clone()]));
    let no_proof = TreeProof { bytes: vec![1, 2, 3] };
    assert!(!verify_tree_memb(&vk, &no_proof, &vec![person_com.clone()], &vec![root.clone()]));
    // an input that is no field element: all bits set is above the modulus
    assert!(!verify_tree_memb(&vk, &proof, &vec![vec![0xff; 32]], &vec![root.clone()]));
    assert!(!verify_tree_memb(&vk, &proof, &vec![vec![1, 2]], &vec![root.clone()]));
    // too few and too many inputs
    assert!(!verify_tree_memb(&vk, &proof, &vec![person_com.clone()], &vec![]));
    assert!(!verify_tree_memb(&vk, &proof, &vec![person_com.clone(), root.clone()], &vec![root]));
}

#[test]
fn tree_hashes_with_the_function_it_was_given() {
    let a = block(&Fr::from(11u64));
    let b = block(&Fr::from(12u64));
    let zero = block(&Fr::from(0u64));
    let hash = |l: &Vec<u8>, r: &Vec<u8>| {
        block(&<TreeH as TwoToOneCRH>::evaluate(tree_params(), l, r).unwrap())
    };
    let mut tree = ComTree::empty(config(), 2);
    assert_eq!(tree.root(), hash(&hash(&zero, &zero), &hash(&zero, &zero)));
    tree.insert(1, &a);
    tree.insert(2, &b);
    assert_eq!(tree.root(), hash(&hash(&zero, &a), &hash(&b, &zero)));
    let path = tree.generate_proof(2, &b).unwrap();
    assert_eq!(path.leaf_hashes, (b.clone(), zero.clone()));
    assert_eq!(path.inner_hashes, vec![(hash(&zero, &a), hash(&b, &zero))]);
    assert!(path.check_membership(&PedersenHasher, 2, &tree.root(), &b));
}

#[test]
fn membership_circuit_agrees_with_the_native_check() {
    let mut rng = ark_std::test_rng();
    let person_com = NameAndBirthYear::new(&mut rng, b"Andrew", 1992).commit();
    let mut tree = ComTree::empty(config(), 4);
    tree.insert(9, &person_com);

    let prover = tree.prove_membership(9, person_com.clone()).unwrap();
    assert!(prover.is_satisfied());
    let cs = ConstraintSystem::<Fr>::new_ref();
    MembershipCircuit::of(prover).generate_constraints(cs.clone()).unwrap();
    assert!(cs.is_satisfied().unwrap());

    let mut stale = tree.prove_membership(9, person_com).unwrap();
    stale.root = block(&Fr::from(1u64));
    assert!(!stale.is_satisfied());
    let cs = ConstraintSystem::<Fr>::new_ref();
    MembershipCircuit::of(stale).generate_constraints(cs.clone()).unwrap();
    assert!(!cs.is_satisfied().unwrap());
}
