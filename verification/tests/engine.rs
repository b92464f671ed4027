use bellman_ce::groth16::{create_random_proof, generate_random_parameters, Parameters};
use bellman_ce::{Circuit, ConstraintSystem, SynthesisError};
use ff_ce::PrimeField;
use merkle_membership::{
    decode_path, generate, is_usable_seed, prove, verdict, verify, CircuitInstance, Domain,
    Hasher, KGGenerate, KGProof, PipelineError, Scalar, Signal, Step, Wire, Witness,
};
use pairing_ce::bn256::{Bn256, Fr, FrRepr};
use rand::{Rng, SeedableRng, XorShiftRng};
use sapling_crypto_ce::babyjubjub::JubjubBn256;
use sapling_crypto_ce::circuit::baby_pedersen_hash::{pedersen_hash, Personalization};
use sapling_crypto_ce::circuit::boolean::{AllocatedBit, Boolean};
use sapling_crypto_ce::circuit::num::AllocatedNum;
use sapling_crypto_ce::circuit::test::TestConstraintSystem;

struct MerkleTreeCircuit<'a> {
    instance: &'a CircuitInstance,
    params: &'a JubjubBn256,
}

struct Wires {
    nums: Vec<Option<AllocatedNum<Bn256>>>,
}

fn index_of(wire: Wire) -> usize {
    match wire {
        Wire::Nullifier => 0,
        Wire::Secret => 1,
        Wire::Root => 2,
        Wire::Current => 3,
        Wire::Sibling => 4,
        Wire::Left => 5,
        Wire::Right => 6,
    }
}

impl Wires {
    fn get(&self, wire: Wire) -> Result<AllocatedNum<Bn256>, SynthesisError> {
        self.nums[index_of(wire)].clone().ok_or(SynthesisError::AssignmentMissing)
    }

    fn set(&mut self, wire: Wire, num: AllocatedNum<Bn256>) {
        self.nums[index_of(wire)] = Some(num);
    }
}

fn field_element(scalar: Scalar) -> Result<Fr, SynthesisError> {
    Fr::from_repr(FrRepr(scalar.limbs())).map_err(|_| SynthesisError::AssignmentMissing)
}

impl<'a> Circuit<Bn256> for MerkleTreeCircuit<'a> {
    fn synthesize<CS: ConstraintSystem<Bn256>>(self, cs: &mut CS) -> Result<(), SynthesisError> {
        let mut wires = Wires { nums: vec![None, None, None, None, None, None, None] };
        let mut side: Option<Boolean> = None;
        let mut preimage: Vec<Boolean> = vec![];
        for (index, step) in self.instance.steps().into_iter().enumerate() {
            let mut cs = cs.namespace(|| format!("step {}", index));
            match step {
                Step::Allocate(signal) => {
                    let value = self.instance.value(signal);
                    let num = AllocatedNum::alloc(cs.namespace(|| "signal"), || {
                        field_element(value.ok_or(SynthesisError::AssignmentMissing)?)
                    })?;
                    wires.set(signal.wire(), num);
                }
                Step::Expose(wire) => {
                    wires.get(wire)?.inputize(cs.namespace(|| "public input"))?;
                }
                Step::AllocateSide(level) => {
                    let bit = AllocatedBit::alloc(
                        cs.namespace(|| "position bit"),
                        self.instance.side(level),
                    )?;
                    side = Some(Boolean::from(bit));
                }
                Step::StrictBits(wire) => {
                    let bits =
                        wires.get(wire)?.into_bits_le_strict(cs.namespace(|| "strict bits"))?;
                    preimage.extend(bits.into_iter().take(Fr::NUM_BITS as usize));
                }
                Step::Bits(wire) => {
                    preimage.extend(wires.get(wire)?.into_bits_le(cs.namespace(|| "bits"))?);
                }
                Step::Hash(domain) => {
                    let tag = match domain {
                        Domain::NoteCommitment => Personalization::NoteCommitment,
                        Domain::MerkleTree(level) => Personalization::MerkleTree(level),
                    };
                    let point =
                        pedersen_hash(cs.namespace(|| "pedersen hash"), tag, &preimage, self.params)?;
                    wires.set(Wire::Current, point.get_x().clone());
                    preimage.clear();
                }
                Step::Swap => {
                    let condition = side.clone().ok_or(SynthesisError::AssignmentMissing)?;
                    let (left, right) = AllocatedNum::conditionally_reverse(
                        cs.namespace(|| "conditional reversal"),
                        &wires.get(Wire::Current)?,
                        &wires.get(Wire::Sibling)?,
                        &condition,
                    )?;
                    wires.set(Wire::Left, left);
                    wires.set(Wire::Right, right);
                }
                Step::EnforceRoot => {
                    let current = wires.get(Wire::Current)?;
                    let root = wires.get(Wire::Root)?;
                    cs.enforce(
                        || "root",
                        |lc| lc + current.get_variable(),
                        |lc| lc + CS::one(),
                        |lc| lc + root.get_variable(),
                    );
                }
            }
        }
        Ok(())
    }
}

fn scalar(text: &str) -> Scalar {
    Scalar::parse(text).unwrap()
}

const LOWER_SIBLINGS: &str =
    "0000000000000000000000000000000a0000000000000000000000000000000b";
const SIDES: &str = "010";

/// The path of the scenario: three levels with sides (false, true, false).
/// The two lower siblings are fixed; the top one is the first number from 12
/// on for which the root of the note (1, 1) is below the subgroup order.
/// Hands back the siblings and that root.
fn fixed_witness(hasher: &Hasher) -> (String, String) {
    let mut top: u64 = 12;
    loop {
        let siblings = format!("{}{:032x}", LOWER_SIBLINGS, top);
        let levels = decode_path(&siblings, SIDES).unwrap();
        let root = hasher.root(&scalar("1"), &scalar("1"), &levels).unwrap();
        if let Some(root) = root.to_scalar() {
            return (siblings, root.to_hex());
        }
        top += 1;
        assert!(top < 1000);
    }
}

fn plus_one(hex: &str) -> String {
    let mut limbs = scalar(hex).limbs();
    for limb in limbs.iter_mut() {
        let (sum, carry) = limb.overflowing_add(1);
        *limb = sum;
        if !carry {
            break;
        }
    }
    format!("{:016x}{:016x}{:016x}{:016x}", limbs[3], limbs[2], limbs[1], limbs[0])
}

fn instance_for(siblings: &str, root: &str, leaf_public: bool) -> CircuitInstance {
    let witness = Witness {
        nullifier: scalar("1"),
        secret: scalar("1"),
        root: scalar(root),
        path: decode_path(siblings, SIDES).unwrap(),
    };
    CircuitInstance::assigned(witness, leaf_public).unwrap()
}

#[test]
fn circuit_is_satisfied_by_the_folded_root_only() {
    let hasher = Hasher::new();
    let params = hasher.curve();
    let (siblings, root) = fixed_witness(&hasher);

    let good = instance_for(&siblings, &root, false);
    assert_eq!(good.satisfied(&hasher), Some(true));
    let mut cs = TestConstraintSystem::<Bn256>::new();
    MerkleTreeCircuit { instance: &good, params }.synthesize(&mut cs).unwrap();
    assert!(cs.is_satisfied());
    assert_eq!(cs.num_inputs(), 3);
    let nullifier = Fr::from_repr(FrRepr(scalar("1").limbs())).unwrap();
    let claimed = Fr::from_repr(FrRepr(scalar(&root).limbs())).unwrap();
    assert!(cs.verify(&[nullifier, claimed]));
    assert!(!cs.verify(&[claimed, nullifier]));

    let bad = instance_for(&siblings, &plus_one(&root), false);
    assert_eq!(bad.satisfied(&hasher), Some(false));
    let mut cs = TestConstraintSystem::<Bn256>::new();
    MerkleTreeCircuit { instance: &bad, params }.synthesize(&mut cs).unwrap();
    assert!(!cs.is_satisfied());
}

#[test]
fn leaf_can_be_made_public() {
    let hasher = Hasher::new();
    let params = hasher.curve();
    let (siblings, root) = fixed_witness(&hasher);
    let instance = instance_for(&siblings, &root, true);
    let mut cs = TestConstraintSystem::<Bn256>::new();
    MerkleTreeCircuit { instance: &instance, params }.synthesize(&mut cs).unwrap();
    assert!(cs.is_satisfied());
    assert_eq!(cs.num_inputs(), 4);
    let leaf = hasher.commitment(&scalar("1"), &scalar("1"));
    let nullifier = Fr::from_repr(FrRepr(scalar("1").limbs())).unwrap();
    let leaf = Fr::from_repr(FrRepr(leaf.limbs())).unwrap();
    let claimed = Fr::from_repr(FrRepr(scalar(&root).limbs())).unwrap();
    assert!(cs.verify(&[nullifier, leaf, claimed]));
}

#[test]
fn test_merkle_circuit() {
    let mut cs = TestConstraintSystem::<Bn256>::new();
    let mut seed: [u32; 4] = [0; 4];
    seed.copy_from_slice(&[1u32, 1u32, 1u32, 1u32]);
    let rng = &mut XorShiftRng::from_seed(seed);
    println!("generating setup...");

    let mut path = String::new();
    let mut sides = String::new();
    for _ in 0..32 {
        path.push_str(&format!("{:016x}{:016x}", rng.next_u64(), rng.next_u64()));
        sides.push('1');
    }
    let witness = Witness {
        nullifier: scalar(&format!("{:x}", rng.next_u64())),
        secret: scalar(&format!("{:x}", rng.next_u64())),
        root: scalar(&format!("{:x}", rng.next_u64())),
        path: decode_path(&path, &sides).unwrap(),
    };
    let instance = CircuitInstance::assigned(witness, false).unwrap();
    assert_eq!(instance.depth(), 32);

    let j_params = &JubjubBn256::new();
    let m_circuit = MerkleTreeCircuit { instance: &instance, params: j_params };

    m_circuit.synthesize(&mut cs).unwrap();
    println!("num constraints: {}", cs.num_constraints());
    println!("num inputs: {}", cs.num_inputs());
    assert_eq!(cs.num_inputs(), 3);
}

/// Runs the setup for a tree of `depth` levels and spells the parameters.
fn setup_hex(seed: &[u32], depth: usize, params: &JubjubBn256) -> String {
    let setup = generate(seed, depth).unwrap();
    assert!(!setup.circuit.is_assigned());
    assert_eq!(setup.circuit.depth(), depth);
    let rng = &mut XorShiftRng::from_seed(setup.seed);
    let parameters = generate_random_parameters::<Bn256, _, _>(
        MerkleTreeCircuit { instance: &setup.circuit, params },
        rng,
    )
    .unwrap();
    let mut bytes = vec![];
    parameters.write(&mut bytes).unwrap();
    KGGenerate::from_bytes(&bytes).params
}

/// Lets the engine create the proof of a job and spells it.
fn proof_hex(job: &merkle_membership::ProvingJob, params: &JubjubBn256) -> String {
    let rng = &mut XorShiftRng::from_seed(job.seed);
    let parameters = Parameters::<Bn256>::read(&job.parameters[..], true).unwrap();
    let proof = create_random_proof(
        MerkleTreeCircuit { instance: &job.circuit, params },
        &parameters,
        rng,
    )
    .unwrap();
    let mut bytes = vec![];
    proof.write(&mut bytes).unwrap();
    KGProof::from_bytes(&bytes).proof
}

/// A secret for which the commitment with nullifier 1 is below the subgroup
/// order, and that commitment: the root of a tree of depth 0.
fn lone_leaf(hasher: &Hasher) -> (String, String) {
    let mut secret: u64 = 1;
    loop {
        let text = format!("{:x}", secret);
        let leaf = hasher.commitment(&scalar("1"), &scalar(&text));
        if let Some(leaf) = leaf.to_scalar() {
            return (text, leaf.to_hex());
        }
        secret += 1;
        assert!(secret < 1000);
    }
}

const ORDER: &str = "60c89ce5c263405370a08b6d0302b0bab3eedb83920ee0a677297dc392126f1";

#[test]
fn proof_verifies_against_its_root_only() {
    let hasher = Hasher::new();
    let params = hasher.curve();
    let (siblings, root) = fixed_witness(&hasher);
    let seed = [1u32, 2, 3, 4];
    assert!(is_usable_seed(&seed));

    let params_hex = setup_hex(&seed, 3, params);
    let job = prove(&seed, &params_hex, "1", "1", &root, &siblings, SIDES).unwrap();
    assert_eq!(job.seed, seed);
    assert_eq!(KGGenerate::from_bytes(&job.parameters).params, params_hex);
    assert!(job.circuit.is_assigned());
    assert!(!job.circuit.leaf_public());
    assert_eq!(job.circuit.depth(), 3);
    assert_eq!(job.circuit.satisfied(&hasher), Some(true));
    let proof_hex = proof_hex(&job, params);

    assert_eq!(verify(&params_hex, &proof_hex, "1", &root).unwrap().result, true);
    assert_eq!(verify(&params_hex, &proof_hex, "1", &plus_one(&root)).unwrap().result, false);
}

#[test]
fn proof_does_not_verify_for_other_public_inputs() {
    let hasher = Hasher::new();
    let params = hasher.curve();
    let (secret, root) = lone_leaf(&hasher);
    let seed = [7u32, 0, 0, 7];

    let params_hex = setup_hex(&seed, 0, params);
    let job = prove(&seed, &params_hex, "1", &secret, &root, "", "").unwrap();
    let proof_hex = proof_hex(&job, params);

    assert_eq!(verify(&params_hex, &proof_hex, "1", &root).unwrap().result, true);
    assert_eq!(verify(&params_hex, &proof_hex, "01", &root.to_uppercase()).unwrap().result, true);
    assert_eq!(verify(&params_hex, &proof_hex, "2", &root).unwrap().result, false);
    assert_eq!(verify(&params_hex, &proof_hex, &root, "1").unwrap().result, false);
    assert_eq!(verify(&params_hex, &proof_hex, "1", &plus_one(&root)).unwrap().result, false);
}

#[test]
fn stages_refuse_what_is_malformed() {
    let hasher = Hasher::new();
    let params = hasher.curve();
    let (secret, root) = lone_leaf(&hasher);
    let seed = [3u32, 1, 4, 1];
    let params_hex = setup_hex(&seed, 0, params);
    let job = prove(&seed, &params_hex, "1", &secret, &root, "", "").unwrap();
    let proof_hex = proof_hex(&job, params);

    let verify_error = |proof: &str, nullifier: &str, root: &str| {
        verify(&params_hex, proof, nullifier, root).err()
    };
    assert_eq!(verify_error(&proof_hex, ORDER, &root), Some(PipelineError::OutOfRange));
    assert_eq!(verify_error(&proof_hex, "1", ORDER), Some(PipelineError::OutOfRange));
    assert_eq!(verify_error(&proof_hex, "", &root), Some(PipelineError::MalformedHex));
    assert_eq!(verify_error(&proof_hex, "1", "0x1"), Some(PipelineError::MalformedHex));
    assert_eq!(verify_error("zz", "1", &root), Some(PipelineError::MalformedHex));
    assert_eq!(verify_error("abc", "1", &root), Some(PipelineError::MalformedHex));
    assert_eq!(verify_error("00", "1", &root), Some(PipelineError::DeserializeFailure));
    assert_eq!(verify_error("", "1", &root), Some(PipelineError::DeserializeFailure));
    assert_eq!(
        verify(&params_hex[..200], &proof_hex, "1", &root).err(),
        Some(PipelineError::DeserializeFailure)
    );

    let refused = |nullifier: &str, secret: &str, root: &str, path: &str, sides: &str| {
        prove(&seed, &params_hex, nullifier, secret, root, path, sides).err()
    };
    assert_eq!(refused(ORDER, &secret, &root, "", ""), Some(PipelineError::OutOfRange));
    assert_eq!(refused("1", ORDER, &root, "", ""), Some(PipelineError::OutOfRange));
    assert_eq!(refused("1", &secret, ORDER, "", ""), Some(PipelineError::OutOfRange));
    assert_eq!(refused("g", &secret, &root, "", ""), Some(PipelineError::MalformedHex));
    assert_eq!(refused("1", "", &root, "", ""), Some(PipelineError::MalformedHex));
    let siblings = [LOWER_SIBLINGS, "0000000000000000000000000000000c"].concat();
    assert_eq!(refused("1", &secret, &root, &siblings, "01"), Some(PipelineError::MalformedPath));
    assert_eq!(
        refused("1", &secret, &root, &siblings[1..], SIDES),
        Some(PipelineError::MalformedPath)
    );
    let mut deep = String::new();
    let mut sides = String::new();
    for _ in 0..63 {
        deep.push_str("00000000000000000000000000000001");
        sides.push('0');
    }
    assert_eq!(refused("1", &secret, &root, &deep, &sides), Some(PipelineError::MalformedPath));
    assert!(prove(&seed, &params_hex, "1", &secret, &root, &siblings, SIDES).is_ok());
}

#[test]
fn stages_check_scalars_before_parameters() {
    let seed = [9u32, 9, 9, 9];
    let refused = |params: &str, nullifier: &str, path: &str, sides: &str| {
        prove(&seed, params, nullifier, "1", "1", path, sides).err()
    };
    assert_eq!(refused("", "g", "0", ""), Some(PipelineError::MalformedHex));
    assert_eq!(refused("", ORDER, "0", ""), Some(PipelineError::OutOfRange));
    assert_eq!(refused("", "1", "0", ""), Some(PipelineError::MalformedPath));
    assert_eq!(refused("", "1", "", ""), Some(PipelineError::EmptyParameters));
    assert_eq!(refused("xy", "1", "", ""), Some(PipelineError::MalformedHex));
    assert_eq!(refused("0", "1", "", ""), Some(PipelineError::MalformedHex));
    assert_eq!(refused("00", "1", "", ""), Some(PipelineError::DeserializeFailure));

    assert_eq!(verify("zz", "zz", ORDER, "1").err(), Some(PipelineError::OutOfRange));
    assert_eq!(verify("zz", "zz", "1", ORDER).err(), Some(PipelineError::OutOfRange));
    assert_eq!(verify("zz", "zz", "", ORDER).err(), Some(PipelineError::MalformedHex));
    assert_eq!(verify("zz", "00", "1", "1").err(), Some(PipelineError::DeserializeFailure));
    assert_eq!(verify("00", "zz", "1", "1").err(), Some(PipelineError::MalformedHex));
    assert_eq!(verify("", "", "1", "1").err(), Some(PipelineError::DeserializeFailure));
}

#[test]
fn setup_is_refused_beyond_the_levels_of_the_hash() {
    let seed = [1u32, 0, 0, 0];
    assert!(generate(&seed, 62).is_ok());
    assert_eq!(generate(&seed, 63).err(), Some(PipelineError::SynthesisError));
    assert!(!is_usable_seed(&[0, 0, 0, 0]));
    assert!(!is_usable_seed(&[1, 2, 3]));
    assert!(is_usable_seed(&[0, 0, 0, 1]));
}

#[test]
fn verdict_passes_the_answer_of_the_engine_on() {
    assert_eq!(verdict(Ok(true)).unwrap().result, true);
    assert_eq!(verdict(Ok(false)).unwrap().result, false);
    assert_eq!(
        verdict(Err(SynthesisError::MalformedVerifyingKey)).err(),
        Some(PipelineError::SynthesisError)
    );
}

#[test]
fn plan_lists_the_gadget_calls_in_order() {
    let shallow = CircuitInstance::unassigned(0, false).unwrap();
    assert_eq!(
        shallow.steps(),
        vec![
            Step::Allocate(Signal::Nullifier),
            Step::Expose(Wire::Nullifier),
            Step::Allocate(Signal::Secret),
            Step::StrictBits(Wire::Nullifier),
            Step::StrictBits(Wire::Secret),
            Step::Hash(Domain::NoteCommitment),
            Step::Allocate(Signal::Root),
            Step::Expose(Wire::Root),
            Step::EnforceRoot,
        ]
    );
    let deep = CircuitInstance::unassigned(2, true).unwrap();
    assert_eq!(
        deep.steps(),
        vec![
            Step::Allocate(Signal::Nullifier),
            Step::Expose(Wire::Nullifier),
            Step::Allocate(Signal::Secret),
            Step::StrictBits(Wire::Nullifier),
            Step::StrictBits(Wire::Secret),
            Step::Hash(Domain::NoteCommitment),
            Step::Expose(Wire::Current),
            Step::Allocate(Signal::Sibling(0)),
            Step::AllocateSide(0),
            Step::Swap,
            Step::Bits(Wire::Left),
            Step::Bits(Wire::Right),
            Step::Hash(Domain::MerkleTree(0)),
            Step::Allocate(Signal::Sibling(1)),
            Step::AllocateSide(1),
            Step::Swap,
            Step::Bits(Wire::Left),
            Step::Bits(Wire::Right),
            Step::Hash(Domain::MerkleTree(1)),
            Step::Allocate(Signal::Root),
            Step::Expose(Wire::Root),
            Step::EnforceRoot,
        ]
    );
    assert_eq!(CircuitInstance::unassigned(62, false).unwrap().steps().len(), 9 + 6 * 62);
    assert!(CircuitInstance::unassigned(63, false).is_none());
}

#[test]
fn instance_hands_out_its_witness() {
    let open = CircuitInstance::unassigned(3, false).unwrap();
    assert!(!open.is_assigned());
    assert_eq!(open.depth(), 3);
    assert!(open.value(Signal::Nullifier).is_none());
    assert!(open.side(0).is_none());
    assert!(open.satisfied(&Hasher::new()).is_none());

    let siblings = [LOWER_SIBLINGS, "0000000000000000000000000000000c"].concat();
    let full = instance_for(&siblings, "6", true);
    assert!(full.is_assigned());
    assert!(full.leaf_public());
    assert_eq!(full.value(Signal::Nullifier).unwrap().limbs(), [1, 0, 0, 0]);
    assert_eq!(full.value(Signal::Secret).unwrap().limbs(), [1, 0, 0, 0]);
    assert_eq!(full.value(Signal::Root).unwrap().limbs(), [6, 0, 0, 0]);
    assert_eq!(full.value(Signal::Sibling(0)).unwrap().limbs(), [10, 0, 0, 0]);
    assert_eq!(full.value(Signal::Sibling(2)).unwrap().limbs(), [12, 0, 0, 0]);
    assert!(full.value(Signal::Sibling(3)).is_none());
    assert_eq!(full.side(0), Some(false));
    assert_eq!(full.side(1), Some(true));
    assert_eq!(full.side(3), None);
    assert_eq!(Signal::Sibling(7).wire(), Wire::Sibling);
    assert_eq!(Signal::Root.wire(), Wire::Root);
}
