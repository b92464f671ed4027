//! The three stages: setup, proving and verification.
//!
//! Each stage takes what an untrusted caller hands in as text, refuses what
//! is malformed, scalars first, and only then turns to the proving engine.  Setup and
//! proving end here with a job for the engine, which synthesizes the circuit
//! from the job's instance; its bytes come back through `KGGenerate` and
//! `KGProof`.  Verification runs to its verdict.

use vstd::prelude::*;
use bellman_ce::SynthesisError;
use crate::circuit::{Assignment, CircuitInstance, Witness};
use crate::encoding::{
    bytes_to_hex, decode_hex, encode_hex, hex_to_bytes, hex_value, is_byte_text, is_hex_text,
};
use crate::engine::{
    check_proof, engine_answer, input_values, parameters_readable, prepare_key, proof_readable,
    read_parameters, read_proof,
};
use crate::error::{PipelineError, ScalarInput};
use crate::hash::MAX_DEPTH;
use crate::path::{
    concat_levels, decode_path, decode_path_text, lemma_path_of_levels, LEVEL_WIDTH,
};
use crate::scalar::{decode_scalar, limbs_value, subgroup_order, Scalar};

verus! {

/// The outcome of the setup: a parameter set, spelled in base 16.
pub struct KGGenerate {
    pub params: String,
}

/// The outcome of proving: a proof, spelled in base 16.
pub struct KGProof {
    pub proof: String,
}

/// The outcome of verification.
pub struct KGVerify {
    pub result: bool,
}

impl KGGenerate {
    /// Wraps the bytes of a parameter set as the engine wrote them.
    pub fn from_bytes(bytes: &[u8]) -> (out: KGGenerate)
        ensures
            out.params@ == bytes_to_hex(bytes@),
    {
        KGGenerate { params: encode_hex(bytes) }
    }
}

impl KGProof {
    /// Wraps the bytes of a proof as the engine wrote them.
    pub fn from_bytes(bytes: &[u8]) -> (out: KGProof)
        ensures
            out.proof@ == bytes_to_hex(bytes@),
    {
        KGProof { proof: encode_hex(bytes) }
    }
}

/// What the engine needs to generate a parameter set.
pub struct SetupJob {
    /// The seed of the generator of randomness.
    pub seed: [u32; 4],
    /// The circuit, with every signal left open.
    pub circuit: CircuitInstance,
}

/// What the engine needs to create a proof.
pub struct ProvingJob {
    /// The seed of the generator of randomness.
    pub seed: [u32; 4],
    /// The bytes of the parameter set of the circuit's shape, which the
    /// engine can read.
    pub parameters: Vec<u8>,
    /// The circuit, with every signal assigned.
    pub circuit: CircuitInstance,
}

/// A seed that the generator of randomness takes: four words, not all of
/// them zero.
pub open spec fn usable_seed(seed: Seq<u32>) -> bool {
    seed.len() == 4 && (seed[0] != 0 || seed[1] != 0 || seed[2] != 0 || seed[3] != 0)
}

/// Whether a seed is one that the generator of randomness takes.
pub fn is_usable_seed(seed_slice: &[u32]) -> (ok: bool)
    ensures
        ok == usable_seed(seed_slice@),
{
    seed_slice.len() == 4 && (seed_slice[0] != 0 || seed_slice[1] != 0 || seed_slice[2] != 0
        || seed_slice[3] != 0)
}

/// The four words of a seed.
fn seed_words(seed_slice: &[u32]) -> (seed: [u32; 4])
    requires
        usable_seed(seed_slice@),
    ensures
        seed@ == seed_slice@,
{
    let seed: [u32; 4] = [seed_slice[0], seed_slice[1], seed_slice[2], seed_slice[3]];
    assert(seed@ =~= seed_slice@);
    seed
}

/// Setup, up to the engine: the circuit of a tree of `depth` levels with
/// every signal left open, and the seed.  A depth beyond what the hash has
/// levels for cannot be synthesized.
pub fn generate(seed_slice: &[u32], depth: usize) -> (r: Result<SetupJob, PipelineError>)
    requires
        usable_seed(seed_slice@),
    ensures
        match r {
            Ok(job) => {
                &&& depth <= MAX_DEPTH
                &&& job.seed@ == seed_slice@
                &&& job.circuit.tree_depth() == depth
                &&& !job.circuit.exposes_leaf()
                &&& job.circuit.assignment() is None
            },
            Err(e) => depth > MAX_DEPTH && e == PipelineError::SynthesisError,
        },
{
    match CircuitInstance::unassigned(depth, false) {
        Some(circuit) => Ok(SetupJob { seed: seed_words(seed_slice), circuit }),
        None => Err(PipelineError::SynthesisError),
    }
}

/// The first of the checks of `prove` that fails, in the order in which they
/// are made: the scalars, the path, and only then the parameters.  `None`
/// where all pass.
pub open spec fn prove_refusal(
    params: Seq<char>,
    nullifier_hex: Seq<char>,
    secret_hex: Seq<char>,
    root_hex: Seq<char>,
    path_hex: Seq<char>,
    path_sides: Seq<char>,
) -> Option<PipelineError> {
    if decode_scalar(nullifier_hex) is Err {
        Some(decode_scalar(nullifier_hex)->Err_0)
    } else if decode_scalar(secret_hex) is Err {
        Some(decode_scalar(secret_hex)->Err_0)
    } else if decode_scalar(root_hex) is Err {
        Some(decode_scalar(root_hex)->Err_0)
    } else if decode_path_text(path_hex, path_sides) is Err {
        Some(PipelineError::MalformedPath)
    } else if decode_path_text(path_hex, path_sides)->Ok_0.len() > MAX_DEPTH {
        Some(PipelineError::MalformedPath)
    } else if params.len() == 0 {
        Some(PipelineError::EmptyParameters)
    } else if !is_byte_text(params) {
        Some(PipelineError::MalformedHex)
    } else if !parameters_readable(hex_to_bytes(params)) {
        Some(PipelineError::DeserializeFailure)
    } else {
        None
    }
}

/// The first scalar of `prove` that is refused, in the order in which they
/// are read; `None` where all three are read.
pub open spec fn first_refused_scalar(
    nullifier_hex: Seq<char>,
    secret_hex: Seq<char>,
    root_hex: Seq<char>,
) -> Option<ScalarInput> {
    if decode_scalar(nullifier_hex) is Err {
        Some(ScalarInput::Nullifier)
    } else if decode_scalar(secret_hex) is Err {
        Some(ScalarInput::Secret)
    } else if decode_scalar(root_hex) is Err {
        Some(ScalarInput::Root)
    } else {
        None
    }
}

/// Which scalar it was that `prove` refused, for the message to the caller.
pub fn refused_scalar(nullifier_hex: &str, secret_hex: &str, root_hex: &str) -> (r: Option<
    ScalarInput,
>)
    ensures
        r == first_refused_scalar(nullifier_hex@, secret_hex@, root_hex@),
{
    if Scalar::parse(nullifier_hex).is_err() {
        Some(ScalarInput::Nullifier)
    } else if Scalar::parse(secret_hex).is_err() {
        Some(ScalarInput::Secret)
    } else if Scalar::parse(root_hex).is_err() {
        Some(ScalarInput::Root)
    } else {
        None
    }
}

/// The witness that the texts of `prove` denote, where none is refused.
pub open spec fn witness_of(
    nullifier_hex: Seq<char>,
    secret_hex: Seq<char>,
    root_hex: Seq<char>,
    path_hex: Seq<char>,
    path_sides: Seq<char>,
) -> Assignment {
    Assignment {
        nullifier: decode_scalar(nullifier_hex)->Ok_0,
        secret: decode_scalar(secret_hex)->Ok_0,
        root: decode_scalar(root_hex)->Ok_0,
        path: decode_path_text(path_hex, path_sides)->Ok_0,
    }
}

/// Proving, up to the engine: reads the three scalars, the path and the
/// parameters, and assembles the fully assigned circuit.  A path deeper than
/// the hash has levels is refused as malformed.
pub fn prove(
    seed_slice: &[u32],
    params: &str,
    nullifier_hex: &str,
    secret_hex: &str,
    root_hex: &str,
    proof_path_hex: &str,
    proof_path_sides: &str,
) -> (r: Result<ProvingJob, PipelineError>)
    requires
        usable_seed(seed_slice@),
    ensures
        match prove_refusal(
            params@,
            nullifier_hex@,
            secret_hex@,
            root_hex@,
            proof_path_hex@,
            proof_path_sides@,
        ) {
            Some(e) => r matches Err(found) && found == e,
            None => r matches Ok(job) && {
                &&& job.seed@ == seed_slice@
                &&& job.parameters@ == hex_to_bytes(params@)
                &&& parameters_readable(job.parameters@)
                &&& !job.circuit.exposes_leaf()
                &&& job.circuit.assignment() == Some(
                    witness_of(
                        nullifier_hex@,
                        secret_hex@,
                        root_hex@,
                        proof_path_hex@,
                        proof_path_sides@,
                    ),
                )
                &&& job.circuit.tree_depth() == job.circuit.assignment()->Some_0.path.len()
            },
        },
{
    let nullifier = match Scalar::parse(nullifier_hex) {
        Ok(s) => s,
        Err(e) => {
            return Err(e);
        },
    };
    let secret = match Scalar::parse(secret_hex) {
        Ok(s) => s,
        Err(e) => {
            return Err(e);
        },
    };
    let root = match Scalar::parse(root_hex) {
        Ok(s) => s,
        Err(e) => {
            return Err(e);
        },
    };
    let path = match decode_path(proof_path_hex, proof_path_sides) {
        Ok(path) => path,
        Err(e) => {
            return Err(e);
        },
    };
    let circuit = match CircuitInstance::assigned(Witness { nullifier, secret, root, path }, false) {
        Some(circuit) => circuit,
        None => {
            return Err(PipelineError::MalformedPath);
        },
    };
    if params.unicode_len() == 0 {
        return Err(PipelineError::EmptyParameters);
    }
    let bytes = match decode_hex(params) {
        Ok(bytes) => bytes,
        Err(e) => {
            return Err(e);
        },
    };
    match read_parameters(bytes.as_slice()) {
        Ok(_) => Ok(ProvingJob { seed: seed_words(seed_slice), parameters: bytes, circuit }),
        Err(_) => Err(PipelineError::DeserializeFailure),
    }
}

/// The first of the checks of `verify` that fails, in the order in which
/// they are made: the scalars, the proof, and only then the parameters.
/// `None` where all pass and the engine is asked.
pub open spec fn verify_refusal(
    params: Seq<char>,
    proof: Seq<char>,
    nullifier_hex: Seq<char>,
    root_hex: Seq<char>,
) -> Option<PipelineError> {
    if decode_scalar(nullifier_hex) is Err {
        Some(decode_scalar(nullifier_hex)->Err_0)
    } else if decode_scalar(root_hex) is Err {
        Some(decode_scalar(root_hex)->Err_0)
    } else if !is_byte_text(proof) {
        Some(PipelineError::MalformedHex)
    } else if !proof_readable(hex_to_bytes(proof)) {
        Some(PipelineError::DeserializeFailure)
    } else if !is_byte_text(params) {
        Some(PipelineError::MalformedHex)
    } else if !parameters_readable(hex_to_bytes(params)) {
        Some(PipelineError::DeserializeFailure)
    } else {
        None
    }
}

/// The public inputs of the circuit that the pipeline uses, in the order in
/// which the circuit exposes them: the nullifier, then the root.
pub fn public_inputs(nullifier: &Scalar, root: &Scalar) -> (inputs: Vec<[u64; 4]>)
    ensures
        inputs@.len() == 2,
        limbs_value(inputs@[0]@) == nullifier@,
        limbs_value(inputs@[1]@) == root@,
        nullifier@ < subgroup_order(),
        root@ < subgroup_order(),
{
    let mut inputs: Vec<[u64; 4]> = Vec::new();
    inputs.push(nullifier.limbs());
    inputs.push(root.limbs());
    inputs
}

/// What is reported for an answer of the engine: its verdict, be it `false`,
/// or a synthesis failure where the engine could not use the key.
pub fn verdict(answer: Result<bool, SynthesisError>) -> (r: Result<KGVerify, PipelineError>)
    ensures
        match answer {
            Ok(holds) => r matches Ok(v) && v.result == holds,
            Err(_) => r matches Err(e) && e == PipelineError::SynthesisError,
        },
{
    match answer {
        Ok(holds) => Ok(KGVerify { result: holds }),
        Err(_) => Err(PipelineError::SynthesisError),
    }
}

/// Verification: reads the two public scalars, the proof and the
/// parameters, and asks the engine whether the proof holds of the public
/// inputs, the nullifier first and the root second, under the verifying key
/// of the parameters.  The result is the engine's answer.  A proof that does not hold is a verdict of `false`, not a failure.
pub fn verify(params: &str, proof: &str, nullifier_hex: &str, root_hex: &str) -> (r: Result<
    KGVerify,
    PipelineError,
>)
    ensures
        match verify_refusal(params@, proof@, nullifier_hex@, root_hex@) {
            Some(e) => r matches Err(found) && found == e,
            None => match engine_answer(
                hex_to_bytes(params@),
                hex_to_bytes(proof@),
                seq![decode_scalar(nullifier_hex@)->Ok_0, decode_scalar(root_hex@)->Ok_0],
            ) {
                Some(holds) => r matches Ok(v) && v.result == holds,
                None => r matches Err(found) && found == PipelineError::SynthesisError,
            },
        },
{
    let nullifier = match Scalar::parse(nullifier_hex) {
        Ok(s) => s,
        Err(e) => {
            return Err(e);
        },
    };
    let root = match Scalar::parse(root_hex) {
        Ok(s) => s,
        Err(e) => {
            return Err(e);
        },
    };
    let proof_bytes = match decode_hex(proof) {
        Ok(bytes) => bytes,
        Err(e) => {
            return Err(e);
        },
    };
    let engine_proof = match read_proof(proof_bytes.as_slice()) {
        Ok(p) => p,
        Err(_) => {
            return Err(PipelineError::DeserializeFailure);
        },
    };
    let bytes = match decode_hex(params) {
        Ok(bytes) => bytes,
        Err(e) => {
            return Err(e);
        },
    };
    let parameters = match read_parameters(bytes.as_slice()) {
        Ok(parameters) => parameters,
        Err(_) => {
            return Err(PipelineError::DeserializeFailure);
        },
    };
    let key = prepare_key(&parameters);
    let inputs = public_inputs(&nullifier, &root);
    assert(input_values(inputs@) =~= seq![nullifier@, root@]);
    verdict(check_proof(&key, &engine_proof, &inputs))
}

/// Proving reads one level per slice.  Where the scalars and the parameters
/// pass, a path written as `d` sibling texts one after another and `d` side
/// characters, with `d` no more than the hash has levels, is not refused,
/// and the circuit that goes to the engine holds exactly those `d` levels,
/// leaf level first: level `i` has the sibling that slice `i` denotes, and
/// its side is set exactly where side character `i` is `1`.
pub proof fn lemma_prove_reads_path(
    params: Seq<char>,
    nullifier_hex: Seq<char>,
    secret_hex: Seq<char>,
    root_hex: Seq<char>,
    levels: Seq<Seq<char>>,
    sides: Seq<char>,
)
    requires
        decode_scalar(nullifier_hex) is Ok,
        decode_scalar(secret_hex) is Ok,
        decode_scalar(root_hex) is Ok,
        sides.len() == levels.len(),
        levels.len() <= MAX_DEPTH,
        forall|i: int| 0 <= i < levels.len() ==> (#[trigger] levels[i]).len() == LEVEL_WIDTH,
        forall|i: int| 0 <= i < levels.len() ==> decode_scalar(#[trigger] levels[i]) is Ok,
        params.len() > 0,
        is_byte_text(params),
        parameters_readable(hex_to_bytes(params)),
    ensures
        prove_refusal(
            params,
            nullifier_hex,
            secret_hex,
            root_hex,
            concat_levels(levels),
            sides,
        ) is None,
        witness_of(nullifier_hex, secret_hex, root_hex, concat_levels(levels), sides).path
            == Seq::new(levels.len(), |i: int| (sides[i] == '1', hex_value(levels[i]))),
{
    lemma_path_of_levels(levels, sides);
}

/// A text of one or more base-16 digits.
pub open spec fn spells_number(s: Seq<char>) -> bool {
    s.len() > 0 && is_hex_text(s)
}

/// Verification refuses a scalar that equals the subgroup order, or exceeds
/// it, as out of range, whatever the proof and the parameters are: where both
/// scalars are spelled in base 16, one of them at or above the order is
/// enough.
pub proof fn lemma_verify_out_of_range(
    params: Seq<char>,
    proof: Seq<char>,
    nullifier_hex: Seq<char>,
    root_hex: Seq<char>,
)
    requires
        spells_number(nullifier_hex),
        spells_number(root_hex),
        hex_value(nullifier_hex) >= subgroup_order() || hex_value(root_hex) >= subgroup_order(),
    ensures
        verify_refusal(params, proof, nullifier_hex, root_hex) == Some(PipelineError::OutOfRange),
{
}

/// Proving refuses a scalar that equals the subgroup order, or exceeds it,
/// as out of range, whatever the path and the parameters are: where the
/// three scalars are spelled in base 16, one of them at or above the order
/// is enough.
pub proof fn lemma_prove_out_of_range(
    params: Seq<char>,
    nullifier_hex: Seq<char>,
    secret_hex: Seq<char>,
    root_hex: Seq<char>,
    path_hex: Seq<char>,
    path_sides: Seq<char>,
)
    requires
        spells_number(nullifier_hex),
        spells_number(secret_hex),
        spells_number(root_hex),
        hex_value(nullifier_hex) >= subgroup_order() || hex_value(secret_hex) >= subgroup_order()
            || hex_value(root_hex) >= subgroup_order(),
    ensures
        prove_refusal(params, nullifier_hex, secret_hex, root_hex, path_hex, path_sides) == Some(
            PipelineError::OutOfRange,
        ),
{
}

} // verus!
