//! The proving engine: Groth16 over BN256, as far as the library calls it.
//!
//! Parameters, keys and proofs are values of the engine.  The library reads
//! them from bytes, hands them on and asks the engine for its verdict; what
//! they hold is the engine's business.
//!
//! The engine's types are generic over its `Engine` trait, of which the
//! verifier knows nothing, so they cannot be declared to it as they stand.
//! Each value is kept in a struct of this module that the verifier takes as
//! opaque.

use vstd::prelude::*;
use bellman_ce::groth16::{
    prepare_verifying_key, verify_proof, Parameters, PreparedVerifyingKey, Proof,
};
use bellman_ce::SynthesisError;
use ff_ce::PrimeField;
use pairing_ce::bn256::{Bn256, Fr, FrRepr};
use crate::scalar::{base_modulus, limbs_value};

verus! {

/// `bellman_ce::SynthesisError`, of which nothing is read.
#[verifier::external_type_specification]
#[verifier::external_body]
pub struct ExSynthesisError(SynthesisError);

/// `std::io::Error`, of which nothing is read.
#[verifier::external_type_specification]
#[verifier::external_body]
pub struct ExIoError(std::io::Error);

/// A parameter set of the engine: `Parameters<Bn256>`.  A set comes from
/// `read_parameters` and from nowhere else.
#[verifier::external_body]
pub struct ParameterSet {
    inner: Parameters<Bn256>,
}

/// A verifying key made ready for use: `PreparedVerifyingKey<Bn256>`.
#[verifier::external_body]
pub struct PreparedKey {
    inner: PreparedVerifyingKey<Bn256>,
}

/// A proof of the engine: `Proof<Bn256>`.
#[verifier::external_body]
pub struct EngineProof {
    inner: Proof<Bn256>,
}

/// Whether the engine can read a parameter set from these bytes.
pub uninterp spec fn parameters_readable(bytes: Seq<u8>) -> bool;

/// Whether the engine can read a proof from these bytes.
pub uninterp spec fn proof_readable(bytes: Seq<u8>) -> bool;

/// The bytes that a parameter set was read from.
pub uninterp spec fn parameter_source(parameters: ParameterSet) -> Seq<u8>;

/// The bytes that a proof was read from.
pub uninterp spec fn proof_source(proof: EngineProof) -> Seq<u8>;

/// The bytes of the parameter set that a key was prepared from.
pub uninterp spec fn key_source(key: PreparedKey) -> Seq<u8>;

/// What the engine answers when it is asked whether the proof read from
/// `proof` holds of `inputs` under the verifying key of the parameter set
/// read from `parameters`: its verdict, or `None` where the key does not fit
/// the count of the inputs.
pub uninterp spec fn engine_answer(parameters: Seq<u8>, proof: Seq<u8>, inputs: Seq<nat>) -> Option<
    bool,
>;

/// The numbers that public inputs hold, each given as four limbs.
pub open spec fn input_values(inputs: Seq<[u64; 4]>) -> Seq<nat> {
    Seq::new(inputs.len(), |i: int| limbs_value(inputs[i]@))
}

/// `Parameters::<Bn256>::read` with point checks switched on.  Whether it
/// succeeds depends on the bytes alone; the set that it hands back is the
/// one read from these bytes.
#[verifier::external_body]
pub(crate) fn read_parameters(bytes: &[u8]) -> (r: Result<ParameterSet, std::io::Error>)
    ensures
        r.is_ok() == parameters_readable(bytes@),
        r matches Ok(p) ==> parameter_source(p) == bytes@,
{
    Parameters::<Bn256>::read(bytes, true).map(|inner| ParameterSet { inner })
}

/// `Proof::<Bn256>::read`.  Whether it succeeds depends on the bytes alone;
/// the proof that it hands back is the one read from these bytes.
#[verifier::external_body]
pub(crate) fn read_proof(bytes: &[u8]) -> (r: Result<EngineProof, std::io::Error>)
    ensures
        r.is_ok() == proof_readable(bytes@),
        r matches Ok(p) ==> proof_source(p) == bytes@,
{
    Proof::<Bn256>::read(bytes).map(|inner| EngineProof { inner })
}

/// `prepare_verifying_key` on the verifying key of a parameter set.  The key
/// is that of the set, and so of the bytes that the set was read from.
#[verifier::external_body]
pub(crate) fn prepare_key(parameters: &ParameterSet) -> (key: PreparedKey)
    ensures
        key_source(key) == parameter_source(*parameters),
{
    PreparedKey { inner: prepare_verifying_key(&parameters.inner.vk) }
}

/// `verify_proof`, with each public input turned into a field element by
/// `Fr::from_repr`, which takes any number below the modulus of the base
/// field.  The engine answers whether the proof holds of these inputs, or
/// fails where the key does not fit their count.  Its answer depends on
/// the key, the proof and the inputs alone, and so on the bytes that key
/// and proof were read from.
#[verifier::external_body]
pub(crate) fn check_proof(key: &PreparedKey, proof: &EngineProof, inputs: &Vec<[u64; 4]>) -> (r:
    Result<bool, SynthesisError>)
    requires
        forall|i: int| 0 <= i < inputs@.len() ==> limbs_value((#[trigger] inputs@[i])@) < base_modulus(),
    ensures
        match r {
            Ok(holds) => engine_answer(
                key_source(*key),
                proof_source(*proof),
                input_values(inputs@),
            ) == Some(holds),
            Err(_) => engine_answer(
                key_source(*key),
                proof_source(*proof),
                input_values(inputs@),
            ) is None,
        },
{
    let inputs: Vec<Fr> = inputs.iter().map(|l| Fr::from_repr(FrRepr(*l)).unwrap()).collect();
    verify_proof(&key.inner, &proof.inner, &inputs)
}

} // verus!
