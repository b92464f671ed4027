//! Zero-knowledge membership proofs for a Merkle tree of note commitments.
//!
//! A prover shows that it knows a pair `(nullifier, secret)` whose commitment
//! is a leaf under a public root, without revealing the secret.  This crate
//! holds the verified core of that pipeline: the scalar and path codecs, the
//! description of the arithmetic circuit, the native evaluation of the
//! commitment and of the root, and the three stages that validate what an
//! untrusted caller hands in.

pub mod error;
pub mod encoding;
pub mod scalar;
pub mod path;
pub mod hash;
pub mod circuit;
pub mod engine;
pub mod pipeline;

pub use error::{PipelineError, ScalarInput};
pub use scalar::{FieldElement, Scalar};
pub use path::{decode_path, PathElement};
pub use hash::{Domain, Hasher};
pub use circuit::{CircuitInstance, Signal, Step, Wire, Witness};
pub use pipeline::{
    generate, is_usable_seed, prove, refused_scalar, verdict, verify, KGGenerate, KGProof,
    KGVerify, ProvingJob, SetupJob,
};
