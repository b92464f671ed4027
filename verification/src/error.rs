//! The failures that the pipeline reports to its caller.

use vstd::prelude::*;

verus! {

/// Why a stage of the pipeline rejected its input or could not finish.
#[derive(Clone, Copy, Debug, PartialEq, Eq, Structural)]
pub enum PipelineError {
    /// A text that should be base 16 is not.
    MalformedHex,
    /// A scalar is not below the order of the hash's subgroup.
    OutOfRange,
    /// The siblings and the side bits of a path do not fit together.
    MalformedPath,
    /// No parameters were handed in.
    EmptyParameters,
    /// The bytes of a parameter set or of a proof cannot be read back.
    DeserializeFailure,
    /// The circuit itself is contradictory; no input can repair that.
    SynthesisError,
}

/// A scalar that proving reads.
#[derive(Clone, Copy, Debug, PartialEq, Eq, Structural)]
pub enum ScalarInput {
    Nullifier,
    Secret,
    Root,
}

impl PipelineError {
    /// The text that is shown to the caller for this failure.
    pub fn message(&self) -> (text: String)
        ensures
            text@ == match *self {
                PipelineError::MalformedHex => "input is not valid base 16"@,
                PipelineError::OutOfRange =>
                    "scalar should be less than 60c89ce5c263405370a08b6d0302b0bab3eedb83920ee0a677297dc392126f1"@,
                PipelineError::MalformedPath => "path and side bits do not describe a Merkle path"@,
                PipelineError::EmptyParameters =>
                    "Params are empty. Did you generate or load params?"@,
                PipelineError::DeserializeFailure => "parameters or proof bytes are corrupt"@,
                PipelineError::SynthesisError => "the circuit could not be synthesized"@,
            },
    {
        match *self {
            PipelineError::MalformedHex => "input is not valid base 16".to_owned(),
            PipelineError::OutOfRange =>
                "scalar should be less than 60c89ce5c263405370a08b6d0302b0bab3eedb83920ee0a677297dc392126f1".to_owned(),
            PipelineError::MalformedPath =>
                "path and side bits do not describe a Merkle path".to_owned(),
            PipelineError::EmptyParameters =>
                "Params are empty. Did you generate or load params?".to_owned(),
            PipelineError::DeserializeFailure => "parameters or proof bytes are corrupt".to_owned(),
            PipelineError::SynthesisError => "the circuit could not be synthesized".to_owned(),
        }
    }

    /// The text that is shown to the caller where the scalar that was refused
    /// is known: a scalar out of range is then called by its name.
    pub fn message_for(&self, input: ScalarInput) -> (text: String)
        ensures
            text@ == match (*self, input) {
                (PipelineError::OutOfRange, ScalarInput::Nullifier) =>
                    "nullifier should be less than 60c89ce5c263405370a08b6d0302b0bab3eedb83920ee0a677297dc392126f1"@,
                (PipelineError::OutOfRange, ScalarInput::Secret) =>
                    "secret should be less than 60c89ce5c263405370a08b6d0302b0bab3eedb83920ee0a677297dc392126f1"@,
                (PipelineError::OutOfRange, ScalarInput::Root) =>
                    "root should be less than 60c89ce5c263405370a08b6d0302b0bab3eedb83920ee0a677297dc392126f1"@,
                (PipelineError::MalformedHex, _) => "input is not valid base 16"@,
                (PipelineError::MalformedPath, _) =>
                    "path and side bits do not describe a Merkle path"@,
                (PipelineError::EmptyParameters, _) =>
                    "Params are empty. Did you generate or load params?"@,
                (PipelineError::DeserializeFailure, _) => "parameters or proof bytes are corrupt"@,
                (PipelineError::SynthesisError, _) => "the circuit could not be synthesized"@,
            },
    {
        match *self {
            PipelineError::OutOfRange => match input {
                ScalarInput::Nullifier =>
                    "nullifier should be less than 60c89ce5c263405370a08b6d0302b0bab3eedb83920ee0a677297dc392126f1".to_owned(),
                ScalarInput::Secret =>
                    "secret should be less than 60c89ce5c263405370a08b6d0302b0bab3eedb83920ee0a677297dc392126f1".to_owned(),
                ScalarInput::Root =>
                    "root should be less than 60c89ce5c263405370a08b6d0302b0bab3eedb83920ee0a677297dc392126f1".to_owned(),
            },
            _ => self.message(),
        }
    }
}

} // verus!
