//! The library's error type and its messages.
use crate::edge::EntityId;
use crate::param::PatchError;
use vstd::prelude::*;

verus! {

/// The set of errors produced while driving the audio graph.
#[derive(Debug)]
pub enum SeedlingError {
    /// A patch could not be applied to an audio node.
    PatchError {
        /// The name of the type the patch was applied to.
        ty: &'static str,
        /// Why the patch failed.
        error: PatchError,
    },
    /// Two audio nodes could not be connected.
    ConnectionError {
        /// The source entity.
        source: EntityId,
        /// The destination entity.
        dest: EntityId,
        /// What the audio graph reported.
        error: String,
    },
    /// A sample effect relationship was spawned with an empty effect
    /// entity.
    MissingEffect {
        /// The entity missing an effect.
        empty_entity: EntityId,
    },
}

/// The name a patch error is shown by.
pub open spec fn patch_error_name(error: PatchError) -> Seq<char> {
    match error {
        PatchError::InvalidPath => "InvalidPath"@,
        PatchError::InvalidData => "InvalidData"@,
    }
}

/// The message shown for an error.
pub open spec fn error_message(error: SeedlingError) -> Seq<char> {
    match error {
        SeedlingError::PatchError { ty, error } => "Failed to apply audio patch to `"@ + ty@ + "`: "@
            + patch_error_name(error),
        SeedlingError::ConnectionError { error, .. } => "Failed to connect audio nodes: "@ + error@,
        SeedlingError::MissingEffect { .. } => "Expected audio node in `SampleEffects` relationship"@,
    }
}

impl SeedlingError {
    /// The message this error displays.
    pub fn to_string(&self) -> (s: String)
        ensures
            s@ == error_message(*self),
    {
        let mut s = String::new();
        match self {
            SeedlingError::PatchError { ty, error } => {
                s.append("Failed to apply audio patch to `");
                s.append(ty);
                s.append("`: ");
                match error {
                    PatchError::InvalidPath => s.append("InvalidPath"),
                    PatchError::InvalidData => s.append("InvalidData"),
                }
            },
            SeedlingError::ConnectionError { error, .. } => {
                s.append("Failed to connect audio nodes: ");
                s.append(error.as_str());
            },
            SeedlingError::MissingEffect { .. } => {
                s.append("Expected audio node in `SampleEffects` relationship");
            },
        }
        s
    }
}

} // verus!
