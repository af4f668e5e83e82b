//! Errors from applying parameter patches.
use vstd::prelude::*;

verus! {

/// Why a parameter patch could not be applied.
#[derive(Debug, Clone, Copy, PartialEq, Eq, Structural)]
pub enum PatchError {
    /// The patch addresses a parameter that does not exist.
    InvalidPath,
    /// The patch carries data of the wrong kind for its parameter.
    InvalidData,
}

} // verus!
