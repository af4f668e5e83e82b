//! Errors of the audio context.
use vstd::prelude::*;

verus! {

/// A type-erased context error.
///
/// Whatever the underlying error was, what remains of it is its
/// message, which is what the error displays.
#[derive(Debug)]
pub struct SeedlingContextError {
    message: String,
}

impl SeedlingContextError {
    /// The message this error displays.
    pub closed spec fn spec_message(&self) -> Seq<char> {
        self.message@
    }

    /// Erase an error, keeping its message.
    pub fn new(message: String) -> (e: Self)
        ensures
            e.spec_message() == message@,
    {
        SeedlingContextError { message }
    }

    /// The message this error displays.
    pub fn to_string(&self) -> (s: String)
        ensures
            s@ == self.spec_message(),
    {
        self.message.clone()
    }
}

} // verus!
