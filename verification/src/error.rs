use vstd::prelude::*;

verus! {

/// Why an operation of the library was refused.
#[derive(Debug, Clone, Copy, PartialEq, Eq, Structural)]
pub enum Error {
    /// Nothing is left of the path once its outer slashes are gone.
    EmptyPath,
    /// The record could not be turned into bytes.
    Serialize,
    /// The bytes do not hold a record.
    Deserialize,
}

impl Error {
    /// The message shown to the user.
    pub fn message(&self) -> (r: &'static str)
        ensures
            r@ == self.spec_message(),
    {
        match self {
            Error::EmptyPath => "Error: No path provided",
            Error::Serialize => "Failed to serialize note",
            Error::Deserialize => "Failed to deserialize note",
        }
    }

    /// The message as characters.
    pub open spec fn spec_message(&self) -> Seq<char> {
        match self {
            Error::EmptyPath => "Error: No path provided"@,
            Error::Serialize => "Failed to serialize note"@,
            Error::Deserialize => "Failed to deserialize note"@,
        }
    }
}

} // verus!
