use vstd::prelude::*;

verus! {

/// The ways a store operation can fail.
#[derive(Clone, Copy, Debug, PartialEq, Eq, Structural)]
pub enum ObjectError {
    /// A filesystem or (de)compression step failed.
    Io,
    /// The identifier is not forty lowercase hex digits.
    InvalidIdentifier,
    /// The identifier is well formed but nothing is stored under it.
    NotFound,
    /// The stored bytes do not frame a blob record.
    MalformedRecord,
}

} // verus!
