//! The error taxonomy shared by builders, the codec, and document I/O.

use vstd::prelude::*;

verus! {

/// An error raised while constructing, encoding, or decoding an OCI entity.
///
/// Construction errors name the missing field; decode errors carry a short
/// description of the offending input; I/O errors are propagated unchanged
/// by collaborators that read or write documents on behalf of the caller.
#[derive(Clone, Debug)]
pub enum OciSpecError {
    /// A builder was finalized while a required field was still unset.
    Builder(String),
    /// The input could not be decoded, or a value could not be encoded.
    SerDe(String),
    /// An underlying read or write failed outside this crate.
    Io(String),
    /// Any other error.
    Other(String),
}

impl OciSpecError {
    /// The human-readable text carried by this error.
    pub fn message(&self) -> (r: String)
        ensures
            r@ == self.message_view(),
    {
        match self {
            OciSpecError::Builder(s) => s.clone(),
            OciSpecError::SerDe(s) => s.clone(),
            OciSpecError::Io(s) => s.clone(),
            OciSpecError::Other(s) => s.clone(),
        }
    }

    /// The text carried by this error, as a mathematical sequence.
    pub open spec fn message_view(&self) -> Seq<char> {
        match self {
            OciSpecError::Builder(s) => s@,
            OciSpecError::SerDe(s) => s@,
            OciSpecError::Io(s) => s@,
            OciSpecError::Other(s) => s@,
        }
    }

    /// True exactly when this is a construction error.
    pub fn is_builder(&self) -> (r: bool)
        ensures
            r == (self is Builder),
    {
        matches!(self, OciSpecError::Builder(_))
    }
}

/// The result type used by every fallible operation of this crate.
pub type Result<T> = core::result::Result<T, OciSpecError>;

} // verus!
