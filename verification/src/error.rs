use vstd::prelude::*;

verus! {

/// The ways a path can fail to be built.
#[derive(Debug)]
pub enum PathError {
    /// Tokenization could not classify a slice of the input. The separator
    /// and non-separator character runs jointly cover every character, so
    /// this is unreachable for ordinary text and kept only as a defensive
    /// case; the payload is the offending slice.
    ParseError(String),
    /// A native path's underlying representation is not valid text.
    ConvertError,
    /// The host environment failed to answer a query for a path; the payload
    /// is the underlying error's message.
    EnvError(String),
}

} // verus!
