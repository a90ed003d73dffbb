//! The ways in which a document of the index service can fail to be read.

use vstd::prelude::*;

verus! {

/// Why a response body was rejected. A rejected body is never read in part.
#[derive(Clone, Copy, Debug, PartialEq, Eq, Structural)]
pub enum ParseError {
    /// The body is not a JSON document.
    InvalidJson,
    /// The document lacks the field that holds the entries.
    MissingField,
    /// The field that should hold the entries is not an array.
    NotAnArray,
    /// A field that must be text is absent or of another type.
    NotText,
    /// A token identifier is text but not an unsigned decimal number.
    InvalidTokenId,
}

} // verus!
