//! The structured failure taxonomy a traversal can report.
use vstd::prelude::*;

use crate::parser::Needed;

verus! {

/// Error codes as indicator of what happened during a traversal.
#[derive(Clone, Debug, PartialEq, Eq, Structural)]
pub enum ErrorType {
    /// Traversal was attempted on a graph without any nodes.
    NoTreeRoot,
    /// The first parser attempted failed while nothing was accumulated yet.
    RootParserFailed,
    /// A parser could not decide with the bytes it was given.
    Incomplete(Needed),
    /// The failure originates from an external error.
    Other,
}

/// Representation for an error of the library.
#[derive(Debug)]
pub struct PeelError {
    /// The error variant.
    pub code: ErrorType,
    /// Additional human-readable description for the error.
    pub description: String,
}

/// Verus sees `std::io::Error` through this declaration; the value itself
/// stays opaque.
#[verifier::external_type_specification]
#[verifier::external_body]
pub struct ExIoError(std::io::Error);

/// Relies on the `Display` implementation of `std::io::Error`, for the
/// rendered message of an I/O failure.
#[verifier::external_body]
fn io_error_text(err: &std::io::Error) -> String {
    format!("{}", err)
}

impl PeelError {
    /// Create a new `PeelError` from a code and a description.
    pub fn new(code: ErrorType, description: &str) -> (r: PeelError)
        ensures
            r.code == code,
            r.description@ == description@,
    {
        PeelError { code, description: description.to_owned() }
    }

    /// Capture an externally originating I/O failure, keeping its rendered
    /// message as the description.
    pub fn from_io_error(err: std::io::Error) -> (r: PeelError)
        ensures
            r.code == ErrorType::Other,
    {
        PeelError { code: ErrorType::Other, description: io_error_text(&err) }
    }
}

} // verus!
