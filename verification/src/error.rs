use vstd::prelude::*;

verus! {

/// The ways parsing an HTTP message head can fail. All are local,
/// recoverable conditions reported to the caller; nothing panics.
#[derive(Debug, Clone, Copy, PartialEq, Eq, Structural)]
pub enum ErrorKind {
    /// A header line holds no colon and cannot be split into name and value.
    MalformedHeaderLine,
    /// The first line does not match the origin-form request-line grammar.
    InvalidStartLine,
    /// The assembler was handed zero lines.
    EmptyRequest,
}

/// Error value returned by every parsing function of this crate.
#[derive(Debug, Clone, Copy, PartialEq, Eq, Structural)]
pub struct AppError {
    pub kind: ErrorKind,
}

impl AppError {
    pub fn new(kind: ErrorKind) -> (e: AppError)
        ensures
            e.kind == kind,
    {
        AppError { kind }
    }
}

} // verus!
