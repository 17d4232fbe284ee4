//! Error type

use vstd::prelude::*;

verus! {

/// Kinds of errors
#[derive(Copy, Clone, Debug, PartialEq, Eq, Structural)]
pub enum ErrorKind {
    /// Exceeded the capacity of an internal buffer
    BufferOverflow,
    /// Index out-of-bounds
    IndexOutOfBounds,
    /// Error parsing a Pure Data program
    ParseError,
}

impl ErrorKind {
    /// Human-readable description of this kind of error
    pub fn as_str(self) -> (s: &'static str)
        ensures
            s@ == match self {
                ErrorKind::BufferOverflow => "buffer overflow"@,
                ErrorKind::IndexOutOfBounds => "index out of bounds"@,
                ErrorKind::ParseError => "parse error"@,
            },
    {
        match self {
            ErrorKind::BufferOverflow => "buffer overflow",
            ErrorKind::IndexOutOfBounds => "index out of bounds",
            ErrorKind::ParseError => "parse error",
        }
    }
}

/// Error type
#[derive(Copy, Clone, Debug, PartialEq, Eq, Structural)]
pub struct Error {
    /// Kinds of errors
    pub kind: ErrorKind,
}

impl Error {
    /// The kind of this error, as a specification value
    pub open spec fn kind_spec(self) -> ErrorKind {
        self.kind
    }

    /// Create an error of the given kind
    pub fn new(kind: ErrorKind) -> (e: Error)
        ensures
            e.kind_spec() == kind,
    {
        Error { kind }
    }

    /// Obtain the ErrorKind for this Error
    #[verifier::when_used_as_spec(kind_spec)]
    pub fn kind(self) -> (k: ErrorKind)
        ensures
            k == self.kind_spec(),
    {
        self.kind
    }

    /// Human-readable description of this error
    pub fn as_str(self) -> (s: &'static str)
        ensures
            s@ == match self.kind_spec() {
                ErrorKind::BufferOverflow => "buffer overflow"@,
                ErrorKind::IndexOutOfBounds => "index out of bounds"@,
                ErrorKind::ParseError => "parse error"@,
            },
    {
        self.kind.as_str()
    }
}

impl From<ErrorKind> for Error {
    fn from(kind: ErrorKind) -> (e: Error)
    {
        Error { kind }
    }
}

impl vstd::std_specs::convert::FromSpecImpl<ErrorKind> for Error {
    open spec fn obeys_from_spec() -> bool {
        true
    }

    open spec fn from_spec(kind: ErrorKind) -> Error {
        Error { kind }
    }
}

} // verus!
