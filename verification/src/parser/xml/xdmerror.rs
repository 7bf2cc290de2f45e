use vstd::prelude::*;

verus! {

/// The kind of a document-model error.
#[derive(Copy, Clone, Debug, PartialEq, Eq, Structural)]
pub enum ErrorKind {
    TypeError,
    Unknown,
}

/// An error raised while parsing or interpreting a document.
#[derive(Clone, Debug)]
pub struct Error {
    pub kind: ErrorKind,
    pub message: String,
}

impl Error {
    pub fn new(kind: ErrorKind, message: String) -> (r: Self)
        ensures
            r.kind == kind,
            r.message@ == message@,
    {
        Error { kind, message }
    }
}

} // verus!
