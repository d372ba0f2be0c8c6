//! Result and error definitions shared by the whole library.

use vstd::prelude::*;

verus! {

/// The distinct kinds of failure the library reports.
#[derive(Clone, Copy, Debug, PartialEq, Eq, Structural)]
pub enum ErrorKind {
    /// A file could not be read or written.
    Io,
    /// Text is not well-formed structured-config (manifest) text.
    Parse,
    /// A manifest violates a required workspace or member invariant.
    Validation,
    /// An expected dependency declaration pattern is absent.
    NotFound,
    /// The dependency graph of the workspace members is not acyclic.
    Cycle,
    /// An external tool (metadata query or publish subprocess) failed.
    ExternalTool,
}

/// Error value carried out of every fallible operation of the library:
/// a kind plus a human-readable message identifying the offending
/// member, field or pattern.
#[derive(Debug, PartialEq, Eq)]
pub struct UniverError {
    /// Which kind of failure occurred.
    pub kind: ErrorKind,
    /// Human-readable description of the failure.
    pub message: String,
}

impl UniverError {
    /// Creates a new error of the given kind with the given message.
    pub fn new(kind: ErrorKind, message: String) -> (r: Self)
        ensures
            r.kind == kind,
            r.message@ == message@,
    {
        UniverError { kind, message }
    }

    /// Returns the message of this error.
    pub fn message(&self) -> (r: &String)
        ensures
            r@ == self.message@,
    {
        &self.message
    }
}

} // verus!
