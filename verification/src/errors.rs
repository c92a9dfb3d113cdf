//! The I/O error values that backend operations propagate to callers.

use vstd::prelude::*;

verus! {

/// The kinds of I/O failure the backend reports.
#[derive(Clone, Copy, Debug, PartialEq, Eq, Structural)]
pub enum IoErrorKind {
    NotFound,
    PermissionDenied,
    AlreadyExists,
    Interrupted,
    Other,
}

/// An I/O error as it surfaces through a reply channel and `wait`.
#[derive(Clone, Copy, Debug, PartialEq, Eq, Structural)]
pub struct IoError {
    pub kind: IoErrorKind,
}

impl IoError {
    /// The error a lookup of a missing path yields.
    pub fn not_found() -> (r: IoError)
        ensures
            r.kind == IoErrorKind::NotFound,
    {
        IoError { kind: IoErrorKind::NotFound }
    }
}

} // verus!
