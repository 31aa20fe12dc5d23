//! The failure taxonomy: missing things are tolerated, identity mismatches
//! are refused, and a plugin without a viable launch path is reported.

use vstd::prelude::*;

verus! {

/// Why an operation failed.
#[derive(Clone, Copy, PartialEq, Eq, Structural, Debug)]
pub enum ErrorKind {
    /// A device, profile, instance or plugin instance is missing; callers
    /// usually treat the operation as a no-op.
    NotFound,
    /// A device-namespace or plugin-identity mismatch.
    Unauthorized,
    /// A plugin has no viable launch path on this platform.
    Unsupported,
    /// A required interpreter or compatibility runtime is missing or too
    /// old.
    VersionTooOld,
}

/// A failure as surfaced to the frontend command layer: a kind and a
/// human-readable description.
#[derive(Debug)]
pub struct Error {
    pub kind: ErrorKind,
    pub description: String,
}

/// The fixed description of each failure kind.
pub open spec fn spec_describe(k: ErrorKind) -> Seq<char> {
    match k {
        ErrorKind::NotFound => "not found"@,
        ErrorKind::Unauthorized => "unauthorized"@,
        ErrorKind::Unsupported => "unsupported on this platform"@,
        ErrorKind::VersionTooOld => "required runtime is missing or too old"@,
    }
}

impl Error {
    /// A failure with its own description.
    pub fn new(description: String) -> (r: Self)
        ensures
            r.kind == ErrorKind::NotFound,
            r.description@ == description@,
    {
        Error { kind: ErrorKind::NotFound, description }
    }

    /// A failure described by its kind alone.
    pub fn from_kind(kind: ErrorKind) -> (r: Self)
        ensures
            r.kind == kind,
            r.description@ == spec_describe(kind),
    {
        let description = match kind {
            ErrorKind::NotFound => "not found",
            ErrorKind::Unauthorized => "unauthorized",
            ErrorKind::Unsupported => "unsupported on this platform",
            ErrorKind::VersionTooOld => "required runtime is missing or too old",
        };
        Error { kind, description: description.to_owned() }
    }

    /// The description, for display by the frontend.
    pub fn message(&self) -> (r: &str)
        ensures
            r@ == self.description@,
    {
        self.description.as_str()
    }
}

} // verus!
