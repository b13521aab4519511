//! The failure taxonomy every registry and bus operation reports.

use vstd::prelude::*;

verus! {

/// A typed failure of a registry or bus operation.
///
/// `NotFound` covers both an unknown source id and a missing script file;
/// `LoadError` means the script engine rejected the script's content;
/// `IoError` is a filesystem read or write failure reported by the embedder;
/// `LockError` stands for a poisoned or crashed runtime actor and is never
/// produced by the verified core itself.
#[derive(Clone, Copy, Debug, PartialEq, Eq, Structural)]
pub enum SourceError {
    NotFound,
    LoadError,
    IoError,
    LockError,
}

impl SourceError {
    /// A short human-readable description, in place of `Display`.
    pub fn describe(&self) -> (r: &'static str)
        ensures
            r@ == self.describe_spec(),
    {
        match self {
            SourceError::NotFound => "source not exists",
            SourceError::LoadError => "engine rejected script",
            SourceError::IoError => "filesystem failure",
            SourceError::LockError => "runtime actor unavailable",
        }
    }

    pub open spec fn describe_spec(&self) -> Seq<char> {
        match self {
            SourceError::NotFound => "source not exists"@,
            SourceError::LoadError => "engine rejected script"@,
            SourceError::IoError => "filesystem failure"@,
            SourceError::LockError => "runtime actor unavailable"@,
        }
    }
}

} // verus!
