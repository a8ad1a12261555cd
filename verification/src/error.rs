//! Errors of the shared cache components.

use vstd::prelude::*;

verus! {

pub type BunkerResult<T> = Result<T, BunkerError>;

/// An error of the shared components: malformed identifiers and malformed
/// content-hash text, rejected at the boundary before any side effect.
#[derive(Debug, Clone)]
pub enum BunkerError {
    /// A path that is not a direct child of the store directory.
    InvalidStorePath { path: String, reason: &'static str },
    /// A store-path base name that does not match the base-name grammar.
    InvalidStorePathName { base_name: String, reason: &'static str },
    /// A store-path hash segment of the wrong length or alphabet.
    InvalidStorePathHash { hash: String, reason: &'static str },
    /// A malformed cache name.
    InvalidCacheName { name: String },
    /// A malformed content-hash text form.
    HashError(crate::hash::HashError),
}

impl BunkerError {
    /// The stable machine-readable name of this error's kind, independent of
    /// its human-readable reason.
    pub open spec fn name_spec(&self) -> Seq<char> {
        match self {
            BunkerError::InvalidStorePath { .. } => "InvalidStorePath"@,
            BunkerError::InvalidStorePathName { .. } => "InvalidStorePathName"@,
            BunkerError::InvalidStorePathHash { .. } => "InvalidStorePathHash"@,
            BunkerError::InvalidCacheName { .. } => "InvalidCacheName"@,
            BunkerError::HashError(_) => "HashError"@,
        }
    }

    pub fn name(&self) -> (r: &'static str)
        ensures
            r@ == self.name_spec(),
    {
        match self {
            BunkerError::InvalidStorePath { .. } => "InvalidStorePath",
            BunkerError::InvalidStorePathName { .. } => "InvalidStorePathName",
            BunkerError::InvalidStorePathHash { .. } => "InvalidStorePathHash",
            BunkerError::InvalidCacheName { .. } => "InvalidCacheName",
            BunkerError::HashError(_) => "HashError",
        }
    }
}

} // verus!
