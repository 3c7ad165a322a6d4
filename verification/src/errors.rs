//! Error taxonomy shared by the registry and the lookup layers.

use vstd::prelude::*;

verus! {

/// Why materializing a database for a known identifier failed.
#[derive(Clone, Copy, Debug, PartialEq, Eq, Structural)]
pub enum LoadFault {
    /// The backing store could not be read.
    Io,
    /// The stored data was not a valid database.
    Format,
}

/// Failure modes of acquiring a database from the registry.
///
/// A per-query miss (image absent, address below the table) is never an
/// error: it degrades to a null entry in the batch result.
#[derive(Clone, Copy, Debug, PartialEq, Eq, Structural)]
pub enum AcquireError {
    /// The identifier names no known source of symbol data; not retryable.
    UnknownSdk,
    /// Loading from a known source failed; retryable at the caller's choice.
    LoadError(LoadFault),
}

} // verus!
