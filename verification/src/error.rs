//! What can go wrong in the core.

use vstd::prelude::*;

verus! {

/// The failures of the service.
#[derive(Clone, Copy, Debug, PartialEq, Eq, Hash, Structural)]
pub enum Error {
    /// A change was aimed at an id that the store does not hold.
    NotFound,
    /// A snapshot exists but is not a well-formed envelope of a known version.
    CorruptSnapshot,
    /// A snapshot could not be written. The store in memory is not affected.
    PersistenceFailure,
}

impl Error {
    /// Whether the service has to stop on this failure. Only a corrupt snapshot
    /// is fatal: to go on without it would drop what was saved. A missing todo
    /// and a failed write are left to the caller, and the service goes on.
    pub fn is_fatal(&self) -> (fatal: bool)
        ensures
            fatal == (*self == Error::CorruptSnapshot),
    {
        match self {
            Error::NotFound => false,
            Error::CorruptSnapshot => true,
            Error::PersistenceFailure => false,
        }
    }

    /// A short description for logs and responses.
    pub fn message(&self) -> (text: &'static str)
        ensures
            text@ == match *self {
                Error::NotFound => "todo not found"@,
                Error::CorruptSnapshot => "corrupt snapshot"@,
                Error::PersistenceFailure => "snapshot not written"@,
            },
    {
        match self {
            Error::NotFound => "todo not found",
            Error::CorruptSnapshot => "corrupt snapshot",
            Error::PersistenceFailure => "snapshot not written",
        }
    }
}

} // verus!
