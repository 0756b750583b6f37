//! The error kinds of the storage engine.

use vstd::prelude::*;

verus! {

/// What can go wrong in the engine.
///
/// A failed decode is always `AuthenticationFailure`, whether the key is
/// wrong, the slot is free or the bytes are damaged: telling these apart
/// would tell an observer which slots are in use.
#[derive(Clone, Copy, Debug, PartialEq, Eq, Structural)]
pub enum PddbError {
    /// The bytes do not authenticate under the key and slot presented.
    AuthenticationFailure,
    /// The weak checksum of a page table entry did not match.
    ChecksumPreFilterReject,
    /// The basis has no free physical page left.
    OutOfSpace,
    /// A staged update could not be read back.
    InconsistentCommit,
    /// The key derived from the password opens nothing on this flash.
    WrongPassword,
    /// No page is mapped at the virtual address, or the handle is not open.
    NotFound,
    /// The page has been rewritten as often as its journal counter allows.
    JournalExhausted,
    /// The system's random source returned no bytes.
    EntropyUnavailable,
}

impl PddbError {
    /// A fixed description of the error kind.
    pub fn message(&self) -> (text: &'static str)
        ensures
            text@ == match *self {
                PddbError::AuthenticationFailure => "authentication failure"@,
                PddbError::ChecksumPreFilterReject => "checksum pre-filter reject"@,
                PddbError::OutOfSpace => "out of space"@,
                PddbError::InconsistentCommit => "inconsistent commit"@,
                PddbError::WrongPassword => "wrong password"@,
                PddbError::NotFound => "not found"@,
                PddbError::JournalExhausted => "journal revision exhausted"@,
                PddbError::EntropyUnavailable => "entropy unavailable"@,
            },
    {
        match self {
            PddbError::AuthenticationFailure => "authentication failure",
            PddbError::ChecksumPreFilterReject => "checksum pre-filter reject",
            PddbError::OutOfSpace => "out of space",
            PddbError::InconsistentCommit => "inconsistent commit",
            PddbError::WrongPassword => "wrong password",
            PddbError::NotFound => "not found",
            PddbError::JournalExhausted => "journal revision exhausted",
            PddbError::EntropyUnavailable => "entropy unavailable",
        }
    }
}

} // verus!
