use vstd::prelude::*;

verus! {

/// Every failure of a vault operation is one of these typed results;
/// validation and authorization failures never mutate state.
#[derive(Clone, Copy, Debug, PartialEq, Eq, Structural)]
pub enum VaultError {
    /// The guardian registry (or the configuration) has not been created yet.
    NotInitialized,
    /// The guardian registry (or the configuration) already exists.
    AlreadyInitialized,
    /// The caller is not allowed to perform this operation.
    Unauthorized,
    /// The quorum does not satisfy `1 <= quorum <= |guardians|` on a
    /// non-empty guardian list.
    InvalidQuorum,
    /// No open recovery request with the given id exists.
    RequestNotFound,
    /// The recovery request with the given id has already been closed.
    RequestClosed,
    /// The supplied guardian list does not match the registry's guardian set.
    GuardianMismatch,
    /// Fewer submitted shares than the quorum requires.
    InsufficientShares,
    /// The stored snapshot carries a schema version newer than this code.
    VersionDowngrade,
    /// An external service call failed; the whole operation may be retried.
    ExternalCallFailed,
    /// A public key of a length the address derivation does not support.
    InvalidPublicKey,
}

impl VaultError {
    /// A short stable description, for hosts that report errors as text.
    pub fn describe(&self) -> (r: &'static str)
    {
        match self {
            VaultError::NotInitialized => "guardian state not initialized",
            VaultError::AlreadyInitialized => "already initialized",
            VaultError::Unauthorized => "only owner or guardians may perform this operation",
            VaultError::InvalidQuorum => "invalid quorum/guardians",
            VaultError::RequestNotFound => "recovery request not found",
            VaultError::RequestClosed => "recovery request closed",
            VaultError::GuardianMismatch => "guardian list mismatch",
            VaultError::InsufficientShares => "insufficient recovery shares",
            VaultError::VersionDowngrade => "cannot downgrade state version",
            VaultError::ExternalCallFailed => "external call failed",
            VaultError::InvalidPublicKey => "invalid public key length",
        }
    }
}

} // verus!
