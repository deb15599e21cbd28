//! A custodial-key social-recovery vault.
//!
//! A single vault identity (the owner) can be transferred to a new owner only
//! through agreement of a quorum of designated guardians. The owner may also
//! pre-distribute encrypted shares of a recovery secret to those guardians so
//! the secret can be reconstructed during recovery.
//!
//! The crate holds the guardian registry, the quorum-gated recovery-request
//! state machine, the threshold secret-share vault, and the versioned state
//! snapshot they live in. Every operation is a pure transition on
//! [`state::VaultState`]; the hosting environment supplies caller identities,
//! the current time, durable storage, and the external key-derivation calls.

pub mod digest;
pub mod encoding;
pub mod errors;
pub mod guardians;
pub mod laws;
pub mod principal;
pub mod recovery;
pub mod shares;
pub mod state;
pub mod types;
pub mod wallet;
