use vstd::prelude::*;
use crate::errors::VaultError;
use crate::principal::PrincipalId;
use crate::shares::{secret_views, submission_views, RecoverySecret, SecretView, SubmissionView, SubmittedShares};
use crate::types::{distinct_seq, Config, ConfigView, GuardianState, RecoveryRequest, RegistryView, RequestView};
use crate::wallet::{RecordView, TransactionRecord};

verus! {

/// The schema version this code reads and writes.
pub const STATE_VERSION: u32 = 1;

/// Mathematical model of the whole persistent snapshot.
#[verifier::ext_equal]
pub ghost struct StateView {
    pub version: u32,
    pub config: Option<ConfigView>,
    pub registry: Option<RegistryView>,
    pub next_recovery_id: u64,
    pub requests: Seq<RequestView>,
    pub subaccounts: Seq<(Seq<u8>, Seq<u8>)>,
    pub secrets: Seq<SecretView>,
    pub submissions: Seq<SubmissionView>,
    pub btc_addresses: Seq<(Seq<u8>, Seq<char>)>,
    pub history: Seq<RecordView>,
}

impl StateView {
    /// The invariant every reachable snapshot satisfies: a well-formed
    /// registry, recovery ids below the allocation counter and unique,
    /// duplicate-free approval lists, and duplicate-free keys in every
    /// keyed collection.
    pub open spec fn well_formed(self) -> bool {
        &&& match self.registry {
            Some(r) => r.well_formed(),
            None => true,
        }
        &&& forall|i: int| 0 <= i < self.requests.len()
            ==> (#[trigger] self.requests[i]).id < self.next_recovery_id
        &&& forall|i: int, j: int| 0 <= i < j < self.requests.len()
            ==> self.requests[i].id != self.requests[j].id
        &&& forall|i: int| 0 <= i < self.requests.len()
            ==> distinct_seq((#[trigger] self.requests[i]).approvals)
        &&& self.requests.len() > 0 ==> self.registry is Some
        &&& distinct_seq(self.subaccounts.map_values(|e: (Seq<u8>, Seq<u8>)| e.0))
        &&& distinct_seq(self.secrets.map_values(|s: SecretView| s.secret_id))
        &&& distinct_seq(self.submissions.map_values(|s: SubmissionView| s.recovery_id))
        &&& forall|i: int| 0 <= i < self.submissions.len()
            ==> distinct_seq((#[trigger] self.submissions[i]).entries.map_values(
                |e: (Seq<u8>, Seq<u8>)| e.0))
        &&& distinct_seq(self.btc_addresses.map_values(|e: (Seq<u8>, Seq<char>)| e.0))
    }

    /// The freshly created snapshot: current schema, nothing configured.
    pub open spec fn initial() -> StateView {
        StateView {
            version: STATE_VERSION,
            config: None,
            registry: None,
            next_recovery_id: 1,
            requests: Seq::empty(),
            subaccounts: Seq::empty(),
            secrets: Seq::empty(),
            submissions: Seq::empty(),
            btc_addresses: Seq::empty(),
            history: Seq::empty(),
        }
    }
}

/// The view of a user-to-subaccount list.
pub open spec fn subaccount_views(entries: Seq<(PrincipalId, Vec<u8>)>) -> Seq<(Seq<u8>, Seq<u8>)> {
    entries.map_values(|e: (PrincipalId, Vec<u8>)| (e.0@, e.1@))
}

/// The view of a user-to-address list.
pub open spec fn address_views(entries: Seq<(PrincipalId, String)>) -> Seq<(Seq<u8>, Seq<char>)> {
    entries.map_values(|e: (PrincipalId, String)| (e.0@, e.1@))
}

/// The views of a transaction history, in order.
pub open spec fn record_views(records: Seq<TransactionRecord>) -> Seq<RecordView> {
    records.map_values(|t: TransactionRecord| t@)
}

/// The one versioned snapshot of all vault state. The hosting environment
/// owns its durable storage; every operation of this crate is a transition
/// on a value of this type.
#[derive(Debug)]
pub struct VaultState {
    pub version: u32,
    pub config: Option<Config>,
    pub guardian_state: Option<GuardianState>,
    pub next_recovery_id: u64,
    pub recovery_reqs: Vec<RecoveryRequest>,
    pub subaccounts: Vec<(PrincipalId, Vec<u8>)>,
    pub recovery_secrets: Vec<RecoverySecret>,
    pub submitted_recovery_shares: Vec<SubmittedShares>,
    pub btc_addresses: Vec<(PrincipalId, String)>,
    pub transaction_history: Vec<TransactionRecord>,
}

impl View for VaultState {
    type V = StateView;

    open spec fn view(&self) -> StateView {
        StateView {
            version: self.version,
            config: match self.config {
                Some(ref c) => Some(c@),
                None => None,
            },
            registry: match self.guardian_state {
                Some(ref g) => Some(g@),
                None => None,
            },
            next_recovery_id: self.next_recovery_id,
            requests: crate::recovery::request_views(self.recovery_reqs@),
            subaccounts: subaccount_views(self.subaccounts@),
            secrets: secret_views(self.recovery_secrets@),
            submissions: submission_views(self.submitted_recovery_shares@),
            btc_addresses: address_views(self.btc_addresses@),
            history: record_views(self.transaction_history@),
        }
    }
}

impl VaultState {
    /// Shorthand for the snapshot invariant on the executable state.
    pub open spec fn wf(&self) -> bool {
        self@.well_formed()
    }
}

impl Default for VaultState {
    /// The state a vault starts from before any configuration.
    fn default() -> (r: VaultState)
        ensures
            r@ == StateView::initial(),
            r.wf(),
    {
        let r = VaultState {
            version: STATE_VERSION,
            config: None,
            guardian_state: None,
            next_recovery_id: 1,
            recovery_reqs: Vec::new(),
            subaccounts: Vec::new(),
            recovery_secrets: Vec::new(),
            submitted_recovery_shares: Vec::new(),
            btc_addresses: Vec::new(),
            transaction_history: Vec::new(),
        };
        proof {
            assert(r@ =~~= StateView::initial());
        }
        r
    }
}

/// Brings a durable snapshot up to this code's schema version.
///
/// A snapshot already at the current version is left untouched. A snapshot
/// from a newer schema is refused with `VersionDowngrade`: the host must
/// halt rather than operate on state it does not understand. An older
/// snapshot is migrated forward and stamped with the current version.
pub fn migrate_state(state: &mut VaultState) -> (r: Result<(), VaultError>)
    ensures
        old(state)@.version == STATE_VERSION ==> r is Ok && final(state)@ == old(state)@,
        old(state)@.version > STATE_VERSION ==> r == Err::<(), VaultError>(
            VaultError::VersionDowngrade,
        ) && final(state)@ == old(state)@,
        old(state)@.version < STATE_VERSION ==> r is Ok && final(state)@ == (StateView {
            version: STATE_VERSION,
            ..old(state)@
        }),
        final(state)@.version >= STATE_VERSION || final(state)@ == old(state)@,
        old(state).wf() ==> final(state).wf(),
{
    if state.version == STATE_VERSION {
        Ok(())
    } else if state.version > STATE_VERSION {
        Err(VaultError::VersionDowngrade)
    } else {
        // Forward migrations from older layouts would run here; the first
        // schema has none, so only the stamp changes.
        state.version = STATE_VERSION;
        Ok(())
    }
}

/// Stores the initial configuration; refuses to overwrite an existing one.
pub fn init_state(state: &mut VaultState, config: Config) -> (r: Result<(), VaultError>)
    ensures
        match r {
            Ok(()) => old(state)@.config is None && final(state)@ == (StateView {
                config: Some(config@),
                ..old(state)@
            }),
            Err(e) => e == VaultError::AlreadyInitialized && old(state)@.config is Some
                && final(state)@ == old(state)@,
        },
        old(state).wf() ==> final(state).wf(),
{
    if state.config.is_some() {
        return Err(VaultError::AlreadyInitialized);
    }
    state.config = Some(config);
    Ok(())
}

/// Stores the initial configuration and creates the guardian registry with
/// the caller as owner; refuses to run twice.
pub fn init_config(state: &mut VaultState, caller: &PrincipalId, config: Config) -> (r: Result<
    (),
    VaultError,
>)
    ensures
        match r {
            Ok(()) => old(state)@.config is None && final(state)@ == (StateView {
                config: Some(config@),
                registry: Some(
                    RegistryView { guardians: Seq::empty(), quorum: 0, owner: caller@ },
                ),
                ..old(state)@
            }),
            Err(e) => e == VaultError::AlreadyInitialized && old(state)@.config is Some
                && final(state)@ == old(state)@,
        },
        old(state).wf() ==> final(state).wf(),
{
    if state.config.is_some() {
        return Err(VaultError::AlreadyInitialized);
    }
    state.config = Some(config);
    state.guardian_state = Some(
        GuardianState { guardians: Vec::new(), quorum: 0, owner: caller.clone() },
    );
    proof {
        assert(final(state)@.registry->Some_0.guardians =~= Seq::<Seq<u8>>::empty());
    }
    Ok(())
}

/// Replaces the configuration; only the registry owner may do so.
pub fn set_config(state: &mut VaultState, caller: &PrincipalId, config: Config) -> (r: Result<
    (),
    VaultError,
>)
    ensures
        match r {
            Ok(()) => old(state)@.registry is Some && old(state)@.registry->Some_0.owner
                == caller@ && final(state)@ == (StateView { config: Some(config@), ..old(state)@ }),
            Err(e) => final(state)@ == old(state)@ && match e {
                VaultError::NotInitialized => old(state)@.registry is None,
                VaultError::Unauthorized => old(state)@.registry is Some && old(
                    state,
                )@.registry->Some_0.owner != caller@,
                _ => false,
            },
        },
        old(state).wf() ==> final(state).wf(),
{
    match state.guardian_state {
        None => Err(VaultError::NotInitialized),
        Some(ref g) => {
            if !g.owner.eq(caller) {
                return Err(VaultError::Unauthorized);
            }
            state.config = Some(config);
            Ok(())
        },
    }
}

/// A read-only copy of the configuration.
pub fn get_config(state: &VaultState) -> (r: Option<Config>)
    ensures
        match r {
            Some(c) => state@.config == Some(c@),
            None => state@.config is None,
        },
{
    match state.config {
        Some(ref c) => Some(c.clone()),
        None => None,
    }
}

} // verus!
