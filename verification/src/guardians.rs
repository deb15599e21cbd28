use vstd::prelude::*;
use crate::errors::VaultError;
use crate::principal::{views_of, PrincipalId};
use crate::state::{StateView, VaultState};
use crate::types::{GuardianState, RegistryView};

verus! {

/// Creates the guardian registry with the given owner and no guardians yet;
/// refuses to run twice.
pub fn initialize_guardians(state: &mut VaultState, owner: &PrincipalId) -> (r: Result<
    (),
    VaultError,
>)
    ensures
        match r {
            Ok(()) => old(state)@.registry is None && final(state)@ == (StateView {
                registry: Some(
                    RegistryView { guardians: Seq::empty(), quorum: 0, owner: owner@ },
                ),
                ..old(state)@
            }),
            Err(e) => e == VaultError::AlreadyInitialized && old(state)@.registry is Some
                && final(state)@ == old(state)@,
        },
        old(state).wf() ==> final(state).wf(),
{
    if state.guardian_state.is_some() {
        return Err(VaultError::AlreadyInitialized);
    }
    state.guardian_state = Some(
        GuardianState { guardians: Vec::new(), quorum: 0, owner: owner.clone() },
    );
    proof {
        assert(final(state)@.registry->Some_0.guardians =~= Seq::<Seq<u8>>::empty());
    }
    Ok(())
}

/// Replaces the guardian set and quorum in one step.
///
/// Only the registry owner may call this, and the new values must satisfy
/// `1 <= quorum <= |guardians|` on a non-empty guardian list. Validation
/// completes before any mutation: a rejected call leaves the registry
/// unchanged.
pub fn set_guardians(
    state: &mut VaultState,
    caller: &PrincipalId,
    guardians: Vec<PrincipalId>,
    quorum: u8,
) -> (r: Result<(), VaultError>)
    ensures
        match r {
            Ok(()) => {
                &&& old(state)@.registry is Some
                &&& old(state)@.registry->Some_0.owner == caller@
                &&& guardians@.len() > 0
                &&& 1 <= quorum <= guardians@.len()
                &&& final(state)@ == (StateView {
                    registry: Some(
                        RegistryView {
                            guardians: views_of(guardians@),
                            quorum: quorum,
                            owner: caller@,
                        },
                    ),
                    ..old(state)@
                })
            },
            Err(e) => final(state)@ == old(state)@ && match e {
                VaultError::NotInitialized => old(state)@.registry is None,
                VaultError::Unauthorized => old(state)@.registry is Some && old(
                    state,
                )@.registry->Some_0.owner != caller@,
                VaultError::InvalidQuorum => old(state)@.registry is Some && old(
                    state,
                )@.registry->Some_0.owner == caller@ && !(guardians@.len() > 0 && 1 <= quorum
                    <= guardians@.len()),
                _ => false,
            },
        },
        old(state).wf() ==> final(state).wf(),
{
    match state.guardian_state {
        None => Err(VaultError::NotInitialized),
        Some(ref g) => {
            if !g.owner.eq(caller) {
                return Err(VaultError::Unauthorized);
            }
            if guardians.len() == 0 || quorum == 0 || (quorum as usize) > guardians.len() {
                return Err(VaultError::InvalidQuorum);
            }
            let owner = g.owner.clone();
            state.guardian_state = Some(GuardianState { guardians, quorum, owner });
            Ok(())
        },
    }
}

/// A read-only copy of the guardian registry. Registry membership is not
/// secret, so no authorization is required.
pub fn get_guardians(state: &VaultState) -> (r: Option<GuardianState>)
    ensures
        match r {
            Some(g) => state@.registry == Some(g@),
            None => state@.registry is None,
        },
{
    match state.guardian_state {
        Some(ref g) => Some(g.clone()),
        None => None,
    }
}

} // verus!
