use guardian_vault::errors::VaultError;
use guardian_vault::guardians::initialize_guardians;
use guardian_vault::principal::PrincipalId;
use guardian_vault::recovery::{
    approve_recovery, get_recovery_requests, recovery_status, request_recovery,
};
use guardian_vault::shares::{complete_recovery, submit_recovery_share};
use guardian_vault::state::VaultState;
use guardian_vault::types::{GuardianState, RecoveryRequest};

fn principal(text: &str) -> PrincipalId {
    let p = candid::Principal::from_text(text).unwrap();
    PrincipalId::from_bytes(p.as_slice().to_vec())
}

fn owner_principal() -> PrincipalId {
    principal("rdmx6-jaaaa-aaaaa-aaadq-cai")
}

fn guardian1_principal() -> PrincipalId {
    principal("rrkah-fqaaa-aaaaa-aaaaq-cai")
}

fn guardian2_principal() -> PrincipalId {
    principal("ryjl3-tyaaa-aaaaa-aaaba-cai")
}

fn guardian3_principal() -> PrincipalId {
    principal("rno2w-sqaaa-aaaaa-aaacq-cai")
}

fn new_owner_principal() -> PrincipalId {
    principal("renrk-eyaaa-aaaaa-aaada-cai")
}

fn anonymous_principal() -> PrincipalId {
    PrincipalId::from_bytes(candid::Principal::anonymous().as_slice().to_vec())
}

fn setup_test_state_with_guardians() -> VaultState {
    let mut state = VaultState::default();
    state.guardian_state = Some(GuardianState {
        guardians: vec![
            guardian1_principal(),
            guardian2_principal(),
            guardian3_principal(),
        ],
        quorum: 2,
        owner: owner_principal(),
    });
    state
}

fn push_open_request(state: &mut VaultState, id: u64, new_owner: PrincipalId) {
    state.recovery_reqs.push(RecoveryRequest {
        id,
        new_owner,
        approvals: vec![],
        open: true,
    });
}

#[test]
fn test_recovery_request_creation() {
    let mut state = setup_test_state_with_guardians();
    let new_owner = new_owner_principal();

    // Test that owner can create recovery request
    let result = request_recovery(&mut state, &owner_principal(), &new_owner);
    assert!(result.is_ok());

    // Test that guardian can create recovery request
    let result = request_recovery(&mut state, &guardian1_principal(), &new_owner);
    assert!(result.is_ok());

    // Test that unauthorized principal cannot create recovery request
    let unauthorized = anonymous_principal();
    let result = request_recovery(&mut state, &unauthorized, &new_owner);
    assert!(result.is_err());
}

#[test]
fn test_recovery_approval_quorum() {
    let mut state = setup_test_state_with_guardians();
    let new_owner = new_owner_principal();

    let recovery_id = 1;
    push_open_request(&mut state, recovery_id, new_owner.clone());

    // Test first approval (should not complete recovery)
    let result = approve_recovery(&mut state, &guardian1_principal(), recovery_id);
    assert!(result.is_ok());
    assert_eq!(result.unwrap(), false); // Recovery not complete yet
    assert_eq!(state.recovery_reqs[0].approvals.len(), 1);
    assert!(state.recovery_reqs[0].open);

    // Test second approval (should complete recovery with quorum of 2)
    let result = approve_recovery(&mut state, &guardian2_principal(), recovery_id);
    assert!(result.is_ok());
    assert_eq!(result.unwrap(), true); // Recovery complete
    assert_eq!(state.recovery_reqs[0].approvals.len(), 2);
    assert!(!state.recovery_reqs[0].open); // Request should be closed

    // Verify ownership transfer
    assert_eq!(state.guardian_state.as_ref().unwrap().owner, new_owner);
}

#[test]
fn test_duplicate_approval_handling() {
    let mut state = setup_test_state_with_guardians();
    let new_owner = new_owner_principal();

    let recovery_id = 1;
    push_open_request(&mut state, recovery_id, new_owner);

    // First approval
    let result = approve_recovery(&mut state, &guardian1_principal(), recovery_id);
    assert!(result.is_ok());
    assert_eq!(state.recovery_reqs[0].approvals.len(), 1);

    // Duplicate approval from same guardian
    let result = approve_recovery(&mut state, &guardian1_principal(), recovery_id);
    assert!(result.is_ok());
    assert_eq!(state.recovery_reqs[0].approvals.len(), 1); // Should remain 1
}

#[test]
fn test_unauthorized_approval() {
    let mut state = setup_test_state_with_guardians();
    let new_owner = new_owner_principal();

    let recovery_id = 1;
    push_open_request(&mut state, recovery_id, new_owner);

    // Test approval from non-guardian
    let unauthorized = anonymous_principal();
    let result = approve_recovery(&mut state, &unauthorized, recovery_id);
    assert!(result.is_err());
}

#[test]
fn scenario_quorum_transfer_then_closed() {
    // Guardians {G1, G2, G3}, quorum 2, owner O; recovery towards N.
    let mut state = VaultState::default();
    initialize_guardians(&mut state, &owner_principal()).unwrap();
    guardian_vault::guardians::set_guardians(
        &mut state,
        &owner_principal(),
        vec![
            guardian1_principal(),
            guardian2_principal(),
            guardian3_principal(),
        ],
        2,
    )
    .unwrap();

    let id = request_recovery(&mut state, &owner_principal(), &new_owner_principal()).unwrap();
    assert_eq!(id, 1);

    let committed = approve_recovery(&mut state, &guardian1_principal(), id).unwrap();
    assert_eq!(committed, false);
    assert_eq!(state.recovery_reqs[0].approvals, vec![guardian1_principal()]);

    let committed = approve_recovery(&mut state, &guardian2_principal(), id).unwrap();
    assert_eq!(committed, true);
    assert_eq!(
        state.guardian_state.as_ref().unwrap().owner,
        new_owner_principal()
    );
    assert!(!state.recovery_reqs[0].open);

    let late = approve_recovery(&mut state, &guardian3_principal(), id);
    assert_eq!(late.unwrap_err(), VaultError::RequestClosed);
    assert_eq!(
        state.guardian_state.as_ref().unwrap().owner,
        new_owner_principal()
    );
}

#[test]
fn approve_unknown_request_is_not_found() {
    let mut state = setup_test_state_with_guardians();
    let result = approve_recovery(&mut state, &guardian1_principal(), 42);
    assert_eq!(result.unwrap_err(), VaultError::RequestNotFound);
}

#[test]
fn approve_requires_initialized_registry() {
    let mut state = VaultState::default();
    let result = approve_recovery(&mut state, &guardian1_principal(), 1);
    assert_eq!(result.unwrap_err(), VaultError::NotInitialized);
}

#[test]
fn transfer_happens_at_most_once_across_paths() {
    // Quorum approval commits; the share-driven completion against the
    // same id must then be rejected without touching the owner again.
    let mut state = setup_test_state_with_guardians();
    push_open_request(&mut state, 1, new_owner_principal());

    submit_recovery_share(
        &mut state,
        &guardian1_principal(),
        1,
        vec![1, 2, 3],
        vec![9, 9],
    )
    .unwrap();

    approve_recovery(&mut state, &guardian1_principal(), 1).unwrap();
    let committed = approve_recovery(&mut state, &guardian2_principal(), 1).unwrap();
    assert!(committed);
    assert_eq!(
        state.guardian_state.as_ref().unwrap().owner,
        new_owner_principal()
    );

    let result = complete_recovery(&mut state, 1);
    assert_eq!(result.unwrap_err(), VaultError::RequestClosed);
    assert_eq!(
        state.guardian_state.as_ref().unwrap().owner,
        new_owner_principal()
    );
}

#[test]
fn recovery_status_reports_open_and_closed_requests() {
    let mut state = setup_test_state_with_guardians();
    push_open_request(&mut state, 7, new_owner_principal());

    let found = recovery_status(&state, 7).unwrap();
    assert_eq!(found.id, 7);
    assert!(found.open);
    assert!(recovery_status(&state, 8).is_none());
}

#[test]
fn request_listing_is_filtered_by_caller() {
    let mut state = setup_test_state_with_guardians();
    push_open_request(&mut state, 1, new_owner_principal());
    push_open_request(&mut state, 2, new_owner_principal());

    assert_eq!(get_recovery_requests(&state, &owner_principal()).len(), 2);
    assert_eq!(
        get_recovery_requests(&state, &guardian1_principal()).len(),
        2
    );
    // Not an error for strangers, just an empty view.
    assert!(get_recovery_requests(&state, &anonymous_principal()).is_empty());
}

#[test]
fn request_ids_are_monotonic_and_never_reused() {
    let mut state = setup_test_state_with_guardians();
    let a = request_recovery(&mut state, &owner_principal(), &new_owner_principal()).unwrap();
    let b = request_recovery(&mut state, &owner_principal(), &new_owner_principal()).unwrap();
    assert_eq!(a, 1);
    assert_eq!(b, 2);
    assert_eq!(state.next_recovery_id, 3);
}
