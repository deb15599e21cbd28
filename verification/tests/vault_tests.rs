use guardian_vault::errors::VaultError;
use sha2::Digest;
use guardian_vault::principal::PrincipalId;
use guardian_vault::shares::{
    commit_guardian_shares, complete_recovery, generate_guardian_encryption_key,
    generate_secret_id, get_guardian_share, get_recovery_status_for_guardian,
    plan_guardian_shares, submit_recovery_share,
};
use guardian_vault::state::VaultState;
use guardian_vault::types::{GuardianState, RecoveryRequest};

fn principal(text: &str) -> PrincipalId {
    let p = candid::Principal::from_text(text).unwrap();
    PrincipalId::from_bytes(p.as_slice().to_vec())
}

fn owner_principal() -> PrincipalId {
    principal("rdmx6-jaaaa-aaaaa-aaadq-cai")
}

fn guardian1_principal() -> PrincipalId {
    principal("rrkah-fqaaa-aaaaa-aaaaq-cai")
}

fn guardian2_principal() -> PrincipalId {
    principal("ryjl3-tyaaa-aaaaa-aaaba-cai")
}

fn new_owner_principal() -> PrincipalId {
    principal("renrk-eyaaa-aaaaa-aaada-cai")
}

fn anonymous_principal() -> PrincipalId {
    PrincipalId::from_bytes(candid::Principal::anonymous().as_slice().to_vec())
}

fn setup_state() -> VaultState {
    let mut state = VaultState::default();
    state.guardian_state = Some(GuardianState {
        guardians: vec![guardian1_principal(), guardian2_principal()],
        quorum: 2,
        owner: owner_principal(),
    });
    state
}

fn push_open_request(state: &mut VaultState, id: u64) {
    state.recovery_reqs.push(RecoveryRequest {
        id,
        new_owner: new_owner_principal(),
        approvals: vec![],
        open: true,
    });
}

#[test]
fn test_secret_id_generation() {
    let owner = owner_principal();
    let guardians = vec![guardian1_principal(), guardian2_principal()];

    let secret_id1 = generate_secret_id(&owner, &guardians, 1_000);
    let secret_id2 = generate_secret_id(&owner, &guardians, 2_000);

    // Should be different due to timestamp
    assert_ne!(secret_id1, secret_id2);
    assert_eq!(secret_id1.len(), 32); // SHA256 output
}

#[test]
fn test_guardian_encryption_key_generation() {
    let guardian = guardian1_principal();

    let key1 = generate_guardian_encryption_key(&guardian);
    let key2 = generate_guardian_encryption_key(&guardian);

    // Should be deterministic for same guardian
    assert_eq!(key1, key2);
    assert_eq!(key1.len(), 32); // SHA256 output
}

#[test]
fn secret_id_matches_tagged_digest() {
    // The id must be the SHA-256 of the documented preimage, not the
    // preimage itself or anything else.
    let owner = owner_principal();
    let guardians = vec![guardian1_principal(), guardian2_principal()];
    let now: u64 = 123_456;

    let mut hasher = sha2::Sha256::new();
    hasher.update(b"guardian_vault_recovery_");
    hasher.update(owner.as_slice());
    for g in &guardians {
        hasher.update(g.as_slice());
    }
    hasher.update(now.to_be_bytes());
    let expected: Vec<u8> = hasher.finalize().to_vec();

    assert_eq!(generate_secret_id(&owner, &guardians, now), expected);
}

#[test]
fn scenario_mismatched_guardian_list_is_refused() {
    // A guardian list of the wrong size must be refused before any secret
    // material is produced or stored.
    let state = setup_state();
    let result = plan_guardian_shares(
        &state,
        &owner_principal(),
        &vec![guardian1_principal()],
        1_000,
    );
    assert_eq!(result.unwrap_err(), VaultError::GuardianMismatch);
    assert!(state.recovery_secrets.is_empty());
}

#[test]
fn plan_requires_owner() {
    let state = setup_state();
    let result = plan_guardian_shares(
        &state,
        &guardian1_principal(),
        &vec![guardian1_principal(), guardian2_principal()],
        1_000,
    );
    assert_eq!(result.unwrap_err(), VaultError::Unauthorized);
}

#[test]
fn planned_and_committed_shares_reach_their_guardians() {
    let mut state = setup_state();
    let guardians = vec![guardian1_principal(), guardian2_principal()];
    let plan = plan_guardian_shares(&state, &owner_principal(), &guardians, 1_000).unwrap();
    assert_eq!(plan.requests.len(), 2);
    assert_eq!(plan.threshold, 2);
    assert_eq!(plan.requests[0].share_index, 0);
    assert_eq!(plan.requests[1].share_index, 1);
    assert_eq!(plan.requests[0].derivation_path.len(), 3);
    assert_eq!(plan.requests[0].derivation_path[0], plan.secret_id);

    let encrypted = vec![vec![0xAA, 0x01], vec![0xBB, 0x02]];
    let secret_id =
        commit_guardian_shares(&mut state, &owner_principal(), plan, encrypted, 1_000).unwrap();
    assert_eq!(state.recovery_secrets.len(), 1);

    // Each guardian sees exactly their own share.
    let share = get_guardian_share(&state, &guardian1_principal(), secret_id.clone())
        .unwrap()
        .unwrap();
    assert_eq!(share.guardian, guardian1_principal());
    assert_eq!(share.encrypted_share, vec![0xAA, 0x01]);
    assert_eq!(share.share_index, 0);

    let share2 = get_guardian_share(&state, &guardian2_principal(), secret_id.clone())
        .unwrap()
        .unwrap();
    assert_eq!(share2.encrypted_share, vec![0xBB, 0x02]);

    // A stranger, or an unknown secret id, sees nothing.
    assert!(get_guardian_share(&state, &anonymous_principal(), secret_id)
        .unwrap()
        .is_none());
    assert!(get_guardian_share(&state, &guardian1_principal(), vec![0u8; 32])
        .unwrap()
        .is_none());
}

#[test]
fn submission_counts_distinct_guardians_and_overwrites() {
    let mut state = setup_state();
    push_open_request(&mut state, 1);

    let sid = vec![1, 2, 3];
    let reached = submit_recovery_share(
        &mut state,
        &guardian1_principal(),
        1,
        sid.clone(),
        vec![0x10],
    )
    .unwrap();
    assert!(!reached);

    // A second submission from the same guardian replaces the first and
    // does not move the count towards the quorum.
    let reached = submit_recovery_share(
        &mut state,
        &guardian1_principal(),
        1,
        sid.clone(),
        vec![0x11],
    )
    .unwrap();
    assert!(!reached);
    assert_eq!(state.submitted_recovery_shares[0].entries.len(), 1);
    assert_eq!(state.submitted_recovery_shares[0].entries[0].1, vec![0x11]);

    let reached =
        submit_recovery_share(&mut state, &guardian2_principal(), 1, sid, vec![0x20]).unwrap();
    assert!(reached);
}

#[test]
fn submission_requires_guardian_and_open_request() {
    let mut state = setup_state();
    push_open_request(&mut state, 1);

    let r = submit_recovery_share(&mut state, &anonymous_principal(), 1, vec![], vec![0x01]);
    assert_eq!(r.unwrap_err(), VaultError::Unauthorized);

    let r = submit_recovery_share(&mut state, &guardian1_principal(), 9, vec![], vec![0x01]);
    assert_eq!(r.unwrap_err(), VaultError::RequestNotFound);

    state.recovery_reqs[0].open = false;
    let r = submit_recovery_share(&mut state, &guardian1_principal(), 1, vec![], vec![0x01]);
    assert_eq!(r.unwrap_err(), VaultError::RequestClosed);
}

#[test]
fn completion_transfers_ownership_and_discards_shares() {
    let mut state = setup_state();
    push_open_request(&mut state, 1);

    submit_recovery_share(&mut state, &guardian1_principal(), 1, vec![], vec![0x01]).unwrap();

    // One share of two: not enough yet.
    let early = complete_recovery(&mut state, 1);
    assert_eq!(early.unwrap_err(), VaultError::InsufficientShares);

    submit_recovery_share(&mut state, &guardian2_principal(), 1, vec![], vec![0x02]).unwrap();

    let done = complete_recovery(&mut state, 1).unwrap();
    assert!(done);
    assert_eq!(
        state.guardian_state.as_ref().unwrap().owner,
        new_owner_principal()
    );
    assert!(!state.recovery_reqs[0].open);
    // Guardian-supplied secret material is not retained.
    assert!(state.submitted_recovery_shares.is_empty());

    let again = complete_recovery(&mut state, 1);
    assert_eq!(again.unwrap_err(), VaultError::RequestClosed);

    // The approval path against the same id is rejected too: the transfer
    // happened exactly once.
    let late = guardian_vault::recovery::approve_recovery(&mut state, &guardian1_principal(), 1);
    assert_eq!(late.unwrap_err(), VaultError::RequestClosed);
    assert_eq!(
        state.guardian_state.as_ref().unwrap().owner,
        new_owner_principal()
    );
}

#[test]
fn guardian_status_view_is_authorized() {
    let mut state = setup_state();
    push_open_request(&mut state, 1);

    let seen = get_recovery_status_for_guardian(&state, &guardian1_principal(), 1)
        .unwrap()
        .unwrap();
    assert_eq!(seen.id, 1);

    let missing = get_recovery_status_for_guardian(&state, &guardian1_principal(), 2).unwrap();
    assert!(missing.is_none());

    let refused = get_recovery_status_for_guardian(&state, &anonymous_principal(), 1);
    assert_eq!(refused.unwrap_err(), VaultError::Unauthorized);
}
