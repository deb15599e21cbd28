use guardian_vault::errors::VaultError;
use guardian_vault::guardians::{get_guardians, initialize_guardians, set_guardians};
use guardian_vault::principal::PrincipalId;
use guardian_vault::state::{migrate_state, VaultState};

fn principal(text: &str) -> PrincipalId {
    let p = candid::Principal::from_text(text).unwrap();
    PrincipalId::from_bytes(p.as_slice().to_vec())
}

fn owner_principal() -> PrincipalId {
    principal("rdmx6-jaaaa-aaaaa-aaadq-cai")
}

fn guardian1_principal() -> PrincipalId {
    principal("rrkah-fqaaa-aaaaa-aaaaq-cai")
}

fn guardian2_principal() -> PrincipalId {
    principal("ryjl3-tyaaa-aaaaa-aaaba-cai")
}

fn guardian3_principal() -> PrincipalId {
    principal("rno2w-sqaaa-aaaaa-aaacq-cai")
}

fn anonymous_principal() -> PrincipalId {
    PrincipalId::from_bytes(candid::Principal::anonymous().as_slice().to_vec())
}

fn state_with_owner() -> VaultState {
    let mut state = VaultState::default();
    initialize_guardians(&mut state, &owner_principal()).unwrap();
    state
}

#[test]
fn test_guardian_quorum_validation() {
    let guardians = vec![
        guardian1_principal(),
        guardian2_principal(),
        guardian3_principal(),
    ];
    let owner = owner_principal();

    // Valid quorum scenarios
    for quorum in [1u8, 2, 3] {
        let mut state = state_with_owner();
        assert!(set_guardians(&mut state, &owner, guardians.clone(), quorum).is_ok());
        let g = get_guardians(&state).unwrap();
        assert!(1 <= g.quorum && (g.quorum as usize) <= g.guardians.len());
    }

    // Invalid quorum scenarios
    let mut state = state_with_owner();
    assert_eq!(
        set_guardians(&mut state, &owner, guardians.clone(), 0).unwrap_err(),
        VaultError::InvalidQuorum
    ); // 0 guardians required
    assert_eq!(
        set_guardians(&mut state, &owner, guardians.clone(), 4).unwrap_err(),
        VaultError::InvalidQuorum
    ); // More than available guardians
    assert_eq!(
        set_guardians(&mut state, &owner, vec![], 1).unwrap_err(),
        VaultError::InvalidQuorum
    ); // No guardians but quorum > 0
}

#[test]
fn test_guardian_initialization() {
    let mut state = VaultState::default();
    let owner = owner_principal();

    // Test initialization
    initialize_guardians(&mut state, &owner).unwrap();

    let guardians = vec![guardian1_principal(), guardian2_principal()];
    let result = set_guardians(&mut state, &owner, guardians.clone(), 2);
    assert!(result.is_ok());

    let guardian_state = state.guardian_state.as_ref().unwrap();
    assert_eq!(guardian_state.guardians, guardians);
    assert_eq!(guardian_state.quorum, 2);
    assert_eq!(guardian_state.owner, owner);
}

#[test]
fn test_unauthorized_guardian_operations() {
    let mut state = VaultState::default();
    let owner = owner_principal();
    let unauthorized = anonymous_principal();

    initialize_guardians(&mut state, &owner).unwrap();

    let guardians = vec![guardian1_principal()];
    let result = set_guardians(&mut state, &unauthorized, guardians, 1);
    assert!(result.is_err());
    assert!(result.unwrap_err().describe().contains("only owner"));
    // The registry is unchanged by the rejected call.
    let g = state.guardian_state.as_ref().unwrap();
    assert!(g.guardians.is_empty());
    assert_eq!(g.quorum, 0);
    assert_eq!(g.owner, owner);
}

#[test]
fn set_guardians_requires_initialized_registry() {
    let mut state = VaultState::default();
    let owner = owner_principal();
    let result = set_guardians(&mut state, &owner, vec![guardian1_principal()], 1);
    assert_eq!(result.unwrap_err(), VaultError::NotInitialized);
}

#[test]
fn initialize_guardians_runs_once() {
    let mut state = VaultState::default();
    initialize_guardians(&mut state, &owner_principal()).unwrap();
    let again = initialize_guardians(&mut state, &guardian1_principal());
    assert_eq!(again.unwrap_err(), VaultError::AlreadyInitialized);
    assert_eq!(state.guardian_state.as_ref().unwrap().owner, owner_principal());
}

#[test]
fn set_guardians_accepts_quorum_equal_to_size() {
    let mut state = state_with_owner();
    let guardians = vec![guardian1_principal()];
    assert!(set_guardians(&mut state, &owner_principal(), guardians, 1).is_ok());
    let g = get_guardians(&state).unwrap();
    assert_eq!(g.quorum, 1);
    assert_eq!(g.guardians.len(), 1);
}

#[test]
fn migration_accepts_current_version() {
    let mut state = VaultState::default();
    assert!(migrate_state(&mut state).is_ok());
    assert_eq!(state.version, 1);
}

#[test]
fn migration_refuses_newer_snapshot() {
    // A snapshot stamped by newer code must be refused, not silently read.
    let mut state = VaultState::default();
    state.version = 2;
    let result = migrate_state(&mut state);
    assert_eq!(result.unwrap_err(), VaultError::VersionDowngrade);
    assert_eq!(state.version, 2);
}

#[test]
fn migration_brings_older_snapshot_forward() {
    let mut state = VaultState::default();
    state.version = 0;
    assert!(migrate_state(&mut state).is_ok());
    assert_eq!(state.version, 1);
}
