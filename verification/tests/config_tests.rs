use guardian_vault::errors::VaultError;
use guardian_vault::principal::PrincipalId;
use guardian_vault::state::{get_config, init_config, init_state, set_config, VaultState};
use guardian_vault::types::Config;

fn principal(text: &str) -> PrincipalId {
    let p = candid::Principal::from_text(text).unwrap();
    PrincipalId::from_bytes(p.as_slice().to_vec())
}

fn owner_principal() -> PrincipalId {
    principal("rdmx6-jaaaa-aaaaa-aaadq-cai")
}

fn other_principal() -> PrincipalId {
    principal("rrkah-fqaaa-aaaaa-aaaaq-cai")
}

fn sample_config(key_name: &str) -> Config {
    Config {
        ckbtc_ledger: principal("ryjl3-tyaaa-aaaaa-aaaba-cai"),
        ckbtc_minter: principal("rno2w-sqaaa-aaaaa-aaacq-cai"),
        ecdsa_key_name: String::from(key_name),
    }
}

#[test]
fn init_state_stores_config_once() {
    let mut state = VaultState::default();
    assert!(get_config(&state).is_none());

    init_state(&mut state, sample_config("secp256k1")).unwrap();
    assert_eq!(get_config(&state).unwrap().ecdsa_key_name, "secp256k1");

    let again = init_state(&mut state, sample_config("other"));
    assert_eq!(again.unwrap_err(), VaultError::AlreadyInitialized);
    assert_eq!(get_config(&state).unwrap().ecdsa_key_name, "secp256k1");
}

#[test]
fn init_config_creates_registry_with_caller_as_owner() {
    let mut state = VaultState::default();
    init_config(&mut state, &owner_principal(), sample_config("secp256k1")).unwrap();

    let g = state.guardian_state.as_ref().unwrap();
    assert_eq!(g.owner, owner_principal());
    assert!(g.guardians.is_empty());
    assert_eq!(g.quorum, 0);

    let again = init_config(&mut state, &other_principal(), sample_config("x"));
    assert_eq!(again.unwrap_err(), VaultError::AlreadyInitialized);
    assert_eq!(state.guardian_state.as_ref().unwrap().owner, owner_principal());
}

#[test]
fn set_config_is_owner_only() {
    let mut state = VaultState::default();

    let r = set_config(&mut state, &owner_principal(), sample_config("a"));
    assert_eq!(r.unwrap_err(), VaultError::NotInitialized);

    init_config(&mut state, &owner_principal(), sample_config("a")).unwrap();

    let r = set_config(&mut state, &other_principal(), sample_config("b"));
    assert_eq!(r.unwrap_err(), VaultError::Unauthorized);
    assert_eq!(get_config(&state).unwrap().ecdsa_key_name, "a");

    set_config(&mut state, &owner_principal(), sample_config("b")).unwrap();
    assert_eq!(get_config(&state).unwrap().ecdsa_key_name, "b");
}
