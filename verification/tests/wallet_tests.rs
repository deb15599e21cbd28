use guardian_vault::encoding::encode;
use sha2::Digest;
use std::hash::{Hash, Hasher};
use guardian_vault::errors::VaultError;
use guardian_vault::principal::PrincipalId;
use guardian_vault::state::VaultState;
use guardian_vault::wallet::{
    child_derivation_path, create_subaccount, create_transaction_hash,
    create_user_derivation_path, derive_subaccount_from_principal, derive_subaccount_from_seed,
    get_bitcoin_address, get_principal_subaccount, get_user_subaccount, get_wallet_info,
    public_key_to_bitcoin_address, record_bitcoin_address, BitcoinTransaction, OutPoint,
    TransactionInput, TransactionOutput,
};

fn principal(text: &str) -> PrincipalId {
    let p = candid::Principal::from_text(text).unwrap();
    PrincipalId::from_bytes(p.as_slice().to_vec())
}

fn user_principal() -> PrincipalId {
    principal("rdmx6-jaaaa-aaaaa-aaadq-cai")
}

#[test]
fn test_derivation_path_creation() {
    let user = user_principal();
    let path = create_user_derivation_path(&user);

    assert_eq!(path.len(), 2);
    assert_eq!(path[0], b"guardian_vault".to_vec());
    assert_eq!(path[1], user.as_slice().to_vec());
}

#[test]
fn test_public_key_to_address() {
    // Test with compressed public key (33 bytes)
    let compressed_key = vec![0x02; 33];
    let address = public_key_to_bitcoin_address(&compressed_key);
    assert!(address.is_ok());
    assert!(address.unwrap().starts_with("bc1q"));

    // Test with uncompressed public key (65 bytes)
    let uncompressed_key = vec![0x04; 65];
    let address = public_key_to_bitcoin_address(&uncompressed_key);
    assert!(address.is_ok());

    // Test with invalid key length
    let invalid_key = vec![0x00; 32];
    let address = public_key_to_bitcoin_address(&invalid_key);
    assert!(address.is_err());
}

#[test]
fn test_transaction_hash_creation() {
    let transaction = BitcoinTransaction {
        inputs: vec![TransactionInput {
            previous_output: OutPoint {
                txid: vec![0x01; 32],
                vout: 0,
            },
            script_sig: vec![],
            sequence: 0xffffffff,
        }],
        outputs: vec![TransactionOutput {
            value: 50000,
            script_pubkey: vec![0x76, 0xa9, 0x14], // OP_DUP OP_HASH160 ...
        }],
        fee: 1000,
    };

    let hash = create_transaction_hash(&transaction, 0);
    assert!(hash.is_ok());
    assert_eq!(hash.unwrap().len(), 32); // SHA256 output length
}

#[test]
fn transaction_hash_is_double_sha256_of_encoding() {
    let transaction = BitcoinTransaction {
        inputs: vec![TransactionInput {
            previous_output: OutPoint {
                txid: vec![0xAB; 32],
                vout: 3,
            },
            script_sig: vec![],
            sequence: 7,
        }],
        outputs: vec![TransactionOutput {
            value: 12345,
            script_pubkey: vec![0x51],
        }],
        fee: 21,
    };

    let mut encoding: Vec<u8> = Vec::new();
    encoding.extend_from_slice(&0u32.to_be_bytes());
    encoding.extend_from_slice(&[0xAB; 32]);
    encoding.extend_from_slice(&3u32.to_be_bytes());
    encoding.extend_from_slice(&7u32.to_be_bytes());
    encoding.extend_from_slice(&12345u64.to_be_bytes());
    encoding.extend_from_slice(&[0x51]);
    encoding.extend_from_slice(&21u64.to_be_bytes());

    let first: Vec<u8> = sha2::Sha256::digest(&encoding).to_vec();
    let expected: Vec<u8> = sha2::Sha256::digest(&first).to_vec();

    assert_eq!(create_transaction_hash(&transaction, 0).unwrap(), expected);
}

#[test]
fn address_matches_tagged_digest() {
    let key = vec![0x02; 33];
    let mut preimage: Vec<u8> = b"btc_address_".to_vec();
    preimage.extend_from_slice(&key);
    let digest: Vec<u8> = sha2::Sha256::digest(&preimage).to_vec();
    let expected = format!("bc1q{}", hex_string(&digest[..20]));

    assert_eq!(public_key_to_bitcoin_address(&key).unwrap(), expected);
}

fn hex_string(bytes: &[u8]) -> String {
    let mut s = String::new();
    for b in bytes {
        s.push_str(&format!("{:02x}", b));
    }
    s
}

#[test]
fn hex_encoding_is_exact() {
    assert_eq!(encode(&[]), "");
    assert_eq!(encode(&[0x00, 0xff, 0x1a]), "00ff1a");
    assert_eq!(encode(&[0xde, 0xad, 0xbe, 0xef]), "deadbeef");
}

#[test]
fn principal_subaccount_layout_is_exact() {
    let user = user_principal();
    let sub = derive_subaccount_from_principal(&user);
    let bytes = user.as_slice();

    assert_eq!(sub.len(), 32);
    assert_eq!(sub[0] as usize, bytes.len().min(29));
    for (i, b) in bytes.iter().take(29).enumerate() {
        assert_eq!(sub[1 + i], *b);
    }
    for i in (bytes.len().min(29) + 1)..32 {
        assert_eq!(sub[i], 0);
    }
    assert_eq!(get_principal_subaccount(&user), sub);
}

#[test]
fn seed_subaccount_matches_std_hasher() {
    let seed = "vault-seed";
    let sub = derive_subaccount_from_seed(seed);

    let mut hasher = std::collections::hash_map::DefaultHasher::new();
    seed.hash(&mut hasher);
    let expected = hasher.finish().to_be_bytes();

    assert_eq!(sub.len(), 32);
    assert_eq!(&sub[..8], &expected);
    assert!(sub[8..].iter().all(|b| *b == 0));
}

#[test]
fn subaccounts_are_recorded_per_user() {
    let mut state = VaultState::default();
    let user = user_principal();
    assert!(get_user_subaccount(&state, &user).is_none());

    let sub = create_subaccount(&mut state, &user, "alpha");
    assert_eq!(get_user_subaccount(&state, &user).unwrap(), sub);

    // A later derivation replaces the recorded subaccount.
    let sub2 = create_subaccount(&mut state, &user, "beta");
    assert_eq!(get_user_subaccount(&state, &user).unwrap(), sub2);
    assert_eq!(state.subaccounts.len(), 1);
}

#[test]
fn bitcoin_addresses_are_recorded_per_user() {
    let mut state = VaultState::default();
    let user = user_principal();
    assert!(get_bitcoin_address(&state, &user).is_none());

    record_bitcoin_address(&mut state, &user, String::from("bc1qexample"));
    assert_eq!(
        get_bitcoin_address(&state, &user).unwrap(),
        String::from("bc1qexample")
    );

    let info = get_wallet_info(&state, &user).unwrap();
    assert_eq!(info.owner, user);
    assert_eq!(info.bitcoin_address.unwrap(), "bc1qexample");
    assert!(info.subaccount.is_none());
    assert_eq!(info.derivation_path, create_user_derivation_path(&user));
}

#[test]
fn child_paths_extend_the_user_path() {
    let user = user_principal();
    let path = child_derivation_path(&user, 258);
    assert_eq!(path.len(), 3);
    assert_eq!(path[2], vec![0, 0, 1, 2]);
}

#[test]
fn invalid_public_key_error_is_typed() {
    let r = public_key_to_bitcoin_address(&[0u8; 10]);
    assert_eq!(r.unwrap_err(), VaultError::InvalidPublicKey);
}
