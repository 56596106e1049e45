use ledger_shell::wallet::{
    gen_key_to_store, gen_sk, DecryptionError, EncryptedKeypair, KeyGenError, ReadError,
    SchemeType, SecretKey,
    StoredKeypair, ValidatorKeys, ValidatorStore, ValidatorWallet, MAX_PLAINTEXT_LENGTH,
    NONCE_LENGTH, SALT_LENGTH, SEAL_OVERHEAD, SECRET_KEY_LENGTH,
};

#[test]
fn generated_key_is_stored_raw_without_password() {
    let (stored, key) = gen_key_to_store(SchemeType::Ed25519, &None).unwrap();
    assert_eq!(key.scheme, SchemeType::Ed25519);
    assert_eq!(key.bytes.len(), SECRET_KEY_LENGTH);
    assert_eq!(stored, StoredKeypair::Raw(key));
}

#[test]
fn generated_keys_differ() {
    let first = gen_sk(SchemeType::Secp256k1).unwrap();
    let second = gen_sk(SchemeType::Secp256k1).unwrap();
    assert_eq!(first.scheme, SchemeType::Secp256k1);
    assert_ne!(first.bytes, second.bytes);
    assert_ne!(first.bytes, vec![0u8; SECRET_KEY_LENGTH]);
    assert_eq!(gen_sk(SchemeType::Common).unwrap().scheme, SchemeType::Ed25519);
}

#[test]
fn secret_key_bytes_round_trip() {
    let key = SecretKey { scheme: SchemeType::Secp256k1, bytes: vec![1, 2, 3] };
    assert_eq!(key.to_bytes(), vec![1, 1, 2, 3]);
    assert_eq!(SecretKey::from_bytes(&key.to_bytes()), Some(key.clone()));
    assert_eq!(SecretKey::from_bytes(&[]), None);
    assert_eq!(SecretKey::from_bytes(&[9, 1]), None);
    assert_eq!(
        SecretKey::from_bytes(&[0]),
        Some(SecretKey { scheme: SchemeType::Ed25519, bytes: vec![] })
    );
}

#[test]
fn encrypted_key_opens_with_its_password_only() {
    let key = SecretKey { scheme: SchemeType::Ed25519, bytes: vec![7; SECRET_KEY_LENGTH] };
    let encrypted = EncryptedKeypair::new_with_cost(&key, "password", 3, 64).unwrap();
    assert_eq!(encrypted.0.len(), SALT_LENGTH + 1 + SECRET_KEY_LENGTH + SEAL_OVERHEAD);
    assert_ne!(&encrypted.0[SALT_LENGTH..], &key.to_bytes()[..]);
    assert_eq!(encrypted.decrypt_with_cost("password", 3, 64), Ok(key.clone()));
    assert_eq!(
        encrypted.decrypt_with_cost("other", 3, 64),
        Err(DecryptionError::DecryptionError)
    );
    let again = EncryptedKeypair::new_with_cost(&key, "password", 3, 64).unwrap();
    assert_ne!(again, encrypted);
}

#[test]
fn encryption_fails_without_password_or_cost() {
    let key = SecretKey { scheme: SchemeType::Ed25519, bytes: vec![7; SECRET_KEY_LENGTH] };
    assert_eq!(EncryptedKeypair::new_with_cost(&key, "", 3, 64), None);
    assert_eq!(EncryptedKeypair::new_with_cost(&key, "password", 0, 64), None);
}

#[test]
fn short_or_damaged_stored_bytes_do_not_open() {
    let short = EncryptedKeypair(vec![0; SALT_LENGTH - 1]);
    assert_eq!(short.decrypt_with_cost("password", 3, 64), Err(DecryptionError::BadSalt));
    let key = SecretKey { scheme: SchemeType::Ed25519, bytes: vec![7; SECRET_KEY_LENGTH] };
    let mut damaged = EncryptedKeypair::new_with_cost(&key, "password", 3, 64).unwrap();
    let last = damaged.0.len() - 1;
    damaged.0[last] ^= 1;
    assert_eq!(
        damaged.decrypt_with_cost("password", 3, 64),
        Err(DecryptionError::DecryptionError)
    );
}

#[test]
fn stored_keypair_without_password_is_raw() {
    let key = SecretKey { scheme: SchemeType::Common, bytes: vec![1; 32] };
    let (stored, returned) = StoredKeypair::new(key.clone(), None).unwrap();
    assert_eq!(stored, StoredKeypair::Raw(key.clone()));
    assert_eq!(returned, key);
}

#[test]
fn decryption_errors_become_read_errors() {
    assert_eq!(
        ReadError::from(DecryptionError::BadSalt),
        ReadError::Decryption(DecryptionError::BadSalt)
    );
}

#[test]
fn a_wallet_holds_its_store_and_keys() {
    let (account_store, account_key) = gen_key_to_store(SchemeType::Ed25519, &None).unwrap();
    let (consensus_store, consensus_key) = gen_key_to_store(SchemeType::Ed25519, &None).unwrap();
    let (node_store, node_key) = gen_key_to_store(SchemeType::Ed25519, &None).unwrap();
    let protocol = gen_sk(SchemeType::Ed25519).unwrap();
    let wallet = ValidatorWallet {
        store: ValidatorStore {
            account_key: account_store,
            consensus_key: consensus_store,
            tendermint_node_key: node_store,
            validator_keys: ValidatorKeys { protocol_keypair: protocol },
        },
        account_key: account_key.clone(),
        consensus_key,
        tendermint_node_key: node_key,
    };
    assert_eq!(wallet.store.account_key, StoredKeypair::Raw(account_key));
    assert_ne!(wallet.consensus_key, wallet.tendermint_node_key);
}

#[test]
fn generated_key_is_stored_encrypted_with_password() {
    let password = Some("a long password".to_string());
    let (stored, key) = gen_key_to_store(SchemeType::Ed25519, &password).unwrap();
    match stored {
        StoredKeypair::Encrypted(encrypted) => {
            assert_eq!(encrypted.0.len(), SALT_LENGTH + 1 + SECRET_KEY_LENGTH + SEAL_OVERHEAD);
            assert_eq!(encrypted.decrypt("a long password"), Ok(key));
        }
        StoredKeypair::Raw(_) => panic!("the key is not encrypted"),
    }
}

#[test]
fn too_much_memory_is_refused() {
    let key = SecretKey { scheme: SchemeType::Ed25519, bytes: vec![7; SECRET_KEY_LENGTH] };
    assert_eq!(EncryptedKeypair::new_with_cost(&key, "password", 3, u32::MAX), None);
    let stored = EncryptedKeypair(vec![0; 100]);
    assert_eq!(
        stored.decrypt_with_cost("password", 3, u32::MAX),
        Err(DecryptionError::DecryptionError)
    );
}

#[test]
fn an_empty_password_encrypts_nothing() {
    assert_eq!(
        gen_key_to_store(SchemeType::Ed25519, &Some(String::new())).err(),
        Some(KeyGenError::Encryption)
    );
    let key = SecretKey { scheme: SchemeType::Ed25519, bytes: vec![1; 32] };
    assert_eq!(StoredKeypair::new(key, Some(String::new())), None);
}

#[test]
fn sealed_bytes_that_are_no_key_do_not_deserialize() {
    let salt = [5u8; 16];
    let password = orion::kdf::Password::from_slice(b"password").unwrap();
    let kdf_salt = orion::kdf::Salt::from_slice(&salt).unwrap();
    let key = orion::kdf::derive_key(&password, &kdf_salt, 3, 64, 32).unwrap();
    let sealing_key = orion::aead::SecretKey::from_slice(key.unprotected_as_bytes()).unwrap();
    let mut stored = salt.to_vec();
    stored.extend(orion::aead::seal(&sealing_key, &[9, 1, 2, 3]).unwrap());
    assert_eq!(
        EncryptedKeypair(stored).decrypt_with_cost("password", 3, 64),
        Err(DecryptionError::DeserializingError)
    );
    let mut good = salt.to_vec();
    good.extend(orion::aead::seal(&sealing_key, &[1, 7, 7]).unwrap());
    assert_eq!(
        EncryptedKeypair(good).decrypt_with_cost("password", 3, 64),
        Ok(SecretKey { scheme: SchemeType::Secp256k1, bytes: vec![7, 7] })
    );
}

#[test]
fn a_key_is_made_of_what_the_system_gave() {
    assert_eq!(
        SecretKey::generated(SchemeType::Common, Some(vec![1, 2, 3])),
        Some(SecretKey { scheme: SchemeType::Ed25519, bytes: vec![1, 2, 3] })
    );
    assert_eq!(
        SecretKey::generated(SchemeType::Secp256k1, Some(vec![])),
        Some(SecretKey { scheme: SchemeType::Secp256k1, bytes: vec![] })
    );
    assert_eq!(SecretKey::generated(SchemeType::Ed25519, None), None);
}

#[test]
fn encryption_with_given_salt_and_nonce_is_fixed() {
    let key = SecretKey { scheme: SchemeType::Ed25519, bytes: vec![7; SECRET_KEY_LENGTH] };
    let salt = [3u8; SALT_LENGTH];
    let nonce = [4u8; NONCE_LENGTH];
    let first = EncryptedKeypair::with_entropy(&key, "password", 3, 64, &salt, &nonce).unwrap();
    let again = EncryptedKeypair::with_entropy(&key, "password", 3, 64, &salt, &nonce).unwrap();
    assert_eq!(first, again);
    assert_eq!(first.0.len(), SALT_LENGTH + 1 + SECRET_KEY_LENGTH + SEAL_OVERHEAD);
    assert_eq!(&first.0[..SALT_LENGTH], &salt[..]);
    assert_eq!(&first.0[SALT_LENGTH..SALT_LENGTH + NONCE_LENGTH], &nonce[..]);
    assert_eq!(first.decrypt_with_cost("password", 3, 64), Ok(key.clone()));
    let other = EncryptedKeypair::with_entropy(&key, "password", 3, 64, &salt, &[5u8; NONCE_LENGTH])
        .unwrap();
    assert_ne!(first.0[SALT_LENGTH + NONCE_LENGTH..], other.0[SALT_LENGTH + NONCE_LENGTH..]);
    assert_eq!(other.decrypt_with_cost("password", 3, 64), Ok(key.clone()));
    let password = orion::kdf::Password::from_slice(b"password").unwrap();
    let kdf_salt = orion::kdf::Salt::from_slice(&salt).unwrap();
    let derived = orion::kdf::derive_key(&password, &kdf_salt, 3, 64, 32).unwrap();
    let opening_key = orion::aead::SecretKey::from_slice(derived.unprotected_as_bytes()).unwrap();
    assert_eq!(orion::aead::open(&opening_key, &first.0[SALT_LENGTH..]).unwrap(), key.to_bytes());
}

#[test]
fn salt_and_nonce_must_have_their_length() {
    let key = SecretKey { scheme: SchemeType::Ed25519, bytes: vec![7; SECRET_KEY_LENGTH] };
    let salt = [3u8; SALT_LENGTH];
    let nonce = [4u8; NONCE_LENGTH];
    assert_eq!(EncryptedKeypair::with_entropy(&key, "password", 3, 64, &salt[1..], &nonce), None);
    assert_eq!(EncryptedKeypair::with_entropy(&key, "password", 3, 64, &salt, &nonce[1..]), None);
    assert_eq!(EncryptedKeypair::with_entropy(&key, "password", 3, 64, &[], &[]), None);
    assert_eq!(EncryptedKeypair::with_entropy(&key, "", 3, 64, &salt, &nonce), None);
    assert_eq!(EncryptedKeypair::with_entropy(&key, "password", 3, u32::MAX, &salt, &nonce), None);
}

#[test]
fn a_key_that_is_too_long_is_not_encrypted() {
    let long = SecretKey { scheme: SchemeType::Ed25519, bytes: vec![7; MAX_PLAINTEXT_LENGTH] };
    assert_eq!(EncryptedKeypair::new_with_cost(&long, "password", 3, 64), None);
    let fits = SecretKey { scheme: SchemeType::Ed25519, bytes: vec![7; MAX_PLAINTEXT_LENGTH - 1] };
    let encrypted = EncryptedKeypair::new_with_cost(&fits, "password", 3, 64).unwrap();
    assert_eq!(encrypted.0.len(), SALT_LENGTH + MAX_PLAINTEXT_LENGTH + SEAL_OVERHEAD);
    assert_eq!(encrypted.decrypt_with_cost("password", 3, 64), Ok(fits));
    let mut longer = encrypted.0.clone();
    longer.push(0);
    assert_eq!(
        EncryptedKeypair(longer).decrypt_with_cost("password", 3, 64),
        Err(DecryptionError::DecryptionError)
    );
}
