use passterm::vault::crypto::{decrypt, derive_key, encrypt, encrypt_with_nonce, CryptoError};
use passterm::vault::storage::{
    create_vault_data, join_vault_file, open_vault_data, reseal_vault_data, split_vault_file,
    StorageError,
};

const EMPTY_VAULT: &[u8] = b"{\"entries\":{},\"folders\":[]}";

#[test]
fn test_create_open_vault_data() {
    let password = "test_password_123";
    let data = create_vault_data(password, EMPTY_VAULT).expect("create failed");
    assert!(data.len() >= 16 + 12 + EMPTY_VAULT.len());
    let plain = open_vault_data(password, &data).expect("open failed");
    assert_eq!(plain, EMPTY_VAULT);
}

#[test]
fn wrong_password_fails_to_open() {
    let data = create_vault_data("right", EMPTY_VAULT).unwrap();
    assert_eq!(
        open_vault_data("wrong", &data),
        Err(StorageError::Crypto(CryptoError::DecryptionFailed))
    );
}

#[test]
fn reseal_keeps_the_salt() {
    let data = create_vault_data("pw", b"one").unwrap();
    let again = reseal_vault_data("pw", &data, b"two").unwrap();
    assert_eq!(&again[..16], &data[..16]);
    assert_eq!(open_vault_data("pw", &again).unwrap(), b"two");
}

#[test]
fn short_files_are_read_errors() {
    assert_eq!(open_vault_data("pw", &[0u8; 15]), Err(StorageError::ReadError));
    assert_eq!(reseal_vault_data("pw", &[1u8; 3], b"x"), Err(StorageError::ReadError));
    assert_eq!(split_vault_file(&[0u8; 15]), Err(StorageError::ReadError));
}

#[test]
fn file_without_nonce_is_a_decryption_error() {
    assert_eq!(
        open_vault_data("pw", &[7u8; 20]),
        Err(StorageError::Crypto(CryptoError::DecryptionFailed))
    );
}

#[test]
fn vault_file_splits_into_salt_and_body() {
    let salt = [5u8; 16];
    let file = join_vault_file(&salt, b"body");
    assert_eq!(file.len(), 20);
    let (s, b) = split_vault_file(&file).unwrap();
    assert_eq!(s, salt.to_vec());
    assert_eq!(b, b"body".to_vec());
}

#[test]
fn derived_key_is_deterministic_and_32_bytes() {
    let salt = [9u8; 16];
    let k1 = derive_key(b"password", &salt).unwrap();
    let k2 = derive_key(b"password", &salt).unwrap();
    assert_eq!(k1.len(), 32);
    assert_eq!(k1, k2);
    assert_ne!(k1, b"password".to_vec());
    let k3 = derive_key(b"password", &[8u8; 16]).unwrap();
    assert_ne!(k1, k3);
}

#[test]
fn encryption_round_trip_and_tampering() {
    let key = [3u8; 32];
    let data = encrypt(&key, b"hello").unwrap();
    assert_eq!(data.len(), 12 + 5 + 16);
    assert_ne!(&data[12..17], b"hello");
    assert_eq!(decrypt(&key, &data).unwrap(), b"hello");
    let mut bad = data.clone();
    bad[20] ^= 1;
    assert_eq!(decrypt(&key, &bad), Err(CryptoError::DecryptionFailed));
    assert_eq!(decrypt(&[4u8; 32], &data), Err(CryptoError::DecryptionFailed));
    assert_eq!(decrypt(&key, &[0u8; 11]), Err(CryptoError::DecryptionFailed));
}

#[test]
fn encryption_with_a_given_nonce_is_deterministic() {
    let key = [1u8; 32];
    let nonce = [2u8; 12];
    let a = encrypt_with_nonce(&key, &nonce, b"abc").unwrap();
    let b = encrypt_with_nonce(&key, &nonce, b"abc").unwrap();
    assert_eq!(a, b);
    assert_eq!(&a[..12], &nonce);
    assert_eq!(decrypt(&key, &a).unwrap(), b"abc");
}

#[test]
fn key_of_wrong_length_fails() {
    assert_eq!(encrypt(&[1u8; 5], b"x"), Err(CryptoError::EncryptionFailed));
    assert_eq!(decrypt(&[1u8; 5], &[0u8; 40]), Err(CryptoError::DecryptionFailed));
}

#[test]
fn every_encryption_draws_a_fresh_nonce() {
    let key = [6u8; 32];
    let a = encrypt(&key, b"same").unwrap();
    let b = encrypt(&key, b"same").unwrap();
    assert_ne!(&a[..12], &b[..12]);
    assert_eq!(decrypt(&key, &a).unwrap(), decrypt(&key, &b).unwrap());
}
