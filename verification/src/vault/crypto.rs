//! Encryption of the vault contents: a key derived from the master password
//! with Argon2id, and AES-256-GCM under a fresh random nonce that is stored
//! in front of the ciphertext.

use vstd::prelude::*;
use aes_gcm::aead::{Aead, KeyInit};
use aes_gcm::{Aes256Gcm, Nonce};
use argon2::password_hash::{PasswordHasher, SaltString};
use argon2::Argon2;
use rand::rngs::OsRng;
use rand::RngCore;

verus! {

/// Why encryption, decryption or key derivation failed.
#[derive(Debug, Clone, Copy, PartialEq, Eq, Structural)]
pub enum CryptoError {
    EncryptionFailed,
    DecryptionFailed,
    KeyDerivationFailed,
}

/// The length of an AES-GCM nonce, which prefixes the encrypted data.
pub const NONCE_LEN: usize = 12;

/// The length of the salt from which the vault key is derived.
pub const SALT_LEN: usize = 16;

/// The length of a derived key.
pub const KEY_LEN: usize = 32;

/// The view of optional bytes.
pub open spec fn opt_bytes(o: Option<Vec<u8>>) -> Option<Seq<u8>> {
    match o {
        Some(b) => Some(b@),
        None => None,
    }
}

/// The Argon2id hash, with the default parameters, of `password` under the
/// salt `salt` (given as raw bytes and passed Base64-encoded), or `None` when
/// hashing fails.
pub uninterp spec fn argon2id_hash(password: Seq<u8>, salt: Seq<u8>) -> Option<Seq<u8>>;

/// The AES-256-GCM encryption of `plaintext` under `key` and `nonce`
/// (ciphertext followed by the tag), or `None` when it fails.
pub uninterp spec fn aes256gcm_seal(key: Seq<u8>, nonce: Seq<u8>, plaintext: Seq<u8>) -> Option<Seq<u8>>;

/// The AES-256-GCM decryption of `ciphertext` under `key` and `nonce`, or
/// `None` when it fails (wrong key, tampered data).
pub uninterp spec fn aes256gcm_open(key: Seq<u8>, nonce: Seq<u8>, ciphertext: Seq<u8>) -> Option<Seq<u8>>;

/// Hashes `password` with `Argon2::default()` through `PasswordHasher::hash_password`,
/// the salt given as a `SaltString::encode_b64` of `salt`, and returns the raw
/// hash. Claimed: the result is a function of the two arguments (named
/// `argon2id_hash`), and a hash is `Params::DEFAULT_OUTPUT_LEN` (32) bytes long,
/// as the default parameters set no output length. A salt of fewer than 3 bytes
/// is left out: its Base64 form is shorter than `Salt::MIN_LENGTH`, and
/// `SaltString::as_salt` panics on it.
#[verifier::external_body]
fn argon2id(password: &[u8], salt: &[u8]) -> (r: Option<Vec<u8>>)
    requires
        salt@.len() >= 3,
    ensures
        opt_bytes(r) == argon2id_hash(password@, salt@),
        r matches Some(h) ==> h@.len() == KEY_LEN,
{
    let salt_str = match SaltString::encode_b64(salt) {
        Ok(s) => s,
        Err(_) => return None,
    };
    match Argon2::default().hash_password(password, &salt_str) {
        Ok(hash) => match hash.hash {
            Some(out) => Some(out.as_bytes().to_vec()),
            None => None,
        },
        Err(_) => None,
    }
}

/// Encrypts with `Aes256Gcm::new_from_slice(key)` and `Aead::encrypt` under
/// `nonce`. Claimed: the result is a function of the three arguments (named
/// `aes256gcm_seal`); a key of the wrong length gives `None`; and decrypting
/// the ciphertext under the same key and nonce gives the plaintext back, as
/// the crate's documentation shows.
#[verifier::external_body]
fn aes256gcm_encrypt(key: &[u8], nonce: &[u8], plaintext: &[u8]) -> (r: Option<Vec<u8>>)
    requires
        nonce@.len() == NONCE_LEN,
    ensures
        opt_bytes(r) == aes256gcm_seal(key@, nonce@, plaintext@),
        r matches Some(c) ==> aes256gcm_open(key@, nonce@, c@) == Some(plaintext@),
{
    match Aes256Gcm::new_from_slice(key) {
        Ok(cipher) => cipher.encrypt(Nonce::from_slice(nonce), plaintext).ok(),
        Err(_) => None,
    }
}

/// Decrypts with `Aes256Gcm::new_from_slice(key)` and `Aead::decrypt` under
/// `nonce`. Claimed: the result is a function of the three arguments (named
/// `aes256gcm_open`); a key of the wrong length gives `None`.
#[verifier::external_body]
fn aes256gcm_decrypt(key: &[u8], nonce: &[u8], ciphertext: &[u8]) -> (r: Option<Vec<u8>>)
    requires
        nonce@.len() == NONCE_LEN,
    ensures
        opt_bytes(r) == aes256gcm_open(key@, nonce@, ciphertext@),
{
    match Aes256Gcm::new_from_slice(key) {
        Ok(cipher) => cipher.decrypt(Nonce::from_slice(nonce), ciphertext).ok(),
        Err(_) => None,
    }
}

/// Fills `n` bytes from the operating system's random source with
/// `RngCore::try_fill_bytes` on `OsRng`. Claimed: when it succeeds, exactly `n`
/// bytes come back; what they are is left open, and so is whether it succeeds.
#[verifier::external_body]
pub(crate) fn random_bytes(n: usize) -> (r: Option<Vec<u8>>)
    ensures
        r matches Some(b) ==> b@.len() == n,
{
    let mut buf = vec![0u8; n];
    match OsRng.try_fill_bytes(&mut buf) {
        Ok(()) => Some(buf),
        Err(_) => None,
    }
}

/// The bytes `b[from..to]`.
pub fn copy_bytes(b: &[u8], from: usize, to: usize) -> (r: Vec<u8>)
    requires
        from <= to <= b@.len(),
    ensures
        r@ == b@.subrange(from as int, to as int),
{
    let mut out: Vec<u8> = Vec::new();
    let mut i = from;
    while i < to
        invariant
            from <= i <= to <= b@.len(),
            out@ == b@.subrange(from as int, i as int),
        decreases to - i,
    {
        out.push(b[i]);
        assert(b@.subrange(from as int, i + 1) =~= b@.subrange(from as int, i as int).push(b@[i as int]));
        i += 1;
    }
    out
}

/// `a` followed by `b`.
pub fn concat_bytes(a: &[u8], b: &[u8]) -> (r: Vec<u8>)
    ensures
        r@ == a@ + b@,
{
    let mut out = copy_bytes(a, 0, a.len());
    let mut i: usize = 0;
    while i < b.len()
        invariant
            i <= b@.len(),
            out@ == a@.subrange(0, a@.len() as int) + b@.take(i as int),
        decreases b@.len() - i,
    {
        out.push(b[i]);
        assert(b@.take(i + 1) =~= b@.take(i as int).push(b@[i as int]));
        i += 1;
    }
    assert(a@.subrange(0, a@.len() as int) =~= a@);
    assert(b@.take(i as int) =~= b@);
    out
}

/// Derives the 256-bit vault key from `password` and the 16-byte `salt` with Argon2id.
pub fn derive_key(password: &[u8], salt: &[u8]) -> (r: Result<Vec<u8>, CryptoError>)
    requires
        salt@.len() == SALT_LEN,
    ensures
        match r {
            Ok(k) => argon2id_hash(password@, salt@) == Some(k@) && k@.len() == KEY_LEN,
            Err(e) => argon2id_hash(password@, salt@) is None && e == CryptoError::KeyDerivationFailed,
        },
{
    match argon2id(password, salt) {
        Some(h) => Ok(h),
        None => Err(CryptoError::KeyDerivationFailed),
    }
}

/// Encrypts `plaintext` under `key` and `nonce`; the result is the nonce followed
/// by the ciphertext.
pub fn encrypt_with_nonce(key: &[u8], nonce: &[u8], plaintext: &[u8]) -> (r: Result<Vec<u8>, CryptoError>)
    requires
        nonce@.len() == NONCE_LEN,
    ensures
        match r {
            Ok(d) => aes256gcm_seal(key@, nonce@, plaintext@) matches Some(c) && d@ == nonce@ + c
                && aes256gcm_open(key@, nonce@, c) == Some(plaintext@),
            Err(e) => aes256gcm_seal(key@, nonce@, plaintext@) is None && e
                == CryptoError::EncryptionFailed,
        },
{
    match aes256gcm_encrypt(key, nonce, plaintext) {
        Some(c) => Ok(concat_bytes(nonce, c.as_slice())),
        None => Err(CryptoError::EncryptionFailed),
    }
}

/// Encrypts `plaintext` under `key` with a fresh random nonce; the result is
/// the nonce followed by the ciphertext.
pub fn encrypt(key: &[u8], plaintext: &[u8]) -> (r: Result<Vec<u8>, CryptoError>)
    ensures
        match r {
            Ok(d) => d@.len() >= NONCE_LEN && aes256gcm_seal(key@, d@.take(NONCE_LEN as int), plaintext@)
                == Some(d@.skip(NONCE_LEN as int)) && aes256gcm_open(
                key@,
                d@.take(NONCE_LEN as int),
                d@.skip(NONCE_LEN as int),
            ) == Some(plaintext@),
            Err(e) => e == CryptoError::EncryptionFailed,
        },
{
    match random_bytes(NONCE_LEN) {
        Some(nonce) => {
            let r = encrypt_with_nonce(key, nonce.as_slice(), plaintext);
            proof {
                if r is Ok {
                    let d = r->Ok_0;
                    let c = aes256gcm_seal(key@, nonce@, plaintext@)->Some_0;
                    assert(d@.take(NONCE_LEN as int) =~= nonce@);
                    assert(d@.skip(NONCE_LEN as int) =~= c);
                }
            }
            r
        },
        None => Err(CryptoError::EncryptionFailed),
    }
}

/// Decrypts `data`, a nonce followed by a ciphertext, under `key`.
pub fn decrypt(key: &[u8], data: &[u8]) -> (r: Result<Vec<u8>, CryptoError>)
    ensures
        match r {
            Ok(p) => data@.len() >= NONCE_LEN && aes256gcm_open(
                key@,
                data@.take(NONCE_LEN as int),
                data@.skip(NONCE_LEN as int),
            ) == Some(p@),
            Err(e) => e == CryptoError::DecryptionFailed && (data@.len() < NONCE_LEN || aes256gcm_open(
                key@,
                data@.take(NONCE_LEN as int),
                data@.skip(NONCE_LEN as int),
            ) is None),
        },
{
    if data.len() < NONCE_LEN {
        return Err(CryptoError::DecryptionFailed);
    }
    let nonce = copy_bytes(data, 0, NONCE_LEN);
    let body = copy_bytes(data, NONCE_LEN, data.len());
    assert(nonce@ =~= data@.take(NONCE_LEN as int));
    assert(body@ =~= data@.skip(NONCE_LEN as int));
    match aes256gcm_decrypt(key, nonce.as_slice(), body.as_slice()) {
        Some(p) => Ok(p),
        None => Err(CryptoError::DecryptionFailed),
    }
}

} // verus!
