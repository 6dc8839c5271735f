//! AES-256-GCM encryption of chunk payloads with the `aes-gcm` crate.
use vstd::prelude::*;
use aes_gcm::aead::{Aead, AeadCore, KeyInit, OsRng};
use aes_gcm::{Aes256Gcm, Key, Nonce};

verus! {

/// Size of the authentication tag appended to a ciphertext.
pub const AES_GCM_AUTH_TAG_SIZE_B: usize = 16;

/// Size of an AES-GCM nonce.
pub const AES_GCM_NONCE_SIZE_B: usize = 12;

/// Size of an AES-256 key.
pub const AES_GCM_KEY_SIZE_B: usize = 32;

/// Longest plaintext AES-GCM encrypts (2^36 bytes).
pub const AES_GCM_MAX_PLAINTEXT_B: u64 = 68719476736;

/// Why encryption or decryption failed, with the cipher's message.
#[derive(Debug, Clone, PartialEq, Eq)]
pub enum EncryptionError {
    Encryption(String),
}

/// What AES-256-GCM decryption of `ciphertext` (payload followed by its tag)
/// with `key` and `nonce` gives: the payload, or nothing when the tag does not
/// authenticate it.
pub uninterp spec fn aes256gcm_decrypt(key: Seq<u8>, nonce: Seq<u8>, ciphertext: Seq<u8>) -> Option<Seq<u8>>;

/// Draws a nonce with `Aes256Gcm::generate_nonce(&mut OsRng)`: 12 random bytes.
/// Nothing is stated of the bytes: they are random.
#[verifier::external_body]
fn random_nonce() -> (n: Vec<u8>)
    ensures
        n@.len() == AES_GCM_NONCE_SIZE_B,
{
    Aes256Gcm::generate_nonce(&mut OsRng).to_vec()
}

/// Draws a key with `Aes256Gcm::generate_key(OsRng)`: 32 random bytes. Nothing
/// is stated of the bytes: they are random.
#[verifier::external_body]
fn random_key() -> (k: Vec<u8>)
    ensures
        k@.len() == AES_GCM_KEY_SIZE_B,
{
    Aes256Gcm::generate_key(OsRng).to_vec()
}

/// Encrypts with `Aes256Gcm::encrypt`. By the aes-gcm source: it fails exactly
/// for payloads longer than 2^36 bytes; the ciphertext is the payload's length
/// plus the 16-byte tag; and decryption with the same key and nonce gives the
/// payload back.
#[verifier::external_body]
fn aes256gcm_encrypt(key: &[u8], nonce: &[u8], payload: &[u8]) -> (r: Result<Vec<u8>, EncryptionError>)
    requires
        key@.len() == AES_GCM_KEY_SIZE_B,
        nonce@.len() == AES_GCM_NONCE_SIZE_B,
    ensures
        match r {
            Ok(c) => payload@.len() <= AES_GCM_MAX_PLAINTEXT_B && c@.len() == payload@.len() + AES_GCM_AUTH_TAG_SIZE_B
                && aes256gcm_decrypt(key@, nonce@, c@) == Some(payload@),
            Err(_) => payload@.len() > AES_GCM_MAX_PLAINTEXT_B,
        },
{
    let cipher = Aes256Gcm::new(Key::<Aes256Gcm>::from_slice(key));
    match cipher.encrypt(Nonce::from_slice(nonce), payload) {
        Ok(c) => Ok(c),
        Err(e) => Err(EncryptionError::Encryption(e.to_string())),
    }
}

/// Decrypts with `Aes256Gcm::decrypt`: succeeds exactly when the named
/// decryption gives a payload, which is then returned. By the aes-gcm source
/// the payload is the ciphertext without its 16-byte tag, so a ciphertext
/// shorter than the tag never decrypts.
#[verifier::external_body]
fn aes256gcm_decrypt_bytes(key: &[u8], nonce: &[u8], ciphertext: &[u8]) -> (r: Result<Vec<u8>, EncryptionError>)
    requires
        key@.len() == AES_GCM_KEY_SIZE_B,
        nonce@.len() == AES_GCM_NONCE_SIZE_B,
    ensures
        match aes256gcm_decrypt(key@, nonce@, ciphertext@) {
            Some(p) => (r matches Ok(v) && v@ == p) && p.len() + AES_GCM_AUTH_TAG_SIZE_B == ciphertext@.len(),
            None => r is Err,
        },
{
    let cipher = Aes256Gcm::new(Key::<Aes256Gcm>::from_slice(key));
    match cipher.decrypt(Nonce::from_slice(nonce), ciphertext) {
        Ok(p) => Ok(p),
        Err(e) => Err(EncryptionError::Encryption(e.to_string())),
    }
}

/// Encrypts `payload` with `key` under a fresh random nonce; returns the nonce
/// and the ciphertext (the payload's length plus the 16-byte tag), which
/// decrypts back to the payload. Refused for payloads longer than 2^36 bytes.
pub fn encrypt_payload(payload: &[u8], key: &[u8]) -> (r: Result<(Vec<u8>, Vec<u8>), EncryptionError>)
    requires
        key@.len() == AES_GCM_KEY_SIZE_B,
    ensures
        payload@.len() > AES_GCM_MAX_PLAINTEXT_B ==> r is Err,
        payload@.len() <= AES_GCM_MAX_PLAINTEXT_B ==> (r matches Ok((n, c)) && n@.len() == AES_GCM_NONCE_SIZE_B
            && c@.len() == payload@.len() + AES_GCM_AUTH_TAG_SIZE_B
            && aes256gcm_decrypt(key@, n@, c@) == Some(payload@)),
{
    let nonce = random_nonce();
    match aes256gcm_encrypt(key, nonce.as_slice(), payload) {
        Ok(c) => Ok((nonce, c)),
        Err(e) => Err(e),
    }
}

/// Decrypts `encrypted_payload` with `key` and `nonce`; refused when it does not
/// authenticate.
pub fn decrypt_payload(encrypted_payload: &Vec<u8>, key: &[u8], nonce: &[u8]) -> (r: Result<Vec<u8>, EncryptionError>)
    requires
        key@.len() == AES_GCM_KEY_SIZE_B,
        nonce@.len() == AES_GCM_NONCE_SIZE_B,
    ensures
        match aes256gcm_decrypt(key@, nonce@, encrypted_payload@) {
            Some(p) => (r matches Ok(v) && v@ == p) && p.len() + AES_GCM_AUTH_TAG_SIZE_B == encrypted_payload@.len(),
            None => r is Err,
        },
{
    aes256gcm_decrypt_bytes(key, nonce, encrypted_payload.as_slice())
}

/// A fresh random 32-byte AES-256 key.
pub fn generate_key() -> (k: Vec<u8>)
    ensures
        k@.len() == AES_GCM_KEY_SIZE_B,
{
    random_key()
}

} // verus!
