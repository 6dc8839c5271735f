use p2p::sharding::encryption::{decrypt_payload, encrypt_payload, generate_key, AES_GCM_AUTH_TAG_SIZE_B, AES_GCM_NONCE_SIZE_B};
use rand::Rng;

#[test]
fn test_key_generation() {
    let key = generate_key();
    assert_eq!(key.len(), 32);
}

#[test]
fn test_encryption_decryption() {
    let key = generate_key();
    let payload = b"Test payload";
    let (nonce, ciphertext) = encrypt_payload(payload, &key).expect("Encryption failed");
    assert_eq!(ciphertext.len(), payload.len() + AES_GCM_AUTH_TAG_SIZE_B);
    assert_ne!(&ciphertext[..], &payload[..]);
    let decrypted_payload = decrypt_payload(&ciphertext, &key, &nonce).expect("Decryption failed");
    assert_eq!(decrypted_payload, payload);
}

#[test]
fn test_decryption_with_wrong_key() {
    let key = generate_key();
    let wrong_key = generate_key();
    let payload = b"Test payload";
    let (nonce, ciphertext) = encrypt_payload(payload, &key).expect("Encryption failed");
    let result = decrypt_payload(&ciphertext, &wrong_key, &nonce);
    assert!(result.is_err());
    let mut rng = rand::rng();
    let index = rng.random_range(0..AES_GCM_NONCE_SIZE_B);
    let mut modified_nonce = nonce.to_vec();
    modified_nonce[index] ^= rng.random::<u8>();
    let result = decrypt_payload(&ciphertext, &wrong_key, &modified_nonce);
    assert!(result.is_err());
}

#[test]
fn test_decryption_with_modified_ciphertext() {
    let key = generate_key();
    let payload = b"Test payload";
    let payload_size = payload.len();
    let (nonce, mut ciphertext) = encrypt_payload(payload, &key).expect("Encryption failed");
    let mut rng = rand::rng();
    let index = rng.random_range(0..payload_size);
    ciphertext[index] ^= rng.random_range(1..=255u8);
    let result = decrypt_payload(&ciphertext, &key, &nonce);
    assert!(result.is_err());
}

#[test]
fn encryption_nonce_size_and_short_ciphertext() {
    let key = generate_key();
    let (nonce, ct) = encrypt_payload(b"", &key).unwrap();
    assert_eq!(nonce.len(), AES_GCM_NONCE_SIZE_B);
    assert_eq!(ct.len(), AES_GCM_AUTH_TAG_SIZE_B);
    assert_eq!(decrypt_payload(&ct, &key, &nonce).unwrap(), Vec::<u8>::new());
    assert!(decrypt_payload(&vec![1, 2, 3], &key, &nonce).is_err());
}
