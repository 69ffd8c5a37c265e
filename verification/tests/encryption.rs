use rand::RngCore;
use tgcryptfs::crypto::encryption::{decrypt_simple, encrypt_simple, seal_with_nonce};
use tgcryptfs::crypto::{decrypt, encrypt, EncryptedData, KEY_SIZE, NONCE_SIZE, TAG_SIZE};
use tgcryptfs::error::Error;

fn test_key() -> [u8; KEY_SIZE] {
    let mut key = [0u8; KEY_SIZE];
    rand::thread_rng().fill_bytes(&mut key);
    key
}

#[test]
fn test_encrypt_decrypt() {
    let key = test_key();
    let plaintext = b"Hello, tgcryptfs!";

    let encrypted = encrypt_simple(&key, plaintext).unwrap();
    let decrypted = decrypt_simple(&key, &encrypted).unwrap();

    assert_eq!(decrypted, plaintext);
}

#[test]
fn test_encrypt_decrypt_with_aad() {
    let key = test_key();
    let plaintext = b"Secret data";
    let aad = b"file:1234";

    let encrypted = encrypt(&key, plaintext, aad).unwrap();
    let decrypted = decrypt(&key, &encrypted, aad).unwrap();

    assert_eq!(decrypted, plaintext);
}

#[test]
fn test_wrong_aad_fails() {
    let key = test_key();
    let plaintext = b"Secret data";
    let aad = b"file:1234";
    let wrong_aad = b"file:5678";

    let encrypted = encrypt(&key, plaintext, aad).unwrap();
    let result = decrypt(&key, &encrypted, wrong_aad);

    assert!(result.is_err());
}

#[test]
fn test_wrong_key_fails() {
    let key1 = test_key();
    let key2 = test_key();
    let plaintext = b"Secret data";

    let encrypted = encrypt_simple(&key1, plaintext).unwrap();
    let result = decrypt_simple(&key2, &encrypted);

    assert!(result.is_err());
}

#[test]
fn test_tampered_ciphertext_fails() {
    let key = test_key();
    let plaintext = b"Secret data";

    let mut encrypted = encrypt_simple(&key, plaintext).unwrap();
    // Tamper with ciphertext
    encrypted.ciphertext[0] ^= 0xFF;

    let result = decrypt_simple(&key, &encrypted);
    assert!(result.is_err());
}

#[test]
fn test_empty_plaintext() {
    let key = test_key();
    let plaintext = b"";

    let encrypted = encrypt_simple(&key, plaintext).unwrap();
    let decrypted = decrypt_simple(&key, &encrypted).unwrap();

    assert_eq!(decrypted, plaintext);
}

#[test]
fn test_large_plaintext() {
    let key = test_key();
    let plaintext = vec![0x42u8; 1024 * 1024]; // 1MB

    let encrypted = encrypt_simple(&key, &plaintext).unwrap();
    let decrypted = decrypt_simple(&key, &encrypted).unwrap();

    assert_eq!(decrypted, plaintext);
}

#[test]
fn encryption_test_serialization() {
    let key = test_key();
    let plaintext = b"Test serialization";

    let encrypted = encrypt_simple(&key, plaintext).unwrap();
    let bytes = encrypted.to_bytes();
    let restored = EncryptedData::from_bytes(&bytes).unwrap();

    let decrypted = decrypt_simple(&key, &restored).unwrap();
    assert_eq!(decrypted, plaintext);
}

#[test]
fn encryption_wire_form_is_nonce_then_ciphertext_and_tag() {
    let key = test_key();
    let encrypted = encrypt(&key, b"abc", b"aad").unwrap();
    assert_eq!(encrypted.nonce.len(), NONCE_SIZE);
    assert_eq!(encrypted.ciphertext.len(), 3 + TAG_SIZE);
    assert_eq!(encrypted.size(), NONCE_SIZE + 3 + TAG_SIZE);
    let bytes = encrypted.to_bytes();
    assert_eq!(bytes.len(), 12 + 3 + 16);
    assert_eq!(&bytes[..12], encrypted.nonce.as_slice());
    assert_eq!(&bytes[12..], encrypted.ciphertext.as_slice());
    let restored = EncryptedData::from_bytes(&bytes).unwrap();
    assert_eq!(restored.nonce, encrypted.nonce);
    assert_eq!(restored.ciphertext, encrypted.ciphertext);
    // Fewer bytes than a nonce and a tag are refused.
    assert!(matches!(EncryptedData::from_bytes(&bytes[..27]), Err(Error::Decryption(_))));
    assert!(EncryptedData::from_bytes(&bytes[..28]).is_ok());
}

#[test]
fn encryption_every_altered_byte_is_detected() {
    let key = test_key();
    let encrypted = encrypt(&key, b"tamper me", b"aad").unwrap();
    let bytes = encrypted.to_bytes();
    let mut i: usize = 0;
    while i < bytes.len() {
        let mut altered = bytes.clone();
        altered[i] ^= 0x01;
        let data = EncryptedData::from_bytes(&altered).unwrap();
        assert!(matches!(decrypt(&key, &data, b"aad"), Err(Error::Decryption(_))));
        i += 1;
    }
    // A nonce of the wrong length or a truncated ciphertext.
    let short_nonce = EncryptedData { nonce: vec![0; 11], ciphertext: encrypted.ciphertext.clone() };
    assert!(matches!(decrypt(&key, &short_nonce, b"aad"), Err(Error::Decryption(_))));
    let truncated = EncryptedData { nonce: encrypted.nonce.clone(), ciphertext: vec![0; 15] };
    assert!(matches!(decrypt(&key, &truncated, b"aad"), Err(Error::Decryption(_))));
}

#[test]
fn encryption_draws_a_fresh_nonce_each_time() {
    let key = test_key();
    let first = encrypt(&key, b"same", b"").unwrap();
    let second = encrypt(&key, b"same", b"").unwrap();
    assert_ne!(first.nonce, second.nonce);
    assert_ne!(first.ciphertext, second.ciphertext);
}

#[test]
fn encryption_with_a_given_nonce_is_aes_256_gcm() {
    // Known answers for AES-256-GCM under a zero key and a zero nonce.
    let key = [0u8; KEY_SIZE];
    let nonce = [0u8; NONCE_SIZE];
    let empty = seal_with_nonce(&key, &nonce, b"", b"").unwrap();
    assert_eq!(empty.nonce, vec![0u8; 12]);
    assert_eq!(
        empty.ciphertext,
        vec![0x53, 0x0f, 0x8a, 0xfb, 0xc7, 0x45, 0x36, 0xb9, 0xa9, 0x63, 0xb4, 0xf1, 0xc4, 0xcb, 0x73, 0x8b]
    );
    let block = seal_with_nonce(&key, &nonce, &[0u8; 16], b"").unwrap();
    assert_eq!(
        block.ciphertext,
        vec![
            0xce, 0xa7, 0x40, 0x3d, 0x4d, 0x60, 0x6b, 0x6e, 0x07, 0x4e, 0xc5, 0xd3, 0xba, 0xf3, 0x9d, 0x18,
            0xd0, 0xd1, 0xc8, 0xa7, 0x99, 0x99, 0x6b, 0xf0, 0x26, 0x5b, 0x98, 0xb5, 0xd4, 0x8a, 0xb9, 0x19
        ]
    );
    assert_eq!(decrypt(&key, &block, b"").unwrap(), vec![0u8; 16]);
}
