use tgcryptfs::config::EncryptionConfig;
use tgcryptfs::crypto::kdf::derive_key_with_salt;
use tgcryptfs::crypto::{derive_key, ChunkKey, KeyManager, MasterKey, KEY_SIZE, SALT_SIZE};
use tgcryptfs::error::Error;

fn test_config() -> EncryptionConfig {
    EncryptionConfig {
        argon2_memory_kib: 1024,
        argon2_iterations: 1,
        argon2_parallelism: 1,
        salt: Vec::new(),
    }
}

#[test]
fn test_master_key_creation() {
    let config = test_config();
    let result = MasterKey::from_password(b"password", &config);
    assert!(result.is_ok());
}

#[test]
fn test_master_key_deterministic() {
    let mut config = test_config();
    config.salt = vec![0u8; SALT_SIZE];

    let key1 = MasterKey::from_password(b"password", &config).unwrap();
    let key2 = MasterKey::from_password(b"password", &config).unwrap();

    assert_eq!(key1.key(), key2.key());
}

#[test]
fn test_metadata_key_derivation() {
    let config = test_config();
    let master = MasterKey::from_password(b"password", &config).unwrap();

    let meta_key = master.metadata_key().unwrap();
    assert_eq!(meta_key.len(), KEY_SIZE);

    // Should be deterministic
    let meta_key2 = master.metadata_key().unwrap();
    assert_eq!(meta_key, meta_key2);
}

#[test]
fn test_chunk_key_derivation() {
    let config = test_config();
    let master = MasterKey::from_password(b"password", &config).unwrap();

    let chunk1 = ChunkKey::derive(&master, "chunk-001").unwrap();
    let chunk2 = ChunkKey::derive(&master, "chunk-002").unwrap();

    // Different chunks get different keys
    assert_ne!(chunk1.key(), chunk2.key());

    // Same chunk ID gets same key
    let chunk1_again = ChunkKey::derive(&master, "chunk-001").unwrap();
    assert_eq!(chunk1.key(), chunk1_again.key());
}

#[test]
fn test_key_manager() {
    let config = test_config();
    let master = MasterKey::from_password(b"password", &config).unwrap();
    let manager = KeyManager::new(master).unwrap();

    assert_eq!(manager.metadata_key().len(), KEY_SIZE);

    let chunk_key = manager.chunk_key("test-chunk").unwrap();
    assert_eq!(chunk_key.key().len(), KEY_SIZE);
}

#[test]
fn kdf_different_salts_give_different_keys() {
    let config = test_config();
    let one = MasterKey::from_existing(b"password", &[1u8; SALT_SIZE], &config).unwrap();
    let two = MasterKey::from_existing(b"password", &[2u8; SALT_SIZE], &config).unwrap();
    let again = MasterKey::from_existing(b"password", &[1u8; SALT_SIZE], &config).unwrap();
    assert_ne!(one.key(), two.key());
    assert_eq!(one.key(), again.key());
    assert_eq!(one.salt(), &[1u8; SALT_SIZE]);
    let other_password = MasterKey::from_existing(b"Password", &[1u8; SALT_SIZE], &config).unwrap();
    assert_ne!(one.key(), other_password.key());
}

#[test]
fn kdf_without_salt_draws_one() {
    let config = test_config();
    let one = derive_key(b"password", None, &config).unwrap();
    let two = derive_key(b"password", None, &config).unwrap();
    assert_ne!(one.salt(), two.salt());
    assert_ne!(one.key(), two.key());
    // The salt that came back gives the key again.
    let again = derive_key(b"password", Some(&one.salt()[..]), &config).unwrap();
    assert_eq!(again.key(), one.key());
    let direct = derive_key_with_salt(b"password", one.salt(), &config).unwrap();
    assert_eq!(direct.key(), one.key());
}

#[test]
fn kdf_matches_argon2id_with_known_parameters() {
    // Argon2id, version 0x13, m=1024 KiB, t=1, p=1, 32-byte salt of zeros.
    let config = test_config();
    let derived = derive_key(b"password", Some(&[0u8; SALT_SIZE][..]), &config).unwrap();
    let mut expected = [0u8; 32];
    let params = argon2::Params::new(1024, 1, 1, Some(32)).unwrap();
    argon2::Argon2::new(argon2::Algorithm::Argon2id, argon2::Version::V0x13, params)
        .hash_password_into(b"password", &[0u8; 32], &mut expected)
        .unwrap();
    assert_eq!(derived.key(), &expected);
    assert_ne!(derived.key(), &[0u8; 32]);
}

#[test]
fn kdf_refuses_bad_parameters() {
    let mut config = test_config();
    assert!(matches!(derive_key(b"pw", Some(&[0u8; 16][..]), &config), Err(Error::KeyDerivation(_))));
    config.argon2_iterations = 0;
    assert!(matches!(derive_key(b"pw", Some(&[0u8; 32][..]), &config), Err(Error::KeyDerivation(_))));
    config.argon2_iterations = 1;
    config.argon2_memory_kib = 7;
    assert!(matches!(derive_key(b"pw", None, &config), Err(Error::KeyDerivation(_))));
    config.argon2_memory_kib = 1024;
    config.argon2_parallelism = u32::MAX;
    assert!(matches!(MasterKey::from_password(b"pw", &config), Err(Error::KeyDerivation(_))));
}

#[test]
fn subkeys_for_different_labels_are_distinct() {
    let config = test_config();
    let master = MasterKey::from_existing(b"password", &[7u8; SALT_SIZE], &config).unwrap();
    let metadata = master.metadata_key().unwrap();
    let chunk = *ChunkKey::derive(&master, "abc").unwrap().key();
    let machine = master.machine_key("abc").unwrap();
    let other_machine = master.machine_key("abd").unwrap();
    assert_ne!(metadata, chunk);
    assert_ne!(metadata, machine);
    assert_ne!(chunk, machine);
    assert_ne!(machine, other_machine);
    assert_ne!(metadata, *master.key());
    // The labels are what they are said to be.
    assert_eq!(metadata, master.derive_subkey(b"tgcryptfs-metadata-v1").unwrap());
    assert_eq!(chunk, master.derive_subkey(b"tgcryptfs-chunk-v1:abc").unwrap());
    assert_eq!(machine, master.derive_subkey(b"tgcryptfs-machine-abc").unwrap());
}

#[test]
fn subkey_is_hkdf_sha256() {
    // A known answer of RFC 5869, its 42-byte output cut to 32 bytes.
    let ikm = [0x0bu8; 22];
    let salt: Vec<u8> = (0x00..=0x0cu8).collect();
    let info: Vec<u8> = (0xf0..=0xf9u8).collect();
    let prk = ring::hkdf::Salt::new(ring::hkdf::HKDF_SHA256, &salt).extract(&ikm);
    let mut okm = [0u8; 32];
    prk.expand(&[&info], ring::hkdf::HKDF_SHA256).unwrap().fill(&mut okm).unwrap();
    assert_eq!(
        okm,
        [
            0x3c, 0xb2, 0x5f, 0x25, 0xfa, 0xac, 0xd5, 0x7a, 0x90, 0x43, 0x4f, 0x64, 0xd0, 0x36, 0x2f, 0x2a,
            0x2d, 0x2d, 0x0a, 0x90, 0xcf, 0x1a, 0x5a, 0x4c, 0x5d, 0xb0, 0x2d, 0x56, 0xec, 0xc4, 0xc5, 0xbf
        ]
    );
    // The master key derives its subkeys the same way, from its salt and key.
    let config = test_config();
    let master = MasterKey::from_existing(b"password", &[9u8; SALT_SIZE], &config).unwrap();
    let prk = ring::hkdf::Salt::new(ring::hkdf::HKDF_SHA256, master.salt()).extract(master.key());
    let mut expected = [0u8; 32];
    prk.expand(&[b"purpose"], ring::hkdf::HKDF_SHA256).unwrap().fill(&mut expected).unwrap();
    assert_eq!(master.derive_subkey(b"purpose").unwrap(), expected);
}

#[test]
fn keys_are_wiped_on_request() {
    let config = test_config();
    let mut master = MasterKey::from_existing(b"password", &[3u8; SALT_SIZE], &config).unwrap();
    assert_ne!(master.key(), &[0u8; KEY_SIZE]);
    master.zeroize();
    assert_eq!(master.key(), &[0u8; KEY_SIZE]);
    assert_eq!(master.salt(), &[3u8; SALT_SIZE]);
    let master = MasterKey::from_existing(b"password", &[3u8; SALT_SIZE], &config).unwrap();
    let mut chunk = ChunkKey::derive(&master, "id").unwrap();
    chunk.zeroize();
    assert_eq!(chunk.key(), &[0u8; KEY_SIZE]);
    let mut manager = KeyManager::new(master).unwrap();
    assert_eq!(manager.salt(), &[3u8; SALT_SIZE]);
    manager.zeroize();
    assert_eq!(manager.metadata_key(), &[0u8; KEY_SIZE]);
}
