//! Key management.
//!
//! A hierarchy of keys:
//! - the master key, stretched from the user's password;
//! - the metadata key, which encrypts the filesystem metadata;
//! - one key per chunk, derived from the master key and the chunk id.

use crate::bytes::append_bytes;
use crate::config::EncryptionConfig;
use crate::crypto::kdf::{argon2id, can_stretch, derive_key};
use crate::crypto::{wipe, KEY_SIZE, SALT_SIZE};
use crate::error::{Error, Result};
use ring::hkdf::{Salt, HKDF_SHA256};
use vstd::prelude::*;
use vstd::string::StringSliceAdditionalSpecFns;
use vstd::utf8::encode_utf8;

verus! {

/// The 32 bytes that HKDF with SHA-256 (extract, then expand) derives from a
/// salt, a secret and an info label.
pub uninterp spec fn hkdf_sha256(salt: Seq<u8>, secret: Seq<u8>, info: Seq<u8>) -> Seq<u8>;

/// `Salt::extract`, `Prk::expand` and `Okm::fill` of ring's HKDF with SHA-256,
/// for an output of 32 bytes, which is within what HKDF can expand to.
#[verifier::external_body]
fn hkdf_derive(salt: &[u8], secret: &[u8], info: &[u8]) -> (r: Option<[u8; KEY_SIZE]>)
    ensures
        r.is_some(),
        r.unwrap()@ == hkdf_sha256(salt@, secret@, info@),
{
    let mut output = [0u8; KEY_SIZE];
    let prk = Salt::new(HKDF_SHA256, salt).extract(secret);
    prk.expand(&[info], HKDF_SHA256).ok()?.fill(&mut output).ok()?;
    Some(output)
}

/// Label of the metadata key.
pub open spec fn metadata_label() -> Seq<u8> {
    "tgcryptfs-metadata-v1".spec_bytes()
}

/// Label of the key of chunk `chunk_id`.
pub open spec fn chunk_label(chunk_id: Seq<char>) -> Seq<u8> {
    "tgcryptfs-chunk-v1:".spec_bytes() + encode_utf8(chunk_id)
}

/// Label of the key of machine `machine_id`.
pub open spec fn machine_label(machine_id: Seq<char>) -> Seq<u8> {
    "tgcryptfs-machine-".spec_bytes() + encode_utf8(machine_id)
}

/// Master key derived from user password.
pub struct MasterKey {
    /// The actual key material.
    key: [u8; KEY_SIZE],
    /// Salt used for derivation (needed for re-derivation).
    salt: [u8; SALT_SIZE],
}

impl MasterKey {
    /// The key bytes.
    pub closed spec fn key_bytes(&self) -> Seq<u8> {
        self.key@
    }

    /// The salt bytes.
    pub closed spec fn salt_bytes(&self) -> Seq<u8> {
        self.salt@
    }

    /// The subkey for a purpose: HKDF of the master key under the master salt
    /// with the purpose as label.
    pub open spec fn subkey(&self, purpose: Seq<u8>) -> Seq<u8> {
        hkdf_sha256(self.salt_bytes(), self.key_bytes(), purpose)
    }

    /// Create a new master key from a password. With a configured salt the
    /// key is stretched under it; with an empty one a fresh salt is drawn.
    /// It succeeds exactly where the configured salt is empty or has 32
    /// bytes and the password can be stretched under the configured costs.
    pub fn from_password(password: &[u8], config: &EncryptionConfig) -> (r: Result<Self>)
        ensures
            r.is_ok() == (can_stretch(password@, config) && (config.salt@.len() == 0
                || config.salt@.len() == SALT_SIZE)),
            r matches Ok(master) ==> {
                &&& config.salt@.len() > 0 ==> master.salt_bytes() == config.salt@
                &&& master.key_bytes() == argon2id(
                    password@,
                    master.salt_bytes(),
                    config.argon2_memory_kib,
                    config.argon2_iterations,
                    config.argon2_parallelism,
                )
            },
            r matches Err(e) ==> e is KeyDerivation,
    {
        let derived = if config.salt.len() == 0 {
            derive_key(password, None, config)
        } else {
            derive_key(password, Some(config.salt.as_slice()), config)
        };
        match derived {
            Ok(d) => Ok(MasterKey { key: *d.key(), salt: *d.salt() }),
            Err(e) => Err(e),
        }
    }

    /// Create from existing key material (for unlocking): the key is the
    /// Argon2id key of the password under the given salt. It succeeds
    /// exactly where the salt has 32 bytes and the password can be stretched
    /// under the configured costs.
    pub fn from_existing(password: &[u8], salt: &[u8], config: &EncryptionConfig) -> (r: Result<
        Self,
    >)
        ensures
            r.is_ok() == (can_stretch(password@, config) && salt@.len() == SALT_SIZE),
            r matches Ok(master) ==> master.salt_bytes() == salt@ && master.key_bytes() == argon2id(
                password@,
                salt@,
                config.argon2_memory_kib,
                config.argon2_iterations,
                config.argon2_parallelism,
            ),
            r matches Err(e) ==> e is KeyDerivation,
    {
        match derive_key(password, Some(salt), config) {
            Ok(d) => Ok(MasterKey { key: *d.key(), salt: *d.salt() }),
            Err(e) => Err(e),
        }
    }

    /// Get the raw key bytes.
    pub fn key(&self) -> (r: &[u8; KEY_SIZE])
        ensures
            r@ == self.key_bytes(),
    {
        &self.key
    }

    /// Get the salt.
    pub fn salt(&self) -> (r: &[u8; SALT_SIZE])
        ensures
            r@ == self.salt_bytes(),
    {
        &self.salt
    }

    /// Derive a subkey for a specific purpose.
    pub fn derive_subkey(&self, purpose: &[u8]) -> (r: Result<[u8; KEY_SIZE]>)
        ensures
            r matches Ok(key) && key@ == self.subkey(purpose@),
    {
        match hkdf_derive(self.salt.as_slice(), self.key.as_slice(), purpose) {
            Some(key) => Ok(key),
            None => Err(Error::KeyDerivation("HKDF expansion failed".to_string())),
        }
    }

    /// Derive the metadata encryption key.
    pub fn metadata_key(&self) -> (r: Result<[u8; KEY_SIZE]>)
        ensures
            r matches Ok(key) && key@ == self.subkey(metadata_label()),
    {
        self.derive_subkey("tgcryptfs-metadata-v1".as_bytes())
    }

    /// Derive the key of a machine.
    pub fn machine_key(&self, machine_id: &str) -> (r: Result<[u8; KEY_SIZE]>)
        ensures
            r matches Ok(key) && key@ == self.subkey(machine_label(machine_id@)),
    {
        let mut purpose: Vec<u8> = Vec::new();
        append_bytes(&mut purpose, "tgcryptfs-machine-".as_bytes());
        append_bytes(&mut purpose, machine_id.as_bytes());
        self.derive_subkey(purpose.as_slice())
    }

    /// Overwrite the key material with zeros.
    pub fn zeroize(&mut self)
        ensures
            final(self).salt_bytes() == old(self).salt_bytes(),
            final(self).key_bytes() == Seq::new(KEY_SIZE as nat, |i: int| 0u8),
    {
        wipe(&mut self.key);
        assert(self.key@ =~= Seq::new(KEY_SIZE as nat, |i: int| 0u8));
    }
}

/// The key material is overwritten with zeros when the key is destroyed.
impl Drop for MasterKey {
    fn drop(&mut self)
        opens_invariants none
        no_unwind
    {
        wipe(&mut self.key);
    }
}

/// Per-chunk encryption key.
pub struct ChunkKey {
    key: [u8; KEY_SIZE],
}

impl ChunkKey {
    /// The key bytes.
    pub closed spec fn key_bytes(&self) -> Seq<u8> {
        self.key@
    }

    /// Derive a chunk key from master key and chunk id.
    pub fn derive(master: &MasterKey, chunk_id: &str) -> (r: Result<Self>)
        ensures
            r matches Ok(chunk_key) && chunk_key.key_bytes() == master.subkey(
                chunk_label(chunk_id@),
            ),
    {
        let mut purpose: Vec<u8> = Vec::new();
        append_bytes(&mut purpose, "tgcryptfs-chunk-v1:".as_bytes());
        append_bytes(&mut purpose, chunk_id.as_bytes());
        match master.derive_subkey(purpose.as_slice()) {
            Ok(key) => Ok(ChunkKey { key }),
            Err(e) => Err(e),
        }
    }

    /// Get the raw key bytes.
    pub fn key(&self) -> (r: &[u8; KEY_SIZE])
        ensures
            r@ == self.key_bytes(),
    {
        &self.key
    }

    /// Overwrite the key material with zeros.
    pub fn zeroize(&mut self)
        ensures
            final(self).key_bytes() == Seq::new(KEY_SIZE as nat, |i: int| 0u8),
    {
        wipe(&mut self.key);
        assert(self.key@ =~= Seq::new(KEY_SIZE as nat, |i: int| 0u8));
    }
}

/// The key material is overwritten with zeros when the key is destroyed.
impl Drop for ChunkKey {
    fn drop(&mut self)
        opens_invariants none
        no_unwind
    {
        wipe(&mut self.key);
    }
}

/// Key manager for the filesystem.
pub struct KeyManager {
    master_key: MasterKey,
    metadata_key: [u8; KEY_SIZE],
}

impl KeyManager {
    /// The master key.
    pub closed spec fn master(&self) -> MasterKey {
        self.master_key
    }

    /// The metadata key bytes.
    pub closed spec fn metadata_key_bytes(&self) -> Seq<u8> {
        self.metadata_key@
    }

    /// Create a new key manager from a master key.
    pub fn new(master_key: MasterKey) -> (r: Result<Self>)
        ensures
            r matches Ok(manager) && manager.master() == master_key
                && manager.metadata_key_bytes() == master_key.subkey(metadata_label()),
    {
        match master_key.metadata_key() {
            Ok(metadata_key) => Ok(KeyManager { master_key, metadata_key }),
            Err(e) => Err(e),
        }
    }

    /// Get the metadata encryption key.
    pub fn metadata_key(&self) -> (r: &[u8; KEY_SIZE])
        ensures
            r@ == self.metadata_key_bytes(),
    {
        &self.metadata_key
    }

    /// Get a chunk encryption key.
    pub fn chunk_key(&self, chunk_id: &str) -> (r: Result<ChunkKey>)
        ensures
            r matches Ok(chunk_key) && chunk_key.key_bytes() == self.master().subkey(
                chunk_label(chunk_id@),
            ),
    {
        ChunkKey::derive(&self.master_key, chunk_id)
    }

    /// Get the salt (needed for config persistence).
    pub fn salt(&self) -> (r: &[u8; SALT_SIZE])
        ensures
            r@ == self.master().salt_bytes(),
    {
        self.master_key.salt()
    }

    /// Overwrite all key material with zeros.
    pub fn zeroize(&mut self)
        ensures
            final(self).metadata_key_bytes() == Seq::new(KEY_SIZE as nat, |i: int| 0u8),
            final(self).master().key_bytes() == Seq::new(KEY_SIZE as nat, |i: int| 0u8),
            final(self).master().salt_bytes() == old(self).master().salt_bytes(),
    {
        wipe(&mut self.metadata_key);
        assert(self.metadata_key@ =~= Seq::new(KEY_SIZE as nat, |i: int| 0u8));
        self.master_key.zeroize();
    }
}

/// The metadata key is overwritten with zeros when the manager is destroyed;
/// the master key wipes itself.
impl Drop for KeyManager {
    fn drop(&mut self)
        opens_invariants none
        no_unwind
    {
        wipe(&mut self.metadata_key);
    }
}

} // verus!
