//! Password stretching with Argon2id.

use crate::config::EncryptionConfig;
use crate::crypto::{wipe, KEY_SIZE, SALT_SIZE};
use crate::error::{Error, Result};
use argon2::{Algorithm, Argon2, Params, Version};
use rand::RngCore;
use vstd::prelude::*;

verus! {

/// Shortest salt that Argon2 takes.
pub const MIN_SALT_LEN: usize = 8;

/// Highest degree of parallelism that Argon2 takes: 2^24 - 1.
pub const MAX_PARALLELISM: u32 = 16777215;

/// Longest password and longest salt that Argon2 takes: 2^32 - 1 bytes.
pub const MAX_INPUT_LEN: u64 = 4294967295;

/// The 32-byte key that Argon2id (version 0x13) stretches a password to, with
/// the given salt, memory in KiB, iterations and parallelism.
pub uninterp spec fn argon2id(
    password: Seq<u8>,
    salt: Seq<u8>,
    memory_kib: u32,
    iterations: u32,
    parallelism: u32,
) -> Seq<u8>;

/// The cost parameters that Argon2 accepts: at least 8 KiB of memory and 8 KiB
/// per lane, at least one iteration and one lane.
pub open spec fn costs_accepted(memory_kib: u32, iterations: u32, parallelism: u32) -> bool {
    &&& memory_kib >= 8
    &&& 1 <= parallelism <= MAX_PARALLELISM
    &&& memory_kib >= 8 * parallelism
    &&& iterations >= 1
}

/// Whether Argon2 stretches the password: the costs are accepted, the
/// password has at most 2^32 - 1 bytes and the salt 8 to 2^32 - 1 bytes.
pub open spec fn stretches(
    password: Seq<u8>,
    salt: Seq<u8>,
    memory_kib: u32,
    iterations: u32,
    parallelism: u32,
) -> bool {
    &&& costs_accepted(memory_kib, iterations, parallelism)
    &&& password.len() <= MAX_INPUT_LEN
    &&& MIN_SALT_LEN <= salt.len() <= MAX_INPUT_LEN
}

/// `Params::new` and `Argon2::hash_password_into` of the argon2 crate, for
/// Argon2id version 0x13 with a 32-byte output. With accepted costs, a
/// password of at most 2^32 - 1 bytes and a salt of 8 to 2^32 - 1 bytes, a
/// key comes back, and it is the Argon2id key of the arguments; all other
/// arguments are refused.
#[verifier::external_body]
fn argon2id_stretch(password: &[u8], salt: &[u8], memory_kib: u32, iterations: u32, parallelism: u32) -> (r:
    Option<[u8; KEY_SIZE]>)
    requires
        parallelism <= MAX_PARALLELISM,
    ensures
        r.is_some() == stretches(password@, salt@, memory_kib, iterations, parallelism),
        r.is_some() ==> r.unwrap()@ == argon2id(
            password@,
            salt@,
            memory_kib,
            iterations,
            parallelism,
        ),
{
    let params = Params::new(memory_kib, iterations, parallelism, Some(KEY_SIZE)).ok()?;
    let mut key = [0u8; KEY_SIZE];
    Argon2::new(Algorithm::Argon2id, Version::V0x13, params).hash_password_into(
        password,
        salt,
        &mut key,
    ).ok()?;
    Some(key)
}

/// A fresh salt from `RngCore::fill_bytes` on rand's thread-local generator.
/// Nothing is claimed of its bytes.
#[verifier::external_body]
fn fresh_salt() -> [u8; SALT_SIZE] {
    let mut salt = [0u8; SALT_SIZE];
    rand::thread_rng().fill_bytes(&mut salt);
    salt
}

/// A key stretched from a password, with the salt that was used.
pub struct DerivedKey {
    key: [u8; KEY_SIZE],
    salt: [u8; SALT_SIZE],
}

impl DerivedKey {
    /// The key bytes.
    pub closed spec fn key_bytes(&self) -> Seq<u8> {
        self.key@
    }

    /// The salt bytes.
    pub closed spec fn salt_bytes(&self) -> Seq<u8> {
        self.salt@
    }

    /// Get the raw key bytes.
    pub fn key(&self) -> (r: &[u8; KEY_SIZE])
        ensures
            r@ == self.key_bytes(),
    {
        &self.key
    }

    /// Get the salt.
    pub fn salt(&self) -> (r: &[u8; SALT_SIZE])
        ensures
            r@ == self.salt_bytes(),
    {
        &self.salt
    }
}

/// The key material is overwritten with zeros when the key is destroyed.
impl Drop for DerivedKey {
    fn drop(&mut self)
        opens_invariants none
        no_unwind
    {
        wipe(&mut self.key);
    }
}

/// Whether a password can be stretched under the configured costs: Argon2
/// accepts the costs, and the password has at most 2^32 - 1 bytes.
pub open spec fn can_stretch(password: Seq<u8>, config: &EncryptionConfig) -> bool {
    &&& costs_accepted(
        config.argon2_memory_kib,
        config.argon2_iterations,
        config.argon2_parallelism,
    )
    &&& password.len() <= MAX_INPUT_LEN
}

/// Stretch `password` with the given 32-byte salt and the configured costs.
/// It succeeds exactly where the password can be stretched under the costs.
pub fn derive_key_with_salt(password: &[u8], salt: &[u8; SALT_SIZE], config: &EncryptionConfig) -> (r:
    Result<DerivedKey>)
    ensures
        r.is_ok() == can_stretch(password@, config),
        r matches Ok(derived) ==> derived.salt_bytes() == salt@ && derived.key_bytes() == argon2id(
            password@,
            salt@,
            config.argon2_memory_kib,
            config.argon2_iterations,
            config.argon2_parallelism,
        ),
        r matches Err(e) ==> e is KeyDerivation,
{
    if config.argon2_parallelism > MAX_PARALLELISM {
        return Err(Error::KeyDerivation("Argon2 parallelism too high".to_string()));
    }
    match argon2id_stretch(
        password,
        salt.as_slice(),
        config.argon2_memory_kib,
        config.argon2_iterations,
        config.argon2_parallelism,
    ) {
        Some(key) => Ok(DerivedKey { key, salt: *salt }),
        None => Err(Error::KeyDerivation("Argon2 key derivation failed".to_string())),
    }
}

/// Derive a 32-byte key from a password.
///
/// With a salt given, it must be 32 bytes long and the key is the Argon2id
/// key of the password under it; without one, a fresh random salt is drawn
/// and returned with the key. It succeeds exactly where the salt, if one is
/// given, has 32 bytes and the password can be stretched under the costs.
pub fn derive_key(password: &[u8], salt: Option<&[u8]>, config: &EncryptionConfig) -> (r: Result<
    DerivedKey,
>)
    ensures
        r.is_ok() == (can_stretch(password@, config) && (salt matches Some(given) ==> given@.len()
            == SALT_SIZE)),
        r matches Ok(derived) ==> {
            &&& derived.salt_bytes().len() == SALT_SIZE
            &&& salt matches Some(given) ==> derived.salt_bytes() == given@
            &&& derived.key_bytes() == argon2id(
                password@,
                derived.salt_bytes(),
                config.argon2_memory_kib,
                config.argon2_iterations,
                config.argon2_parallelism,
            )
        },
        r matches Err(e) ==> e is KeyDerivation,
{
    let salt_bytes = match salt {
        Some(given) => {
            if given.len() != SALT_SIZE {
                return Err(Error::KeyDerivation("Salt must be 32 bytes".to_string()));
            }
            let mut bytes = [0u8; SALT_SIZE];
            let mut i: usize = 0;
            while i < SALT_SIZE
                invariant
                    i <= SALT_SIZE,
                    given@.len() == SALT_SIZE,
                    forall|j: int| 0 <= j < i ==> bytes@[j] == given@[j],
                decreases SALT_SIZE - i,
            {
                bytes[i] = given[i];
                i += 1;
            }
            assert(bytes@ =~= given@);
            bytes
        },
        None => fresh_salt(),
    };
    derive_key_with_salt(password, &salt_bytes, config)
}

} // verus!
