//! Cryptography: authenticated encryption of every payload and the key
//! hierarchy derived from the user's password.

pub mod encryption;
pub mod kdf;
pub mod keys;

pub use encryption::{decrypt, encrypt, EncryptedData};
pub use kdf::{derive_key, DerivedKey};
pub use keys::{ChunkKey, KeyManager, MasterKey};

use vstd::prelude::*;
use zeroize::Zeroize;

verus! {

/// Size of an AES-256 key in bytes.
pub const KEY_SIZE: usize = 32;

/// Size of a GCM nonce in bytes.
pub const NONCE_SIZE: usize = 12;

/// Size of a GCM authentication tag in bytes.
pub const TAG_SIZE: usize = 16;

/// Size of the salt for key derivation.
pub const SALT_SIZE: usize = 32;

/// `Zeroize::zeroize` of the zeroize crate on a key: every byte becomes zero,
/// and the call returns.
#[verifier::external_body]
pub(crate) fn wipe(key: &mut [u8; KEY_SIZE])
    ensures
        forall|i: int| 0 <= i < KEY_SIZE ==> final(key)@[i] == 0,
    opens_invariants none
    no_unwind
{
    key.zeroize();
}

} // verus!
