//! AES-256-GCM encryption of payloads.
//!
//! A sealed payload is the nonce followed by the ciphertext and its
//! authentication tag. The nonce is drawn afresh for every encryption; the
//! additional authenticated data is bound to the ciphertext without being
//! encrypted.

use crate::bytes::{append_bytes, copy_range};
use crate::crypto::{KEY_SIZE, NONCE_SIZE, TAG_SIZE};
use crate::error::{Error, Result};
use rand::RngCore;
use ring::aead::{Aad, LessSafeKey, Nonce, UnboundKey, AES_256_GCM};
use vstd::prelude::*;

verus! {

/// Longest plaintext that AES-256-GCM seals under one nonce: 2^36 - 32 bytes.
pub const MAX_PLAINTEXT_LEN: u64 = 68719476704;

/// What AES-256-GCM sealing gives for a key, a nonce, additional data and a
/// plaintext: the ciphertext followed by the tag.
pub uninterp spec fn aes_gcm_sealed(
    key: Seq<u8>,
    nonce: Seq<u8>,
    aad: Seq<u8>,
    plaintext: Seq<u8>,
) -> Option<Seq<u8>>;

/// What AES-256-GCM opening gives for a key, a nonce, additional data and a
/// ciphertext with its tag: the plaintext, or nothing where the tag does not
/// authenticate them.
pub uninterp spec fn aes_gcm_opened(
    key: Seq<u8>,
    nonce: Seq<u8>,
    aad: Seq<u8>,
    sealed: Seq<u8>,
) -> Option<Seq<u8>>;

/// The byte string in an optional vector.
pub open spec fn bytes_of(v: Option<Vec<u8>>) -> Option<Seq<u8>> {
    match v {
        Some(bytes) => Some(bytes@),
        None => None,
    }
}

/// `LessSafeKey::seal_in_place_append_tag` of ring, under an AES-256-GCM key
/// made from `key` and with the given nonce.
///
/// A plaintext within the length limit is sealed; the result is 16 bytes
/// longer than the plaintext, and opening it with the same key, nonce and
/// additional data gives the plaintext back.
#[verifier::external_body]
fn aead_seal(key: &[u8; KEY_SIZE], nonce: &[u8; NONCE_SIZE], aad: &[u8], plaintext: &[u8]) -> (r:
    Option<Vec<u8>>)
    ensures
        bytes_of(r) == aes_gcm_sealed(key@, nonce@, aad@, plaintext@),
        plaintext@.len() <= MAX_PLAINTEXT_LEN ==> r.is_some(),
        r.is_some() ==> r.unwrap()@.len() == plaintext@.len() + TAG_SIZE,
        r.is_some() ==> aes_gcm_opened(key@, nonce@, aad@, r.unwrap()@) == Some(plaintext@),
{
    let sealing_key = LessSafeKey::new(UnboundKey::new(&AES_256_GCM, key).ok()?);
    let mut in_out = plaintext.to_vec();
    sealing_key.seal_in_place_append_tag(
        Nonce::assume_unique_for_key(*nonce),
        Aad::from(aad),
        &mut in_out,
    ).ok()?;
    Some(in_out)
}

/// `LessSafeKey::open_in_place` of ring, under an AES-256-GCM key made from
/// `key` and with the given nonce. A plaintext that comes back is 16 bytes
/// shorter than what was opened.
#[verifier::external_body]
fn aead_open(key: &[u8; KEY_SIZE], nonce: &[u8; NONCE_SIZE], aad: &[u8], sealed: &[u8]) -> (r:
    Option<Vec<u8>>)
    ensures
        bytes_of(r) == aes_gcm_opened(key@, nonce@, aad@, sealed@),
        r.is_some() ==> r.unwrap()@.len() + TAG_SIZE == sealed@.len(),
{
    let opening_key = LessSafeKey::new(UnboundKey::new(&AES_256_GCM, key).ok()?);
    let mut in_out = sealed.to_vec();
    let plaintext = opening_key.open_in_place(
        Nonce::assume_unique_for_key(*nonce),
        Aad::from(aad),
        &mut in_out,
    ).ok()?;
    Some(plaintext.to_vec())
}

/// A fresh nonce from `RngCore::fill_bytes` on rand's thread-local generator.
/// Nothing is claimed of its bytes.
#[verifier::external_body]
fn fresh_nonce() -> [u8; NONCE_SIZE] {
    let mut nonce_bytes = [0u8; NONCE_SIZE];
    rand::thread_rng().fill_bytes(&mut nonce_bytes);
    nonce_bytes
}

/// Encrypted data container with nonce and authentication tag.
#[derive(Debug, Clone)]
pub struct EncryptedData {
    /// Nonce used for encryption (unique per encryption).
    pub nonce: Vec<u8>,
    /// Ciphertext with appended authentication tag.
    pub ciphertext: Vec<u8>,
}

/// What decryption gives for a sealed payload: nothing for a nonce of the
/// wrong length or a ciphertext too short to hold a tag, else what opening
/// gives.
pub open spec fn decrypted(key: Seq<u8>, nonce: Seq<u8>, ciphertext: Seq<u8>, aad: Seq<u8>) -> Option<
    Seq<u8>,
> {
    if nonce.len() != NONCE_SIZE || ciphertext.len() < TAG_SIZE {
        None
    } else {
        aes_gcm_opened(key, nonce, aad, ciphertext)
    }
}

impl EncryptedData {
    /// Get the total size of encrypted data.
    pub fn size(&self) -> (r: usize)
        requires
            self.nonce@.len() + self.ciphertext@.len() <= usize::MAX,
        ensures
            r == self.nonce@.len() + self.ciphertext@.len(),
    {
        self.nonce.len() + self.ciphertext.len()
    }

    /// Serialize to bytes for storage: the nonce followed by the ciphertext.
    pub fn to_bytes(&self) -> (r: Vec<u8>)
        ensures
            r@ == self.nonce@ + self.ciphertext@,
    {
        let mut bytes: Vec<u8> = Vec::new();
        append_bytes(&mut bytes, self.nonce.as_slice());
        append_bytes(&mut bytes, self.ciphertext.as_slice());
        bytes
    }

    /// Deserialize from bytes: the first 12 bytes are the nonce, the rest is
    /// the ciphertext. Fewer bytes than a nonce and a tag are refused.
    pub fn from_bytes(bytes: &[u8]) -> (r: Result<Self>)
        ensures
            r.is_ok() == (bytes@.len() >= NONCE_SIZE + TAG_SIZE),
            r matches Ok(data) ==> data.nonce@ == bytes@.take(NONCE_SIZE as int)
                && data.ciphertext@ == bytes@.skip(NONCE_SIZE as int),
            r matches Err(e) ==> e is Decryption,
    {
        if bytes.len() < NONCE_SIZE + TAG_SIZE {
            return Err(Error::Decryption("Data too short".to_string()));
        }
        let nonce = copy_range(bytes, 0, NONCE_SIZE);
        let ciphertext = copy_range(bytes, NONCE_SIZE, bytes.len());
        Ok(EncryptedData { nonce, ciphertext })
    }
}

/// The wire form read back is the container that was written.
pub proof fn lemma_wire_round_trip(nonce: Seq<u8>, ciphertext: Seq<u8>)
    requires
        nonce.len() == NONCE_SIZE,
    ensures
        (nonce + ciphertext).take(NONCE_SIZE as int) == nonce,
        (nonce + ciphertext).skip(NONCE_SIZE as int) == ciphertext,
{
    assert((nonce + ciphertext).take(NONCE_SIZE as int) =~= nonce);
    assert((nonce + ciphertext).skip(NONCE_SIZE as int) =~= ciphertext);
}

/// Seal `plaintext` under `key` with the given nonce, binding `aad`.
pub fn seal_with_nonce(
    key: &[u8; KEY_SIZE],
    nonce: &[u8; NONCE_SIZE],
    plaintext: &[u8],
    aad: &[u8],
) -> (r: Result<EncryptedData>)
    ensures
        match aes_gcm_sealed(key@, nonce@, aad@, plaintext@) {
            Some(sealed) => r matches Ok(data) && data.nonce@ == nonce@ && data.ciphertext@
                == sealed,
            None => r matches Err(e) && e is Encryption,
        },
        plaintext@.len() <= MAX_PLAINTEXT_LEN ==> r.is_ok(),
        r matches Ok(data) ==> data.ciphertext@.len() == plaintext@.len() + TAG_SIZE && decrypted(
            key@,
            data.nonce@,
            data.ciphertext@,
            aad@,
        ) == Some(plaintext@),
{
    match aead_seal(key, nonce, aad, plaintext) {
        Some(ciphertext) => {
            let nonce_bytes = copy_range(nonce.as_slice(), 0, NONCE_SIZE);
            assert(nonce_bytes@ =~= nonce@);
            Ok(EncryptedData { nonce: nonce_bytes, ciphertext })
        },
        None => Err(Error::Encryption("Encryption failed".to_string())),
    }
}

/// Encrypt data using AES-256-GCM under a fresh random nonce.
///
/// Whatever nonce is drawn, the result is the sealing of the plaintext under
/// that nonce, and decrypting it with the same key and additional data gives
/// the plaintext back.
pub fn encrypt(key: &[u8; KEY_SIZE], plaintext: &[u8], aad: &[u8]) -> (r: Result<EncryptedData>)
    ensures
        plaintext@.len() <= MAX_PLAINTEXT_LEN ==> r.is_ok(),
        r matches Ok(data) ==> {
            &&& data.nonce@.len() == NONCE_SIZE
            &&& aes_gcm_sealed(key@, data.nonce@, aad@, plaintext@) == Some(data.ciphertext@)
            &&& data.ciphertext@.len() == plaintext@.len() + TAG_SIZE
            &&& decrypted(key@, data.nonce@, data.ciphertext@, aad@) == Some(plaintext@)
        },
        r matches Err(e) ==> e is Encryption,
{
    let nonce = fresh_nonce();
    seal_with_nonce(key, &nonce, plaintext, aad)
}

/// Decrypt data using AES-256-GCM. A nonce of the wrong length, a truncated
/// ciphertext, a wrong key, altered data or other additional data than was
/// bound at encryption give `Decryption`.
pub fn decrypt(key: &[u8; KEY_SIZE], encrypted: &EncryptedData, aad: &[u8]) -> (r: Result<Vec<u8>>)
    ensures
        match decrypted(key@, encrypted.nonce@, encrypted.ciphertext@, aad@) {
            Some(plaintext) => r matches Ok(v) && v@ == plaintext,
            None => r matches Err(e) && e is Decryption,
        },
        r matches Ok(v) ==> v@.len() + TAG_SIZE == encrypted.ciphertext@.len(),
{
    if encrypted.nonce.len() != NONCE_SIZE {
        return Err(Error::Decryption("Invalid nonce length".to_string()));
    }
    if encrypted.ciphertext.len() < TAG_SIZE {
        return Err(Error::Decryption("Ciphertext too short".to_string()));
    }
    let mut nonce_bytes = [0u8; NONCE_SIZE];
    let mut i: usize = 0;
    while i < NONCE_SIZE
        invariant
            i <= NONCE_SIZE,
            encrypted.nonce@.len() == NONCE_SIZE,
            forall|j: int| 0 <= j < i ==> nonce_bytes@[j] == encrypted.nonce@[j],
        decreases NONCE_SIZE - i,
    {
        nonce_bytes[i] = encrypted.nonce[i];
        i += 1;
    }
    assert(nonce_bytes@ =~= encrypted.nonce@);
    match aead_open(key, &nonce_bytes, aad, encrypted.ciphertext.as_slice()) {
        Some(plaintext) => Ok(plaintext),
        None => Err(
            Error::Decryption("Decryption failed - data corrupted or wrong key".to_string()),
        ),
    }
}

/// Encrypt with empty additional data.
pub fn encrypt_simple(key: &[u8; KEY_SIZE], plaintext: &[u8]) -> (r: Result<EncryptedData>)
    ensures
        plaintext@.len() <= MAX_PLAINTEXT_LEN ==> r.is_ok(),
        r matches Ok(data) ==> {
            &&& data.nonce@.len() == NONCE_SIZE
            &&& aes_gcm_sealed(key@, data.nonce@, Seq::<u8>::empty(), plaintext@) == Some(
                data.ciphertext@,
            )
            &&& data.ciphertext@.len() == plaintext@.len() + TAG_SIZE
            &&& decrypted(key@, data.nonce@, data.ciphertext@, Seq::<u8>::empty()) == Some(
                plaintext@,
            )
        },
        r matches Err(e) ==> e is Encryption,
{
    let no_aad: [u8; 0] = [];
    assert(no_aad@ =~= Seq::<u8>::empty());
    encrypt(key, plaintext, no_aad.as_slice())
}

/// Decrypt with empty additional data.
pub fn decrypt_simple(key: &[u8; KEY_SIZE], encrypted: &EncryptedData) -> (r: Result<Vec<u8>>)
    ensures
        match decrypted(key@, encrypted.nonce@, encrypted.ciphertext@, Seq::<u8>::empty()) {
            Some(plaintext) => r matches Ok(v) && v@ == plaintext,
            None => r matches Err(e) && e is Decryption,
        },
{
    let no_aad: [u8; 0] = [];
    assert(no_aad@ =~= Seq::<u8>::empty());
    decrypt(key, encrypted, no_aad.as_slice())
}

} // verus!
