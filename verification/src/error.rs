//! Error kinds of the storage engine and their retry classification.

use vstd::prelude::*;

verus! {

/// Main error type.
#[derive(Debug, Clone)]
pub enum Error {
    /// Sealing a payload failed.
    Encryption(String),
    /// Authentication failed or the ciphertext is truncated.
    Decryption(String),
    /// A key could not be derived.
    KeyDerivation(String),
    /// A key of the wrong length was supplied.
    InvalidKeyLength { expected: usize, got: usize },
    /// The remote client failed in a transient way.
    TelegramClient(String),
    /// The remote account is not signed in.
    TelegramAuthRequired,
    /// The remote store asks to come back later.
    TelegramRateLimited { seconds: u32 },
    /// An upload failed.
    TelegramUpload(String),
    /// A download failed.
    TelegramDownload(String),
    /// The remote object does not exist.
    MessageNotFound(i32),
    /// No such chunk.
    ChunkNotFound(String),
    /// A downloaded chunk does not hash to its id.
    ChunkVerificationFailed { expected: String, got: String },
    /// The configured chunk size is not usable.
    InvalidChunkSize(usize),
    /// No such inode.
    InodeNotFound(u64),
    /// No such path.
    PathNotFound(String),
    /// The inode is not a directory.
    NotADirectory(String),
    /// The inode is not a file.
    NotAFile(String),
    /// The directory still has children.
    DirectoryNotEmpty(String),
    /// The name is taken.
    AlreadyExists(String),
    /// The embedded key-value store failed.
    Database(String),
    /// The caller may not do this.
    PermissionDenied,
    /// Unknown file handle.
    InvalidFileHandle(u64),
    /// The file exceeds the size limit.
    FileTooLarge { size: u64, limit: u64 },
    /// The chunk is not cached.
    CacheMiss(String),
    /// The chunk is larger than the whole cache.
    CacheFull,
    /// No such snapshot.
    SnapshotNotFound(String),
    /// A snapshot of that name exists.
    SnapshotAlreadyExists(String),
    /// No such version.
    VersionNotFound(u64),
    /// Fewer than all accounts took part; the operation still succeeded.
    ErasureDegraded { available: usize, required: usize },
    /// Fewer than the required number of accounts took part.
    ErasureFailed { available: usize, required: usize },
    /// The account is marked unavailable.
    AccountUnavailable(u8, String),
    /// Too few blocks of a stripe could be fetched.
    StripeUnrecoverable { available: usize, required: usize },
    /// Fewer shards than the code needs are at hand.
    NotEnoughShards { available: usize, required: usize },
    /// Parity could not be computed.
    ErasureEncode(String),
    /// The shards do not decode.
    ErasureDecode(String),
    /// The erasure parameters are not usable.
    InvalidErasureConfig(String),
    /// Rebuilding an account failed.
    RebuildFailed { account: u8, reason: String },
    /// A configuration value is missing or malformed.
    Config(String),
    /// The configuration is inconsistent.
    InvalidConfig(String),
    /// Local input or output failed.
    Io(String),
    /// A value could not be written in its binary form.
    Serialization(String),
    /// Bytes do not hold a value in its binary form.
    Deserialization(String),
    /// An internal rule was broken.
    Internal(String),
    /// The operation is not offered.
    NotImplemented(String),
}

/// Result type alias using our error type.
pub type Result<T> = core::result::Result<T, Error>;

impl Error {
    /// Whether the failure is transient: a network fault, a throttle or a
    /// failed transfer, which the caller retries with backoff.
    pub open spec fn retryable(&self) -> bool {
        match self {
            Error::TelegramClient(_) => true,
            Error::TelegramRateLimited { .. } => true,
            Error::TelegramUpload(_) => true,
            Error::TelegramDownload(_) => true,
            _ => false,
        }
    }

    /// Classify the failure as retryable (`true`) or fatal (`false`).
    ///
    /// Authentication and decryption failures, invalid data and a full cache
    /// are fatal.
    pub fn is_retryable(&self) -> (r: bool)
        ensures
            r == self.retryable(),
    {
        match self {
            Error::TelegramClient(_) => true,
            Error::TelegramRateLimited { .. } => true,
            Error::TelegramUpload(_) => true,
            Error::TelegramDownload(_) => true,
            _ => false,
        }
    }

    /// Seconds to wait before a retry, where the remote store named them.
    pub fn retry_after(&self) -> (r: Option<u32>)
        ensures
            r == match self {
                Error::TelegramRateLimited { seconds } => Some(*seconds),
                _ => None,
            },
    {
        match self {
            Error::TelegramRateLimited { seconds } => Some(*seconds),
            _ => None,
        }
    }
}

} // verus!
