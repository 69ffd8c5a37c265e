//! Options of the storage engine, as the configuration loader hands them over.

use crate::error::{Error, Result};
use std::path::PathBuf;
use vstd::prelude::*;

verus! {

/// Default chunk size: 50 MiB.
pub const DEFAULT_CHUNK_SIZE: usize = 52428800;

/// Largest chunk that the remote store takes: 2 GiB.
pub const MAX_CHUNK_SIZE: u64 = 2147483648;

/// Main configuration structure.
#[derive(Debug, Clone)]
pub struct Config {
    /// Remote account configuration.
    pub telegram: TelegramConfig,
    /// Encryption configuration.
    pub encryption: EncryptionConfig,
    /// Cache configuration.
    pub cache: CacheConfig,
    /// Chunk configuration.
    pub chunk: ChunkConfig,
    /// Mount configuration.
    pub mount: MountConfig,
    /// Version control configuration.
    pub versioning: VersioningConfig,
    /// Path to the data directory.
    pub data_dir: PathBuf,
}

/// Remote account configuration.
#[derive(Debug, Clone)]
pub struct TelegramConfig {
    /// API id of the remote account.
    pub api_id: i32,
    /// API hash of the remote account.
    pub api_hash: String,
    /// Phone number for authentication.
    pub phone: Option<String>,
    /// Session file path.
    pub session_file: PathBuf,
    /// Maximum concurrent uploads.
    pub max_concurrent_uploads: usize,
    /// Maximum concurrent downloads.
    pub max_concurrent_downloads: usize,
    /// Retry attempts for failed operations.
    pub retry_attempts: u32,
    /// Base delay for exponential backoff (ms).
    pub retry_base_delay_ms: u64,
}

/// Encryption configuration.
#[derive(Debug, Clone)]
pub struct EncryptionConfig {
    /// Argon2 memory cost in KiB.
    pub argon2_memory_kib: u32,
    /// Argon2 time cost (iterations).
    pub argon2_iterations: u32,
    /// Argon2 parallelism.
    pub argon2_parallelism: u32,
    /// Salt for key derivation (generated if empty).
    pub salt: Vec<u8>,
}

/// Cache configuration.
#[derive(Debug, Clone)]
pub struct CacheConfig {
    /// Maximum cache size in bytes.
    pub max_size: u64,
    /// Cache directory path.
    pub cache_dir: PathBuf,
    /// Enable prefetching.
    pub prefetch_enabled: bool,
    /// Number of chunks to prefetch.
    pub prefetch_count: usize,
    /// Cache eviction policy.
    pub eviction_policy: EvictionPolicy,
}

/// Chunk configuration.
#[derive(Debug, Clone)]
pub struct ChunkConfig {
    /// Target chunk size in bytes.
    pub chunk_size: usize,
    /// Enable compression.
    pub compression_enabled: bool,
    /// Minimum size to compress (bytes).
    pub compression_threshold: usize,
    /// Enable content-based deduplication.
    pub dedup_enabled: bool,
}

/// Mount configuration.
#[derive(Debug, Clone)]
pub struct MountConfig {
    /// Mount point path.
    pub mount_point: PathBuf,
    /// Allow other users to access the mount.
    pub allow_other: bool,
    /// Allow root to access the mount.
    pub allow_root: bool,
    /// Default file permissions.
    pub default_file_mode: u32,
    /// Default directory permissions.
    pub default_dir_mode: u32,
    /// UID for files.
    pub uid: u32,
    /// GID for files.
    pub gid: u32,
}

/// Versioning configuration.
#[derive(Debug, Clone)]
pub struct VersioningConfig {
    /// Enable version history.
    pub enabled: bool,
    /// Maximum versions to keep per file (0 = unlimited).
    pub max_versions: usize,
    /// Enable automatic snapshots.
    pub auto_snapshot: bool,
    /// Snapshot interval in seconds (0 = disabled).
    pub snapshot_interval_secs: u64,
    /// Maximum snapshots to keep (0 = unlimited).
    pub max_snapshots: usize,
}

/// Cache eviction policy.
#[derive(Debug, Clone, Copy, PartialEq, Eq, Structural)]
pub enum EvictionPolicy {
    /// Least Recently Used.
    Lru,
    /// Least Frequently Used.
    Lfu,
    /// First In First Out.
    Fifo,
}

impl Default for EncryptionConfig {
    fn default() -> (r: Self)
        ensures
            r.argon2_memory_kib == 65536,
            r.argon2_iterations == 3,
            r.argon2_parallelism == 4,
            r.salt@.len() == 0,
    {
        EncryptionConfig {
            argon2_memory_kib: 65536,
            argon2_iterations: 3,
            argon2_parallelism: 4,
            salt: Vec::new(),
        }
    }
}

impl Default for ChunkConfig {
    fn default() -> (r: Self)
        ensures
            r.chunk_size == DEFAULT_CHUNK_SIZE,
            r.compression_enabled,
            r.compression_threshold == 1024,
            r.dedup_enabled,
    {
        ChunkConfig {
            chunk_size: DEFAULT_CHUNK_SIZE,
            compression_enabled: true,
            compression_threshold: 1024,
            dedup_enabled: true,
        }
    }
}

impl Default for VersioningConfig {
    fn default() -> (r: Self)
        ensures
            r.enabled,
            r.max_versions == 10,
            !r.auto_snapshot,
            r.snapshot_interval_secs == 0,
            r.max_snapshots == 5,
    {
        VersioningConfig {
            enabled: true,
            max_versions: 10,
            auto_snapshot: false,
            snapshot_interval_secs: 0,
            max_snapshots: 5,
        }
    }
}

impl Config {
    /// The validation rules: remote credentials are present and the chunk
    /// size is positive and within the remote store's 2 GiB limit.
    pub open spec fn valid(&self) -> bool {
        &&& self.telegram.api_id != 0
        &&& self.telegram.api_hash@.len() > 0
        &&& 0 < self.chunk.chunk_size <= MAX_CHUNK_SIZE
    }

    /// Validate the configuration.
    pub fn validate(&self) -> (r: Result<()>)
        ensures
            r.is_ok() == self.valid(),
            r matches Err(e) ==> e is InvalidConfig,
    {
        if self.telegram.api_id == 0 {
            return Err(Error::InvalidConfig("Telegram API ID is required".to_string()));
        }
        if self.telegram.api_hash.as_str().unicode_len() == 0 {
            return Err(Error::InvalidConfig("Telegram API hash is required".to_string()));
        }
        if self.chunk.chunk_size == 0 {
            return Err(Error::InvalidConfig("Chunk size must be greater than 0".to_string()));
        }
        if self.chunk.chunk_size as u64 > MAX_CHUNK_SIZE {
            return Err(
                Error::InvalidConfig("Chunk size exceeds the remote store's 2GB limit".to_string()),
            );
        }
        Ok(())
    }
}

} // verus!
