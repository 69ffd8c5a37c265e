use std::path::PathBuf;
use tgcryptfs::bytes::{append_bytes, copy_range, u32_from_be, u32_to_be, u64_from_be, u64_to_be};
use tgcryptfs::config::{CacheConfig, ChunkConfig, Config, EncryptionConfig, EvictionPolicy, MountConfig, TelegramConfig, VersioningConfig};
use tgcryptfs::error::Error;
use tgcryptfs::table::{ScopedTable, StrTable};
use tgcryptfs::telegram::{block_file_name, chunk_file_name, metadata_file_name, snapshot_file_name, TelegramMessage};

#[test]
fn big_endian_integers() {
    assert_eq!(u64_to_be(0x0102030405060708), [1, 2, 3, 4, 5, 6, 7, 8]);
    assert_eq!(u64_to_be(0), [0; 8]);
    assert_eq!(u64_to_be(u64::MAX), [0xff; 8]);
    assert_eq!(u64_from_be(&[1, 2, 3, 4, 5, 6, 7, 8, 9]), 0x0102030405060708);
    assert_eq!(u64_from_be(&1_000_000u64.to_be_bytes()), 1_000_000);
    assert_eq!(u32_to_be(0xdeadbeef), [0xde, 0xad, 0xbe, 0xef]);
    assert_eq!(u32_from_be(&[0xde, 0xad, 0xbe, 0xef, 0]), 0xdeadbeef);
    let mut out = vec![1u8];
    append_bytes(&mut out, &[2, 3]);
    append_bytes(&mut out, &[]);
    assert_eq!(out, vec![1, 2, 3]);
    assert_eq!(copy_range(&[5, 6, 7, 8], 1, 3), vec![6, 7]);
    assert_eq!(copy_range(&[5, 6, 7, 8], 2, 2), Vec::<u8>::new());
}

#[test]
fn remote_file_names() {
    assert_eq!(chunk_file_name("abc"), "chunk_abc");
    assert_eq!(block_file_name("abc", 0), "chunk_abc_0");
    assert_eq!(block_file_name("abc", 7), "chunk_abc_7");
    assert_eq!(block_file_name("abc", 42), "chunk_abc_42");
    assert_eq!(block_file_name("abc", 100), "chunk_abc_100");
    assert_eq!(block_file_name("abc", 255), "chunk_abc_255");
    assert_eq!(block_file_name("", 109), "chunk__109");
    assert_eq!(metadata_file_name("index"), "meta_index");
    assert_eq!(snapshot_file_name("ns", "id-1"), "tgfs_snapshot_ns_id-1");
    let message = TelegramMessage { id: 1, filename: Some(chunk_file_name("x")), size: 3, date: 4 };
    assert_eq!(message.filename.as_deref(), Some("chunk_x"));
}

#[test]
fn errors_are_classified_for_retry() {
    assert!(Error::TelegramClient("net".to_string()).is_retryable());
    assert!(Error::TelegramUpload("x".to_string()).is_retryable());
    assert!(Error::TelegramDownload("x".to_string()).is_retryable());
    assert!(Error::TelegramRateLimited { seconds: 30 }.is_retryable());
    assert_eq!(Error::TelegramRateLimited { seconds: 30 }.retry_after(), Some(30));
    assert_eq!(Error::TelegramClient("net".to_string()).retry_after(), None);
    assert!(!Error::Decryption("bad".to_string()).is_retryable());
    assert!(!Error::TelegramAuthRequired.is_retryable());
    assert!(!Error::CacheFull.is_retryable());
    assert!(!Error::ChunkVerificationFailed { expected: "a".to_string(), got: "b".to_string() }.is_retryable());
    assert!(!Error::ErasureFailed { available: 1, required: 2 }.is_retryable());
    assert!(!Error::StripeUnrecoverable { available: 1, required: 2 }.is_retryable());
    assert!(!Error::MessageNotFound(5).is_retryable());
    assert!(!Error::InvalidConfig("x".to_string()).is_retryable());
}

fn config() -> Config {
    Config {
        telegram: TelegramConfig {
            api_id: 1,
            api_hash: "hash".to_string(),
            phone: None,
            session_file: PathBuf::from("session"),
            max_concurrent_uploads: 3,
            max_concurrent_downloads: 5,
            retry_attempts: 3,
            retry_base_delay_ms: 1000,
        },
        encryption: EncryptionConfig::default(),
        cache: CacheConfig {
            max_size: 1,
            cache_dir: PathBuf::from("cache"),
            prefetch_enabled: true,
            prefetch_count: 3,
            eviction_policy: EvictionPolicy::Lru,
        },
        chunk: ChunkConfig::default(),
        mount: MountConfig {
            mount_point: PathBuf::from("/mnt"),
            allow_other: false,
            allow_root: false,
            default_file_mode: 0o644,
            default_dir_mode: 0o755,
            uid: 0,
            gid: 0,
        },
        versioning: VersioningConfig::default(),
        data_dir: PathBuf::from("data"),
    }
}

#[test]
fn config_validation() {
    assert!(config().validate().is_ok());
    let mut c = config();
    c.telegram.api_id = 0;
    assert!(matches!(c.validate(), Err(Error::InvalidConfig(_))));
    let mut c = config();
    c.telegram.api_hash = String::new();
    assert!(c.validate().is_err());
    let mut c = config();
    c.chunk.chunk_size = 0;
    assert!(c.validate().is_err());
    let mut c = config();
    c.chunk.chunk_size = 2 * 1024 * 1024 * 1024;
    assert!(c.validate().is_ok());
    c.chunk.chunk_size += 1;
    assert!(c.validate().is_err());
    let e = EncryptionConfig::default();
    assert_eq!((e.argon2_memory_kib, e.argon2_iterations, e.argon2_parallelism), (65536, 3, 4));
    assert!(e.salt.is_empty());
    let v = VersioningConfig::default();
    assert_eq!((v.enabled, v.max_versions, v.max_snapshots), (true, 10, 5));
}

#[test]
fn tables_keep_one_value_per_key() {
    let mut table: StrTable<u32> = StrTable::new();
    assert_eq!(table.insert("a".to_string(), 1), None);
    assert_eq!(table.insert("b".to_string(), 2), None);
    assert_eq!(table.insert("a".to_string(), 3), Some(1));
    assert_eq!(table.len(), 2);
    assert_eq!(table.get("a"), Some(&3));
    assert!(table.contains_key("b"));
    assert_eq!(table.remove("a"), Some(3));
    assert_eq!(table.remove("a"), None);
    assert_eq!(table.get("a"), None);
    table.clear();
    assert_eq!(table.len(), 0);
    let mut scoped: ScopedTable<u8> = ScopedTable::new();
    assert_eq!(scoped.insert(1, "x".to_string(), 10), None);
    assert_eq!(scoped.insert(2, "x".to_string(), 20), None);
    assert_eq!(scoped.insert(1, "x".to_string(), 11), Some(10));
    assert_eq!(scoped.get(1, "x"), Some(&11));
    assert_eq!(scoped.get(2, "x"), Some(&20));
    assert_eq!(scoped.get(3, "x"), None);
    assert_eq!((scoped.scope_at(1), scoped.name_at(1), *scoped.value_at(1)), (2, "x", 20));
    assert_eq!(scoped.remove(1, "x"), Some(11));
    assert!(!scoped.contains_key(1, "x"));
    assert_eq!(scoped.len(), 1);
    scoped.clear();
    assert_eq!(scoped.len(), 0);
}
