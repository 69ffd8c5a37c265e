use tgcryptfs::chunk::chunker::content_id;
use tgcryptfs::chunk::compression::{is_admitted, pick_stored_form, restore, LONGEST_RUN};
use tgcryptfs::chunk::{decompress, Chunker};
use tgcryptfs::config::{ChunkConfig, EncryptionConfig};
use tgcryptfs::crypto::kdf::derive_key_with_salt;
use tgcryptfs::crypto::{derive_key, KeyManager, MasterKey, SALT_SIZE};
use tgcryptfs::error::Error;
use tgcryptfs::metadata::store::ChunkRow;
use tgcryptfs::metadata::MetadataStore;
use tgcryptfs::raid::config::MAX_TOTAL_CHUNKS;
use tgcryptfs::raid::{ErasureConfig, ErasurePreset, HealthTracker};
use tgcryptfs::storage::{create_file, FileWrite};

fn costs(memory_kib: u32, iterations: u32, parallelism: u32, salt: Vec<u8>) -> EncryptionConfig {
    EncryptionConfig { argon2_memory_kib: memory_kib, argon2_iterations: iterations, argon2_parallelism: parallelism, salt }
}

#[test]
fn erasure_parameters_are_bounded() {
    assert_eq!(MAX_TOTAL_CHUNKS, 255);
    assert!(ErasureConfig::new(2, 3).validate().is_ok());
    assert!(ErasureConfig::new(1, 2).validate().is_ok());
    assert!(ErasureConfig::new(254, 255).validate().is_ok());
    assert!(ErasureConfig::new(1, 255).validate().is_ok());
    for (k, n) in [(0, 3), (1, 1), (3, 3), (4, 3), (0, 0), (2, 300), (255, 256), (1, 256), (299, 300)] {
        assert!(
            matches!(ErasureConfig::new(k, n).validate(), Err(Error::InvalidConfig(_))),
            "K = {}, N = {}",
            k,
            n
        );
    }
}

#[test]
fn erasure_presets_are_bounded() {
    let widest = ErasureConfig::from_preset(ErasurePreset::Raid5, 255).unwrap();
    assert_eq!((widest.data_chunks, widest.total_chunks), (254, 255));
    assert!(widest.validate().is_ok());
    let widest = ErasureConfig::from_preset(ErasurePreset::Raid6, 255).unwrap();
    assert_eq!((widest.data_chunks, widest.total_chunks), (253, 255));
    assert!(widest.validate().is_ok());
    for accounts in [256, 300, usize::MAX] {
        assert!(matches!(ErasureConfig::from_preset(ErasurePreset::Raid5, accounts), Err(Error::InvalidConfig(_))));
        assert!(matches!(ErasureConfig::from_preset(ErasurePreset::Raid6, accounts), Err(Error::InvalidConfig(_))));
        assert!(matches!(ErasureConfig::from_preset(ErasurePreset::Custom, accounts), Err(Error::InvalidConfig(_))));
    }
}

#[test]
fn blocks_with_overlong_runs_are_kept_from_decompression() {
    assert_eq!(LONGEST_RUN, 16_843_008);
    assert!(is_admitted(&[]));
    assert!(is_admitted(&[0xff; 100]));
    let mut block = vec![0xffu8; LONGEST_RUN + 1];
    assert!(!is_admitted(&block));
    assert!(matches!(decompress(&block), Err(Error::Deserialization(_))));
    assert!(matches!(restore(block.clone(), true), Err(Error::Deserialization(_))));
    assert_eq!(restore(vec![0xff; 3], false).unwrap(), vec![0xff; 3]);
    // Such a candidate is never chosen as the stored form.
    let data = vec![0u8; LONGEST_RUN + 2];
    assert_eq!(pick_stored_form(&data, block.clone(), 0), None);
    // One byte fewer makes the longest run that is admitted.
    block.pop();
    assert!(is_admitted(&block));
    // A run that is broken in the middle is two shorter runs.
    let mut broken = vec![0xffu8; 2 * LONGEST_RUN + 1];
    broken[LONGEST_RUN] = 0;
    assert!(is_admitted(&broken));
    broken[LONGEST_RUN] = 0xff;
    assert!(!is_admitted(&broken));
    // The run may stand anywhere.
    let mut late = vec![7u8; 10];
    late.extend_from_slice(&vec![0xffu8; LONGEST_RUN + 1]);
    assert!(!is_admitted(&late));
    late.push(7);
    assert!(!is_admitted(&late));
}

#[test]
fn a_length_of_many_bytes_is_refused_without_a_panic() {
    // A block whose first literal length is written with more bytes 0xFF
    // than a length can have.
    let mut block: Vec<u8> = vec![16, 0, 0, 0, 0xf0];
    block.extend_from_slice(&vec![0xffu8; 16_843_010]);
    block.push(1);
    assert!(matches!(decompress(&block), Err(Error::Deserialization(_))));
    // With the longest run that is admitted the block goes to the
    // decompressor, which refuses it for its literals.
    let mut block: Vec<u8> = vec![16, 0, 0, 0, 0xf0];
    block.extend_from_slice(&vec![0xffu8; LONGEST_RUN]);
    block.push(1);
    assert!(matches!(decompress(&block), Err(Error::Deserialization(_))));
}

#[test]
fn key_derivation_succeeds_exactly_on_accepted_inputs() {
    let salt = [9u8; SALT_SIZE];
    // Accepted: at least 8 KiB, 8 KiB for each lane, one iteration, one lane.
    for (m, t, p) in [(8, 1, 1), (16, 1, 2), (1024, 2, 1), (64, 3, 8)] {
        assert!(derive_key_with_salt(b"password", &salt, &costs(m, t, p, Vec::new())).is_ok(), "{} {} {}", m, t, p);
        assert!(derive_key(b"", Some(&salt), &costs(m, t, p, Vec::new())).is_ok());
        assert!(derive_key(b"password", None, &costs(m, t, p, Vec::new())).is_ok());
        assert!(MasterKey::from_password(b"password", &costs(m, t, p, Vec::new())).is_ok());
        assert!(MasterKey::from_password(b"password", &costs(m, t, p, salt.to_vec())).is_ok());
        assert!(MasterKey::from_existing(b"password", &salt, &costs(m, t, p, Vec::new())).is_ok());
    }
    // Refused costs.
    for (m, t, p) in [(7, 1, 1), (0, 1, 1), (8, 0, 1), (8, 1, 0), (15, 1, 2), (1024, 1, 16_777_216), (u32::MAX, 1, u32::MAX)] {
        let config = costs(m, t, p, Vec::new());
        assert!(matches!(derive_key_with_salt(b"password", &salt, &config), Err(Error::KeyDerivation(_))), "{} {} {}", m, t, p);
        assert!(matches!(derive_key(b"password", None, &config), Err(Error::KeyDerivation(_))));
        assert!(matches!(MasterKey::from_password(b"password", &config), Err(Error::KeyDerivation(_))));
        assert!(matches!(MasterKey::from_existing(b"password", &salt, &config), Err(Error::KeyDerivation(_))));
    }
    // A salt of another length than 32 bytes.
    let good = costs(8, 1, 1, Vec::new());
    for len in [0usize, 1, 8, 31, 33, 64] {
        let other = vec![1u8; len];
        assert!(matches!(derive_key(b"password", Some(&other), &good), Err(Error::KeyDerivation(_))));
        assert!(matches!(MasterKey::from_existing(b"password", &other, &good), Err(Error::KeyDerivation(_))));
        if len != 0 {
            assert!(matches!(MasterKey::from_password(b"password", &costs(8, 1, 1, other)), Err(Error::KeyDerivation(_))));
        }
    }
}

#[test]
fn a_write_stops_only_at_a_row_that_is_full() {
    let master = MasterKey::from_existing(b"password", &[3u8; SALT_SIZE], &costs(8, 1, 1, Vec::new())).unwrap();
    let keys = KeyManager::new(master).unwrap();
    let mut store = MetadataStore::in_memory(*keys.metadata_key(), 0, 0);
    let chunker = Chunker::new(&ChunkConfig {
        chunk_size: 4,
        compression_enabled: false,
        compression_threshold: 1024,
        dedup_enabled: true,
    })
    .unwrap();
    assert_eq!(create_file(&mut store, 1, "a", 0, 0, 0o644).unwrap(), 2);
    // Three chunks: "aaaa" is stored, "bbbb" is stored and its row is full,
    // "cccc" is new.
    let first = content_id(b"aaaa");
    let second = content_id(b"bbbb");
    assert!(store.load_chunk_row(&first, ChunkRow { message_id: 11, ref_count: 5 }));
    assert!(store.load_chunk_row(&second, ChunkRow { message_id: 12, ref_count: u32::MAX }));
    let mut write = FileWrite::begin(&store, &chunker, 2, b"aaaabbbbcccc").unwrap();
    assert!(matches!(write.next_upload(&mut store, &keys), Err(Error::Internal(_))));
    // The chunk before the full row is reused, the full row is as it was.
    assert_eq!(store.chunk_row(&first), Some(ChunkRow { message_id: 11, ref_count: 6 }));
    assert_eq!(store.chunk_row(&second), Some(ChunkRow { message_id: 12, ref_count: u32::MAX }));
    assert!(store.get_inode(2).unwrap().manifest.is_none());

    // With room in the row the write goes on to the new chunk.
    assert!(store.load_chunk_row(&second, ChunkRow { message_id: 12, ref_count: u32::MAX - 1 }));
    let mut write = FileWrite::begin(&store, &chunker, 2, b"aaaabbbbccccaaaa").unwrap();
    let upload = write.next_upload(&mut store, &keys).unwrap().unwrap();
    assert_eq!(upload.chunk_id, content_id(b"cccc"));
    assert_eq!(store.chunk_row(&first), Some(ChunkRow { message_id: 11, ref_count: 7 }));
    assert_eq!(store.chunk_row(&second), Some(ChunkRow { message_id: 12, ref_count: u32::MAX }));
    assert_eq!(store.chunk_row(&upload.chunk_id), None);
    write.uploaded(&mut store, 13).unwrap();
    assert_eq!(store.chunk_row(&upload.chunk_id), Some(ChunkRow { message_id: 13, ref_count: 1 }));
    assert!(write.next_upload(&mut store, &keys).unwrap().is_none());
    assert_eq!(store.chunk_row(&first), Some(ChunkRow { message_id: 11, ref_count: 8 }));
    write.finish(&mut store).unwrap();
    let manifest = store.get_inode(2).unwrap().manifest.clone().unwrap();
    let handles: Vec<i32> = manifest.chunks.iter().map(|c| c.message_id).collect();
    assert_eq!(handles, vec![11, 12, 13, 11]);
    assert_eq!(manifest.total_size, 16);
}

#[test]
fn health_counters_have_room() {
    let mut tracker = HealthTracker::new(3, 2);
    assert!(tracker.has_room(0));
    assert!(tracker.has_room(1));
    assert!(tracker.has_room(u32::MAX as usize));
    assert!(!tracker.has_room(u32::MAX as usize + 1));
    tracker.record_failure(1, "down");
    assert!(tracker.has_room(u32::MAX as usize - 1));
    assert!(!tracker.has_room(u32::MAX as usize));
    tracker.record_success(1);
    assert!(tracker.has_room(u32::MAX as usize));
    // A tracker without accounts has room for anything.
    assert!(HealthTracker::new(0, 0).has_room(usize::MAX));
}
