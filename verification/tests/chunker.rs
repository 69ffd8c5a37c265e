use tgcryptfs::chunk::chunker::{content_id, verify_chunk};
use tgcryptfs::chunk::compression::{compress_if_worthwhile, pick_stored_form, restore};
use tgcryptfs::chunk::{compress, compress_or_original, decompress, BlockLocation, ChunkManifest, ChunkRef, Chunker, ErasureChunkManifest, StripeInfo};
use tgcryptfs::config::ChunkConfig;
use tgcryptfs::error::Error;

fn chunker(size: usize, compression: bool) -> Chunker {
    Chunker::new(&ChunkConfig {
        chunk_size: size,
        compression_enabled: compression,
        compression_threshold: 1024,
        dedup_enabled: true,
    })
    .unwrap()
}

#[test]
fn chunks_concatenate_to_the_data() {
    let data: Vec<u8> = (0..10_000u32).map(|i| (i * 7 % 256) as u8).collect();
    for size in [1usize, 2, 3, 999, 1000, 1001, 4096, 9999, 10_000, 10_001, 50_000] {
        let chunks = chunker(size, false).chunk_data(&data);
        assert_eq!(chunks.len(), (data.len() + size - 1) / size);
        let mut joined: Vec<u8> = Vec::new();
        let mut offset: u64 = 0;
        for chunk in &chunks {
            assert_eq!(chunk.info.offset, offset);
            assert_eq!(chunk.info.size, chunk.data.len() as u64);
            assert!(chunk.data.len() <= size);
            assert!(!chunk.data.is_empty());
            assert_eq!(chunk.info.id, content_id(chunk.stored_bytes()));
            assert!(!chunk.info.compressed);
            assert_eq!(chunk.stored_bytes(), chunk.data.as_slice());
            offset += chunk.data.len() as u64;
            joined.extend_from_slice(&chunk.data);
        }
        assert_eq!(joined, data);
    }
    assert!(chunker(10, true).chunk_data(b"").is_empty());
}

#[test]
fn chunk_id_is_the_hash_of_the_stored_bytes() {
    // Compressible data: the id is the hash of the compressed form.
    let data = vec![0u8; 8192];
    let chunks = chunker(4096, true).chunk_data(&data);
    assert_eq!(chunks.len(), 2);
    for chunk in &chunks {
        assert!(chunk.info.compressed);
        assert!(chunk.stored_bytes().len() < chunk.data.len());
        assert_eq!(chunk.info.id, content_id(chunk.stored_bytes()));
        assert_ne!(chunk.info.id, content_id(&chunk.data));
        assert_eq!(decompress(chunk.stored_bytes()).unwrap(), chunk.data);
        assert_eq!(chunk.info.size, 4096);
    }
    // Equal content, equal id.
    assert_eq!(chunks[0].info.id, chunks[1].info.id);
    assert_ne!(chunks[0].info.offset, chunks[1].info.offset);
}

#[test]
fn content_id_is_blake3_in_lowercase_hex() {
    assert_eq!(content_id(b""), "af1349b9f5f9a1a6a0404dea36dcc9499bcb25c9adc112b7cc9a93cae41f3262");
    assert_eq!(content_id(b"abc"), "6437b3ac38465133ffb63b75273a8db548c558465d79db03fd359c6cd5bd9d85");
    assert_eq!(content_id(b"abc").len(), 64);
    assert_eq!(chunker(10, false).file_hash(b"abc"), content_id(b"abc"));
    assert!(verify_chunk(&content_id(b"abc"), b"abc").is_ok());
    match verify_chunk("00", b"abc") {
        Err(Error::ChunkVerificationFailed { expected, got }) => {
            assert_eq!(expected, "00");
            assert_eq!(got, content_id(b"abc"));
        }
        other => panic!("expected ChunkVerificationFailed, got {:?}", other),
    }
}

#[test]
fn chunk_size_must_be_within_bounds() {
    let mut config = ChunkConfig::default();
    assert_eq!(config.chunk_size, 50 * 1024 * 1024);
    assert_eq!(config.compression_threshold, 1024);
    assert!(Chunker::new(&config).is_ok());
    config.chunk_size = 0;
    assert!(matches!(Chunker::new(&config), Err(Error::InvalidChunkSize(0))));
    config.chunk_size = 2 * 1024 * 1024 * 1024;
    assert!(Chunker::new(&config).is_ok());
    config.chunk_size = 2 * 1024 * 1024 * 1024 + 1;
    assert!(matches!(Chunker::new(&config), Err(Error::InvalidChunkSize(_))));
}

#[test]
fn compression_is_used_where_worthwhile() {
    // Long and compressible.
    let zeros = vec![0u8; 4096];
    let (stored, compressed) = compress_or_original(&zeros, 1024);
    assert!(compressed);
    assert!(stored.len() < zeros.len());
    assert_eq!(stored, compress(&zeros));
    assert_eq!(restore(stored, true).unwrap(), zeros);
    // Compressible but below the threshold.
    let (stored, compressed) = compress_or_original(&zeros[..1000], 1024);
    assert!(!compressed);
    assert_eq!(stored, &zeros[..1000]);
    assert_eq!(restore(stored, false).unwrap(), &zeros[..1000]);
    // At the threshold.
    let (_, compressed) = compress_or_original(&zeros[..1024], 1024);
    assert!(compressed);
    // Long but not compressible.
    let mut noise = vec![0u8; 4096];
    rand::RngCore::fill_bytes(&mut rand::thread_rng(), &mut noise);
    let candidate = compress(&noise);
    assert!(candidate.len() >= noise.len());
    let (stored, compressed) = compress_or_original(&noise, 1024);
    assert!(!compressed);
    assert_eq!(stored, noise);
    assert!(compress_if_worthwhile(&noise, 0).is_none());
    // The choice itself.
    assert_eq!(pick_stored_form(b"abcd", vec![1, 2, 3], 4), Some(vec![1, 2, 3]));
    assert_eq!(pick_stored_form(b"abcd", vec![1, 2, 3], 5), None);
    assert_eq!(pick_stored_form(b"abcd", vec![1, 2, 3, 4], 0), None);
    assert!(matches!(decompress(&[1, 2]), Err(Error::Deserialization(_))));
}

fn entry(id: &str, offset: u64, original_size: u64, size: u64) -> ChunkRef {
    ChunkRef { id: id.to_string(), size, message_id: 1, offset, original_size, compressed: false }
}

#[test]
fn manifest_finds_the_chunk_at_an_offset() {
    let mut manifest = ChunkManifest::new(3);
    assert_eq!(manifest.version, 3);
    assert_eq!(manifest.chunk_count(), 0);
    assert_eq!(manifest.stored_size(), 0);
    assert!(manifest.chunk_at_offset(0).is_none());
    manifest.chunks.push(entry("a", 0, 10, 38));
    manifest.chunks.push(entry("b", 10, 0, 28));
    manifest.chunks.push(entry("c", 10, 5, 33));
    manifest.total_size = 15;
    assert_eq!(manifest.chunk_count(), 3);
    assert_eq!(manifest.stored_size(), 99);
    assert_eq!(manifest.chunk_at_offset(0).unwrap().0, 0);
    assert_eq!(manifest.chunk_at_offset(9).unwrap().0, 0);
    let (index, chunk) = manifest.chunk_at_offset(10).unwrap();
    assert_eq!(index, 2);
    assert_eq!(chunk.id, "c");
    assert_eq!(manifest.chunk_at_offset(14).unwrap().0, 2);
    assert!(manifest.chunk_at_offset(15).is_none());
    assert!(manifest.chunk_at_offset(u64::MAX).is_none());
}

#[test]
fn stripe_info_counts_uploaded_blocks() {
    let mut info = StripeInfo::new(2, 1, 64);
    assert_eq!(info.total_blocks(), 3);
    assert_eq!(info.available_blocks(), 0);
    assert!(!info.can_reconstruct());
    for i in 0..3u8 {
        info.blocks.push(BlockLocation {
            account_id: i,
            message_id: if i == 1 { None } else { Some(10 + i as i32) },
            block_index: i,
            uploaded_at: None,
        });
    }
    assert_eq!(info.available_blocks(), 2);
    assert!(info.can_reconstruct());
    assert_eq!(info.missing_blocks(), vec![1]);
    let manifest = ErasureChunkManifest::new(4, 2, 3);
    assert_eq!((manifest.version, manifest.data_chunks, manifest.total_chunks), (4, 2, 3));
    assert!(manifest.chunks.is_empty());
    assert_eq!(manifest.total_size, 0);
}
