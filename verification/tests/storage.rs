use std::collections::HashMap;
use tgcryptfs::cache::ChunkCache;
use tgcryptfs::chunk::{ChunkManifest, Chunker};
use tgcryptfs::config::{CacheConfig, ChunkConfig, EncryptionConfig, EvictionPolicy};
use tgcryptfs::crypto::{KeyManager, MasterKey, SALT_SIZE};
use tgcryptfs::error::Error;
use tgcryptfs::metadata::MetadataStore;
use tgcryptfs::storage::{
    append_piece, create_directory, create_file, open_chunk, plan_chunk, plan_read, release_chunks, remove_directory,
    remove_file, seal_chunk, truncate, ChunkPlan, FileWrite, ReadPiece,
};
use tgcryptfs::telegram::chunk_file_name;

// A remote store that keeps its documents in memory and counts what it is
// asked to do.
struct Remote {
    documents: HashMap<i32, (String, Vec<u8>)>,
    next_id: i32,
    uploads: usize,
    deletes: usize,
}

impl Remote {
    fn new() -> Remote {
        Remote { documents: HashMap::new(), next_id: 100, uploads: 0, deletes: 0 }
    }

    fn upload(&mut self, name: String, bytes: Vec<u8>) -> i32 {
        self.next_id += 1;
        self.uploads += 1;
        self.documents.insert(self.next_id, (name, bytes));
        self.next_id
    }

    fn download(&self, id: i32) -> Vec<u8> {
        self.documents[&id].1.clone()
    }

    fn delete(&mut self, id: i32) {
        assert!(self.documents.remove(&id).is_some());
        self.deletes += 1;
    }
}

struct Engine {
    store: MetadataStore,
    keys: KeyManager,
    chunker: Chunker,
    cache: ChunkCache,
    remote: Remote,
}

fn engine(chunk_size: usize, compression: bool) -> Engine {
    let config = EncryptionConfig { argon2_memory_kib: 1024, argon2_iterations: 1, argon2_parallelism: 1, salt: Vec::new() };
    let master = MasterKey::from_existing(b"password", &[5u8; SALT_SIZE], &config).unwrap();
    let keys = KeyManager::new(master).unwrap();
    let store = MetadataStore::in_memory(*keys.metadata_key(), 1000, 1000);
    let chunker = Chunker::new(&ChunkConfig {
        chunk_size,
        compression_enabled: compression,
        compression_threshold: 1024,
        dedup_enabled: true,
    })
    .unwrap();
    let cache = ChunkCache::new(&CacheConfig {
        max_size: 64 * 1024 * 1024,
        cache_dir: std::path::PathBuf::from("cache"),
        prefetch_enabled: false,
        prefetch_count: 0,
        eviction_policy: EvictionPolicy::Lru,
    });
    Engine { store, keys, chunker, cache, remote: Remote::new() }
}

impl Engine {
    fn write(&mut self, ino: u64, data: &[u8]) -> Result<(), Error> {
        let mut write = FileWrite::begin(&self.store, &self.chunker, ino, data)?;
        loop {
            match write.next_upload(&mut self.store, &self.keys)? {
                Some(upload) => {
                    let id = self.remote.upload(chunk_file_name(&upload.chunk_id), upload.wire);
                    write.uploaded(&mut self.store, id)?;
                }
                None => break,
            }
        }
        write.finish(&mut self.store)
    }

    fn read(&mut self, ino: u64, offset: u64, size: u32) -> Result<Vec<u8>, Error> {
        let manifest: ChunkManifest = match &self.store.get_inode_required(ino)?.manifest {
            Some(manifest) => manifest.clone(),
            None => return Err(Error::NotAFile(String::new())),
        };
        let mut out: Vec<u8> = Vec::new();
        for piece in plan_read(&manifest, offset, size) {
            let chunk = &manifest.chunks[piece.chunk_index];
            let wire = self.remote.download(chunk.message_id);
            let plaintext = open_chunk(&self.keys, chunk, &wire)?;
            let (_, fits) = self.cache.put(&chunk.id, plaintext.len() as u64);
            assert!(fits.is_ok());
            append_piece(&mut out, &plaintext, &piece)?;
        }
        Ok(out)
    }

    fn unlink(&mut self, parent: u64, name: &str) -> Result<(), Error> {
        for (chunk_id, handle) in remove_file(&mut self.store, parent, name)? {
            self.remote.delete(handle);
            self.cache.remove(&chunk_id);
        }
        Ok(())
    }
}

// Init empty store; create "a.bin" in the root; write 1,000,000 bytes; read
// them back; the size is 1,000,000.
#[test]
fn scenario_write_read() {
    let mut e = engine(256 * 1024, true);
    let ino = create_file(&mut e.store, 1, "a.bin", 1000, 1000, 0o644).unwrap();
    assert_eq!(ino, 2);
    let bytes: Vec<u8> = (0..1_000_000u32).map(|i| (i % 256) as u8).collect();
    e.write(2, &bytes).unwrap();
    assert_eq!(e.read(2, 0, 1_000_000).unwrap(), bytes);
    let inode = e.store.get_inode(2).unwrap();
    assert_eq!(inode.attrs.size, 1_000_000);
    assert_eq!(inode.version, 1);
    let manifest = inode.manifest.as_ref().unwrap();
    assert_eq!(manifest.version, 1);
    assert_eq!(manifest.total_size, 1_000_000);
    assert_eq!(manifest.chunks.len(), 4);
    assert_eq!(manifest.file_hash, e.chunker.file_hash(&bytes));
    let sizes: Vec<u64> = manifest.chunks.iter().map(|c| c.original_size).collect();
    assert_eq!(sizes, vec![262144, 262144, 262144, 1_000_000 - 3 * 262144]);
    let offsets: Vec<u64> = manifest.chunks.iter().map(|c| c.offset).collect();
    assert_eq!(offsets, vec![0, 262144, 524288, 786432]);
    // Ranges.
    assert_eq!(e.read(2, 262_000, 1000).unwrap(), &bytes[262_000..263_000]);
    assert_eq!(e.read(2, 999_990, 100).unwrap(), &bytes[999_990..]);
    assert_eq!(e.read(2, 1_000_000, 10).unwrap(), Vec::<u8>::new());
    assert_eq!(e.read(2, 5_000_000, 10).unwrap(), Vec::<u8>::new());
    assert_eq!(e.read(2, 0, 0).unwrap(), Vec::<u8>::new());
    // What went to the remote store is not the plaintext.
    for (name, wire) in e.remote.documents.values() {
        assert!(name.starts_with("chunk_"));
        assert_eq!(name.len(), 6 + 64);
        assert!(!wire.windows(64).any(|w| w == &bytes[..64]));
    }
}

// Writing the same content to two files uploads it once; the chunk has one
// row with two references.
#[test]
fn scenario_dedup_and_unlink() {
    let size: usize = 50 * 1024 * 1024;
    let mut e = engine(size, true);
    let x = vec![0u8; size];
    assert_eq!(create_file(&mut e.store, 1, "a.bin", 0, 0, 0o644).unwrap(), 2);
    e.write(2, &x).unwrap();
    assert_eq!(create_file(&mut e.store, 1, "b.bin", 0, 0, 0o644).unwrap(), 3);
    e.write(3, &x).unwrap();
    assert_eq!(e.remote.uploads, 1);
    assert_eq!(e.remote.documents.len(), 1);
    assert_eq!(e.store.get_stats().chunk_count, 1);
    let id = e.store.get_inode(2).unwrap().manifest.as_ref().unwrap().chunks[0].id.clone();
    assert_eq!(e.store.get_inode(3).unwrap().manifest.as_ref().unwrap().chunks[0].id, id);
    assert_eq!(e.store.chunk_ref_count(&id), 2);
    assert_eq!(plan_chunk(&e.store, &id), ChunkPlan::Reuse(101));

    // Unlink: the chunk stays while it is referenced.
    e.unlink(1, "a.bin").unwrap();
    assert_eq!(e.store.chunk_ref_count(&id), 1);
    assert_eq!(e.remote.deletes, 0);
    assert!(e.store.get_inode(2).is_none());
    assert!(e.store.lookup(1, "a.bin").is_none());
    e.unlink(1, "b.bin").unwrap();
    assert_eq!(e.store.chunk_ref_count(&id), 0);
    assert_eq!(e.store.get_stats().chunk_count, 0);
    assert_eq!(e.remote.deletes, 1);
    assert!(e.remote.documents.is_empty());
    assert!(!e.cache.contains(&id));
    assert_eq!(plan_chunk(&e.store, &id), ChunkPlan::Upload);
    assert!(e.store.get_inode(1).unwrap().children.is_empty());
}

// A file of equal chunks refers to its chunk once per occurrence.
#[test]
fn repeated_chunks_within_a_file() {
    let mut e = engine(1000, false);
    create_file(&mut e.store, 1, "z", 0, 0, 0o644).unwrap();
    e.write(2, &vec![7u8; 3500]).unwrap();
    assert_eq!(e.remote.uploads, 2);
    let manifest = e.store.get_inode(2).unwrap().manifest.clone().unwrap();
    assert_eq!(manifest.chunks.len(), 4);
    assert_eq!(e.store.chunk_ref_count(&manifest.chunks[0].id), 3);
    assert_eq!(e.store.chunk_ref_count(&manifest.chunks[3].id), 1);
    assert_eq!(manifest.chunks[1].message_id, manifest.chunks[0].message_id);
    assert_eq!(manifest.chunks[0].size, 1000 + 12 + 16);
    assert_eq!(e.read(2, 0, 3500).unwrap(), vec![7u8; 3500]);
    let orphans = release_chunks(&mut e.store, &manifest);
    let ids: Vec<&str> = orphans.iter().map(|o| o.0.as_str()).collect();
    assert_eq!(ids, vec![manifest.chunks[0].id.as_str(), manifest.chunks[3].id.as_str()]);
    assert_eq!(orphans[0].1, manifest.chunks[0].message_id);
    assert_eq!(e.store.get_stats().chunk_count, 0);
}

// A payload that was altered on the way fails to decrypt; nothing of it is
// handed out.
#[test]
fn scenario_tamper() {
    let mut e = engine(4096, false);
    create_file(&mut e.store, 1, "a.bin", 0, 0, 0o644).unwrap();
    let bytes: Vec<u8> = (0..10_000u32).map(|i| (i % 251) as u8).collect();
    e.write(2, &bytes).unwrap();
    let handle = e.store.get_inode(2).unwrap().manifest.as_ref().unwrap().chunks[1].message_id;
    e.remote.documents.get_mut(&handle).unwrap().1[30] ^= 0x01;
    assert!(matches!(e.read(2, 0, 10_000), Err(Error::Decryption(_))));
    assert!(matches!(e.read(2, 5000, 10), Err(Error::Decryption(_))));
    // The first chunk is intact.
    assert_eq!(e.read(2, 0, 4096).unwrap(), &bytes[..4096]);
}

#[test]
fn chunks_are_bound_to_their_id_and_key() {
    let e = engine(4096, false);
    let wire = seal_chunk(&e.keys, "some-id", b"stored bytes").unwrap();
    assert_eq!(wire.len(), 12 + 12 + 16);
    let entry = |id: &str, original_size: u64| tgcryptfs::chunk::ChunkRef {
        id: id.to_string(),
        size: 40,
        message_id: 1,
        offset: 0,
        original_size,
        compressed: false,
    };
    // The id is additional authenticated data and selects the key.
    assert!(matches!(open_chunk(&e.keys, &entry("other-id", 12), &wire), Err(Error::Decryption(_))));
    // The id must be the hash of what was stored.
    assert!(matches!(
        open_chunk(&e.keys, &entry("some-id", 12), &wire),
        Err(Error::ChunkVerificationFailed { .. })
    ));
    let id = tgcryptfs::chunk::chunker::content_id(b"stored bytes");
    let wire = seal_chunk(&e.keys, &id, b"stored bytes").unwrap();
    assert_eq!(open_chunk(&e.keys, &entry(&id, 12), &wire).unwrap(), b"stored bytes");
    assert!(matches!(open_chunk(&e.keys, &entry(&id, 13), &wire), Err(Error::Deserialization(_))));
    let mut compressed = entry(&id, 12);
    compressed.compressed = true;
    assert!(matches!(open_chunk(&e.keys, &compressed, &wire), Err(Error::Deserialization(_))));
}

#[test]
fn write_errors() {
    let mut e = engine(4096, false);
    assert!(matches!(e.write(9, b"x"), Err(Error::InodeNotFound(9))));
    assert!(matches!(e.write(1, b"x"), Err(Error::NotAFile(_))));
    assert!(matches!(e.read(1, 0, 1), Err(Error::NotAFile(_))));
    assert!(matches!(truncate(&mut e.store, 1), Err(Error::NotAFile(_))));
    assert!(matches!(truncate(&mut e.store, 9), Err(Error::InodeNotFound(9))));
}

#[test]
fn rewrite_and_truncate_bump_the_version() {
    let mut e = engine(4096, false);
    create_file(&mut e.store, 1, "f", 0, 0, 0o644).unwrap();
    e.write(2, b"first").unwrap();
    e.write(2, b"second content").unwrap();
    assert_eq!(e.read(2, 0, 100).unwrap(), b"second content");
    assert_eq!(e.store.get_inode(2).unwrap().version, 2);
    assert_eq!(e.store.get_inode(2).unwrap().manifest.as_ref().unwrap().version, 2);
    truncate(&mut e.store, 2).unwrap();
    let inode = e.store.get_inode(2).unwrap();
    assert_eq!(inode.attrs.size, 0);
    assert_eq!(inode.version, 3);
    assert_eq!(inode.manifest.as_ref().unwrap().version, 3);
    assert!(inode.manifest.as_ref().unwrap().chunks.is_empty());
    assert_eq!(e.read(2, 0, 100).unwrap(), Vec::<u8>::new());
    e.write(2, b"").unwrap();
    assert_eq!(e.store.get_inode(2).unwrap().version, 4);
}

#[test]
fn namespace_operations() {
    let mut e = engine(4096, false);
    let dir = create_directory(&mut e.store, 1, "dir", 1, 2, 0o750).unwrap();
    assert_eq!(dir, 2);
    assert_eq!(e.store.get_inode(1).unwrap().attrs.nlink, 3);
    assert_eq!(e.store.get_inode(1).unwrap().children, vec![2]);
    let file = create_file(&mut e.store, dir, "f", 1, 2, 0o640).unwrap();
    assert_eq!(file, 3);
    assert_eq!(e.store.lookup(dir, "f").unwrap().ino, 3);
    assert_eq!(e.store.get_inode(3).unwrap().attrs.perm, 0o640);
    assert!(matches!(create_file(&mut e.store, dir, "f", 0, 0, 0), Err(Error::AlreadyExists(_))));
    assert!(matches!(create_file(&mut e.store, file, "g", 0, 0, 0), Err(Error::NotADirectory(_))));
    assert!(matches!(create_file(&mut e.store, 77, "g", 0, 0, 0), Err(Error::InodeNotFound(77))));
    assert!(matches!(create_directory(&mut e.store, 1, "dir", 0, 0, 0), Err(Error::AlreadyExists(_))));
    assert!(matches!(remove_directory(&mut e.store, 1, "dir"), Err(Error::DirectoryNotEmpty(_))));
    assert!(matches!(remove_directory(&mut e.store, dir, "f"), Err(Error::NotADirectory(_))));
    assert!(matches!(remove_directory(&mut e.store, 1, "nope"), Err(Error::PathNotFound(_))));
    assert!(matches!(remove_file(&mut e.store, 1, "dir"), Err(Error::NotAFile(_))));
    assert!(matches!(remove_file(&mut e.store, 1, "nope"), Err(Error::PathNotFound(_))));
    assert!(matches!(remove_file(&mut e.store, 55, "f"), Err(Error::InodeNotFound(55))));
    assert!(remove_file(&mut e.store, dir, "f").unwrap().is_empty());
    assert!(e.store.get_inode(dir).unwrap().children.is_empty());
    remove_directory(&mut e.store, 1, "dir").unwrap();
    assert!(e.store.get_inode(dir).is_none());
    assert_eq!(e.store.get_inode(1).unwrap().attrs.nlink, 2);
    assert!(e.store.get_inode(1).unwrap().children.is_empty());
    // Inode numbers are not handed out again.
    assert_eq!(create_file(&mut e.store, 1, "dir", 0, 0, 0).unwrap(), 4);
}

#[test]
fn read_plan_takes_a_piece_of_every_chunk_it_touches() {
    let mut manifest = ChunkManifest::new(1);
    let sizes: [u64; 4] = [10, 0, 5, 7];
    let mut offset: u64 = 0;
    for (i, size) in sizes.iter().enumerate() {
        manifest.chunks.push(tgcryptfs::chunk::ChunkRef {
            id: format!("c{}", i),
            size: *size + 28,
            message_id: i as i32,
            offset,
            original_size: *size,
            compressed: false,
        });
        offset += *size;
    }
    manifest.total_size = 22;
    let piece = |chunk_index: usize, start: u64, end: u64| ReadPiece { chunk_index, start, end };
    // The empty chunk lies inside the range and gives an empty piece.
    let whole = vec![piece(0, 0, 10), piece(1, 0, 0), piece(2, 0, 5), piece(3, 0, 7)];
    assert_eq!(plan_read(&manifest, 0, 100), whole);
    assert_eq!(plan_read(&manifest, 0, 22), whole);
    assert_eq!(plan_read(&manifest, 3, 4), vec![piece(0, 3, 7)]);
    assert_eq!(plan_read(&manifest, 9, 2), vec![piece(0, 9, 10), piece(1, 0, 0), piece(2, 0, 1)]);
    assert_eq!(plan_read(&manifest, 10, 5), vec![piece(2, 0, 5)]);
    assert_eq!(plan_read(&manifest, 14, 3), vec![piece(2, 4, 5), piece(3, 0, 2)]);
    assert_eq!(plan_read(&manifest, 21, u32::MAX), vec![piece(3, 6, 7)]);
    assert!(plan_read(&manifest, 22, 1).is_empty());
    assert_eq!(plan_read(&manifest, 5, 0), vec![piece(0, 5, 5)]);
    let mut out = vec![1u8];
    append_piece(&mut out, b"abcdef", &piece(0, 2, 4)).unwrap();
    assert_eq!(out, vec![1, b'c', b'd']);
    assert!(matches!(append_piece(&mut out, b"abc", &piece(0, 2, 4)), Err(Error::Deserialization(_))));
    assert_eq!(out, vec![1, b'c', b'd']);
}
