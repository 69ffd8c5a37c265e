use rand::RngCore;
use tgcryptfs::crypto::KEY_SIZE;
use tgcryptfs::error::Error;
use tgcryptfs::metadata::store::{
    decode_chunk_row, encode_chunk_row, ino_from_bytes, inode_key, max_ino, open_value, parent_name_key, seal_value,
    tree_name, ChunkRow,
};
use tgcryptfs::metadata::{FileType, Inode, MetadataStore};

fn test_key() -> [u8; KEY_SIZE] {
    let mut key = [0u8; KEY_SIZE];
    rand::thread_rng().fill_bytes(&mut key);
    key
}

#[test]
fn store_test_create_store() {
    let key = test_key();
    let store = MetadataStore::in_memory(key, 1000, 1000);

    // Root should exist
    let root = store.get_inode(1).unwrap();
    assert!(root.is_dir());
}

#[test]
fn test_save_and_get_inode() {
    let key = test_key();
    let mut store = MetadataStore::in_memory(key, 1000, 1000);

    let file = Inode::new_file(2, 1, "test.txt".to_string(), 1000, 1000, 0o644);
    store.save_inode(file);

    let retrieved = store.get_inode(2).unwrap();
    assert_eq!(retrieved.name, "test.txt");
    assert!(retrieved.is_file());
}

#[test]
fn test_lookup() {
    let key = test_key();
    let mut store = MetadataStore::in_memory(key, 1000, 1000);

    let file = Inode::new_file(2, 1, "test.txt".to_string(), 1000, 1000, 0o644);
    store.save_inode(file);

    let found = store.lookup(1, "test.txt").unwrap();
    assert_eq!(found.ino, 2);

    let not_found = store.lookup(1, "nonexistent");
    assert!(not_found.is_none());
}

#[test]
fn test_get_children() {
    let key = test_key();
    let mut store = MetadataStore::in_memory(key, 1000, 1000);

    // Create files in root
    for i in 2..5 {
        let file = Inode::new_file(i, 1, format!("file{}.txt", i), 1000, 1000, 0o644);
        store.save_inode(file);
    }

    let children = store.get_children(1);
    assert_eq!(children.len(), 3);
}

#[test]
fn test_delete_inode() {
    let key = test_key();
    let mut store = MetadataStore::in_memory(key, 1000, 1000);

    let file = Inode::new_file(2, 1, "test.txt".to_string(), 1000, 1000, 0o644);
    store.save_inode(file);

    store.delete_inode(2);

    let result = store.get_inode(2);
    assert!(result.is_none());
}

#[test]
fn test_chunk_refs() {
    let key = test_key();
    let mut store = MetadataStore::in_memory(key, 1000, 1000);

    store.save_chunk_ref("chunk1", 100).unwrap();
    store.save_chunk_ref("chunk1", 100).unwrap(); // Add reference

    assert_eq!(store.get_chunk_ref("chunk1"), Some(100));

    // First decrement shouldn't delete
    assert!(store.decrement_chunk_ref("chunk1").is_none());

    // Second decrement should return message_id for deletion
    assert_eq!(store.decrement_chunk_ref("chunk1"), Some(100));

    // Should be gone now
    assert!(store.get_chunk_ref("chunk1").is_none());
}

#[test]
fn test_metadata() {
    let key = test_key();
    let mut store = MetadataStore::in_memory(key, 1000, 1000);

    store.save_metadata("test_key", b"test_value").unwrap();

    let value = store.get_metadata("test_key").unwrap().unwrap();
    assert_eq!(value, b"test_value");
}

#[test]
fn store_root_and_inode_numbers() {
    let mut store = MetadataStore::in_memory(test_key(), 7, 8);
    let root = store.get_inode(1).unwrap();
    assert_eq!(root.ino, 1);
    assert_eq!(root.parent, 1);
    assert_eq!(root.attrs.uid, 7);
    assert_eq!(root.attrs.gid, 8);
    assert_eq!(root.attrs.perm, 0o755);
    assert_eq!(root.attrs.kind, FileType::Directory);
    // The root is not its own child.
    assert!(store.get_children(1).is_empty());
    assert_eq!(store.alloc_ino(), 2);
    assert_eq!(store.alloc_ino(), 3);
    assert_eq!(store.alloc_ino(), 4);
    assert!(matches!(store.get_inode_required(9), Err(Error::InodeNotFound(9))));
    assert!(store.get_inode_required(1).is_ok());
    let stats = store.get_stats();
    assert_eq!(stats.inode_count, 1);
    assert_eq!(stats.chunk_count, 0);
    assert!(!store.is_namespaced());
    assert_eq!(store.namespace_prefix(), None);
}

#[test]
fn store_children_are_those_that_name_the_parent() {
    let mut store = MetadataStore::in_memory(test_key(), 0, 0);
    store.save_inode(Inode::new_directory(2, 1, "dir".to_string(), 0, 0, 0o755));
    store.save_inode(Inode::new_file(3, 2, "a".to_string(), 0, 0, 0o644));
    store.save_inode(Inode::new_file(4, 2, "b".to_string(), 0, 0, 0o644));
    store.save_inode(Inode::new_file(5, 1, "c".to_string(), 0, 0, 0o644));
    let in_dir: Vec<u64> = store.get_children(2).iter().map(|i| i.ino).collect();
    assert_eq!(in_dir, vec![3, 4]);
    let in_root: Vec<u64> = store.get_children(1).iter().map(|i| i.ino).collect();
    assert_eq!(in_root, vec![2, 5]);
    store.delete_inode(3);
    assert!(store.lookup(2, "a").is_none());
    let in_dir: Vec<u64> = store.get_children(2).iter().map(|i| i.ino).collect();
    assert_eq!(in_dir, vec![4]);
    assert!(store.has_inode(4));
    assert!(!store.has_inode(3));
}

#[test]
fn store_refcount_rows() {
    let mut store = MetadataStore::in_memory(test_key(), 0, 0);
    assert_eq!(store.chunk_ref_count("x"), 0);
    assert_eq!(store.decrement_chunk_ref("x"), None);
    store.save_chunk_ref("x", 11).unwrap();
    store.save_chunk_ref("y", 22).unwrap();
    store.save_chunk_ref("x", 12).unwrap();
    store.save_chunk_ref("x", 13).unwrap();
    assert_eq!(store.chunk_ref_count("x"), 3);
    // The row names the handle that was saved last.
    assert_eq!(store.get_chunk_ref("x"), Some(13));
    assert_eq!(store.get_stats().chunk_count, 2);
    assert_eq!(store.decrement_chunk_ref("x"), None);
    assert_eq!(store.decrement_chunk_ref("x"), None);
    assert_eq!(store.chunk_ref_count("x"), 1);
    assert_eq!(store.decrement_chunk_ref("x"), Some(13));
    assert_eq!(store.decrement_chunk_ref("x"), None);
    assert_eq!(store.get_chunk_ref("y"), Some(22));
    assert_eq!(store.get_stats().chunk_count, 1);
}

#[test]
fn store_metadata_values_are_sealed() {
    let key = test_key();
    let mut store = MetadataStore::in_memory(key, 0, 0);
    assert!(store.get_metadata("missing").unwrap().is_none());
    store.save_metadata("k", b"one").unwrap();
    store.save_metadata("k", b"two").unwrap();
    assert_eq!(store.get_metadata("k").unwrap().unwrap(), b"two");
    let sealed = seal_value(&key, b"value").unwrap();
    assert_eq!(sealed.len(), 12 + 5 + 16);
    assert_ne!(&sealed[12..17], b"value");
    assert_eq!(open_value(&key, &sealed).unwrap(), b"value");
    let mut tampered = sealed.clone();
    tampered[20] ^= 1;
    assert!(matches!(open_value(&key, &tampered), Err(Error::Decryption(_))));
    assert!(matches!(open_value(&key, &sealed[..20]), Err(Error::Decryption(_))));
    assert!(matches!(open_value(&test_key(), &sealed), Err(Error::Decryption(_))));
}

#[test]
fn store_key_schema() {
    assert_eq!(inode_key(1), [0, 0, 0, 0, 0, 0, 0, 1]);
    assert_eq!(inode_key(0x0102030405060708), [1, 2, 3, 4, 5, 6, 7, 8]);
    assert_eq!(parent_name_key(258, "ab"), vec![0, 0, 0, 0, 0, 0, 1, 2, b'a', b'b']);
    assert_eq!(ino_from_bytes(&[0, 0, 0, 0, 0, 0, 1, 2, 9, 9]), Some(258));
    assert_eq!(ino_from_bytes(&[0, 0, 0, 0, 0, 0, 1]), None);
    assert_eq!(ino_from_bytes(&inode_key(u64::MAX)), Some(u64::MAX));
    let keys = vec![inode_key(5).to_vec(), vec![1, 2, 3], inode_key(9).to_vec(), inode_key(7).to_vec()];
    assert_eq!(max_ino(&keys), 9);
    assert_eq!(max_ino(&Vec::new()), 0);
    assert_eq!(tree_name(None, "inodes"), "inodes");
    assert_eq!(tree_name(Some("ns1"), "parent_index"), "ns1:parent_index");
    assert_eq!(tree_name(Some(""), "chunks"), ":chunks");
}

#[test]
fn store_chunk_row_layout() {
    let row = ChunkRow { message_id: 0x01020304, ref_count: 5 };
    assert_eq!(encode_chunk_row(row), vec![1, 2, 3, 4, 0, 0, 0, 5]);
    assert_eq!(decode_chunk_row(&[1, 2, 3, 4, 0, 0, 0, 5]), Some(row));
    assert_eq!(decode_chunk_row(&[1, 2, 3, 4, 0, 0, 0]), None);
    let negative = ChunkRow { message_id: -2, ref_count: u32::MAX };
    assert_eq!(encode_chunk_row(negative), vec![0xff, 0xff, 0xff, 0xfe, 0xff, 0xff, 0xff, 0xff]);
    assert_eq!(decode_chunk_row(&encode_chunk_row(negative)), Some(negative));
    let smallest = ChunkRow { message_id: i32::MIN, ref_count: 0 };
    assert_eq!(decode_chunk_row(&encode_chunk_row(smallest)), Some(smallest));
}

#[test]
fn store_opens_over_persisted_inodes() {
    let persisted = vec![
        Inode::root(0, 0, 0o755),
        Inode::new_file(7, 1, "old".to_string(), 0, 0, 0o600),
        Inode::new_file(7, 1, "new".to_string(), 0, 0, 0o600),
        Inode::new_file(4, 1, "four".to_string(), 0, 0, 0o600),
    ];
    let mut store = MetadataStore::open_with_namespace(test_key(), Some("ns".to_string()), persisted, 7, 0, 0);
    assert_eq!(store.get_inode(7).unwrap().name, "new");
    assert_eq!(store.get_inode(4).unwrap().name, "four");
    assert_eq!(store.alloc_ino(), 8);
    assert!(store.is_namespaced());
    assert_eq!(store.namespace_prefix(), Some("ns"));
    // Nothing persisted: the root is created.
    let mut fresh = MetadataStore::open_with_namespace(test_key(), None, Vec::new(), 0, 3, 4);
    assert_eq!(fresh.get_inode(1).unwrap().attrs.uid, 3);
    assert_eq!(fresh.alloc_ino(), 2);
}

#[test]
fn inode_children_and_versions() {
    let mut dir = Inode::new_directory(2, 1, "d".to_string(), 0, 0, 0o755);
    assert_eq!(dir.attrs.nlink, 2);
    dir.add_child(5);
    dir.add_child(6);
    dir.add_child(5);
    assert_eq!(dir.children, vec![5, 6]);
    dir.remove_child(5);
    dir.remove_child(9);
    assert_eq!(dir.children, vec![6]);
    let mut file = Inode::new_file(3, 2, "f".to_string(), 1, 2, 0o640);
    assert_eq!(file.attrs.nlink, 1);
    assert_eq!(file.version, 0);
    file.set_size(10);
    file.bump_version();
    assert_eq!((file.attrs.size, file.version), (10, 1));
    let link = Inode::new_symlink(4, 2, "l".to_string(), "target".to_string(), 0, 0);
    assert!(link.is_symlink());
    assert_eq!(link.symlink_target, Some("target".to_string()));
    assert!(!link.is_file() && !link.is_dir());
}
