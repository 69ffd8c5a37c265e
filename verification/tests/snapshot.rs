use rand::RngCore;
use tgcryptfs::crypto::KEY_SIZE;
use tgcryptfs::error::Error;
use tgcryptfs::metadata::{Inode, MetadataStore};
use tgcryptfs::snapshot::codec::{decode_snapshots, encode_snapshots};
use tgcryptfs::snapshot::snapshot::reachable_inodes;
use tgcryptfs::snapshot::{Snapshot, SnapshotManager};

fn test_key() -> [u8; KEY_SIZE] {
    let mut key = [0u8; KEY_SIZE];
    rand::thread_rng().fill_bytes(&mut key);
    key
}

fn test_inode(ino: u64, name: &str) -> Inode {
    Inode::new_file(ino, 1, name.to_string(), 1000, 1000, 0o644)
}

/// A store with a root, a directory below it, two files and an inode that
/// no path leads to.
fn small_tree(key: [u8; KEY_SIZE]) -> MetadataStore {
    let mut store = MetadataStore::in_memory(key, 0, 0);
    let mut root = Inode::root(0, 0, 0o755);
    root.add_child(2);
    root.add_child(3);
    root.add_child(99);
    store.save_inode(root);
    let mut dir = Inode::new_directory(2, 1, "d".to_string(), 0, 0, 0o755);
    dir.add_child(4);
    dir.add_child(3);
    store.save_inode(dir);
    store.save_inode(Inode::new_file(3, 1, "f".to_string(), 0, 0, 0o644));
    store.save_inode(Inode::new_file(4, 2, "g".to_string(), 0, 0, 0o644));
    store.save_inode(Inode::new_file(5, 7, "orphan".to_string(), 0, 0, 0o644));
    store
}

#[test]
fn test_snapshot_creation() {
    let mut snapshot = Snapshot::new("test".to_string(), Some("Test snapshot".to_string()));

    snapshot.add_inode(&test_inode(1, "file1.txt")).unwrap();
    snapshot.add_inode(&test_inode(2, "file2.txt")).unwrap();

    assert_eq!(snapshot.inode_count(), 2);
    assert!(snapshot.get_inode(1).unwrap().is_some());
    assert!(snapshot.get_inode(99).unwrap().is_none());
}

#[test]
fn test_snapshot_serialization() {
    let mut snapshot = Snapshot::new("test".to_string(), None);
    snapshot.add_inode(&test_inode(1, "file.txt")).unwrap();

    let serialized = snapshot.serialize().unwrap();
    let restored = Snapshot::deserialize(&serialized).unwrap();

    assert_eq!(restored.id, snapshot.id);
    assert_eq!(restored.name, snapshot.name);
    assert_eq!(restored.inode_count(), 1);
}

#[test]
fn test_snapshot_manager() {
    let key = test_key();
    let mut manager = SnapshotManager::new(key, 3);

    manager
        .create_snapshot("snap1".to_string(), None, || Ok(vec![test_inode(1, "file1.txt")]))
        .unwrap();

    manager
        .create_snapshot("snap2".to_string(), None, || {
            Ok(vec![test_inode(1, "file1.txt"), test_inode(2, "file2.txt")])
        })
        .unwrap();

    assert_eq!(manager.list().len(), 2);
    assert!(manager.get_by_name("snap1").is_some());
    assert!(manager.get_by_name("snap2").is_some());
}

#[test]
fn test_snapshot_limit() {
    let key = test_key();
    let mut manager = SnapshotManager::new(key, 2);

    for i in 1..=3 {
        manager.create_snapshot(format!("snap{}", i), None, || Ok(vec![])).unwrap();
    }

    // Should only have 2 snapshots
    assert_eq!(manager.list().len(), 2);
    // Oldest should be removed
    assert!(manager.get_by_name("snap1").is_none());
    assert!(manager.get_by_name("snap2").is_some());
    assert!(manager.get_by_name("snap3").is_some());
}

#[test]
fn test_export_import() {
    let key = test_key();
    let mut manager = SnapshotManager::new(key, 10);

    manager
        .create_snapshot("test".to_string(), None, || Ok(vec![test_inode(1, "file.txt")]))
        .unwrap();

    let exported = manager.export().unwrap();

    let mut manager2 = SnapshotManager::new(key, 10);
    manager2.import(&exported).unwrap();

    assert_eq!(manager2.list().len(), 1);
    assert_eq!(manager2.list()[0].name, "test");
}

#[test]
fn snapshot_ids_and_lookup() {
    let mut manager = SnapshotManager::new(test_key(), 0);
    let first = manager
        .create_snapshot("a".to_string(), Some("d".to_string()), || {
            Ok(vec![test_inode(1, "old"), test_inode(1, "new")])
        })
        .unwrap()
        .id
        .clone();
    let second = manager.create_snapshot("b".to_string(), None, || Ok(vec![])).unwrap().id.clone();
    assert_ne!(first, second);
    assert_eq!(first.len(), 36);
    // Where a number occurs twice the last one counts.
    assert_eq!(manager.get(&first).unwrap().inode_count(), 1);
    assert_eq!(manager.get(&first).unwrap().get_inode(1).unwrap().unwrap().name, "new");
    assert_eq!(manager.get(&first).unwrap().description, Some("d".to_string()));
    assert_eq!(manager.get(&first).unwrap().root_ino, 1);
    assert_eq!(manager.latest().unwrap().id, second);
    assert!(manager.get("none").is_none());
    assert!(manager.delete(&first));
    assert!(!manager.delete(&first));
    assert_eq!(manager.list().len(), 1);
    assert!(manager.get(&first).is_none());
    // Without a limit nothing is dropped.
    for i in 0..20 {
        manager.create_snapshot(format!("s{}", i), None, || Ok(vec![])).unwrap();
    }
    assert_eq!(manager.list().len(), 21);
    let empty = SnapshotManager::new(test_key(), 1);
    assert!(empty.latest().is_none());
}

#[test]
fn snapshot_creation_fails_with_its_source() {
    let mut manager = SnapshotManager::new(test_key(), 2);
    manager.create_snapshot("kept".to_string(), None, || Ok(vec![])).unwrap();
    let failed = manager.create_snapshot("lost".to_string(), None, || Err(Error::InodeNotFound(7)));
    assert!(matches!(failed, Err(Error::InodeNotFound(7))));
    assert_eq!(manager.list().len(), 1);
    assert_eq!(manager.list()[0].name, "kept");
}

#[test]
fn snapshot_export_is_bound_to_its_key_and_label() {
    let key = test_key();
    let mut manager = SnapshotManager::new(key, 1);
    let exported = manager.export().unwrap();
    // An empty list is its count alone.
    assert_eq!(exported.len(), 12 + 8 + 16);
    let mut other = SnapshotManager::new(test_key(), 1);
    assert!(matches!(other.import(&exported), Err(Error::Decryption(_))));
    let mut tampered = exported.clone();
    tampered[13] ^= 0x80;
    assert!(matches!(manager.import(&tampered), Err(Error::Decryption(_))));
    assert!(matches!(manager.import(&exported[..10]), Err(Error::Decryption(_))));
    // A value sealed without the label is not an export.
    let plain = tgcryptfs::metadata::store::seal_value(&key, &[0u8; 8]).unwrap();
    assert!(matches!(manager.import(&plain), Err(Error::Decryption(_))));
    // What opens to something else than a list leaves the list as it was.
    manager.create_snapshot("kept".to_string(), None, || Ok(vec![])).unwrap();
    let sealed = tgcryptfs::crypto::encryption::encrypt(&key, b"no list", b"snapshots").unwrap().to_bytes();
    assert!(matches!(manager.import(&sealed), Err(Error::Deserialization(_))));
    assert_eq!(manager.list().len(), 1);
}

#[test]
fn snapshot_wire_form_is_exact() {
    let mut snapshot = Snapshot::new("n".to_string(), Some("d".to_string()));
    snapshot.id = "i".to_string();
    snapshot.created = -2;
    snapshot.root_ino = 1;
    snapshot.inodes.insert(7, vec![0xaa, 0xbb]);
    let bytes = snapshot.serialize().unwrap();
    let mut expected: Vec<u8> = vec![1];
    expected.extend_from_slice(&[0, 0, 0, 0, 0, 0, 0, 1, b'i']);
    expected.extend_from_slice(&[0, 0, 0, 0, 0, 0, 0, 1, b'n']);
    expected.extend_from_slice(&[0xff, 0xff, 0xff, 0xff, 0xff, 0xff, 0xff, 0xfe]);
    expected.extend_from_slice(&[1, 0, 0, 0, 0, 0, 0, 0, 1, b'd']);
    expected.extend_from_slice(&[0, 0, 0, 0, 0, 0, 0, 1]);
    expected.extend_from_slice(&[0, 0, 0, 0, 0, 0, 0, 1]);
    expected.extend_from_slice(&[0, 0, 0, 0, 0, 0, 0, 7]);
    expected.extend_from_slice(&[0, 0, 0, 0, 0, 0, 0, 2, 0xaa, 0xbb]);
    assert_eq!(bytes, expected);

    let back = Snapshot::deserialize(&bytes).unwrap();
    assert_eq!(back.id, "i");
    assert_eq!(back.name, "n");
    assert_eq!(back.created, -2);
    assert_eq!(back.description, Some("d".to_string()));
    assert_eq!(back.root_ino, 1);
    assert_eq!(back.inodes, snapshot.inodes);
    // The entry holds no inode.
    assert!(matches!(back.get_inode(7), Err(Error::Deserialization(_))));
    assert!(matches!(back.all_inodes(), Err(Error::Deserialization(_))));
}

#[test]
fn snapshot_malformed_bytes_are_refused() {
    let mut snapshot = Snapshot::new("name".to_string(), None);
    for ino in 1..=5u64 {
        snapshot.add_inode(&test_inode(ino, "file")).unwrap();
    }
    let bytes = snapshot.serialize().unwrap();
    assert!(Snapshot::deserialize(&bytes).is_ok());
    // Cut short anywhere.
    for cut in 0..bytes.len() {
        assert!(matches!(Snapshot::deserialize(&bytes[..cut]), Err(Error::Deserialization(_))));
    }
    // Bytes behind the last entry.
    let mut longer = bytes.clone();
    longer.push(0);
    assert!(matches!(Snapshot::deserialize(&longer), Err(Error::Deserialization(_))));
    // Another format byte.
    let mut other = bytes.clone();
    other[0] = 2;
    assert!(matches!(Snapshot::deserialize(&other), Err(Error::Deserialization(_))));
    // A name that is no text.
    let mut name = Snapshot::new("ab".to_string(), None);
    name.id = String::new();
    let mut bad = name.serialize().unwrap();
    bad[1 + 8 + 8] = 0xff;
    assert!(matches!(Snapshot::deserialize(&bad), Err(Error::Deserialization(_))));
}

#[test]
fn snapshot_round_trip_keeps_every_inode() {
    let mut snapshot = Snapshot::new("many".to_string(), Some("all of them".to_string()));
    for ino in 1..=200u64 {
        let mut inode = test_inode(ino, &format!("file{}", ino));
        inode.version = ino * 3;
        snapshot.add_inode(&inode).unwrap();
    }
    let back = Snapshot::deserialize(&snapshot.serialize().unwrap()).unwrap();
    assert_eq!(back.id, snapshot.id);
    assert_eq!(back.created, snapshot.created);
    assert_eq!(back.inodes, snapshot.inodes);
    let mut numbers = back.inode_numbers();
    numbers.sort();
    assert_eq!(numbers, (1..=200u64).collect::<Vec<u64>>());
    let mut all = back.all_inodes().unwrap();
    all.sort_by_key(|inode| inode.ino);
    assert_eq!(all.len(), 200);
    for (i, inode) in all.iter().enumerate() {
        assert_eq!(inode.ino, i as u64 + 1);
        assert_eq!(inode.name, format!("file{}", i + 1));
        assert_eq!(inode.version, (i as u64 + 1) * 3);
    }
}

#[test]
fn snapshot_list_round_trip() {
    assert_eq!(encode_snapshots(&[]), vec![0u8; 8]);
    assert!(decode_snapshots(&[0u8; 8]).unwrap().is_empty());
    let mut first = Snapshot::new("first".to_string(), None);
    first.add_inode(&test_inode(1, "a")).unwrap();
    let second = Snapshot::new("second".to_string(), Some("empty".to_string()));
    let bytes = encode_snapshots(&[first.clone(), second.clone()]);
    let back = decode_snapshots(&bytes).unwrap();
    assert_eq!(back.len(), 2);
    assert_eq!(back[0].id, first.id);
    assert_eq!(back[0].inodes, first.inodes);
    assert_eq!(back[1].id, second.id);
    assert_eq!(back[1].description, Some("empty".to_string()));
    for cut in 0..bytes.len() {
        assert!(matches!(decode_snapshots(&bytes[..cut]), Err(Error::Deserialization(_))));
    }
    let mut longer = bytes.clone();
    longer.push(1);
    assert!(matches!(decode_snapshots(&longer), Err(Error::Deserialization(_))));
}

#[test]
fn snapshot_scan_is_breadth_first() {
    let store = small_tree(test_key());
    assert_eq!(reachable_inodes(&store), vec![1, 2, 3, 4]);
    let fresh = MetadataStore::in_memory(test_key(), 0, 0);
    assert_eq!(reachable_inodes(&fresh), vec![1]);
}

#[test]
fn snapshot_capture_and_restore() {
    let key = test_key();
    let mut store = small_tree(key);
    let mut manager = SnapshotManager::new(key, 2);
    let id = {
        let snapshot = manager.capture("before".to_string(), None, &store).unwrap();
        assert_eq!(snapshot.inode_count(), 4);
        assert!(snapshot.get_inode(5).unwrap().is_none());
        assert_eq!(snapshot.get_inode(4).unwrap().unwrap().name, "g");
        snapshot.id.clone()
    };

    // The store moves on: a file changes, one is removed, one is new.
    let mut changed = Inode::new_file(3, 1, "f".to_string(), 0, 0, 0o600);
    changed.version = 9;
    store.save_inode(changed);
    store.delete_inode(4);
    store.save_inode(Inode::new_file(6, 1, "later".to_string(), 0, 0, 0o644));
    assert_eq!(store.get_inode(3).unwrap().version, 9);

    // The snapshot travels through its sealed form.
    let exported = manager.export().unwrap();
    let mut manager = SnapshotManager::new(key, 2);
    manager.import(&exported).unwrap();

    assert_eq!(manager.restore(&id, &mut store).unwrap(), 4);
    assert_eq!(store.get_inode(3).unwrap().version, 0);
    assert_eq!(store.get_inode(3).unwrap().attrs.perm, 0o644);
    assert_eq!(store.get_inode(4).unwrap().name, "g");
    assert_eq!(store.lookup(2, "g").unwrap().ino, 4);
    assert_eq!(store.get_inode(1).unwrap().children, vec![2, 3, 99]);
    // What the snapshot does not hold stays.
    assert!(store.has_inode(5));
    assert!(store.has_inode(6));

    assert!(matches!(manager.restore("unknown", &mut store), Err(Error::SnapshotNotFound(_))));
}

#[test]
fn snapshot_restore_refuses_entries_that_hold_no_inode() {
    let key = test_key();
    let mut store = small_tree(key);
    let mut manager = SnapshotManager::new(key, 2);
    let mut broken = Snapshot::new("broken".to_string(), None);
    let mut replaced = Inode::new_file(3, 1, "replaced".to_string(), 0, 0, 0o644);
    replaced.version = 4;
    broken.add_inode(&replaced).unwrap();
    broken.inodes.insert(8, vec![1, 2, 3]);
    let id = broken.id.clone();
    let sealed = {
        let mut source = SnapshotManager::new(key, 2);
        source.import(&seal_list(&key, &[broken])).unwrap();
        source.export().unwrap()
    };
    manager.import(&sealed).unwrap();
    assert!(matches!(manager.restore(&id, &mut store), Err(Error::Deserialization(_))));
    assert_eq!(store.get_inode(3).unwrap().name, "f");
    assert!(!store.has_inode(8));
}

fn seal_list(key: &[u8; KEY_SIZE], snapshots: &[Snapshot]) -> Vec<u8> {
    tgcryptfs::crypto::encryption::encrypt(key, &encode_snapshots(snapshots), b"snapshots").unwrap().to_bytes()
}
