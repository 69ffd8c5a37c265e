use tgcryptfs::error::Error;
use tgcryptfs::metadata::xattr::{validate_name, XATTR_NAME_MAX, XATTR_SIZE_MAX};
use tgcryptfs::metadata::XattrStore;

#[test]
fn xattr_test_create_store() {
    let store = XattrStore::in_memory();
    assert_eq!(store.count(), 0);
}

#[test]
fn test_set_and_get() {
    let mut store = XattrStore::in_memory();
    let inode: u64 = 42;
    let name = "user.test";
    let value = b"test value";

    store.set(inode, name, value).unwrap();
    let retrieved = store.get(inode, name).unwrap().unwrap();

    assert_eq!(retrieved, value);
}

#[test]
fn test_get_nonexistent() {
    let store = XattrStore::in_memory();
    let result = store.get(42, "user.nonexistent").unwrap();
    assert!(result.is_none());
}

#[test]
fn test_apple_namespace() {
    let mut store = XattrStore::in_memory();
    let inode: u64 = 100;
    let name = "com.apple.metadata:kMDItemWhereFroms";
    let value = b"https://example.com";

    store.set(inode, name, value).unwrap();
    let retrieved = store.get(inode, name).unwrap().unwrap();

    assert_eq!(retrieved, value);
}

#[test]
fn test_list_empty() {
    let store = XattrStore::in_memory();
    let names = store.list(42);
    assert_eq!(names.len(), 0);
}

#[test]
fn test_list_multiple() {
    let mut store = XattrStore::in_memory();
    let inode: u64 = 42;

    store.set(inode, "user.attr1", b"value1").unwrap();
    store.set(inode, "user.attr2", b"value2").unwrap();
    store.set(inode, "com.apple.test", b"value3").unwrap();

    let mut names = store.list(inode);
    names.sort();

    assert_eq!(names.len(), 3);
    assert_eq!(names[0], "com.apple.test");
    assert_eq!(names[1], "user.attr1");
    assert_eq!(names[2], "user.attr2");
}

#[test]
fn test_list_isolation() {
    let mut store = XattrStore::in_memory();

    // Different inodes shouldn't interfere
    store.set(1, "user.attr1", b"value1").unwrap();
    store.set(2, "user.attr2", b"value2").unwrap();
    store.set(3, "user.attr3", b"value3").unwrap();

    let names1 = store.list(1);
    let names2 = store.list(2);
    let names3 = store.list(3);

    assert_eq!(names1.len(), 1);
    assert_eq!(names2.len(), 1);
    assert_eq!(names3.len(), 1);
}

#[test]
fn xattr_test_remove() {
    let mut store = XattrStore::in_memory();
    let inode: u64 = 42;
    let name = "user.test";

    store.set(inode, name, b"value").unwrap();
    assert!(store.get(inode, name).unwrap().is_some());

    store.remove(inode, name).unwrap();
    assert!(store.get(inode, name).unwrap().is_none());
}

#[test]
fn test_remove_nonexistent() {
    let mut store = XattrStore::in_memory();
    // Should succeed even if xattr doesn't exist
    store.remove(42, "user.nonexistent").unwrap();
}

#[test]
fn test_remove_all() {
    let mut store = XattrStore::in_memory();
    let inode: u64 = 42;

    store.set(inode, "user.attr1", b"value1").unwrap();
    store.set(inode, "user.attr2", b"value2").unwrap();
    store.set(inode, "com.apple.test", b"value3").unwrap();

    // Also add xattrs for a different inode
    store.set(100, "user.other", b"other").unwrap();

    let count = store.remove_all(inode);
    assert_eq!(count, 3);

    let names = store.list(inode);
    assert_eq!(names.len(), 0);

    // Other inode should still have its xattrs
    let other_names = store.list(100);
    assert_eq!(other_names.len(), 1);
}

#[test]
fn test_remove_all_empty() {
    let mut store = XattrStore::in_memory();
    let count = store.remove_all(42);
    assert_eq!(count, 0);
}

#[test]
fn test_update_value() {
    let mut store = XattrStore::in_memory();
    let inode: u64 = 42;
    let name = "user.test";

    store.set(inode, name, b"original").unwrap();
    store.set(inode, name, b"updated").unwrap();

    let value = store.get(inode, name).unwrap().unwrap();
    assert_eq!(value, b"updated");
}

#[test]
fn test_binary_values() {
    let mut store = XattrStore::in_memory();
    let inode: u64 = 42;
    let name = "user.binary";
    let value: Vec<u8> = vec![0x00, 0xFF, 0x42, 0xAB, 0xCD, 0xEF];

    store.set(inode, name, &value).unwrap();
    let retrieved = store.get(inode, name).unwrap().unwrap();

    assert_eq!(retrieved, value);
}

#[test]
fn test_empty_value() {
    let mut store = XattrStore::in_memory();
    let inode: u64 = 42;
    let name = "user.empty";
    let value: &[u8] = b"";

    store.set(inode, name, value).unwrap();
    let retrieved = store.get(inode, name).unwrap().unwrap();

    assert_eq!(retrieved, value);
}

#[test]
fn test_large_value() {
    let mut store = XattrStore::in_memory();
    let inode: u64 = 42;
    let name = "user.large";
    let value = vec![0x42; 10000]; // 10KB of 0x42

    store.set(inode, name, &value).unwrap();
    let retrieved = store.get(inode, name).unwrap().unwrap();

    assert_eq!(retrieved, value);
}

#[test]
fn test_invalid_name_empty() {
    let mut store = XattrStore::in_memory();

    let result = store.set(42, "", b"value");
    assert!(result.is_err());

    let result = store.get(42, "");
    assert!(result.is_err());
}

#[test]
fn test_invalid_name_null() {
    let mut store = XattrStore::in_memory();

    let result = store.set(42, "user.test\0null", b"value");
    assert!(result.is_err());
}

#[test]
fn test_invalid_name_too_long() {
    let mut store = XattrStore::in_memory();

    let long_name = format!("user.{}", "a".repeat(XATTR_NAME_MAX));
    let result = store.set(42, &long_name, b"value");
    assert!(result.is_err());
}

#[test]
fn test_invalid_value_too_large() {
    let mut store = XattrStore::in_memory();

    let large_value = vec![0u8; XATTR_SIZE_MAX + 1];
    let result = store.set(42, "user.test", &large_value);
    assert!(result.is_err());
}

#[test]
fn test_special_characters_in_name() {
    let mut store = XattrStore::in_memory();
    let inode: u64 = 42;

    // Valid special characters in xattr names
    let names = vec![
        "user.test-attr",
        "user.test_attr",
        "user.test.attr",
        "com.apple.metadata:kMDItemWhereFroms",
        "security.selinux",
    ];

    for name in names {
        store.set(inode, name, b"value").unwrap();
        let retrieved = store.get(inode, name).unwrap().unwrap();
        assert_eq!(retrieved, b"value");
    }
}

#[test]
fn test_long_name() {
    let mut store = XattrStore::in_memory();
    let inode: u64 = 42;

    let long_name = format!("user.{}", "a".repeat(200));
    store.set(inode, &long_name, b"value").unwrap();

    let retrieved = store.get(inode, &long_name).unwrap().unwrap();
    assert_eq!(retrieved, b"value");
}

#[test]
fn test_unicode_names() {
    let mut store = XattrStore::in_memory();
    let inode: u64 = 42;

    let name = "user.测试属性";
    store.set(inode, name, b"unicode test").unwrap();

    let retrieved = store.get(inode, name).unwrap().unwrap();
    assert_eq!(retrieved, b"unicode test");

    let names = store.list(inode);
    assert_eq!(names.len(), 1);
    assert_eq!(names[0], name);
}

#[test]
fn xattr_limits_are_exact() {
    let mut store = XattrStore::in_memory();
    // 255 bytes are a name, 256 are not.
    assert!(validate_name(&"n".repeat(255)).is_ok());
    assert!(matches!(validate_name(&"n".repeat(256)), Err(Error::Internal(_))));
    // The limit is in bytes: 85 characters of three bytes each fit, 86 do not.
    assert!(validate_name(&"测".repeat(85)).is_ok());
    assert!(validate_name(&"测".repeat(86)).is_err());
    assert!(validate_name("\0").is_err());
    // 64 KiB are a value, one byte more is not.
    assert!(store.set(1, "user.max", &vec![1u8; 65536]).is_ok());
    assert!(matches!(store.set(1, "user.over", &vec![1u8; 65537]), Err(Error::Internal(_))));
    assert_eq!(store.count(), 1);
    assert!(store.remove(1, "").is_err());
    assert_eq!(store.list(1), vec!["user.max".to_string()]);
}
