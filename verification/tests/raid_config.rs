use std::path::PathBuf;
use tgcryptfs::error::Error;
use tgcryptfs::raid::{AccountConfig, ErasureConfig, ErasurePreset, PoolConfig};

#[test]
fn test_erasure_config_validation() {
    // Valid config
    let config = ErasureConfig::new(2, 3);
    assert!(config.validate().is_ok());

    // K must be >= 1
    let config = ErasureConfig::new(0, 3);
    assert!(config.validate().is_err());

    // N must be >= 2
    let config = ErasureConfig::new(1, 1);
    assert!(config.validate().is_err());

    // K must be < N
    let config = ErasureConfig::new(3, 3);
    assert!(config.validate().is_err());

    let config = ErasureConfig::new(4, 3);
    assert!(config.validate().is_err());
}

#[test]
fn test_erasure_from_preset_raid5() {
    // RAID5 with 3 accounts: K=2, N=3
    let config = ErasureConfig::from_preset(ErasurePreset::Raid5, 3).unwrap();
    assert_eq!(config.data_chunks, 2);
    assert_eq!(config.total_chunks, 3);
    assert_eq!(config.fault_tolerance(), 1);

    // RAID5 with 5 accounts: K=4, N=5
    let config = ErasureConfig::from_preset(ErasurePreset::Raid5, 5).unwrap();
    assert_eq!(config.data_chunks, 4);
    assert_eq!(config.total_chunks, 5);

    // RAID5 needs at least 2 accounts
    assert!(ErasureConfig::from_preset(ErasurePreset::Raid5, 1).is_err());
}

#[test]
fn test_erasure_from_preset_raid6() {
    // RAID6 with 4 accounts: K=2, N=4
    let config = ErasureConfig::from_preset(ErasurePreset::Raid6, 4).unwrap();
    assert_eq!(config.data_chunks, 2);
    assert_eq!(config.total_chunks, 4);
    assert_eq!(config.fault_tolerance(), 2);

    // RAID6 needs at least 3 accounts
    assert!(ErasureConfig::from_preset(ErasurePreset::Raid6, 2).is_err());
}

#[test]
fn test_pool_config_validation() {
    let accounts = vec![
        AccountConfig::new(0, 12345, "hash1".to_string(), PathBuf::from("session0")),
        AccountConfig::new(1, 12346, "hash2".to_string(), PathBuf::from("session1")),
        AccountConfig::new(2, 12347, "hash3".to_string(), PathBuf::from("session2")),
    ];

    let erasure = ErasureConfig::new(2, 3);
    let pool = PoolConfig::new(accounts, erasure);
    assert!(pool.validate().is_ok());
}

#[test]
fn test_pool_config_not_enough_accounts() {
    let accounts = vec![
        AccountConfig::new(0, 12345, "hash1".to_string(), PathBuf::from("session0")),
        AccountConfig::new(1, 12346, "hash2".to_string(), PathBuf::from("session1")),
    ];

    // Need 4 accounts but only have 2
    let erasure = ErasureConfig::new(3, 4);
    let pool = PoolConfig::new(accounts, erasure);
    assert!(pool.validate().is_err());
}

#[test]
fn test_pool_config_duplicate_account_ids() {
    let accounts = vec![
        AccountConfig::new(0, 12345, "hash1".to_string(), PathBuf::from("session0")),
        AccountConfig::new(0, 12346, "hash2".to_string(), PathBuf::from("session1")), // Duplicate ID
        AccountConfig::new(2, 12347, "hash3".to_string(), PathBuf::from("session2")),
    ];

    let erasure = ErasureConfig::new(2, 3);
    let pool = PoolConfig::new(accounts, erasure);
    assert!(pool.validate().is_err());
}

#[test]
fn test_enabled_accounts_sorted_by_priority() {
    let accounts = vec![
        AccountConfig::new(0, 12345, "hash1".to_string(), PathBuf::from("session0"))
            .with_priority(50),
        AccountConfig::new(1, 12346, "hash2".to_string(), PathBuf::from("session1"))
            .with_priority(200),
        AccountConfig::new(2, 12347, "hash3".to_string(), PathBuf::from("session2"))
            .with_priority(100),
    ];

    let erasure = ErasureConfig::new(2, 3);
    let pool = PoolConfig::new(accounts, erasure);

    let enabled = pool.enabled_accounts();
    assert_eq!(enabled[0].account_id, 1); // Priority 200
    assert_eq!(enabled[1].account_id, 2); // Priority 100
    assert_eq!(enabled[2].account_id, 0); // Priority 50
}

#[test]
fn test_disabled_accounts_not_counted() {
    let accounts = vec![
        AccountConfig::new(0, 12345, "hash1".to_string(), PathBuf::from("session0")),
        AccountConfig::new(1, 12346, "hash2".to_string(), PathBuf::from("session1")).disabled(),
        AccountConfig::new(2, 12347, "hash3".to_string(), PathBuf::from("session2")),
    ];

    // Need 3 accounts but only 2 are enabled
    let erasure = ErasureConfig::new(2, 3);
    let pool = PoolConfig::new(accounts, erasure);
    assert!(pool.validate().is_err());
}

fn account(id: u8, priority: u8) -> AccountConfig {
    AccountConfig::new(id, 1, "hash".to_string(), PathBuf::from("session")).with_priority(priority)
}

#[test]
fn enabled_accounts_of_equal_priority_keep_their_order() {
    let accounts = vec![account(5, 10), account(1, 10), account(9, 255), account(3, 0), account(7, 10)];
    let pool = PoolConfig::new(accounts, ErasureConfig::new(2, 3));
    let ids: Vec<u8> = pool.enabled_accounts().iter().map(|a| a.account_id).collect();
    assert_eq!(ids, vec![9, 5, 1, 7, 3]);
}

#[test]
fn erasure_errors_are_invalid_config() {
    assert!(matches!(ErasureConfig::new(0, 3).validate(), Err(Error::InvalidConfig(_))));
    assert!(matches!(ErasureConfig::from_preset(ErasurePreset::Custom, 5), Err(Error::InvalidConfig(_))));
    assert!(matches!(ErasureConfig::from_preset(ErasurePreset::Raid6, 0), Err(Error::InvalidConfig(_))));
    let config = ErasureConfig::from_preset(ErasurePreset::Raid6, 3).unwrap();
    assert_eq!(config.parity_chunks(), 2);
    assert_eq!(config.preset, ErasurePreset::Raid6);
    assert!(config.enabled);
    let default = ErasureConfig::default();
    assert_eq!((default.data_chunks, default.total_chunks), (2, 3));
    assert_eq!(ErasurePreset::default(), ErasurePreset::Raid5);
}

#[test]
fn pool_config_accounts_by_id() {
    let mut pool = PoolConfig::new(vec![account(1, 10), account(2, 20)], ErasureConfig::new(1, 2));
    assert_eq!(pool.max_concurrent_uploads, 6);
    assert_eq!(pool.max_concurrent_downloads, 10);
    assert_eq!(pool.retry_attempts, 3);
    assert_eq!(pool.health_check_interval_secs, 300);
    assert_eq!(pool.get_account(2).unwrap().priority, 20);
    assert!(pool.get_account(3).is_none());
    pool.get_account_mut(1).unwrap().priority = 77;
    assert_eq!(pool.get_account(1).unwrap().priority, 77);
    assert!(pool.get_account_mut(9).is_none());
    assert!(matches!(pool.add_account(account(2, 1)), Err(Error::InvalidConfig(_))));
    assert_eq!(pool.accounts.len(), 2);
    assert!(pool.add_account(account(3, 1)).is_ok());
    assert_eq!(pool.accounts.len(), 3);
    assert_eq!(pool.remove_account(1).unwrap().priority, 77);
    assert!(pool.remove_account(1).is_none());
    assert_eq!(pool.accounts.len(), 2);
}

#[test]
fn pool_config_requires_credentials_on_enabled_accounts() {
    let no_id = AccountConfig::new(0, 0, "hash".to_string(), PathBuf::from("s"));
    let no_hash = AccountConfig::new(1, 5, String::new(), PathBuf::from("s"));
    let good = AccountConfig::new(2, 5, "hash".to_string(), PathBuf::from("s"));
    let pool = PoolConfig::new(vec![no_id.clone(), good.clone(), account(3, 1)], ErasureConfig::new(1, 2));
    assert!(pool.validate().is_err());
    let pool = PoolConfig::new(vec![no_hash.clone(), good.clone(), account(3, 1)], ErasureConfig::new(1, 2));
    assert!(pool.validate().is_err());
    // A disabled account needs none.
    let pool = PoolConfig::new(vec![no_id.disabled(), good, account(3, 1)], ErasureConfig::new(1, 2));
    assert!(pool.validate().is_ok());
    let with_phone = account(4, 1).with_phone("+100".to_string());
    assert_eq!(with_phone.phone, Some("+100".to_string()));
    assert!(PoolConfig::default().accounts.is_empty());
}
