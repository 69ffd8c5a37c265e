use std::path::PathBuf;
use tgcryptfs::chunk::StripeInfo;
use tgcryptfs::error::Error;
use tgcryptfs::raid::erasure::place_blocks;
use tgcryptfs::raid::pool::{DownloadOutcome, UploadOutcome};
use tgcryptfs::raid::{AccountConfig, AccountPool, AccountStatus, ArrayStatus, Encoder, ErasureConfig, PoolConfig, StripeManager};

fn make_test_config(count: usize) -> PoolConfig {
    let accounts: Vec<AccountConfig> = (0..count)
        .map(|i| AccountConfig::new(
            i as u8,
            12345,
            "test_hash".to_string(),
            PathBuf::from(format!("/tmp/test_session_{}", i)),
        ).with_phone(format!("+1234567890{}", i)))
        .collect();

    let erasure = ErasureConfig::new(3, 5);

    PoolConfig::new(accounts, erasure)
}

#[test]
fn test_pool_creation() {
    let config = make_test_config(5);
    let pool = AccountPool::new(config).unwrap();

    assert_eq!(pool.account_count(), 5);
    assert_eq!(pool.data_chunks(), 3);
    assert_eq!(pool.total_chunks(), 5);
}

#[test]
fn test_pool_empty_accounts() {
    let erasure = ErasureConfig::new(3, 5);
    let config = PoolConfig::new(vec![], erasure);

    let result = AccountPool::new(config);
    assert!(result.is_err());
}

#[test]
fn test_pool_not_enough_accounts() {
    // Only 3 accounts but need N=5
    let accounts: Vec<AccountConfig> = (0..3)
        .map(|i| AccountConfig::new(
            i as u8,
            12345,
            "test_hash".to_string(),
            PathBuf::from(format!("/tmp/test_session_{}", i)),
        ))
        .collect();
    let erasure = ErasureConfig::new(3, 5);
    let config = PoolConfig::new(accounts, erasure);

    let result = AccountPool::new(config);
    assert!(result.is_err());
}

#[test]
fn test_get_backend() {
    let config = make_test_config(5);
    let pool = AccountPool::new(config).unwrap();

    assert!(pool.get_backend(0).is_some());
    assert!(pool.get_backend(1).is_some());
    assert!(pool.get_backend(2).is_some());
    assert!(pool.get_backend(3).is_some());
    assert!(pool.get_backend(4).is_some());
    assert!(pool.get_backend(5).is_none());
}

#[test]
fn test_pool_health_methods() {
    let config = make_test_config(5);
    let pool = AccountPool::new(config).unwrap();

    // Initially all accounts should be healthy
    assert!(pool.can_operate());
    assert!(!pool.is_degraded());
    assert_eq!(pool.healthy_count(), 5);
    assert_eq!(pool.healthy_accounts().len(), 5);
}

#[test]
fn test_pool_parity_chunks() {
    let config = make_test_config(5);
    let pool = AccountPool::new(config).unwrap();

    assert_eq!(pool.parity_chunks(), 2); // N=5, K=3, parity=2
}

fn three_accounts() -> AccountPool {
    let accounts: Vec<AccountConfig> = (0..3)
        .map(|i| AccountConfig::new(i as u8, 1, "hash".to_string(), PathBuf::from("session")))
        .collect();
    AccountPool::new(PoolConfig::new(accounts, ErasureConfig::new(2, 3))).unwrap()
}

#[test]
fn pool_backends_follow_priority() {
    let accounts = vec![
        AccountConfig::new(0, 10, "a".to_string(), PathBuf::from("session0")).with_priority(1),
        AccountConfig::new(1, 11, "b".to_string(), PathBuf::from("session1")).with_priority(9),
        AccountConfig::new(2, 12, "c".to_string(), PathBuf::from("session2")).disabled(),
        AccountConfig::new(3, 13, "d".to_string(), PathBuf::from("session3")).with_priority(5),
    ];
    let pool = AccountPool::new(PoolConfig::new(accounts, ErasureConfig::new(2, 3))).unwrap();
    assert_eq!(pool.account_count(), 3);
    assert_eq!(pool.get_backend(0).unwrap().api_id, 11);
    assert_eq!(pool.get_backend(1).unwrap().api_id, 13);
    assert_eq!(pool.get_backend(2).unwrap().api_id, 10);
    assert_eq!(pool.get_backend(0).unwrap().session_file, PathBuf::from("session1"));
    assert_eq!(pool.get_backend(0).unwrap().retry_base_delay_ms, 1000);
    assert_eq!(pool.config().erasure.total_chunks, 3);
}

#[test]
fn pool_connect_needs_k_accounts() {
    let mut pool = three_accounts();
    let outcomes = vec![None, Some("refused".to_string()), None];
    assert!(pool.connect_all(&outcomes).is_ok());
    assert_eq!(pool.health_tracker().account_health(1).failure_count, 1);
    assert_eq!(pool.health_tracker().account_health(0).total_operations, 1);
    assert!(pool.health_tracker().account_health(0).last_success.is_some());

    let mut pool = three_accounts();
    let outcomes = vec![Some("a".to_string()), Some("b".to_string()), None];
    match pool.connect_all(&outcomes) {
        Err(Error::ErasureFailed { available, required }) => {
            assert_eq!(available, 1);
            assert_eq!(required, 2);
        }
        other => panic!("expected ErasureFailed, got {:?}", other),
    }
}

#[test]
fn pool_upload_fails_below_k() {
    let mut pool = three_accounts();
    let mut manager = StripeManager::new(2, 3);
    let stripe = manager.create_stripe(10, 9, &[0, 1, 2]);
    let outcomes = vec![
        UploadOutcome::Failed("x".to_string()),
        UploadOutcome::Stored(5),
        UploadOutcome::Failed("y".to_string()),
    ];
    match pool.upload_stripe(&stripe, &outcomes) {
        Err(Error::ErasureFailed { available, required }) => {
            assert_eq!(available, 1);
            assert_eq!(required, 2);
        }
        other => panic!("expected ErasureFailed, got {:?}", other.map(|i| i.blocks.len())),
    }
    assert_eq!(pool.health_tracker().account_health(0).failed_operations, 1);
    assert_eq!(pool.health_tracker().account_health(1).failed_operations, 0);
}

// K=2, N=3, account 2 is unavailable: the stripe is written degraded, with
// three block slots of which two carry a handle, and reads back.
#[test]
fn pool_degraded_write_and_rebuild() {
    let mut pool = three_accounts();
    for _ in 0..3 {
        pool.health_tracker_mut().record_failure(2, "down");
    }
    assert_eq!(pool.health_tracker().account_health(2).status, AccountStatus::Unavailable);
    assert_eq!(pool.status(), ArrayStatus::Degraded);
    assert!(pool.is_degraded());
    assert!(pool.can_operate());

    let data: Vec<u8> = (0..65536u32).map(|i| (i % 253) as u8).collect();
    let encoder = Encoder::new(2, 3).unwrap();
    let shards = encoder.encode(&data).unwrap();
    let mut manager = StripeManager::new(2, 3);
    let stripe = manager.create_stripe(data.len() as u64, shards[0].len(), &[0, 1, 2]);

    let plan = pool.plan_upload(&stripe);
    assert_eq!(plan, vec![true, true, false]);
    // The remote store: one list of stored blocks per account.
    let mut remote: Vec<Vec<Vec<u8>>> = vec![Vec::new(), Vec::new(), Vec::new()];
    let mut outcomes: Vec<UploadOutcome> = Vec::new();
    for (i, attempt) in plan.iter().enumerate() {
        let account = stripe.chunks[i].account_id as usize;
        if *attempt {
            remote[account].push(shards[i].clone());
            outcomes.push(UploadOutcome::Stored(remote[account].len() as i32));
        } else {
            outcomes.push(UploadOutcome::Failed("skipped".to_string()));
        }
    }
    let mut info: StripeInfo = pool.upload_stripe(&stripe, &outcomes).unwrap();
    assert_eq!(info.blocks.len(), 3);
    assert_eq!(info.available_blocks(), 2);
    assert!(info.can_reconstruct());
    assert_eq!(info.total_blocks(), 3);
    assert_eq!(info.blocks[2].message_id, None);
    assert_eq!(info.missing_blocks(), vec![2]);
    assert_eq!(info.data_count, 2);
    assert_eq!(info.parity_count, 1);
    assert_eq!(info.block_size, shards[0].len() as u64);
    // The skipped block left no trace in the health records.
    assert_eq!(pool.health_tracker().account_health(2).total_operations, 3);

    // Read: two of three blocks are fetched.
    let tasks = pool.plan_download(&info).unwrap();
    assert_eq!(tasks.len(), 2);
    let fetched: Vec<DownloadOutcome> = tasks
        .iter()
        .map(|t| DownloadOutcome::Fetched(remote[t.account_id as usize][(t.message_id - 1) as usize].clone()))
        .collect();
    let blocks = pool.download_blocks(&info, &tasks, fetched).unwrap();
    assert_eq!(blocks.len(), 2);
    let mut placed = place_blocks(blocks, 3);
    assert_eq!(encoder.decode(&mut placed).unwrap(), data);

    // Rebuild: account 2 returns, its block is rebuilt from the others.
    pool.health_tracker_mut().set_rebuilding(2);
    assert_eq!(pool.status(), ArrayStatus::Rebuilding);
    let rebuilt = placed[2].clone().unwrap();
    assert_eq!(rebuilt, shards[2]);
    remote[2].push(rebuilt);
    assert!(info.record_rebuilt(2, 2, remote[2].len() as i32, 1_700_000_000));
    assert!(!info.record_rebuilt(9, 2, 1, 0));
    pool.health_tracker_mut().set_healthy(2);
    assert_eq!(pool.status(), ArrayStatus::Healthy);
    assert_eq!(info.available_blocks(), 3);
    assert!(info.missing_blocks().is_empty());
    assert_eq!(info.blocks[2].block_index, 2);

    let tasks = pool.plan_download(&info).unwrap();
    assert_eq!(tasks.len(), 3);
    let fetched: Vec<DownloadOutcome> = tasks
        .iter()
        .map(|t| DownloadOutcome::Fetched(remote[t.account_id as usize][(t.message_id - 1) as usize].clone()))
        .collect();
    let blocks = pool.download_blocks(&info, &tasks, fetched).unwrap();
    assert_eq!(blocks.len(), 3);
    let indices: Vec<u8> = blocks.iter().map(|b| b.0).collect();
    assert_eq!(indices, vec![0, 1, 2]);
}

#[test]
fn pool_download_below_k_is_unrecoverable() {
    let mut pool = three_accounts();
    let encoder = Encoder::new(2, 3).unwrap();
    let shards = encoder.encode(b"stripe tolerance").unwrap();
    let mut manager = StripeManager::new(2, 3);
    let stripe = manager.create_stripe(16, shards[0].len(), &[0, 1, 2]);
    let outcomes = vec![UploadOutcome::Stored(1), UploadOutcome::Stored(1), UploadOutcome::Stored(1)];
    let info = pool.upload_stripe(&stripe, &outcomes).unwrap();
    let tasks = pool.plan_download(&info).unwrap();
    assert_eq!(tasks.len(), 3);
    let fetched = vec![
        DownloadOutcome::Failed("gone".to_string()),
        DownloadOutcome::Fetched(shards[1].clone()),
        DownloadOutcome::Failed("gone".to_string()),
    ];
    match pool.download_blocks(&info, &tasks, fetched) {
        Err(Error::StripeUnrecoverable { available, required }) => {
            assert_eq!(available, 1);
            assert_eq!(required, 2);
        }
        other => panic!("expected StripeUnrecoverable, got {:?}", other.map(|b| b.len())),
    }
    // A stripe without any handle cannot even be planned.
    let empty = StripeInfo::new(2, 1, 8);
    assert!(matches!(
        pool.plan_download(&empty),
        Err(Error::StripeUnrecoverable { available: 0, required: 2 })
    ));
}
