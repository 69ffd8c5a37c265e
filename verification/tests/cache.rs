use std::path::PathBuf;
use tgcryptfs::cache::{CacheStats, ChunkCache};
use tgcryptfs::config::{CacheConfig, EvictionPolicy};
use tgcryptfs::error::Error;

fn test_config() -> CacheConfig {
    CacheConfig {
        max_size: 10000,
        cache_dir: PathBuf::from("cache"),
        prefetch_enabled: true,
        prefetch_count: 3,
        eviction_policy: EvictionPolicy::Lru,
    }
}

fn names(ids: &[&str]) -> Vec<String> {
    ids.iter().map(|s| s.to_string()).collect()
}

#[test]
fn test_cache_put_get() {
    let config = test_config();
    let mut cache = ChunkCache::new(&config);

    let (evicted, stored) = cache.put("chunk1", b"hello world".len() as u64);
    assert!(stored.is_ok());
    assert!(evicted.is_empty());
    assert!(cache.contains("chunk1"));

    let size = cache.get("chunk1").unwrap();
    assert_eq!(size, b"hello world".len() as u64);
}

#[test]
fn test_cache_miss() {
    let config = test_config();
    let mut cache = ChunkCache::new(&config);

    assert!(!cache.contains("nonexistent"));
    assert!(cache.get("nonexistent").is_none());
}

#[test]
fn test_cache_remove() {
    let config = test_config();
    let mut cache = ChunkCache::new(&config);

    assert!(cache.put("chunk1", 4).1.is_ok());
    assert!(cache.contains("chunk1"));

    assert!(cache.remove("chunk1"));
    assert!(!cache.contains("chunk1"));
    assert_eq!(cache.size(), 0);
    assert!(!cache.remove("chunk1"));
}

#[test]
fn test_cache_eviction() {
    let mut config = test_config();
    config.max_size = 100; // Very small cache

    let mut cache = ChunkCache::new(&config);

    // Fill cache
    assert!(cache.put("chunk1", 40).1.is_ok());
    assert!(cache.put("chunk2", 40).1.is_ok());

    // This should evict chunk1
    let (evicted, stored) = cache.put("chunk3", 40);
    assert!(stored.is_ok());
    assert_eq!(evicted, names(&["chunk1"]));

    assert!(!cache.contains("chunk1"));
    assert!(cache.contains("chunk2"));
    assert!(cache.contains("chunk3"));
    assert_eq!(cache.size(), 80);
}

#[test]
fn test_cache_lru_ordering() {
    let mut config = test_config();
    config.max_size = 100;

    let mut cache = ChunkCache::new(&config);

    assert!(cache.put("chunk1", 30).1.is_ok());
    assert!(cache.put("chunk2", 30).1.is_ok());

    // Access chunk1 to make it more recent
    assert_eq!(cache.get("chunk1"), Some(30));

    // This should evict chunk2 (least recently used)
    let (evicted, stored) = cache.put("chunk3", 50);
    assert!(stored.is_ok());
    assert_eq!(evicted, names(&["chunk2"]));

    assert!(cache.contains("chunk1"));
    assert!(!cache.contains("chunk2"));
    assert!(cache.contains("chunk3"));
}

#[test]
fn test_prefetch_queue() {
    let config = test_config();
    let mut cache = ChunkCache::new(&config);

    cache.queue_prefetch(vec!["a".to_string(), "b".to_string(), "c".to_string()]);

    assert_eq!(cache.next_prefetch(), Some("a".to_string()));
    assert_eq!(cache.next_prefetch(), Some("b".to_string()));
    assert_eq!(cache.next_prefetch(), Some("c".to_string()));
    assert_eq!(cache.next_prefetch(), None);
}

#[test]
fn cache_prefetch_skips_cached_and_queued() {
    let config = test_config();
    let mut cache = ChunkCache::new(&config);
    assert!(cache.put("b", 1).1.is_ok());
    cache.queue_prefetch(names(&["a", "b", "a", "c"]));
    cache.queue_prefetch(names(&["c", "d"]));
    assert_eq!(cache.stats().prefetch_queue_len, 3);
    assert_eq!(cache.next_prefetch(), Some("a".to_string()));
    assert_eq!(cache.next_prefetch(), Some("c".to_string()));
    assert_eq!(cache.next_prefetch(), Some("d".to_string()));
    assert_eq!(cache.next_prefetch(), None);
}

#[test]
fn cache_prefetch_disabled_queues_nothing() {
    let mut config = test_config();
    config.prefetch_enabled = false;
    let mut cache = ChunkCache::new(&config);
    cache.queue_prefetch(names(&["a", "b"]));
    assert_eq!(cache.next_prefetch(), None);
}

#[test]
fn cache_full_for_oversized_chunk() {
    let mut config = test_config();
    config.max_size = 100;
    let mut cache = ChunkCache::new(&config);
    assert!(cache.put("a", 60).1.is_ok());
    assert!(cache.put("b", 40).1.is_ok());
    let (evicted, stored) = cache.put("huge", 101);
    assert!(matches!(stored, Err(Error::CacheFull)));
    // Everything left before the failure was seen.
    assert_eq!(evicted, names(&["a", "b"]));
    assert_eq!(cache.count(), 0);
    assert_eq!(cache.size(), 0);
    assert!(!cache.contains("huge"));
}

#[test]
fn cache_chunk_of_exactly_the_capacity_fits() {
    let mut config = test_config();
    config.max_size = 100;
    let mut cache = ChunkCache::new(&config);
    assert!(cache.put("a", 1).1.is_ok());
    let (evicted, stored) = cache.put("b", 100);
    assert!(stored.is_ok());
    assert_eq!(evicted, names(&["a"]));
    assert_eq!(cache.size(), 100);
}

#[test]
fn cache_stays_within_capacity() {
    let mut config = test_config();
    config.max_size = 1000;
    let mut cache = ChunkCache::new(&config);
    let mut i: u64 = 0;
    while i < 300 {
        let id = format!("chunk{}", (i * 13) % 37);
        let size: u64 = (i * 97) % 1001;
        let (evicted, stored) = cache.put(&id, size);
        assert!(stored.is_ok());
        assert!(cache.size() <= 1000);
        assert!(cache.contains(&id));
        for gone in evicted {
            if gone != id {
                assert!(!cache.contains(&gone));
            }
        }
        i += 1;
    }
}

#[test]
fn cache_put_again_replaces_the_size() {
    let config = test_config();
    let mut cache = ChunkCache::new(&config);
    assert!(cache.put("a", 10).1.is_ok());
    assert!(cache.put("a", 25).1.is_ok());
    assert_eq!(cache.count(), 1);
    assert_eq!(cache.size(), 25);
}

#[test]
fn cache_adopt_and_clear() {
    let config = test_config();
    let mut cache = ChunkCache::new(&config);
    assert!(cache.adopt("x", 7));
    assert!(cache.adopt("y", 8));
    assert!(!cache.adopt("z", u64::MAX));
    assert_eq!(cache.count(), 2);
    assert_eq!(cache.size(), 15);
    let stats: CacheStats = cache.stats();
    assert_eq!(stats.current_size, 15);
    assert_eq!(stats.max_size, 10000);
    assert_eq!(stats.chunk_count, 2);
    assert_eq!(stats.utilization_percent(), 0);
    cache.clear();
    assert_eq!(cache.count(), 0);
    assert_eq!(cache.size(), 0);
    assert!(!cache.contains("x"));
}

#[test]
fn cache_ensure_space_evicts_oldest_first() {
    let mut config = test_config();
    config.max_size = 100;
    let mut cache = ChunkCache::new(&config);
    assert!(cache.put("a", 30).1.is_ok());
    assert!(cache.put("b", 30).1.is_ok());
    assert!(cache.put("c", 30).1.is_ok());
    let (evicted, fits) = cache.ensure_space(50);
    assert!(fits.is_ok());
    assert_eq!(evicted, names(&["a", "b"]));
    assert_eq!(cache.size(), 30);
    let (evicted, fits) = cache.ensure_space(70);
    assert!(fits.is_ok());
    assert!(evicted.is_empty());
}

#[test]
fn cache_utilization_in_percent() {
    let stats = CacheStats { current_size: 50, max_size: 200, chunk_count: 1, prefetch_queue_len: 0 };
    assert_eq!(stats.utilization_percent(), 25);
    let empty = CacheStats { current_size: 5, max_size: 0, chunk_count: 1, prefetch_queue_len: 0 };
    assert_eq!(empty.utilization_percent(), 0);
}
