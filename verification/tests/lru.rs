use tgcryptfs::cache::LruCache;

fn key(s: &str) -> String {
    s.to_string()
}

#[test]
fn test_insert_and_pop() {
    let mut lru = LruCache::new();

    lru.insert(key("a"));
    lru.insert(key("b"));
    lru.insert(key("c"));

    assert_eq!(lru.len(), 3);
    assert_eq!(lru.pop_oldest(), Some(key("a")));
    assert_eq!(lru.pop_oldest(), Some(key("b")));
    assert_eq!(lru.pop_oldest(), Some(key("c")));
    assert_eq!(lru.pop_oldest(), None);
}

#[test]
fn test_touch_updates_order() {
    let mut lru = LruCache::new();

    lru.insert(key("a"));
    lru.insert(key("b"));
    lru.insert(key("c"));

    // Touch 'a' to make it most recent
    lru.touch(&key("a"));

    assert_eq!(lru.pop_oldest(), Some(key("b")));
    assert_eq!(lru.pop_oldest(), Some(key("c")));
    assert_eq!(lru.pop_oldest(), Some(key("a")));
}

#[test]
fn lru_test_remove() {
    let mut lru = LruCache::new();

    lru.insert(key("a"));
    lru.insert(key("b"));
    lru.insert(key("c"));

    lru.remove(&key("b"));

    assert_eq!(lru.len(), 2);
    assert_eq!(lru.pop_oldest(), Some(key("a")));
    assert_eq!(lru.pop_oldest(), Some(key("c")));
}

#[test]
fn lru_test_clear() {
    let mut lru = LruCache::new();

    lru.insert(key("a"));
    lru.insert(key("b"));

    lru.clear();

    assert!(lru.is_empty());
    assert_eq!(lru.pop_oldest(), None);
}

#[test]
fn lru_pop_on_empty_is_none() {
    let mut lru = LruCache::new();
    assert!(lru.is_empty());
    assert_eq!(lru.len(), 0);
    assert_eq!(lru.pop_oldest(), None);
    assert_eq!(lru.pop_oldest(), None);
}

#[test]
fn lru_touch_of_untracked_key_is_ignored() {
    let mut lru = LruCache::new();
    lru.insert(key("a"));
    lru.touch(&key("zz"));
    assert_eq!(lru.len(), 1);
    assert!(!lru.contains(&key("zz")));
    assert_eq!(lru.pop_oldest(), Some(key("a")));
    assert_eq!(lru.pop_oldest(), None);
}

#[test]
fn lru_reinsert_moves_to_most_recent() {
    let mut lru = LruCache::new();
    lru.insert(key("a"));
    lru.insert(key("b"));
    lru.insert(key("a"));
    assert_eq!(lru.len(), 2);
    assert_eq!(lru.pop_oldest(), Some(key("b")));
    assert_eq!(lru.pop_oldest(), Some(key("a")));
    assert_eq!(lru.pop_oldest(), None);
}

#[test]
fn lru_remove_then_insert_again() {
    let mut lru = LruCache::new();
    lru.insert(key("a"));
    lru.insert(key("b"));
    lru.remove(&key("a"));
    lru.insert(key("c"));
    lru.insert(key("a"));
    assert_eq!(lru.pop_oldest(), Some(key("b")));
    assert_eq!(lru.pop_oldest(), Some(key("c")));
    assert_eq!(lru.pop_oldest(), Some(key("a")));
    assert_eq!(lru.pop_oldest(), None);
}

#[test]
fn lru_interleaving_follows_recency() {
    // The pop order is the order of the least recent touch or insert among
    // the keys that are tracked.
    let mut lru = LruCache::new();
    let mut model: Vec<String> = Vec::new();
    let names = ["a", "b", "c", "d", "e"];
    let mut step: usize = 0;
    while step < 200 {
        let name = key(names[(step * 7 + step / 3) % names.len()]);
        match step % 4 {
            0 | 1 => {
                model.retain(|k| *k != name);
                model.push(name.clone());
                lru.insert(name);
            }
            2 => {
                if model.contains(&name) {
                    model.retain(|k| *k != name);
                    model.push(name.clone());
                }
                lru.touch(&name);
            }
            _ => {
                if step % 8 == 3 {
                    model.retain(|k| *k != name);
                    lru.remove(&name);
                } else {
                    let expected = if model.is_empty() { None } else { Some(model.remove(0)) };
                    assert_eq!(lru.pop_oldest(), expected);
                }
            }
        }
        assert_eq!(lru.len(), model.len());
        step += 1;
    }
    lru.compact();
    for expected in model {
        assert_eq!(lru.pop_oldest(), Some(expected));
    }
    assert_eq!(lru.pop_oldest(), None);
}

#[test]
fn lru_compact_keeps_order() {
    let mut lru = LruCache::new();
    lru.insert(key("a"));
    lru.insert(key("b"));
    lru.touch(&key("a"));
    lru.touch(&key("b"));
    lru.touch(&key("a"));
    lru.compact();
    assert_eq!(lru.len(), 2);
    assert_eq!(lru.pop_oldest(), Some(key("b")));
    assert_eq!(lru.pop_oldest(), Some(key("a")));
}

#[test]
fn lru_default_is_empty() {
    let mut lru = LruCache::default();
    assert!(lru.is_empty());
    assert_eq!(lru.pop_oldest(), None);
}
