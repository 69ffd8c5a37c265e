//! Local chunk cache: LRU tracking and capacity accounting.
//!
//! The cache directory holds one file per cached chunk, named by the chunk
//! id. This module keeps the books: which chunks are cached, how large they
//! are, in which order they were used, and which chunks must leave to make
//! room. Reading, writing and deleting the files is the caller's part: every
//! operation says which files it expects to be written or deleted.

pub mod lru;

pub use lru::LruCache;

use crate::cache::lru::{forget};
use crate::config::CacheConfig;
use crate::error::{Error, Result};
use crate::table::StrTable;
use std::collections::VecDeque;
use vstd::prelude::*;
use vstd::string::StringExecFns;

verus! {

/// A cached chunk: its id and its size in bytes.
pub type Entry = (Seq<char>, u64);

/// The entries for the ids `recency`, with their sizes from `sizes`.
pub open spec fn entries_of(recency: Seq<Seq<char>>, sizes: Map<Seq<char>, u64>) -> Seq<Entry> {
    Seq::new(recency.len(), |i: int| (recency[i], sizes[recency[i]]))
}

/// Sum of the sizes of the entries.
pub open spec fn total(entries: Seq<Entry>) -> nat
    decreases entries.len(),
{
    if entries.len() == 0 {
        0
    } else {
        total(entries.drop_last()) + entries.last().1 as nat
    }
}

/// The ids of the entries.
pub open spec fn ids(entries: Seq<Entry>) -> Seq<Seq<char>> {
    Seq::new(entries.len(), |i: int| entries[i].0)
}

/// The entries without those of id `id`.
pub open spec fn without(entries: Seq<Entry>, id: Seq<char>) -> Seq<Entry>
    decreases entries.len(),
{
    if entries.len() == 0 {
        entries
    } else if entries.last().0 == id {
        without(entries.drop_last(), id)
    } else {
        without(entries.drop_last(), id).push(entries.last())
    }
}

/// Number of entries that leave, oldest first, so that `needed` more bytes
/// fit under `capacity`: none if they fit already; all if they never fit.
pub open spec fn evict_count(entries: Seq<Entry>, needed: nat, capacity: nat) -> nat
    decreases entries.len(),
{
    if entries.len() == 0 || total(entries) + needed <= capacity {
        0
    } else {
        1 + evict_count(entries.skip(1), needed, capacity)
    }
}

/// The total of a sequence is the total of its first entry and of the rest.
pub proof fn lemma_total_skip(entries: Seq<Entry>)
    requires
        entries.len() > 0,
    ensures
        total(entries) == entries[0].1 + total(entries.skip(1)),
    decreases entries.len(),
{
    if entries.len() == 1 {
        assert(entries.drop_last() =~= Seq::<Entry>::empty());
        assert(entries.skip(1) =~= Seq::<Entry>::empty());
    } else {
        lemma_total_skip(entries.drop_last());
        assert(entries.drop_last().skip(1) =~= entries.skip(1).drop_last());
        assert(entries.skip(1).last() == entries.last());
    }
}

/// Taking an id out lowers the total by the sizes recorded under it.
pub proof fn lemma_total_without(entries: Seq<Entry>, id: Seq<char>)
    requires
        ids(entries).no_duplicates(),
    ensures
        ids(without(entries, id)) == forget(ids(entries), id),
        ids(entries).contains(id) ==> total(without(entries, id)) + entries[ids(
            entries,
        ).index_of(id)].1 == total(entries),
        !ids(entries).contains(id) ==> without(entries, id) == entries,
    decreases entries.len(),
{
    if entries.len() == 0 {
        assert(ids(without(entries, id)) =~= forget(ids(entries), id));
    } else {
        let front = entries.drop_last();
        assert(ids(front) =~= ids(entries).drop_last());
        assert(ids(entries).last() == entries.last().0);
        assert(ids(front).no_duplicates()) by {
            assert forall|a: int, b: int|
                0 <= a < ids(front).len() && 0 <= b < ids(front).len() && a != b implies ids(
                front,
            )[a] != ids(front)[b] by {
                assert(ids(entries)[a] != ids(entries)[b]);
            }
        }
        lemma_total_without(front, id);
        if entries.last().0 == id {
            assert(!ids(front).contains(id)) by {
                assert forall|a: int| 0 <= a < ids(front).len() implies ids(front)[a] != id by {
                    assert(ids(entries)[a] != ids(entries)[entries.len() - 1]);
                }
            }
            let p = ids(entries).index_of(id);
            assert(ids(entries)[entries.len() - 1] == id);
            assert(ids(entries)[p] == id);
            if p != entries.len() - 1 {
                assert(ids(entries)[p] != ids(entries)[entries.len() - 1]);
            }
            assert(without(entries, id) == front);
            assert(ids(without(entries, id)) =~= forget(ids(entries), id));
        } else {
            let kept = without(front, id);
            assert(without(entries, id) == kept.push(entries.last()));
            assert(kept.push(entries.last()).drop_last() =~= kept);
            assert(total(without(entries, id)) == total(kept) + entries.last().1);
            assert(ids(without(entries, id)) =~= forget(ids(entries), id));
            if ids(entries).contains(id) {
                let p = ids(entries).index_of(id);
                assert(ids(entries)[p] == id);
                assert(p < front.len());
                assert(ids(front)[p] == id);
                let q = ids(front).index_of(id);
                assert(ids(front)[q] == id);
                if p != q {
                    assert(ids(front)[p] != ids(front)[q]);
                }
                assert(front[q] == entries[p]);
            } else {
                assert(!ids(front).contains(id)) by {
                    assert forall|a: int| 0 <= a < ids(front).len() implies ids(front)[a]
                        != id by {
                        assert(ids(entries)[a] == ids(front)[a]);
                    }
                }
                assert(without(entries, id) =~= entries);
            }
        }
    }
}

/// Cache statistics.
#[derive(Debug, Clone)]
pub struct CacheStats {
    pub current_size: u64,
    pub max_size: u64,
    pub chunk_count: usize,
    pub prefetch_queue_len: usize,
}

impl CacheStats {
    /// Get cache utilization in whole percent, rounded down and capped at the
    /// largest 64-bit number; 0 for a cache without capacity.
    pub fn utilization_percent(&self) -> (r: u64)
        ensures
            self.max_size == 0 ==> r == 0,
            self.max_size > 0 ==> r == if (self.current_size * 100) / (self.max_size as int)
                > u64::MAX {
                u64::MAX as int
            } else {
                (self.current_size * 100) / (self.max_size as int)
            },
    {
        if self.max_size == 0 {
            0
        } else {
            let percent = (self.current_size as u128 * 100) / (self.max_size as u128);
            if percent > u64::MAX as u128 {
                u64::MAX
            } else {
                percent as u64
            }
        }
    }
}

/// Bookkeeping of the chunk cache, with LRU eviction.
pub struct ChunkCache {
    /// Maximum cache size in bytes.
    max_size: u64,
    /// Current cache size.
    current_size: u64,
    /// LRU tracking.
    lru: LruCache,
    /// Chunk sizes (for accurate size tracking).
    sizes: StrTable<u64>,
    /// Prefetch queue.
    prefetch_queue: VecDeque<String>,
    /// Prefetch enabled.
    prefetch_enabled: bool,
}

impl ChunkCache {
    /// The cached chunks with their sizes, least recently used first.
    pub closed spec fn entries(&self) -> Seq<Entry> {
        entries_of(self.lru@, self.sizes@)
    }

    /// Maximum cache size in bytes.
    pub closed spec fn capacity(&self) -> nat {
        self.max_size as nat
    }

    /// The ids queued for prefetching, next first.
    pub closed spec fn queue(&self) -> Seq<Seq<char>> {
        Seq::new(self.prefetch_queue@.len(), |i: int| self.prefetch_queue@[i]@)
    }

    /// Whether prefetching is enabled.
    pub closed spec fn prefetching(&self) -> bool {
        self.prefetch_enabled
    }

    /// Whether the chunk `id` is cached.
    pub open spec fn holds(&self, id: Seq<char>) -> bool {
        ids(self.entries()).contains(id)
    }

    /// The representation invariant: every cached chunk is tracked once, with
    /// its size, and the current size is the sum of the sizes.
    pub closed spec fn wf(&self) -> bool {
        &&& self.lru.wf()
        &&& self.sizes.wf()
        &&& forall|k: Seq<char>| self.lru@.contains(k) <==> self.sizes.has(k)
        &&& self.current_size == total(self.entries())
    }

    /// The ids of a well-formed cache are distinct.
    pub proof fn lemma_distinct(&self)
        requires
            self.wf(),
        ensures
            ids(self.entries()).no_duplicates(),
    {
        self.lru.lemma_no_duplicates();
        assert(ids(self.entries()) =~= self.lru@);
    }

    /// Create the bookkeeping of an empty cache.
    pub fn new(config: &CacheConfig) -> (r: Self)
        ensures
            r.wf(),
            r.entries().len() == 0,
            r.capacity() == config.max_size,
            r.queue().len() == 0,
            r.prefetching() == config.prefetch_enabled,
    {
        let r = ChunkCache {
            max_size: config.max_size,
            current_size: 0,
            lru: LruCache::new(),
            sizes: StrTable::new(),
            prefetch_queue: VecDeque::new(),
            prefetch_enabled: config.prefetch_enabled,
        };
        assert(r.entries() =~= Seq::<Entry>::empty());
        r
    }

    /// Record `chunk_id` with `size` bytes as the most recently used entry.
    fn record(&mut self, chunk_id: &str, size: u64)
        requires
            old(self).wf(),
            total(without(old(self).entries(), chunk_id@)) + size <= u64::MAX,
        ensures
            final(self).wf(),
            final(self).entries() == without(old(self).entries(), chunk_id@).push(
                (chunk_id@, size),
            ),
            final(self).capacity() == old(self).capacity(),
            final(self).queue() == old(self).queue(),
            final(self).prefetching() == old(self).prefetching(),
    {
        proof {
            self.lemma_distinct();
            assert(ids(self.entries()) =~= self.lru@);
            lemma_total_without(self.entries(), chunk_id@);
        }
        let ghost before = *self;
        let ghost rest = without(self.entries(), chunk_id@);
        let key = String::from_str(chunk_id);
        match self.sizes.insert(key.clone(), size) {
            Some(previous) => {
                proof {
                    let p = self.lru@.index_of(chunk_id@);
                    assert(self.lru@[p] == chunk_id@);
                    assert(before.entries()[p].1 == previous);
                }
                self.current_size = self.current_size - previous;
            },
            None => {},
        }
        self.lru.insert(key);
        proof {
            let kept = forget(before.lru@, chunk_id@);
            assert(ids(rest) == kept);
            assert(self.lru@ == kept.push(chunk_id@));
            self.lru.lemma_no_duplicates();
            assert forall|i: int| 0 <= i < kept.len() implies kept[i] != chunk_id@
                && before.lru@.contains(kept[i]) && rest[i] == (kept[i], before.sizes@[kept[i]])
                && #[trigger] self.entries()[i] == rest[i] by {
                assert(self.lru@[i] == kept[i]);
                assert(self.lru@[kept.len() as int] == chunk_id@);
                assert(self.lru@[i] != self.lru@[kept.len() as int]);
                lemma_without_entries(before.lru@, before.sizes@, chunk_id@, i);
            }
            assert(self.entries() =~= rest.push((chunk_id@, size)));
            assert(self.entries().drop_last() =~= rest);
            assert forall|k: Seq<char>| self.lru@.contains(k) <==> self.sizes.has(k) by {
                lemma_forget_membership(before.lru@, chunk_id@, k);
                if k == chunk_id@ {
                    assert(self.lru@[kept.len() as int] == k);
                } else {
                    if kept.contains(k) {
                        let i = kept.index_of(k);
                        assert(self.lru@[i] == k);
                    }
                    if self.lru@.contains(k) {
                        let i = self.lru@.index_of(k);
                        assert(self.lru@[i] == k);
                        assert(i < kept.len());
                        assert(kept[i] == k);
                    }
                }
            }
        }
        self.current_size = self.current_size + size;
    }

    /// Record a chunk that is found in the cache directory at startup, as the
    /// most recently used entry. The entry is not recorded, and `false`
    /// comes back, where the sizes no longer add up within 64 bits.
    pub fn adopt(&mut self, chunk_id: &str, size: u64) -> (r: bool)
        requires
            old(self).wf(),
        ensures
            final(self).wf(),
            final(self).capacity() == old(self).capacity(),
            final(self).queue() == old(self).queue(),
            final(self).prefetching() == old(self).prefetching(),
            r == (total(without(old(self).entries(), chunk_id@)) + size <= u64::MAX),
            r ==> final(self).entries() == without(old(self).entries(), chunk_id@).push(
                (chunk_id@, size),
            ),
            !r ==> final(self).entries() == old(self).entries(),
    {
        proof {
            self.lemma_distinct();
            assert(ids(self.entries()) =~= self.lru@);
            lemma_total_without(self.entries(), chunk_id@);
        }
        let previous: u64 = match self.sizes.get(chunk_id) {
            Some(s) => {
                proof {
                    let p = self.lru@.index_of(chunk_id@);
                    assert(self.lru@[p] == chunk_id@);
                    assert(self.entries()[p].1 == *s);
                }
                *s
            },
            None => 0,
        };
        if (self.current_size - previous) as u128 + size as u128 > u64::MAX as u128 {
            return false;
        }
        self.record(chunk_id, size);
        true
    }

    /// Check if a chunk is in cache.
    pub fn contains(&self, chunk_id: &str) -> (r: bool)
        requires
            self.wf(),
        ensures
            r == self.holds(chunk_id@),
    {
        proof {
            assert(ids(self.entries()) =~= self.lru@);
        }
        self.sizes.contains_key(chunk_id)
    }

    /// Look a chunk up for reading: a cached chunk becomes the most recently
    /// used one and its size comes back, so that the caller reads its file.
    pub fn get(&mut self, chunk_id: &str) -> (r: Option<u64>)
        requires
            old(self).wf(),
        ensures
            final(self).wf(),
            final(self).capacity() == old(self).capacity(),
            final(self).queue() == old(self).queue(),
            final(self).prefetching() == old(self).prefetching(),
            r.is_some() == old(self).holds(chunk_id@),
            match r {
                Some(size) => final(self).entries() == without(
                    old(self).entries(),
                    chunk_id@,
                ).push((chunk_id@, size)) && size == old(self).entries()[ids(
                    old(self).entries(),
                ).index_of(chunk_id@)].1,
                None => final(self).entries() == old(self).entries(),
            },
    {
        proof {
            self.lemma_distinct();
            assert(ids(self.entries()) =~= self.lru@);
            lemma_total_without(self.entries(), chunk_id@);
        }
        let found: Option<u64> = match self.sizes.get(chunk_id) {
            Some(s) => Some(*s),
            None => None,
        };
        match found {
            Some(size) => {
                proof {
                    let p = self.lru@.index_of(chunk_id@);
                    assert(self.lru@[p] == chunk_id@);
                    assert(self.entries()[p].1 == size);
                }
                self.record(chunk_id, size);
                Some(size)
            },
            None => None,
        }
    }

    /// Make room for `needed` bytes: the least recently used chunks leave
    /// until the bytes fit or the cache is empty. The ids that left come
    /// back, oldest first, for their files to be deleted. Bytes that do not
    /// fit into the empty cache give `CacheFull`.
    pub fn ensure_space(&mut self, needed: u64) -> (r: (Vec<String>, Result<()>))
        requires
            old(self).wf(),
        ensures
            final(self).wf(),
            final(self).capacity() == old(self).capacity(),
            final(self).queue() == old(self).queue(),
            final(self).prefetching() == old(self).prefetching(),
            ({
                let n = evict_count(old(self).entries(), needed as nat, old(self).capacity());
                &&& n <= old(self).entries().len()
                &&& r.0@.len() == n
                &&& forall|i: int| 0 <= i < n ==> (#[trigger] r.0@[i])@ == old(self).entries()[i].0
                &&& final(self).entries() == old(self).entries().skip(n as int)
            }),
            r.1.is_ok() == (needed <= old(self).capacity()),
            r.1.is_ok() ==> total(final(self).entries()) + needed <= final(self).capacity(),
            r.1 matches Err(e) ==> e is CacheFull && final(self).entries().len() == 0,
    {
        let mut evicted: Vec<String> = Vec::new();
        loop
            invariant
                self.wf(),
                self.capacity() == old(self).capacity(),
                self.queue() == old(self).queue(),
                self.prefetching() == old(self).prefetching(),
                evicted@.len() <= old(self).entries().len(),
                forall|i: int|
                    0 <= i < evicted@.len() ==> (#[trigger] evicted@[i])@ == old(self).entries()[i].0,
                self.entries() == old(self).entries().skip(evicted@.len() as int),
                evict_count(old(self).entries(), needed as nat, old(self).capacity())
                    == evicted@.len() + evict_count(
                    self.entries(),
                    needed as nat,
                    self.capacity(),
                ),
            decreases self.entries().len(),
        {
            if self.current_size as u128 + needed as u128 <= self.max_size as u128 {
                return (evicted, Ok(()));
            }
            let ghost before = *self;
            proof {
                self.lemma_distinct();
                assert(ids(self.entries()) =~= self.lru@);
            }
            match self.lru.pop_oldest() {
                Some(chunk_id) => {
                    proof {
                        assert(before.lru@[0] == chunk_id@);
                        assert(before.sizes.has(chunk_id@));
                        lemma_total_skip(before.entries());
                    }
                    let size = match self.sizes.remove(chunk_id.as_str()) {
                        Some(s) => s,
                        None => 0,
                    };
                    proof {
                        assert(size == before.entries()[0].1);
                        assert forall|i: int| 0 <= i < self.lru@.len() implies self.lru@[i]
                            != chunk_id@ && #[trigger] self.entries()[i] == before.entries()[i
                            + 1] by {
                            assert(self.lru@[i] == before.lru@[i + 1]);
                            assert(before.lru@[i + 1] != before.lru@[0]);
                            assert(before.lru@.contains(before.lru@[i + 1]));
                        }
                        assert(self.entries() =~= before.entries().skip(1));
                        assert(before.entries().skip(1) =~= old(self).entries().skip(
                            evicted@.len() as int + 1,
                        ));
                        assert forall|k: Seq<char>| self.lru@.contains(k) <==> self.sizes.has(
                            k,
                        ) by {
                            if k != chunk_id@ {
                                if before.lru@.contains(k) {
                                    let i = before.lru@.index_of(k);
                                    assert(before.lru@[i] == k);
                                    assert(i > 0);
                                    assert(self.lru@[i - 1] == k);
                                }
                                if self.lru@.contains(k) {
                                    let i = self.lru@.index_of(k);
                                    assert(self.lru@[i] == k);
                                    assert(before.lru@[i + 1] == k);
                                }
                            } else {
                                if self.lru@.contains(k) {
                                    let i = self.lru@.index_of(k);
                                    assert(self.lru@[i] == k);
                                }
                            }
                        }
                        assert(old(self).entries()[evicted@.len() as int] == before.entries()[0]);
                    }
                    self.current_size = self.current_size - size;
                    evicted.push(chunk_id);
                },
                None => {
                    proof {
                        assert(self.entries() =~= Seq::<Entry>::empty());
                    }
                    return (evicted, Err(Error::CacheFull));
                },
            }
        }
    }

    /// Put a chunk of `size` bytes in cache: room is made for it, and where
    /// it fits it becomes the most recently used entry, for its file to be
    /// written. The ids that left come back, oldest first, for their files to
    /// be deleted. After a chunk has been put, the cache is within its
    /// capacity.
    pub fn put(&mut self, chunk_id: &str, size: u64) -> (r: (Vec<String>, Result<()>))
        requires
            old(self).wf(),
        ensures
            final(self).wf(),
            final(self).capacity() == old(self).capacity(),
            final(self).queue() == old(self).queue(),
            final(self).prefetching() == old(self).prefetching(),
            ({
                let n = evict_count(old(self).entries(), size as nat, old(self).capacity());
                let rest = old(self).entries().skip(n as int);
                &&& n <= old(self).entries().len()
                &&& r.0@.len() == n
                &&& forall|i: int| 0 <= i < n ==> (#[trigger] r.0@[i])@ == old(self).entries()[i].0
                &&& r.1.is_ok() ==> final(self).entries() == without(rest, chunk_id@).push(
                    (chunk_id@, size),
                )
                &&& r.1.is_err() ==> final(self).entries().len() == 0
            }),
            r.1.is_ok() == (size <= old(self).capacity()),
            r.1.is_ok() ==> total(final(self).entries()) <= final(self).capacity() && final(self).holds(chunk_id@),
            r.1 matches Err(e) ==> e is CacheFull,
            forall|i: int|
                0 <= i < r.0@.len() && (#[trigger] r.0@[i])@ != chunk_id@ ==> !final(self).holds(
                    r.0@[i]@,
                ),
    {
        let ghost before = *self;
        let (evicted, fits) = self.ensure_space(size);
        let ghost rest = self.entries();
        proof {
            before.lemma_distinct();
            self.lemma_distinct();
            lemma_total_without(rest, chunk_id@);
            assert forall|i: int| 0 <= i < evicted@.len() implies !ids(rest).contains(
                (#[trigger] evicted@[i])@,
            ) by {
                assert forall|j: int| 0 <= j < rest.len() implies ids(rest)[j] != evicted@[i]@ by {
                    assert(ids(before.entries())[j + evicted@.len()] != ids(before.entries())[i]);
                }
            }
        }
        match fits {
            Ok(()) => {
                self.record(chunk_id, size);
                proof {
                    let kept = without(rest, chunk_id@);
                    assert(self.entries().drop_last() =~= kept);
                    assert(ids(self.entries())[kept.len() as int] == chunk_id@);
                    assert forall|i: int|
                        0 <= i < evicted@.len() && (#[trigger] evicted@[i])@
                            != chunk_id@ implies !self.holds(evicted@[i]@) by {
                        let k = evicted@[i]@;
                        lemma_forget_membership(ids(rest), chunk_id@, k);
                        assert forall|j: int| 0 <= j < self.entries().len() implies ids(
                            self.entries(),
                        )[j] != k by {
                            if j < kept.len() {
                                assert(ids(kept)[j] == ids(self.entries())[j]);
                                assert(ids(kept).contains(ids(kept)[j]));
                            }
                        }
                    }
                }
                (evicted, Ok(()))
            },
            Err(e) => {
                proof {
                    assert(ids(self.entries()) =~= Seq::<Seq<char>>::empty());
                }
                (evicted, Err(e))
            },
        }
    }

    /// Remove a chunk from cache, for its file to be deleted. The result
    /// tells whether the chunk was cached.
    pub fn remove(&mut self, chunk_id: &str) -> (r: bool)
        requires
            old(self).wf(),
        ensures
            final(self).wf(),
            final(self).capacity() == old(self).capacity(),
            final(self).queue() == old(self).queue(),
            final(self).prefetching() == old(self).prefetching(),
            r == old(self).holds(chunk_id@),
            final(self).entries() == without(old(self).entries(), chunk_id@),
            !final(self).holds(chunk_id@),
    {
        proof {
            self.lemma_distinct();
            assert(ids(self.entries()) =~= self.lru@);
            lemma_total_without(self.entries(), chunk_id@);
        }
        let ghost before = *self;
        let removed = self.sizes.remove(chunk_id);
        let key = String::from_str(chunk_id);
        self.lru.remove(&key);
        proof {
            let kept = forget(before.lru@, chunk_id@);
            assert forall|i: int| 0 <= i < kept.len() implies kept[i] != chunk_id@
                && before.lru@.contains(kept[i]) && without(before.entries(), chunk_id@)[i] == (
                kept[i],
                before.sizes@[kept[i]],
            ) && #[trigger] self.entries()[i] == without(before.entries(), chunk_id@)[i] by {
                assert(self.lru@.contains(self.lru@[i]));
                lemma_without_entries(before.lru@, before.sizes@, chunk_id@, i);
            }
            assert(ids(without(before.entries(), chunk_id@)) == kept);
            assert(self.entries() =~= without(before.entries(), chunk_id@));
            assert forall|k: Seq<char>| self.lru@.contains(k) <==> self.sizes.has(k) by {
                lemma_forget_membership(before.lru@, chunk_id@, k);
            }
            assert(ids(self.entries()) =~= self.lru@);
        }
        match removed {
            Some(size) => {
                proof {
                    let p = before.lru@.index_of(chunk_id@);
                    assert(before.lru@[p] == chunk_id@);
                    assert(before.entries()[p].1 == size);
                }
                self.current_size = self.current_size - size;
                true
            },
            None => false,
        }
    }

    /// Queue chunks for prefetching: ids that are neither cached nor queued
    /// join the queue, in the order given. Nothing is queued while
    /// prefetching is disabled.
    pub fn queue_prefetch(&mut self, chunk_ids: Vec<String>)
        requires
            old(self).wf(),
        ensures
            final(self).wf(),
            final(self).capacity() == old(self).capacity(),
            final(self).entries() == old(self).entries(),
            final(self).prefetching() == old(self).prefetching(),
            final(self).queue() == if old(self).prefetching() {
                queued(old(self).queue(), ids(old(self).entries()), strings(chunk_ids@))
            } else {
                old(self).queue()
            },
    {
        if !self.prefetch_enabled {
            return ;
        }
        proof {
            assert(ids(self.entries()) =~= self.lru@);
        }
        let mut chunk_ids = chunk_ids;
        let ghost wanted = strings(chunk_ids@);
        let n = chunk_ids.len();
        let mut i: usize = 0;
        while i < n
            invariant
                self.wf(),
                self.capacity() == old(self).capacity(),
                self.entries() == old(self).entries(),
                self.prefetching() == old(self).prefetching(),
                n == chunk_ids@.len(),
                i <= n,
                wanted.len() == n,
                forall|j: int| i <= j < n ==> (#[trigger] chunk_ids@[j])@ == wanted[j],
                self.queue() == queued(
                    old(self).queue(),
                    ids(old(self).entries()),
                    wanted.take(i as int),
                ),
            decreases n - i,
        {
            proof {
                let next = wanted.take(i + 1);
                assert(next.drop_last() =~= wanted.take(i as int));
                assert(next.last() == wanted[i as int]);
                assert(ids(self.entries()) =~= self.lru@);
            }
            let mut id = String::new();
            let ghost before_ids = chunk_ids@;
            core::mem::swap(&mut id, &mut chunk_ids[i]);
            assert(id@ == wanted[i as int]);
            if !self.sizes.contains_key(id.as_str()) && !self.is_queued(id.as_str()) {
                let ghost before_queue = self.queue();
                self.prefetch_queue.push_back(id);
                assert(self.queue() =~= before_queue.push(wanted[i as int]));
            }
            i += 1;
        }
        assert(wanted.take(n as int) =~= wanted);
    }

    /// Whether `chunk_id` waits in the prefetch queue.
    fn is_queued(&self, chunk_id: &str) -> (r: bool)
        ensures
            r == self.queue().contains(chunk_id@),
    {
        let mut i: usize = 0;
        while i < self.prefetch_queue.len()
            invariant
                i <= self.prefetch_queue@.len(),
                forall|j: int| 0 <= j < i ==> self.queue()[j] != chunk_id@,
            decreases self.prefetch_queue@.len() - i,
        {
            if crate::table::str_eq(self.prefetch_queue[i].as_str(), chunk_id) {
                assert(self.queue()[i as int] == chunk_id@);
                return true;
            }
            i += 1;
        }
        false
    }

    /// Get next chunk to prefetch.
    pub fn next_prefetch(&mut self) -> (r: Option<String>)
        requires
            old(self).wf(),
        ensures
            final(self).wf(),
            final(self).capacity() == old(self).capacity(),
            final(self).entries() == old(self).entries(),
            final(self).prefetching() == old(self).prefetching(),
            match r {
                Some(id) => old(self).queue().len() > 0 && id@ == old(self).queue()[0] && final(self).queue() == old(self).queue().skip(1),
                None => old(self).queue().len() == 0 && final(self).queue().len() == 0,
            },
    {
        let r = self.prefetch_queue.pop_front();
        proof {
            if r.is_some() {
                assert(self.queue() =~= old(self).queue().skip(1));
                assert(old(self).queue()[0] == old(self).prefetch_queue@[0]@);
            }
        }
        r
    }

    /// Get current cache size.
    pub fn size(&self) -> (r: u64)
        requires
            self.wf(),
        ensures
            r == total(self.entries()),
    {
        self.current_size
    }

    /// Get number of cached chunks.
    pub fn count(&self) -> (r: usize)
        ensures
            r == self.entries().len(),
    {
        self.lru.len()
    }

    /// Get cache statistics.
    pub fn stats(&self) -> (r: CacheStats)
        requires
            self.wf(),
        ensures
            r.current_size == total(self.entries()),
            r.max_size == self.capacity(),
            r.chunk_count == self.entries().len(),
            r.prefetch_queue_len == self.queue().len(),
    {
        CacheStats {
            current_size: self.size(),
            max_size: self.max_size,
            chunk_count: self.count(),
            prefetch_queue_len: self.prefetch_queue.len(),
        }
    }

    /// Clear the entire cache, for every file to be deleted. The prefetch
    /// queue stays.
    pub fn clear(&mut self)
        ensures
            final(self).wf(),
            final(self).entries().len() == 0,
            final(self).capacity() == old(self).capacity(),
            final(self).queue() == old(self).queue(),
            final(self).prefetching() == old(self).prefetching(),
    {
        self.lru.clear();
        self.sizes.clear();
        self.current_size = 0;
        assert(self.entries() =~= Seq::<Entry>::empty());
    }
}

/// The strings as character sequences.
pub open spec fn strings(v: Seq<String>) -> Seq<Seq<char>> {
    Seq::new(v.len(), |i: int| v[i]@)
}

/// The prefetch queue after `wanted` has been offered: each id joins the
/// queue unless it is cached or queued already.
pub open spec fn queued(queue: Seq<Seq<char>>, cached: Seq<Seq<char>>, wanted: Seq<Seq<char>>) -> Seq<
    Seq<char>,
>
    decreases wanted.len(),
{
    if wanted.len() == 0 {
        queue
    } else {
        let earlier = queued(queue, cached, wanted.drop_last());
        if cached.contains(wanted.last()) || earlier.contains(wanted.last()) {
            earlier
        } else {
            earlier.push(wanted.last())
        }
    }
}

/// What stays after forgetting an id is what was there under another id.
pub proof fn lemma_forget_membership(s: Seq<Seq<char>>, id: Seq<char>, k: Seq<char>)
    ensures
        forget(s, id).contains(k) <==> (s.contains(k) && k != id),
    decreases s.len(),
{
    if s.len() > 0 {
        let front = s.drop_last();
        lemma_forget_membership(front, id, k);
        if s.contains(k) {
            let i = s.index_of(k);
            assert(s[i] == k);
            if i < front.len() {
                assert(front[i] == k);
            }
        }
        if front.contains(k) {
            let i = front.index_of(k);
            assert(front[i] == k);
            assert(s[i] == k);
        }
        if s.last() != id {
            let kept = forget(front, id);
            assert(forget(s, id) == kept.push(s.last()));
            if kept.contains(k) {
                let i = kept.index_of(k);
                assert(kept[i] == k);
                assert(forget(s, id)[i] == k);
            }
            if forget(s, id).contains(k) {
                let i = forget(s, id).index_of(k);
                assert(forget(s, id)[i] == k);
                if i < kept.len() {
                    assert(kept[i] == k);
                }
            }
            if k == s.last() {
                assert(forget(s, id)[kept.len() as int] == k);
                assert(s[s.len() - 1] == k);
            }
        } else {
            assert(s[s.len() - 1] == id);
        }
    }
}

/// The entries that stay when an id is taken out keep their sizes.
pub proof fn lemma_without_entries(
    recency: Seq<Seq<char>>,
    sizes: Map<Seq<char>, u64>,
    id: Seq<char>,
    i: int,
)
    requires
        0 <= i < forget(recency, id).len(),
    ensures
        without(entries_of(recency, sizes), id).len() == forget(recency, id).len(),
        forget(recency, id)[i] != id,
        recency.contains(forget(recency, id)[i]),
        without(entries_of(recency, sizes), id)[i] == (
            forget(recency, id)[i],
            sizes[forget(recency, id)[i]],
        ),
    decreases recency.len(),
{
    let all = entries_of(recency, sizes);
    if recency.len() > 0 {
        let front = recency.drop_last();
        assert(all.drop_last() =~= entries_of(front, sizes));
        assert(all.last() == (recency.last(), sizes[recency.last()]));
        lemma_without_len(front, sizes, id);
        if recency.last() == id {
            lemma_without_entries(front, sizes, id, i);
            let k = forget(front, id)[i];
            let j = front.index_of(k);
            assert(front[j] == k);
            assert(recency[j] == k);
        } else {
            let kept = forget(front, id);
            if i < kept.len() {
                lemma_without_entries(front, sizes, id, i);
                let k = kept[i];
                let j = front.index_of(k);
                assert(front[j] == k);
                assert(recency[j] == k);
            } else {
                assert(recency[recency.len() - 1] == recency.last());
            }
        }
    }
}

/// Taking an id out of the entries leaves as many entries as ids.
pub proof fn lemma_without_len(recency: Seq<Seq<char>>, sizes: Map<Seq<char>, u64>, id: Seq<char>)
    ensures
        without(entries_of(recency, sizes), id).len() == forget(recency, id).len(),
    decreases recency.len(),
{
    let all = entries_of(recency, sizes);
    if recency.len() > 0 {
        let front = recency.drop_last();
        assert(all.drop_last() =~= entries_of(front, sizes));
        assert(all.last() == (recency.last(), sizes[recency.last()]));
        lemma_without_len(front, sizes, id);
    }
}

} // verus!
