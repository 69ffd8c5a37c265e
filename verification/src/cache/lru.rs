//! Least-recently-used tracking with lazily discarded log entries.
//!
//! The tracker keeps a log of `(key, generation)` pairs, oldest first, and a
//! table that gives every tracked key its current generation. Touching a key
//! appends a new pair to the log and leaves the earlier pair behind as a stale
//! entry, which `pop_oldest` skips and `compact` discards.

use std::collections::VecDeque;
use vstd::prelude::*;

verus! {

/// `s` without every occurrence of `k`.
pub open spec fn forget(s: Seq<Seq<char>>, k: Seq<char>) -> Seq<Seq<char>>
    decreases s.len(),
{
    if s.len() == 0 {
        s
    } else if s.last() == k {
        forget(s.drop_last(), k)
    } else {
        forget(s.drop_last(), k).push(s.last())
    }
}

/// Forgetting a key that does not occur changes nothing.
pub proof fn lemma_forget_absent(s: Seq<Seq<char>>, k: Seq<char>)
    requires
        !s.contains(k),
    ensures
        forget(s, k) == s,
    decreases s.len(),
{
    if s.len() > 0 {
        assert(s.last() == s[s.len() - 1]);
        assert forall|i: int| 0 <= i < s.drop_last().len() implies s.drop_last()[i] != k by {
            assert(s.drop_last()[i] == s[i]);
        }
        assert(!s.drop_last().contains(k));
        lemma_forget_absent(s.drop_last(), k);
        assert(s.drop_last().push(s.last()) =~= s);
    }
}

/// In a sequence without duplicates, forgetting the key at index `p` removes
/// exactly that position.
pub proof fn lemma_forget_at(s: Seq<Seq<char>>, k: Seq<char>, p: int)
    requires
        s.no_duplicates(),
        0 <= p < s.len(),
        s[p] == k,
    ensures
        forget(s, k) == s.remove(p),
    decreases s.len(),
{
    let front = s.drop_last();
    assert(front.no_duplicates()) by {
        assert forall|i: int, j: int| 0 <= i < front.len() && 0 <= j < front.len() && i != j
            implies front[i] != front[j] by {
            assert(front[i] == s[i] && front[j] == s[j]);
        }
    }
    if p == s.len() - 1 {
        assert(!front.contains(k)) by {
            assert forall|i: int| 0 <= i < front.len() implies front[i] != k by {
                assert(front[i] == s[i]);
            }
        }
        lemma_forget_absent(front, k);
        assert(s.remove(p) =~= front);
    } else {
        assert(s.last() == s[s.len() - 1]);
        assert(s.last() != k);
        assert(front[p] == k);
        lemma_forget_at(front, k, p);
        assert(front.remove(p).push(s.last()) =~= s.remove(p));
    }
}

/// `(k, g)` occurs in the log.
pub open spec fn logged(log: Seq<(String, usize)>, k: Seq<char>, g: usize) -> bool {
    exists|j: int| 0 <= j < log.len() && (#[trigger] log[j]).0@ == k && log[j].1 == g
}

/// LRU tracker over string keys.
///
/// Its view is the sequence of tracked keys from the least recently used to
/// the most recently used.
pub struct LruCache {
    /// Log of accesses, oldest first; may hold stale entries.
    order: VecDeque<(String, usize)>,
    /// Tracked keys with their current generation, oldest first.
    positions: Vec<(String, usize)>,
    /// Last generation handed out.
    generation: usize,
}

impl View for LruCache {
    type V = Seq<Seq<char>>;

    closed spec fn view(&self) -> Seq<Seq<char>> {
        Seq::new(self.positions@.len(), |i: int| self.positions@[i].0@)
    }
}

impl LruCache {
    /// The representation invariant.
    pub closed spec fn wf(&self) -> bool {
        &&& forall|i: int, j: int|
            0 <= i < j < self.positions@.len() ==> (#[trigger] self.positions@[i]).1 < (
            #[trigger] self.positions@[j]).1
        &&& forall|i: int, j: int|
            0 <= i < self.positions@.len() && 0 <= j < self.positions@.len() && i != j ==> (
            #[trigger] self.positions@[i]).0@ != (#[trigger] self.positions@[j]).0@
        &&& forall|i: int, j: int|
            0 <= i < j < self.order@.len() ==> (#[trigger] self.order@[i]).1 < (
            #[trigger] self.order@[j]).1
        &&& forall|i: int|
            0 <= i < self.positions@.len() ==> logged(
                self.order@,
                (#[trigger] self.positions@[i]).0@,
                self.positions@[i].1,
            )
        &&& forall|i: int|
            0 <= i < self.positions@.len() ==> (#[trigger] self.positions@[i]).1
                <= self.generation
        &&& forall|j: int|
            0 <= j < self.order@.len() ==> (#[trigger] self.order@[j]).1 <= self.generation
    }

    /// Number of entries in the access log, stale ones included.
    pub closed spec fn log_len(&self) -> nat {
        self.order@.len()
    }

    /// A well-formed tracker never tracks a key twice.
    pub proof fn lemma_no_duplicates(&self)
        requires
            self.wf(),
        ensures
            self@.no_duplicates(),
    {
        assert forall|i: int, j: int| 0 <= i < self@.len() && 0 <= j < self@.len() && i != j
            implies self@[i] != self@[j] by {
            assert(self.positions@[i].0@ != self.positions@[j].0@);
        }
    }

    /// Create an empty tracker.
    pub fn new() -> (r: Self)
        ensures
            r.wf(),
            r@ == Seq::<Seq<char>>::empty(),
            r.log_len() == 0,
    {
        let r = LruCache { order: VecDeque::new(), positions: Vec::new(), generation: 0 };
        assert(r@ =~= Seq::<Seq<char>>::empty());
        r
    }

    /// Index of `key` in the table of tracked keys.
    fn find(&self, key: &String) -> (r: Option<usize>)
        ensures
            match r {
                Some(p) => p < self.positions@.len() && self.positions@[p as int].0@ == key@,
                None => forall|i: int|
                    0 <= i < self.positions@.len() ==> (#[trigger] self.positions@[i]).0@ != key@,
            },
    {
        let mut i: usize = 0;
        while i < self.positions.len()
            invariant
                i <= self.positions@.len(),
                forall|j: int| 0 <= j < i ==> (#[trigger] self.positions@[j]).0@ != key@,
            decreases self.positions@.len() - i,
        {
            if self.positions[i].0 == *key {
                return Some(i);
            }
            i += 1;
        }
        None
    }

    /// Drop `key` from the table of tracked keys; its log entries stay behind.
    fn untrack(&mut self, key: &String)
        requires
            old(self).wf(),
        ensures
            final(self).wf(),
            final(self)@ == forget(old(self)@, key@),
            !final(self)@.contains(key@),
            final(self).order == old(self).order,
            final(self).generation == old(self).generation,
    {
        proof {
            self.lemma_no_duplicates();
        }
        match self.find(key) {
            Some(p) => {
                let ghost before = self.positions@;
                self.positions.remove(p);
                proof {
                    assert forall|i: int| 0 <= i < self.positions@.len() implies (
                    #[trigger] self.positions@[i]) == before[if i < p {
                        i
                    } else {
                        i + 1
                    }] by {}
                    assert(old(self)@[p as int] == key@);
                    lemma_forget_at(old(self)@, key@, p as int);
                    assert(self@ =~= old(self)@.remove(p as int));
                    assert forall|i: int| 0 <= i < self@.len() implies self@[i] != key@ by {
                        let oi = if i < p { i } else { i + 1 };
                        assert(self.positions@[i] == before[oi]);
                        assert(before[oi].0@ != before[p as int].0@);
                    }
                    assert forall|i: int, j: int| 0 <= i < j < self.positions@.len() implies (
                    #[trigger] self.positions@[i]).1 < (#[trigger] self.positions@[j]).1 by {
                        let oi = if i < p { i } else { i + 1 };
                        let oj = if j < p { j } else { j + 1 };
                        assert(before[oi].1 < before[oj].1);
                    }
                    assert forall|i: int, j: int|
                        0 <= i < self.positions@.len() && 0 <= j < self.positions@.len() && i
                            != j implies (#[trigger] self.positions@[i]).0@ != (
                    #[trigger] self.positions@[j]).0@ by {
                        let oi = if i < p { i } else { i + 1 };
                        let oj = if j < p { j } else { j + 1 };
                        assert(before[oi].0@ != before[oj].0@);
                    }
                    assert forall|i: int| 0 <= i < self.positions@.len() implies logged(
                        self.order@,
                        (#[trigger] self.positions@[i]).0@,
                        self.positions@[i].1,
                    ) by {
                        let oi = if i < p { i } else { i + 1 };
                        assert(logged(self.order@, before[oi].0@, before[oi].1));
                    }
                    assert forall|i: int| 0 <= i < self.positions@.len() implies (
                    #[trigger] self.positions@[i]).1 <= self.generation by {
                        let oi = if i < p { i } else { i + 1 };
                        assert(before[oi].1 <= self.generation);
                    }
                }
            },
            None => {
                proof {
                    assert(!old(self)@.contains(key@)) by {
                        assert forall|i: int| 0 <= i < old(self)@.len() implies old(self)@[i]
                            != key@ by {
                            assert(self.positions@[i].0@ != key@);
                        }
                    }
                    lemma_forget_absent(old(self)@, key@);
                }
            },
        }
    }

    /// Give every tracked key a fresh generation `1, 2, ..` in recency order
    /// and rewrite the log to hold exactly the tracked keys.
    fn renumber(&mut self)
        requires
            forall|i: int, j: int|
                0 <= i < old(self).positions@.len() && 0 <= j < old(self).positions@.len() && i
                    != j ==> (#[trigger] old(self).positions@[i]).0@ != (#[trigger] old(
                    self,
                ).positions@[j]).0@,
        ensures
            final(self).wf(),
            final(self)@ == old(self)@,
            final(self).generation == final(self)@.len(),
            final(self).log_len() == final(self)@.len(),
    {
        let n = self.positions.len();
        let mut fresh: Vec<(String, usize)> = Vec::new();
        let mut log: VecDeque<(String, usize)> = VecDeque::new();
        let mut i: usize = 0;
        while i < n
            invariant
                n == self.positions@.len(),
                i <= n,
                fresh@.len() == i,
                log@.len() == i,
                forall|j: int|
                    0 <= j < i ==> (#[trigger] fresh@[j]).0@ == self.positions@[j].0@ && fresh@[j].1
                        == j + 1,
                forall|j: int|
                    0 <= j < i ==> (#[trigger] log@[j]).0@ == self.positions@[j].0@ && log@[j].1
                        == j + 1,
            decreases n - i,
        {
            let key = self.positions[i].0.clone();
            let again = key.clone();
            fresh.push((key, i + 1));
            log.push_back((again, i + 1));
            i += 1;
        }
        let ghost before = self@;
        self.positions = fresh;
        self.order = log;
        self.generation = n;
        proof {
            assert(self@ =~= before);
            assert forall|i: int| 0 <= i < self.positions@.len() implies logged(
                self.order@,
                (#[trigger] self.positions@[i]).0@,
                self.positions@[i].1,
            ) by {
                assert(self.order@[i].0@ == self.positions@[i].0@ && self.order@[i].1
                    == self.positions@[i].1);
            }
        }
    }

    /// Append `key` as the most recent entry; `key` must not be tracked.
    fn track(&mut self, key: String)
        requires
            old(self).wf(),
            !old(self)@.contains(key@),
        ensures
            final(self).wf(),
            final(self)@ == old(self)@.push(key@),
    {
        proof {
            assert forall|i: int| 0 <= i < self.positions@.len() implies (
            #[trigger] self.positions@[i]).0@ != key@ by {
                assert(self@[i] == self.positions@[i].0@);
            }
        }
        if self.generation < usize::MAX {
            self.generation += 1;
            let ghost log_before = self.order@;
            let ghost table_before = self.positions@;
            self.positions.push((key.clone(), self.generation));
            self.order.push_back((key, self.generation));
            proof {
                assert(self@ =~= old(self)@.push(key@));
                assert forall|i: int| 0 <= i < self.positions@.len() implies logged(
                    self.order@,
                    (#[trigger] self.positions@[i]).0@,
                    self.positions@[i].1,
                ) by {
                    if i < table_before.len() {
                        assert(logged(log_before, table_before[i].0@, table_before[i].1));
                        let j = choose|j: int|
                            0 <= j < log_before.len() && (#[trigger] log_before[j]).0@
                                == table_before[i].0@ && log_before[j].1 == table_before[i].1;
                        assert(self.order@[j] == log_before[j]);
                    } else {
                        assert(self.order@[log_before.len() as int].1 == self.generation);
                    }
                }
            }
        } else {
            let ghost table_before = self.positions@;
            self.positions.push((key, 0));
            proof {
                assert forall|i: int, j: int|
                    0 <= i < self.positions@.len() && 0 <= j < self.positions@.len() && i
                        != j implies (#[trigger] self.positions@[i]).0@ != (
                #[trigger] self.positions@[j]).0@ by {
                    if i < table_before.len() && j < table_before.len() {
                        assert(table_before[i].0@ != table_before[j].0@);
                    }
                }
            }
            let ghost pushed = self@;
            assert(pushed =~= old(self)@.push(key@));
            self.renumber();
        }
    }

    /// Insert a new item (as most recently used).
    ///
    /// A key that is already tracked moves to the most recent position.
    pub fn insert(&mut self, key: String)
        requires
            old(self).wf(),
        ensures
            final(self).wf(),
            final(self)@ == forget(old(self)@, key@).push(key@),
    {
        self.untrack(&key);
        self.track(key);
    }

    /// Touch an item (mark as recently used); an untracked key is ignored.
    pub fn touch(&mut self, key: &String)
        requires
            old(self).wf(),
        ensures
            final(self).wf(),
            old(self)@.contains(key@) ==> final(self)@ == forget(old(self)@, key@).push(key@),
            !old(self)@.contains(key@) ==> final(self)@ == old(self)@,
    {
        match self.find(key) {
            Some(p) => {
                assert(self@[p as int] == key@);
                self.untrack(key);
                self.track(key.clone());
            },
            None => {
                assert(!self@.contains(key@)) by {
                    assert forall|i: int| 0 <= i < self@.len() implies self@[i] != key@ by {
                        assert(self.positions@[i].0@ != key@);
                    }
                }
            },
        }
    }

    /// Remove an item; its log entries are skipped later.
    pub fn remove(&mut self, key: &String)
        requires
            old(self).wf(),
        ensures
            final(self).wf(),
            final(self)@ == forget(old(self)@, key@),
            !final(self)@.contains(key@),
    {
        self.untrack(key);
    }

    /// Pop the oldest item: the least recently inserted or touched key that is
    /// still tracked.
    pub fn pop_oldest(&mut self) -> (r: Option<String>)
        requires
            old(self).wf(),
        ensures
            final(self).wf(),
            match r {
                Some(k) => old(self)@.len() > 0 && k@ == old(self)@[0] && final(self)@ == old(
                    self,
                )@.skip(1),
                None => old(self)@.len() == 0 && final(self)@.len() == 0,
            },
    {
        loop
            invariant
                self.wf(),
                self@ == old(self)@,
            decreases self.order@.len(),
        {
            let ghost log_before = self.order@;
            match self.order.pop_front() {
                None => {
                    proof {
                        if self.positions@.len() > 0 {
                            assert(logged(
                                self.order@,
                                self.positions@[0].0@,
                                self.positions@[0].1,
                            ));
                        }
                        assert(self@.len() == 0);
                    }
                    return None;
                },
                Some(entry) => {
                    let (key, entry_gen) = entry;
                    let found = self.find(&key);
                    let live = match found {
                        Some(p) => self.positions[p].1 == entry_gen,
                        None => false,
                    };
                    proof {
                        assert(log_before[0].0@ == key@ && log_before[0].1 == entry_gen);
                        assert forall|j: int| 0 <= j < self.order@.len() implies (
                        #[trigger] self.order@[j]) == log_before[j + 1] by {}
                    }
                    if live {
                        let p = found.unwrap();
                        let ghost table_before = self.positions@;
                        proof {
                            // The head of the log is the oldest tracked entry.
                            assert(logged(log_before, table_before[0].0@, table_before[0].1));
                            let j0 = choose|j: int|
                                0 <= j < log_before.len() && (#[trigger] log_before[j]).0@
                                    == table_before[0].0@ && log_before[j].1 == table_before[0].1;
                            if j0 > 0 {
                                assert(log_before[0].1 < log_before[j0].1);
                            }
                            if p > 0 {
                                assert(table_before[0].1 < table_before[p as int].1);
                            }
                            assert(p == 0);
                        }
                        self.positions.remove(p);
                        proof {
                            assert forall|i: int| 0 <= i < self.positions@.len() implies (
                            #[trigger] self.positions@[i]) == table_before[i + 1] by {}
                            assert(self@ =~= old(self)@.skip(1));
                            assert(key@ == old(self)@[0]);
                            assert forall|i: int, j: int|
                                0 <= i < j < self.positions@.len() implies (
                            #[trigger] self.positions@[i]).1 < (#[trigger] self.positions@[j]).1 by {
                                assert(table_before[i + 1].1 < table_before[j + 1].1);
                            }
                            assert forall|i: int, j: int|
                                0 <= i < self.positions@.len() && 0 <= j < self.positions@.len()
                                    && i != j implies (#[trigger] self.positions@[i]).0@ != (
                            #[trigger] self.positions@[j]).0@ by {
                                assert(table_before[i + 1].0@ != table_before[j + 1].0@);
                            }
                            assert forall|i: int, j: int| 0 <= i < j < self.order@.len() implies (
                            #[trigger] self.order@[i]).1 < (#[trigger] self.order@[j]).1 by {
                                assert(log_before[i + 1].1 < log_before[j + 1].1);
                            }
                            assert forall|i: int| 0 <= i < self.positions@.len() implies logged(
                                self.order@,
                                (#[trigger] self.positions@[i]).0@,
                                self.positions@[i].1,
                            ) by {
                                let e = table_before[i + 1];
                                assert(logged(log_before, e.0@, e.1));
                                let j = choose|j: int|
                                    0 <= j < log_before.len() && (#[trigger] log_before[j]).0@
                                        == e.0@ && log_before[j].1 == e.1;
                                assert(table_before[0].1 < e.1);
                                assert(j != 0);
                                assert(self.order@[j - 1] == log_before[j]);
                            }
                            assert forall|i: int| 0 <= i < self.positions@.len() implies (
                            #[trigger] self.positions@[i]).1 <= self.generation by {
                                assert(table_before[i + 1].1 <= self.generation);
                            }
                            assert forall|j: int| 0 <= j < self.order@.len() implies (
                            #[trigger] self.order@[j]).1 <= self.generation by {
                                assert(log_before[j + 1].1 <= self.generation);
                            }
                        }
                        return Some(key);
                    }
                    proof {
                        // A stale head: dropping it loses no tracked entry.
                        assert forall|i: int, j: int| 0 <= i < j < self.order@.len() implies (
                        #[trigger] self.order@[i]).1 < (#[trigger] self.order@[j]).1 by {
                            assert(log_before[i + 1].1 < log_before[j + 1].1);
                        }
                        assert forall|i: int| 0 <= i < self.positions@.len() implies logged(
                            self.order@,
                            (#[trigger] self.positions@[i]).0@,
                            self.positions@[i].1,
                        ) by {
                            let e = self.positions@[i];
                            assert(logged(log_before, e.0@, e.1));
                            let j = choose|j: int|
                                0 <= j < log_before.len() && (#[trigger] log_before[j]).0@ == e.0@
                                    && log_before[j].1 == e.1;
                            if j == 0 {
                                match found {
                                    Some(p) => {
                                        if p as int != i {
                                            assert(self.positions@[p as int].0@
                                                != self.positions@[i].0@);
                                        }
                                        assert(false);
                                    },
                                    None => {
                                        assert(false);
                                    },
                                }
                            }
                            assert(self.order@[j - 1] == log_before[j]);
                        }
                        assert forall|j: int| 0 <= j < self.order@.len() implies (
                        #[trigger] self.order@[j]).1 <= self.generation by {
                            assert(log_before[j + 1].1 <= self.generation);
                        }
                    }
                },
            }
        }
    }

    /// Check if empty.
    pub fn is_empty(&self) -> (r: bool)
        ensures
            r == (self@.len() == 0),
    {
        self.positions.len() == 0
    }

    /// Get count of tracked items.
    pub fn len(&self) -> (r: usize)
        ensures
            r == self@.len(),
    {
        self.positions.len()
    }

    /// Whether `key` is tracked.
    pub fn contains(&self, key: &String) -> (r: bool)
        ensures
            r == self@.contains(key@),
    {
        match self.find(key) {
            Some(p) => {
                assert(self@[p as int] == key@);
                true
            },
            None => {
                assert forall|i: int| 0 <= i < self@.len() implies self@[i] != key@ by {
                    assert(self.positions@[i].0@ != key@);
                }
                false
            },
        }
    }

    /// Clear all items and restart the generation counter.
    pub fn clear(&mut self)
        ensures
            final(self).wf(),
            final(self)@ == Seq::<Seq<char>>::empty(),
            final(self).log_len() == 0,
    {
        self.order.clear();
        self.positions.clear();
        self.generation = 0;
        assert(self@ =~= Seq::<Seq<char>>::empty());
    }

    /// Compact the internal structures: the log is rewritten in generation
    /// order with exactly one entry per tracked key.
    pub fn compact(&mut self)
        requires
            old(self).wf(),
        ensures
            final(self).wf(),
            final(self)@ == old(self)@,
            final(self).log_len() == final(self)@.len(),
    {
        self.renumber();
    }
}

impl Default for LruCache {
    fn default() -> (r: Self)
        ensures
            r.wf(),
            r@ == Seq::<Seq<char>>::empty(),
    {
        Self::new()
    }
}

} // verus!
