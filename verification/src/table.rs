//! A small table keyed by strings.
//!
//! The table keeps its entries in a vector, in the order in which their keys
//! were first inserted, and never holds a key twice.

use vstd::prelude::*;

verus! {

/// `==` of std on string slices: whether the two hold the same characters.
#[verifier::external_body]
pub(crate) fn str_eq(a: &str, b: &str) -> (r: bool)
    ensures
        r == (a@ == b@),
{
    a == b
}

/// Table from string keys to values.
pub struct StrTable<V> {
    entries: Vec<(String, V)>,
}

impl<V> StrTable<V> {
    /// The keys, in insertion order.
    pub closed spec fn keys(&self) -> Seq<Seq<char>> {
        Seq::new(self.entries@.len(), |i: int| self.entries@[i].0@)
    }

    /// The values, in the order of their keys.
    pub closed spec fn values(&self) -> Seq<V> {
        Seq::new(self.entries@.len(), |i: int| self.entries@[i].1)
    }

    /// The representation invariant: no key twice.
    pub open spec fn wf(&self) -> bool {
        &&& self.keys().no_duplicates()
        &&& self.keys().len() == self.values().len()
    }

    /// Whether the table holds `key`.
    pub open spec fn has(&self, key: Seq<char>) -> bool {
        self.keys().contains(key)
    }

    /// The value under `key`, which the table holds.
    pub open spec fn value_of(&self, key: Seq<char>) -> V {
        self.values()[self.keys().index_of(key)]
    }

    /// The table as a map.
    pub open spec fn view(&self) -> Map<Seq<char>, V> {
        Map::new(|k: Seq<char>| self.has(k), |k: Seq<char>| self.value_of(k))
    }

    /// In a well-formed table the value under the key at position `i` is the
    /// value at position `i`.
    pub proof fn lemma_value_at(&self, i: int)
        requires
            self.wf(),
            0 <= i < self.keys().len(),
        ensures
            self.has(self.keys()[i]),
            self.value_of(self.keys()[i]) == self.values()[i],
    {
        let k = self.keys()[i];
        let j = self.keys().index_of(k);
        assert(self.keys()[j] == k);
    }

    /// Create an empty table.
    pub fn new() -> (r: Self)
        ensures
            r.wf(),
            r.keys().len() == 0,
            r@ == Map::<Seq<char>, V>::empty(),
    {
        let r = StrTable { entries: Vec::new() };
        assert(r@ =~= Map::<Seq<char>, V>::empty());
        r
    }

    /// Number of entries.
    pub fn len(&self) -> (r: usize)
        ensures
            r == self.keys().len(),
    {
        self.entries.len()
    }

    /// Position of `key`.
    fn position(&self, key: &str) -> (r: Option<usize>)
        requires
            self.wf(),
        ensures
            match r {
                Some(i) => i < self.keys().len() && self.keys()[i as int] == key@ && self.has(key@)
                    && self.keys().index_of(key@) == i,
                None => !self.has(key@),
            },
    {
        let mut i: usize = 0;
        while i < self.entries.len()
            invariant
                self.wf(),
                i <= self.entries@.len(),
                forall|j: int| 0 <= j < i ==> self.keys()[j] != key@,
            decreases self.entries@.len() - i,
        {
            if str_eq(self.entries[i].0.as_str(), key) {
                assert(self.keys()[i as int] == key@);
                proof {
                    let j = self.keys().index_of(key@);
                    assert(self.keys().contains(key@));
                    assert(0 <= j < self.keys().len() && self.keys()[j] == key@);
                    if j != i {
                        assert(self.keys()[j] != self.keys()[i as int]);
                    }
                }
                return Some(i);
            }
            i += 1;
        }
        None
    }

    /// Whether the table holds `key`.
    pub fn contains_key(&self, key: &str) -> (r: bool)
        requires
            self.wf(),
        ensures
            r == self.has(key@),
    {
        self.position(key).is_some()
    }

    /// The value under `key`.
    pub fn get(&self, key: &str) -> (r: Option<&V>)
        requires
            self.wf(),
        ensures
            match r {
                Some(v) => self.has(key@) && *v == self.value_of(key@),
                None => !self.has(key@),
            },
    {
        match self.position(key) {
            Some(i) => Some(&self.entries[i].1),
            None => None,
        }
    }

    /// Put `value` under `key`; the value that was there comes back. A new
    /// key goes to the end of the key order, a known key keeps its place.
    pub fn insert(&mut self, key: String, value: V) -> (r: Option<V>)
        requires
            old(self).wf(),
        ensures
            final(self).wf(),
            final(self)@ == old(self)@.insert(key@, value),
            final(self).has(key@) && final(self).value_of(key@) == value,
            forall|k: Seq<char>|
                k != key@ ==> final(self).has(k) == old(self).has(k) && (old(self).has(k)
                    ==> final(self).value_of(k) == old(self).value_of(k)),
            match r {
                Some(v) => old(self).has(key@) && v == old(self).value_of(key@) && final(self).keys() == old(self).keys(),
                None => !old(self).has(key@) && final(self).keys() == old(self).keys().push(key@),
            },
    {
        let ghost before = *self;
        let found = self.position(key.as_str());
        let r = match found {
            Some(i) => {
                let previous = self.entries.remove(i);
                self.entries.insert(i, (key, value));
                assert(self.keys() =~= before.keys());
                assert(self.values() =~= before.values().update(i as int, value));
                Some(previous.1)
            },
            None => {
                self.entries.push((key, value));
                assert(self.keys() =~= before.keys().push(key@));
                assert(self.values() =~= before.values().push(value));
                None
            },
        };
        proof {
            assert(self.keys().no_duplicates());
            let p = match found {
                Some(i) => i as int,
                None => before.keys().len() as int,
            };
            assert(self.keys()[p] == key@);
            self.lemma_value_at(p);
            assert forall|k: Seq<char>| k != key@ implies self.has(k) == before.has(k) && (
            before.has(k) ==> self.value_of(k) == before.value_of(k)) by {
                if before.has(k) {
                    let j = before.keys().index_of(k);
                    assert(before.keys()[j] == k);
                    assert(self.keys()[j] == k);
                    self.lemma_value_at(j);
                    before.lemma_value_at(j);
                }
                if self.has(k) {
                    let j = self.keys().index_of(k);
                    assert(self.keys()[j] == k);
                    assert(before.keys()[j] == k);
                }
            }
            assert(self@ =~= before@.insert(key@, value));
        }
        r
    }

    /// Take `key` out of the table; its value comes back.
    pub fn remove(&mut self, key: &str) -> (r: Option<V>)
        requires
            old(self).wf(),
        ensures
            final(self).wf(),
            final(self)@ == old(self)@.remove(key@),
            !final(self).has(key@),
            forall|k: Seq<char>|
                k != key@ ==> final(self).has(k) == old(self).has(k) && (old(self).has(k)
                    ==> final(self).value_of(k) == old(self).value_of(k)),
            match r {
                Some(v) => old(self).has(key@) && v == old(self).value_of(key@) && final(self).keys() == old(self).keys().remove(old(self).keys().index_of(key@)),
                None => !old(self).has(key@) && final(self).keys() == old(self).keys(),
            },
    {
        let ghost before = *self;
        match self.position(key) {
            Some(i) => {
                let previous = self.entries.remove(i);
                proof {
                    assert(self.keys() =~= before.keys().remove(i as int));
                    assert(self.values() =~= before.values().remove(i as int));
                    before.lemma_value_at(i as int);
                    assert forall|a: int, b: int|
                        0 <= a < self.keys().len() && 0 <= b < self.keys().len() && a
                            != b implies self.keys()[a] != self.keys()[b] by {
                        let oa = if a < i { a } else { a + 1 };
                        let ob = if b < i { b } else { b + 1 };
                        assert(before.keys()[oa] != before.keys()[ob]);
                    }
                    assert forall|a: int| 0 <= a < self.keys().len() implies self.keys()[a]
                        != key@ by {
                        let oa = if a < i { a } else { a + 1 };
                        assert(before.keys()[oa] != before.keys()[i as int]);
                    }
                    assert forall|k: Seq<char>| k != key@ implies self.has(k) == before.has(k) && (
                    before.has(k) ==> self.value_of(k) == before.value_of(k)) by {
                        if before.has(k) {
                            let j = before.keys().index_of(k);
                            assert(before.keys()[j] == k);
                            let nj = if j < i { j } else { j - 1 };
                            assert(self.keys()[nj] == k);
                            self.lemma_value_at(nj);
                            before.lemma_value_at(j);
                        }
                        if self.has(k) {
                            let j = self.keys().index_of(k);
                            assert(self.keys()[j] == k);
                            let oj = if j < i { j } else { j + 1 };
                            assert(before.keys()[oj] == k);
                        }
                    }
                    assert(self@ =~= before@.remove(key@));
                }
                Some(previous.1)
            },
            None => {
                assert(self@ =~= before@.remove(key@));
                None
            },
        }
    }

    /// Drop every entry.
    pub fn clear(&mut self)
        ensures
            final(self).wf(),
            final(self).keys().len() == 0,
            final(self)@ == Map::<Seq<char>, V>::empty(),
    {
        self.entries.clear();
        assert(self@ =~= Map::<Seq<char>, V>::empty());
    }
}

/// A key of a scoped table: a scope and a name within it.
pub type ScopedKey = (u64, Seq<char>);

/// The names that `keys` hold in `scope`, in key order.
pub open spec fn names_in(keys: Seq<ScopedKey>, scope: u64) -> Seq<Seq<char>>
    decreases keys.len(),
{
    if keys.len() == 0 {
        Seq::empty()
    } else if keys.last().0 == scope {
        names_in(keys.drop_last(), scope).push(keys.last().1)
    } else {
        names_in(keys.drop_last(), scope)
    }
}

/// The scopes that `keys` hold, each once, in the order of their first key.
pub open spec fn scopes_of(keys: Seq<ScopedKey>) -> Seq<u64>
    decreases keys.len(),
{
    if keys.len() == 0 {
        Seq::empty()
    } else {
        let earlier = scopes_of(keys.drop_last());
        if earlier.contains(keys.last().0) {
            earlier
        } else {
            earlier.push(keys.last().0)
        }
    }
}

/// The names in a scope are the names of the keys of that scope.
pub proof fn lemma_names_in(keys: Seq<ScopedKey>, scope: u64, name: Seq<char>)
    ensures
        names_in(keys, scope).contains(name) <==> keys.contains((scope, name)),
    decreases keys.len(),
{
    if keys.len() > 0 {
        let front = keys.drop_last();
        lemma_names_in(front, scope, name);
        let names = names_in(keys, scope);
        let earlier = names_in(front, scope);
        if keys.contains((scope, name)) {
            let i = keys.index_of((scope, name));
            assert(keys[i] == (scope, name));
            if i < front.len() {
                assert(front[i] == (scope, name));
                let j = earlier.index_of(name);
                assert(earlier[j] == name);
                assert(names[j] == name);
            } else {
                assert(names[earlier.len() as int] == name);
            }
        }
        if names.contains(name) {
            let j = names.index_of(name);
            assert(names[j] == name);
            if j < earlier.len() {
                assert(earlier[j] == name);
                let i = front.index_of((scope, name));
                assert(front[i] == (scope, name));
                assert(keys[i] == (scope, name));
            } else {
                assert(keys[keys.len() - 1] == (scope, name));
            }
        }
    }
}

/// Table from scoped names to values: each key is a number, the scope, and a
/// name within that scope. The entries are kept in the order in which their
/// keys were first inserted.
pub struct ScopedTable<V> {
    entries: Vec<(u64, String, V)>,
}

impl<V> ScopedTable<V> {
    /// The keys, in insertion order.
    pub closed spec fn keys(&self) -> Seq<ScopedKey> {
        Seq::new(self.entries@.len(), |i: int| (self.entries@[i].0, self.entries@[i].1@))
    }

    /// The values, in the order of their keys.
    pub closed spec fn values(&self) -> Seq<V> {
        Seq::new(self.entries@.len(), |i: int| self.entries@[i].2)
    }

    /// The representation invariant: no key twice.
    pub open spec fn wf(&self) -> bool {
        &&& self.keys().no_duplicates()
        &&& self.keys().len() == self.values().len()
    }

    /// Whether the table holds `key`.
    pub open spec fn has(&self, key: ScopedKey) -> bool {
        self.keys().contains(key)
    }

    /// The value under `key`, which the table holds.
    pub open spec fn value_of(&self, key: ScopedKey) -> V {
        self.values()[self.keys().index_of(key)]
    }

    /// The table as a map.
    pub open spec fn view(&self) -> Map<ScopedKey, V> {
        Map::new(|k: ScopedKey| self.has(k), |k: ScopedKey| self.value_of(k))
    }

    /// In a well-formed table the value under the key at position `i` is the
    /// value at position `i`.
    pub proof fn lemma_value_at(&self, i: int)
        requires
            self.wf(),
            0 <= i < self.keys().len(),
        ensures
            self.has(self.keys()[i]),
            self.value_of(self.keys()[i]) == self.values()[i],
    {
        let k = self.keys()[i];
        let j = self.keys().index_of(k);
        assert(self.keys()[j] == k);
    }

    /// Create an empty table.
    pub fn new() -> (r: Self)
        ensures
            r.wf(),
            r.keys().len() == 0,
            r@ == Map::<ScopedKey, V>::empty(),
    {
        let r = ScopedTable { entries: Vec::new() };
        assert(r@ =~= Map::<ScopedKey, V>::empty());
        r
    }

    /// Number of entries.
    pub fn len(&self) -> (r: usize)
        ensures
            r == self.keys().len(),
            r == self.values().len(),
    {
        self.entries.len()
    }

    /// The scope of the entry at position `i`.
    pub fn scope_at(&self, i: usize) -> (r: u64)
        requires
            i < self.keys().len(),
        ensures
            r == self.keys()[i as int].0,
    {
        self.entries[i].0
    }

    /// The name of the entry at position `i`.
    pub fn name_at(&self, i: usize) -> (r: &str)
        requires
            i < self.keys().len(),
        ensures
            r@ == self.keys()[i as int].1,
    {
        self.entries[i].1.as_str()
    }

    /// The value of the entry at position `i`.
    pub fn value_at(&self, i: usize) -> (r: &V)
        requires
            i < self.keys().len(),
        ensures
            *r == self.values()[i as int],
    {
        &self.entries[i].2
    }

    /// Position of a key.
    fn position(&self, scope: u64, name: &str) -> (r: Option<usize>)
        requires
            self.wf(),
        ensures
            match r {
                Some(i) => i < self.keys().len() && self.keys()[i as int] == (scope, name@)
                    && self.has((scope, name@)) && self.keys().index_of((scope, name@)) == i,
                None => !self.has((scope, name@)),
            },
    {
        let mut i: usize = 0;
        while i < self.entries.len()
            invariant
                self.wf(),
                i <= self.entries@.len(),
                forall|j: int| 0 <= j < i ==> self.keys()[j] != (scope, name@),
            decreases self.entries@.len() - i,
        {
            if self.entries[i].0 == scope && str_eq(self.entries[i].1.as_str(), name) {
                proof {
                    let key = (scope, name@);
                    assert(self.keys()[i as int] == key);
                    let j = self.keys().index_of(key);
                    assert(self.keys().contains(key));
                    assert(0 <= j < self.keys().len() && self.keys()[j] == key);
                    if j != i {
                        assert(self.keys()[j] != self.keys()[i as int]);
                    }
                }
                return Some(i);
            }
            i += 1;
        }
        None
    }

    /// Whether the table holds a key.
    pub fn contains_key(&self, scope: u64, name: &str) -> (r: bool)
        requires
            self.wf(),
        ensures
            r == self.has((scope, name@)),
    {
        self.position(scope, name).is_some()
    }

    /// The value under a key.
    pub fn get(&self, scope: u64, name: &str) -> (r: Option<&V>)
        requires
            self.wf(),
        ensures
            match r {
                Some(v) => self.has((scope, name@)) && *v == self.value_of((scope, name@)),
                None => !self.has((scope, name@)),
            },
    {
        match self.position(scope, name) {
            Some(i) => Some(&self.entries[i].2),
            None => None,
        }
    }

    /// Put `value` under a key; the value that was there comes back. A new
    /// key goes to the end of the key order, a known key keeps its place.
    pub fn insert(&mut self, scope: u64, name: String, value: V) -> (r: Option<V>)
        requires
            old(self).wf(),
        ensures
            final(self).wf(),
            final(self)@ == old(self)@.insert((scope, name@), value),
            final(self).has((scope, name@)) && final(self).value_of((scope, name@)) == value,
            forall|k: ScopedKey|
                k != (scope, name@) ==> final(self).has(k) == old(self).has(k) && (old(self).has(k)
                    ==> final(self).value_of(k) == old(self).value_of(k)),
            match r {
                Some(v) => old(self).has((scope, name@)) && v == old(self).value_of((scope, name@))
                    && final(self).keys() == old(self).keys() && final(self).values() == old(self).values().update(old(self).keys().index_of((scope, name@)), value),
                None => !old(self).has((scope, name@)) && final(self).keys() == old(self).keys().push((scope, name@)) && final(self).values() == old(self).values().push(
                    value,
                ),
            },
    {
        let ghost before = *self;
        let ghost key = (scope, name@);
        let found = self.position(scope, name.as_str());
        let r = match found {
            Some(i) => {
                let previous = self.entries.remove(i);
                self.entries.insert(i, (scope, name, value));
                assert(self.keys() =~= before.keys());
                assert(self.values() =~= before.values().update(i as int, value));
                Some(previous.2)
            },
            None => {
                self.entries.push((scope, name, value));
                assert(self.keys() =~= before.keys().push(key));
                assert(self.values() =~= before.values().push(value));
                None
            },
        };
        proof {
            assert(self.keys().no_duplicates());
            let p = match found {
                Some(i) => i as int,
                None => before.keys().len() as int,
            };
            assert(self.keys()[p] == key);
            self.lemma_value_at(p);
            assert forall|k: ScopedKey| k != key implies self.has(k) == before.has(k) && (
            before.has(k) ==> self.value_of(k) == before.value_of(k)) by {
                if before.has(k) {
                    let j = before.keys().index_of(k);
                    assert(before.keys()[j] == k);
                    assert(self.keys()[j] == k);
                    self.lemma_value_at(j);
                    before.lemma_value_at(j);
                }
                if self.has(k) {
                    let j = self.keys().index_of(k);
                    assert(self.keys()[j] == k);
                    assert(before.keys()[j] == k);
                }
            }
            assert(self@ =~= before@.insert(key, value));
        }
        r
    }

    /// Take a key out of the table; its value comes back.
    pub fn remove(&mut self, scope: u64, name: &str) -> (r: Option<V>)
        requires
            old(self).wf(),
        ensures
            final(self).wf(),
            final(self)@ == old(self)@.remove((scope, name@)),
            !final(self).has((scope, name@)),
            forall|k: ScopedKey|
                k != (scope, name@) ==> final(self).has(k) == old(self).has(k) && (old(self).has(k)
                    ==> final(self).value_of(k) == old(self).value_of(k)),
            match r {
                Some(v) => old(self).has((scope, name@)) && v == old(self).value_of((scope, name@))
                    && final(self).keys() == old(self).keys().remove(
                    old(self).keys().index_of((scope, name@)),
                ) && final(self).values() == old(self).values().remove(
                    old(self).keys().index_of((scope, name@)),
                ),
                None => !old(self).has((scope, name@)) && final(self).keys() == old(self).keys()
                    && final(self).values() == old(self).values(),
            },
    {
        let ghost before = *self;
        let ghost key = (scope, name@);
        match self.position(scope, name) {
            Some(i) => {
                let previous = self.entries.remove(i);
                proof {
                    assert(self.keys() =~= before.keys().remove(i as int));
                    assert(self.values() =~= before.values().remove(i as int));
                    before.lemma_value_at(i as int);
                    assert forall|a: int, b: int|
                        0 <= a < self.keys().len() && 0 <= b < self.keys().len() && a
                            != b implies self.keys()[a] != self.keys()[b] by {
                        let oa = if a < i { a } else { a + 1 };
                        let ob = if b < i { b } else { b + 1 };
                        assert(before.keys()[oa] != before.keys()[ob]);
                    }
                    assert forall|a: int| 0 <= a < self.keys().len() implies self.keys()[a]
                        != key by {
                        let oa = if a < i { a } else { a + 1 };
                        assert(before.keys()[oa] != before.keys()[i as int]);
                    }
                    assert forall|k: ScopedKey| k != key implies self.has(k) == before.has(k) && (
                    before.has(k) ==> self.value_of(k) == before.value_of(k)) by {
                        if before.has(k) {
                            let j = before.keys().index_of(k);
                            assert(before.keys()[j] == k);
                            let nj = if j < i { j } else { j - 1 };
                            assert(self.keys()[nj] == k);
                            self.lemma_value_at(nj);
                            before.lemma_value_at(j);
                        }
                        if self.has(k) {
                            let j = self.keys().index_of(k);
                            assert(self.keys()[j] == k);
                            let oj = if j < i { j } else { j + 1 };
                            assert(before.keys()[oj] == k);
                        }
                    }
                    assert(self@ =~= before@.remove(key));
                }
                Some(previous.2)
            },
            None => {
                assert(self@ =~= before@.remove(key));
                None
            },
        }
    }

    /// Drop every entry.
    pub fn clear(&mut self)
        ensures
            final(self).wf(),
            final(self).keys().len() == 0,
            final(self)@ == Map::<ScopedKey, V>::empty(),
    {
        self.entries.clear();
        assert(self@ =~= Map::<ScopedKey, V>::empty());
    }
}

impl<V> ScopedTable<V> {
    /// The names in a scope, in key order.
    pub fn names_in_scope(&self, scope: u64) -> (r: Vec<String>)
        ensures
            r@.len() == names_in(self.keys(), scope).len(),
            forall|i: int| 0 <= i < r@.len() ==> (#[trigger] r@[i])@ == names_in(self.keys(), scope)[i],
    {
        let mut names: Vec<String> = Vec::new();
        let mut i: usize = 0;
        while i < self.entries.len()
            invariant
                i <= self.entries@.len(),
                self.keys().len() == self.entries@.len(),
                names@.len() == names_in(self.keys().take(i as int), scope).len(),
                forall|j: int|
                    0 <= j < names@.len() ==> (#[trigger] names@[j])@ == names_in(
                        self.keys().take(i as int),
                        scope,
                    )[j],
            decreases self.entries@.len() - i,
        {
            proof {
                let next = self.keys().take(i + 1);
                assert(next.drop_last() =~= self.keys().take(i as int));
                assert(next.last() == self.keys()[i as int]);
            }
            if self.entries[i].0 == scope {
                names.push(self.entries[i].1.clone());
            }
            i += 1;
        }
        assert(self.keys().take(i as int) =~= self.keys());
        names
    }

    /// Number of scopes that hold a key.
    pub fn scope_count(&self) -> (r: usize)
        ensures
            r == scopes_of(self.keys()).len(),
    {
        let mut seen: Vec<u64> = Vec::new();
        let mut i: usize = 0;
        while i < self.entries.len()
            invariant
                i <= self.entries@.len(),
                self.keys().len() == self.entries@.len(),
                seen@ == scopes_of(self.keys().take(i as int)),
            decreases self.entries@.len() - i,
        {
            proof {
                let next = self.keys().take(i + 1);
                assert(next.drop_last() =~= self.keys().take(i as int));
                assert(next.last() == self.keys()[i as int]);
            }
            let scope = self.entries[i].0;
            let mut known = false;
            let mut j: usize = 0;
            while j < seen.len()
                invariant
                    j <= seen@.len(),
                    known == exists|k: int| 0 <= k < j && seen@[k] == scope,
                decreases seen@.len() - j,
            {
                if seen[j] == scope {
                    known = true;
                }
                j += 1;
            }
            if !known {
                seen.push(scope);
            }
            i += 1;
        }
        assert(self.keys().take(i as int) =~= self.keys());
        seen.len()
    }

    /// Take every key of a scope out of the table; the number of keys that
    /// went comes back.
    pub fn remove_scope(&mut self, scope: u64) -> (r: usize)
        requires
            old(self).wf(),
        ensures
            final(self).wf(),
            r == names_in(old(self).keys(), scope).len(),
            forall|k: ScopedKey|
                #[trigger] final(self).has(k) == (old(self).has(k) && k.0 != scope),
            forall|k: ScopedKey|
                final(self).has(k) ==> #[trigger] final(self).value_of(k) == old(self).value_of(k),
    {
        let names = self.names_in_scope(scope);
        let ghost all = names_in(self.keys(), scope);
        let mut i: usize = 0;
        while i < names.len()
            invariant
                self.wf(),
                i <= names@.len(),
                names@.len() == all.len(),
                all == names_in(old(self).keys(), scope),
                forall|j: int| 0 <= j < names@.len() ==> (#[trigger] names@[j])@ == all[j],
                forall|k: ScopedKey|
                    #[trigger] self.has(k) == (old(self).has(k) && !(k.0 == scope && all.take(
                        i as int,
                    ).contains(k.1))),
                forall|k: ScopedKey|
                    self.has(k) ==> #[trigger] self.value_of(k) == old(self).value_of(k),
            decreases names@.len() - i,
        {
            let ghost before = *self;
            let ghost name = all[i as int];
            self.remove(scope, names[i].as_str());
            proof {
                let earlier = all.take(i as int);
                let now = all.take(i + 1);
                assert(now.drop_last() =~= earlier);
                assert(now.last() == name);
                assert forall|k: ScopedKey|
                    #[trigger] self.has(k) == (old(self).has(k) && !(k.0 == scope && now.contains(
                        k.1,
                    ))) by {
                    assert(before.has(k) == (old(self).has(k) && !(k.0 == scope
                        && earlier.contains(k.1))));
                    if earlier.contains(k.1) {
                        let p = earlier.index_of(k.1);
                        assert(earlier[p] == k.1);
                        assert(now[p] == k.1);
                    }
                    if now.contains(k.1) {
                        let p = now.index_of(k.1);
                        assert(now[p] == k.1);
                        if p < i {
                            assert(earlier[p] == k.1);
                        }
                    }
                    if k == (scope, name) {
                        assert(now[i as int] == name);
                    }
                }
                assert forall|k: ScopedKey| self.has(k) implies #[trigger] self.value_of(k) == old(self).value_of(k) by {
                    assert(before.has(k));
                    assert(before.value_of(k) == old(self).value_of(k));
                }
            }
            i += 1;
        }
        proof {
            assert(all.take(i as int) =~= all);
            assert forall|k: ScopedKey|
                #[trigger] self.has(k) == (old(self).has(k) && k.0 != scope) by {
                lemma_names_in(old(self).keys(), scope, k.1);
            }
        }
        names.len()
    }
}

} // verus!
