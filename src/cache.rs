use vstd::prelude::*;

use crate::error::Error;

use vstd::string::StringExecFns;

verus! {

/// How long a cache entry stays live, in seconds.
pub const CACHE_TTL_SECONDS: u64 = 3600;

/// The contents of a cache store: for each key, its value and insertion time.
pub type CacheMap = Map<Seq<char>, (Seq<char>, u64)>;

/// An entry written at `timestamp` is live at `now` while less than the TTL has
/// passed since then.
pub open spec fn is_live(timestamp: u64, now: u64) -> bool {
    (now as int) - (timestamp as int) < CACHE_TTL_SECONDS as int
}

/// The store after `set(k, v)` at time `now`: the entry for `k` is replaced.
pub open spec fn cache_set(m: CacheMap, k: Seq<char>, v: Seq<char>, now: u64) -> CacheMap {
    m.insert(k, (v, now))
}

/// What `get(k)` at time `now` returns: the value of a live entry; an expired
/// entry reads as absent.
pub open spec fn cache_get(m: CacheMap, k: Seq<char>, now: u64) -> Option<Seq<char>> {
    if m.contains_key(k) && is_live(m[k].1, now) {
        Some(m[k].0)
    } else {
        None
    }
}

/// The store after `get(k)` at time `now`: an expired entry for `k` is removed.
pub open spec fn cache_after_get(m: CacheMap, k: Seq<char>, now: u64) -> CacheMap {
    if m.contains_key(k) && !is_live(m[k].1, now) {
        m.remove(k)
    } else {
        m
    }
}

/// A value set under a key is read back under that key while less than the
/// TTL has passed since it was set.
pub proof fn lemma_cache_round_trip(m: CacheMap, k: Seq<char>, v: Seq<char>, set_at: u64, get_at: u64)
    requires
        (get_at as int) - (set_at as int) < CACHE_TTL_SECONDS as int,
    ensures
        cache_get(cache_set(m, k, v, set_at), k, get_at) == Some(v),
{
}

/// Once the TTL has passed since a value was set, reading the key misses and
/// removes the entry, so that every later read misses too.
pub proof fn lemma_cache_expiry(
    m: CacheMap,
    k: Seq<char>,
    v: Seq<char>,
    set_at: u64,
    get_at: u64,
    again_at: u64,
)
    requires
        (get_at as int) - (set_at as int) >= CACHE_TTL_SECONDS as int,
    ensures
        cache_get(cache_set(m, k, v, set_at), k, get_at) is None,
        !cache_after_get(cache_set(m, k, v, set_at), k, get_at).contains_key(k),
        cache_get(cache_after_get(cache_set(m, k, v, set_at), k, get_at), k, again_at) is None,
{
}

/// Whether an entry written at `timestamp` is still live at `now`.
pub fn entry_is_live(timestamp: u64, now: u64) -> (r: bool)
    ensures
        r == is_live(timestamp, now),
{
    now < timestamp || now - timestamp < CACHE_TTL_SECONDS
}

/// What a stored row (value and timestamp) means for a lookup at a given time.
#[derive(Debug, PartialEq, Eq)]
pub enum RowLookup {
    /// No row for the key.
    Missing,
    /// A live row: its value is returned.
    Hit(String),
    /// An expired row: it is deleted and the lookup misses.
    Expired,
}

/// Decides a lookup from the row stored for the key, if any, at time `now`.
pub fn classify_row(row: Option<(String, u64)>, now: u64) -> (r: RowLookup)
    ensures
        row is None ==> r is Missing,
        row matches Some((v, ts)) ==> if is_live(ts, now) {
            r matches RowLookup::Hit(w) && w@ == v@
        } else {
            r is Expired
        },
{
    match row {
        None => RowLookup::Missing,
        Some((value, timestamp)) => if entry_is_live(timestamp, now) {
            RowLookup::Hit(value)
        } else {
            RowLookup::Expired
        },
    }
}

/// A key/value store whose entries expire: what every cache backend offers.
/// A call that fails (the store is unreachable, a record is corrupt) promises
/// nothing about the store; one that succeeds behaves as the TTL rules say.
pub trait CacheRepository {
    /// The contents of the store.
    spec fn contents(&self) -> CacheMap;

    /// The live value for `key` at time `now`, if any; an expired entry is removed.
    fn get(&mut self, key: &str, now: u64) -> (r: Result<Option<String>, Error>)
        ensures
            r matches Ok(v) ==> v.deep_view() == cache_get(old(self).contents(), key@, now)
                && final(self).contents() == cache_after_get(old(self).contents(), key@, now),
    ;

    /// Inserts or replaces the entry for `key`, stamped with `now`.
    fn set(&mut self, key: &str, value: &str, now: u64) -> (r: Result<(), Error>)
        ensures
            r is Ok ==> final(self).contents() == cache_set(old(self).contents(), key@, value@, now),
    ;
}

/// One stored entry.
pub struct CacheEntry {
    pub key: String,
    pub value: String,
    pub timestamp: u64,
}

/// Entries with distinct keys.
struct EntryTable {
    entries: Vec<CacheEntry>,
}

impl EntryTable {
    /// No two entries share a key.
    spec fn wf(&self) -> bool {
        forall|i: int, j: int|
            0 <= i < self.entries@.len() && 0 <= j < self.entries@.len() && i != j
                ==> #[trigger] self.entries@[i].key@ != #[trigger] self.entries@[j].key@
    }

    spec fn has_key_at(&self, k: Seq<char>, i: int) -> bool {
        0 <= i < self.entries@.len() && self.entries@[i].key@ == k
    }

    spec fn view(&self) -> CacheMap {
        Map::new(
            |k: Seq<char>| exists|i: int| self.has_key_at(k, i),
            |k: Seq<char>|
                {
                    let i = choose|i: int| self.has_key_at(k, i);
                    (self.entries@[i].value@, self.entries@[i].timestamp)
                },
        )
    }

    proof fn lemma_entry(&self, i: int)
        requires
            self.wf(),
            0 <= i < self.entries@.len(),
        ensures
            self.view().contains_key(self.entries@[i].key@),
            self.view()[self.entries@[i].key@] == (
                self.entries@[i].value@,
                self.entries@[i].timestamp,
            ),
    {
        let k = self.entries@[i].key@;
        assert(self.has_key_at(k, i));
        let j = choose|j: int| self.has_key_at(k, j);
        assert(j == i);
    }

    fn new() -> (r: Self)
        ensures
            r.wf(),
            r.view() == Map::<Seq<char>, (Seq<char>, u64)>::empty(),
    {
        let r = EntryTable { entries: Vec::new() };
        assert(r.view() =~= Map::<Seq<char>, (Seq<char>, u64)>::empty());
        r
    }

    fn find(&self, key: &str) -> (r: Option<usize>)
        requires
            self.wf(),
        ensures
            r matches Some(i) ==> i < self.entries@.len() && self.entries@[i as int].key@ == key@,
            r is None ==> !self.view().contains_key(key@),
    {
        let n = self.entries.len();
        let wanted = String::from_str(key);
        let mut i: usize = 0;
        while i < n
            invariant
                wanted@ == key@,
                n == self.entries@.len(),
                i <= n,
                forall|j: int| 0 <= j < i ==> self.entries@[j].key@ != key@,
            decreases n - i,
        {
            if self.entries[i].key == wanted {
                return Some(i);
            }
            i = i + 1;
        }
        None
    }

    fn get(&mut self, key: &str, now: u64) -> (r: Option<String>)
        requires
            old(self).wf(),
        ensures
            final(self).wf(),
            r.deep_view() == cache_get(old(self).view(), key@, now),
            final(self).view() == cache_after_get(old(self).view(), key@, now),
    {
        match self.find(key) {
            None => None,
            Some(i) => {
                proof {
                    self.lemma_entry(i as int);
                }
                if entry_is_live(self.entries[i].timestamp, now) {
                    Some(self.entries[i].value.clone())
                } else {
                    let ghost before = *self;
                    self.entries.remove(i);
                    proof {
                        let k = key@;
                        assert forall|a: int, b: int|
                            0 <= a < self.entries@.len() && 0 <= b < self.entries@.len() && a
                                != b implies #[trigger] self.entries@[a].key@
                            != #[trigger] self.entries@[b].key@ by {
                            let a0 = if a < i { a } else { a + 1 };
                            let b0 = if b < i { b } else { b + 1 };
                            assert(self.entries@[a] == before.entries@[a0]);
                            assert(self.entries@[b] == before.entries@[b0]);
                        }
                        assert forall|k2: Seq<char>| #[trigger]
                            self.view().contains_key(k2) == before.view().remove(k).contains_key(
                                k2,
                            ) by {
                            if self.view().contains_key(k2) {
                                let a = choose|a: int| self.has_key_at(k2, a);
                                let a0 = if a < i { a } else { a + 1 };
                                assert(self.entries@[a] == before.entries@[a0]);
                                assert(before.has_key_at(k2, a0));
                            }
                            if before.view().remove(k).contains_key(k2) {
                                let a0 = choose|a: int| before.has_key_at(k2, a);
                                assert(a0 != i);
                                let a = if a0 < i { a0 } else { a0 - 1 };
                                assert(self.entries@[a] == before.entries@[a0]);
                                assert(self.has_key_at(k2, a));
                            }
                        }
                        assert forall|k2: Seq<char>| #[trigger]
                            self.view().contains_key(k2) implies self.view()[k2]
                            == before.view()[k2] by {
                            let a = choose|a: int| self.has_key_at(k2, a);
                            let a0 = if a < i { a } else { a + 1 };
                            assert(self.entries@[a] == before.entries@[a0]);
                            self.lemma_entry(a);
                            before.lemma_entry(a0);
                        }
                        assert(self.view() =~= before.view().remove(k));
                    }
                    None
                }
            },
        }
    }

    fn set(&mut self, key: &str, value: &str, now: u64)
        requires
            old(self).wf(),
        ensures
            final(self).wf(),
            final(self).view() == cache_set(old(self).view(), key@, value@, now),
    {
        let ghost before = *self;
        let found = self.find(key);
        let ghost mid = *self;
        match found {
            Some(i) => {
                proof {
                    self.lemma_entry(i as int);
                }
                self.entries.remove(i);
                proof {
                    assert forall|a: int, b: int|
                        0 <= a < self.entries@.len() && 0 <= b < self.entries@.len() && a
                            != b implies #[trigger] self.entries@[a].key@
                        != #[trigger] self.entries@[b].key@ by {
                        let a0 = if a < i { a } else { a + 1 };
                        let b0 = if b < i { b } else { b + 1 };
                        assert(self.entries@[a] == before.entries@[a0]);
                        assert(self.entries@[b] == before.entries@[b0]);
                    }
                    assert forall|a: int| 0 <= a < self.entries@.len() implies #[trigger]
                        self.entries@[a].key@ != key@ by {
                        let a0 = if a < i { a } else { a + 1 };
                        assert(self.entries@[a] == before.entries@[a0]);
                    }
                }
            },
            None => {
                assert forall|a: int| 0 <= a < self.entries@.len() implies #[trigger]
                    self.entries@[a].key@ != key@ by {
                    if self.entries@[a].key@ == key@ {
                        assert(self.has_key_at(key@, a));
                    }
                }
            },
        }
        let ghost removed = *self;
        let entry = CacheEntry {
            key: String::from_str(key),
            value: String::from_str(value),
            timestamp: now,
        };
        self.entries.push(entry);
        proof {
            let n = removed.entries@.len();
            assert forall|a: int, b: int|
                0 <= a < self.entries@.len() && 0 <= b < self.entries@.len() && a
                    != b implies #[trigger] self.entries@[a].key@
                != #[trigger] self.entries@[b].key@ by {
                if a < n {
                    assert(self.entries@[a] == removed.entries@[a]);
                }
                if b < n {
                    assert(self.entries@[b] == removed.entries@[b]);
                }
            }
            let target = cache_set(before.view(), key@, value@, now);
            self.lemma_entry(n as int);
            assert forall|k2: Seq<char>| #[trigger]
                self.view().contains_key(k2) == target.contains_key(k2) by {
                if k2 != key@ {
                    if self.view().contains_key(k2) {
                        let a = choose|a: int| self.has_key_at(k2, a);
                        assert(a < n);
                        assert(self.entries@[a] == removed.entries@[a]);
                        assert(removed.has_key_at(k2, a));
                        let a0 = choose|a0: int| removed.has_key_at(k2, a0);
                        removed.lemma_entry(a0);
                        if found is Some {
                            let i = found->0 as int;
                            let b = if a0 < i { a0 } else { a0 + 1 };
                            assert(removed.entries@[a0] == before.entries@[b]);
                            assert(before.has_key_at(k2, b));
                        } else {
                            assert(before.has_key_at(k2, a0));
                        }
                    }
                    if target.contains_key(k2) {
                        let b = choose|b: int| before.has_key_at(k2, b);
                        let a0 = if found is Some {
                            if b < found->0 as int { b } else { b - 1 }
                        } else {
                            b
                        };
                        if found is Some {
                            assert(b != found->0 as int);
                        }
                        assert(removed.entries@[a0] == before.entries@[b]);
                        assert(self.entries@[a0] == removed.entries@[a0]);
                        assert(self.has_key_at(k2, a0));
                    }
                }
            }
            assert forall|k2: Seq<char>| #[trigger]
                self.view().contains_key(k2) implies self.view()[k2] == target[k2] by {
                if k2 != key@ {
                    let a = choose|a: int| self.has_key_at(k2, a);
                    assert(a < n);
                    assert(self.entries@[a] == removed.entries@[a]);
                    self.lemma_entry(a);
                    let b = if found is Some {
                        if a < found->0 as int { a } else { a + 1 }
                    } else {
                        a
                    };
                    assert(removed.entries@[a] == before.entries@[b]);
                    before.lemma_entry(b);
                }
            }
            assert(self.view() =~= target);
        }
    }
}

/// A cache store held in memory, with the same expiry rules as the persistent
/// backends: expiry is checked, and an expired entry dropped, when it is read.
pub struct MemoryCache {
    table: EntryTable,
}

impl MemoryCache {
    #[verifier::type_invariant]
    spec fn keys_distinct(&self) -> bool {
        self.table.wf()
    }

    /// The contents of the store.
    pub closed spec fn view(&self) -> CacheMap {
        self.table.view()
    }

    /// An empty store.
    pub fn new() -> (r: Self)
        ensures
            r.view() == Map::<Seq<char>, (Seq<char>, u64)>::empty(),
    {
        MemoryCache { table: EntryTable::new() }
    }

    /// The live value for `key` at time `now`; an expired entry is removed.
    pub fn get(&mut self, key: &str, now: u64) -> (r: Option<String>)
        ensures
            r.deep_view() == cache_get(old(self).view(), key@, now),
            final(self).view() == cache_after_get(old(self).view(), key@, now),
    {
        proof {
            use_type_invariant(&*self);
        }
        let mut table = EntryTable::new();
        std::mem::swap(&mut table, &mut self.table);
        let r = table.get(key, now);
        std::mem::swap(&mut table, &mut self.table);
        r
    }

    /// Inserts or replaces the entry for `key`, stamped with `now`.
    pub fn set(&mut self, key: &str, value: &str, now: u64)
        ensures
            final(self).view() == cache_set(old(self).view(), key@, value@, now),
    {
        proof {
            use_type_invariant(&*self);
        }
        let mut table = EntryTable::new();
        std::mem::swap(&mut table, &mut self.table);
        table.set(key, value, now);
        std::mem::swap(&mut table, &mut self.table);
    }
}

impl CacheRepository for MemoryCache {
    open spec fn contents(&self) -> CacheMap {
        self.view()
    }

    fn get(&mut self, key: &str, now: u64) -> (r: Result<Option<String>, Error>) {
        Ok(MemoryCache::get(self, key, now))
    }

    fn set(&mut self, key: &str, value: &str, now: u64) -> (r: Result<(), Error>) {
        MemoryCache::set(self, key, value, now);
        Ok(())
    }
}

} // verus!
