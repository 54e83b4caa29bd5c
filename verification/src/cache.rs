//! The metadata cache: a keyed store for resolver responses, so that
//! version and build listings already fetched need not be asked for again.
//!
//! Keys are cache-relative paths (the namespace is part of the key); values
//! are the raw response blobs. Misses are not errors: callers always fall
//! back to the live resolver. Writes are last-write-wins, which is sound
//! because values are idempotent snapshots of remote answers.

use vstd::prelude::*;

use crate::text::str_eq;

verus! {

/// One cached response blob under its key.
pub struct CacheEntry {
    pub key: String,
    pub value: String,
}

/// The first entry of `entries` stored under `key`, if any.
pub open spec fn cache_find(entries: Seq<CacheEntry>, key: Seq<char>) -> Option<CacheEntry>
    decreases entries.len(),
{
    if entries.len() == 0 {
        None
    } else if entries[0].key@ == key {
        Some(entries[0])
    } else {
        cache_find(entries.drop_first(), key)
    }
}

/// Replacing an entry by one under the same key leaves every other key's
/// lookup unchanged.
proof fn lemma_cache_find_update(entries: Seq<CacheEntry>, i: int, e: CacheEntry, k: Seq<char>)
    requires
        0 <= i < entries.len(),
        e.key@ == entries[i].key@,
        k != e.key@,
    ensures
        cache_find(entries.update(i, e), k) == cache_find(entries, k),
    decreases entries.len(),
{
    let upd = entries.update(i, e);
    if i == 0 {
        assert(upd[0] == e);
        assert(upd.drop_first() =~= entries.drop_first());
    } else {
        assert(upd[0] == entries[0]);
        assert(upd.drop_first() =~= entries.drop_first().update(i - 1, e));
        lemma_cache_find_update(entries.drop_first(), i - 1, e, k);
    }
}

/// When no earlier entry holds `key` and the entry at `i` does, the lookup
/// answers with the entry at `i`.
proof fn lemma_cache_find_at(entries: Seq<CacheEntry>, i: int, k: Seq<char>)
    requires
        0 <= i < entries.len(),
        entries[i].key@ == k,
        forall|j: int| 0 <= j < i ==> (#[trigger] entries[j]).key@ != k,
    ensures
        cache_find(entries, k) == Some(entries[i]),
    decreases entries.len(),
{
    if i > 0 {
        let rest = entries.drop_first();
        assert(rest[i - 1] == entries[i]);
        assert forall|j: int| 0 <= j < i - 1 implies (#[trigger] rest[j]).key@ != k by {
            assert(rest[j] == entries[j + 1]);
        }
        lemma_cache_find_at(rest, i - 1, k);
    }
}

/// When no entry holds `key`, the lookup misses.
proof fn lemma_cache_find_none(entries: Seq<CacheEntry>, k: Seq<char>)
    requires
        forall|j: int| 0 <= j < entries.len() ==> (#[trigger] entries[j]).key@ != k,
    ensures
        cache_find(entries, k) is None,
    decreases entries.len(),
{
    if entries.len() > 0 {
        let rest = entries.drop_first();
        assert forall|j: int| 0 <= j < rest.len() implies (#[trigger] rest[j]).key@ != k by {
            assert(rest[j] == entries[j + 1]);
        }
        lemma_cache_find_none(rest, k);
    }
}

/// The in-memory metadata cache of one run, constructed once per run and
/// discarded at process exit. Persisting it to disk is the concern of the
/// surrounding program, not of the store itself.
pub struct Cache {
    pub entries: Vec<CacheEntry>,
}

impl Cache {
    /// The blob stored under `key`, if any.
    pub open spec fn lookup(self, key: Seq<char>) -> Option<Seq<char>> {
        match cache_find(self.entries@, key) {
            Some(e) => Some(e.value@),
            None => None,
        }
    }

    /// An empty cache.
    pub fn new() -> (r: Cache)
        ensures
            forall|k: Seq<char>| r.lookup(k) is None,
    {
        Cache { entries: Vec::new() }
    }

    /// Whether something is stored under `path`.
    pub fn contains(&self, path: &str) -> (r: bool)
        ensures
            r == (self.lookup(path@) is Some),
    {
        let n = self.entries.len();
        let mut i: usize = 0;
        proof {
            assert(self.entries@.skip(0) =~= self.entries@);
        }
        while i < n
            invariant
                n == self.entries@.len(),
                i <= n,
                cache_find(self.entries@, path@) == cache_find(
                    self.entries@.skip(i as int),
                    path@,
                ),
            decreases n - i,
        {
            proof {
                assert(self.entries@.skip(i as int)[0] == self.entries@[i as int]);
                assert(self.entries@.skip(i as int).drop_first() =~= self.entries@.skip(i + 1));
            }
            if str_eq(self.entries[i].key.as_str(), path) {
                return true;
            }
            i += 1;
        }
        proof {
            assert(self.entries@.skip(n as int) =~= Seq::<CacheEntry>::empty());
        }
        false
    }

    /// The blob stored under `path`; a miss is not an error.
    pub fn get(&self, path: &str) -> (r: Option<String>)
        ensures
            match r {
                Some(v) => self.lookup(path@) == Some(v@),
                None => self.lookup(path@) is None,
            },
    {
        let n = self.entries.len();
        let mut i: usize = 0;
        proof {
            assert(self.entries@.skip(0) =~= self.entries@);
        }
        while i < n
            invariant
                n == self.entries@.len(),
                i <= n,
                cache_find(self.entries@, path@) == cache_find(
                    self.entries@.skip(i as int),
                    path@,
                ),
            decreases n - i,
        {
            proof {
                assert(self.entries@.skip(i as int)[0] == self.entries@[i as int]);
                assert(self.entries@.skip(i as int).drop_first() =~= self.entries@.skip(i + 1));
            }
            if str_eq(self.entries[i].key.as_str(), path) {
                return Some(self.entries[i].value.clone());
            }
            i += 1;
        }
        proof {
            assert(self.entries@.skip(n as int) =~= Seq::<CacheEntry>::empty());
        }
        None
    }

    /// Stores `value` under `path`, replacing what was there; every other
    /// key keeps its answer (last-write-wins on the same key).
    pub fn put(&mut self, path: &str, value: &str)
        ensures
            final(self).lookup(path@) == Some(value@),
            forall|k: Seq<char>| k != path@ ==> final(self).lookup(k) == old(self).lookup(k),
    {
        let n = self.entries.len();
        let mut i: usize = 0;
        while i < n
            invariant
                n == self.entries@.len(),
                i <= n,
                *self == *old(self),
                forall|j: int| 0 <= j < i ==> (#[trigger] self.entries@[j]).key@ != path@,
            decreases n - i,
        {
            if str_eq(self.entries[i].key.as_str(), path) {
                let e = CacheEntry { key: path.to_owned(), value: value.to_owned() };
                let ghost pre = self.entries@;
                let ghost idx = i as int;
                self.entries.set(i, e);
                proof {
                    assert(self.entries@[idx].key@ == path@);
                    lemma_cache_find_at(self.entries@, idx, path@);
                    assert forall|k: Seq<char>| k != path@ implies final(self).lookup(k) == old(
                        self,
                    ).lookup(k) by {
                        lemma_cache_find_update(pre, idx, e, k);
                    }
                }
                return ;
            }
            i += 1;
        }
        let e = CacheEntry { key: path.to_owned(), value: value.to_owned() };
        let ghost pre = self.entries@;
        self.entries.push(e);
        proof {
            assert forall|j: int| 0 <= j < pre.len() implies (#[trigger] pre[j]).key@ != path@ by {}
            assert(self.entries@[pre.len() as int].key@ == path@);
            assert forall|j: int|
                0 <= j < pre.len() implies (#[trigger] self.entries@[j]).key@ != path@ by {
                assert(self.entries@[j] == pre[j]);
            }
            lemma_cache_find_at(self.entries@, pre.len() as int, path@);
            assert forall|k: Seq<char>| k != path@ implies final(self).lookup(k) == old(
                self,
            ).lookup(k) by {
                lemma_cache_find_push_other(pre, e, k);
            }
        }
    }
}

/// Appending an entry leaves every other key's lookup unchanged.
proof fn lemma_cache_find_push_other(entries: Seq<CacheEntry>, e: CacheEntry, k: Seq<char>)
    requires
        k != e.key@,
    ensures
        cache_find(entries.push(e), k) == cache_find(entries, k),
    decreases entries.len(),
{
    if entries.len() == 0 {
        assert(entries.push(e)[0] == e);
        assert(entries.push(e).drop_first() =~= Seq::<CacheEntry>::empty());
    } else {
        assert(entries.push(e)[0] == entries[0]);
        assert(entries.push(e).drop_first() =~= entries.drop_first().push(e));
        lemma_cache_find_push_other(entries.drop_first(), e, k);
    }
}

} // verus!
