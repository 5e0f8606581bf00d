//! The cache that callers use: a store with a fixed time-to-live.
//!
//! Reads never look at an entry's age. Staleness is bounded by the reaper,
//! which sweeps the store once every half time-to-live.

use crate::clock::now;
use crate::model::{inserted, sweep_period, swept, EntryView, StoreView};
use crate::store::{is_trace_of, CacheStore};
pub use crate::store::{CacheEntry, Eviction};
use vstd::prelude::*;

verus! {

/// Memoized response bodies, keyed by request URL, each kept for `interval`
/// nanoseconds and then left to the reaper.
pub struct Cache {
    store: CacheStore,
    interval: u128,
}

impl View for Cache {
    type V = StoreView;

    closed spec fn view(&self) -> StoreView {
        self.store@
    }
}

impl Cache {
    /// The time-to-live that the cache was made with.
    pub closed spec fn ttl(&self) -> nat {
        self.interval as nat
    }

    /// An empty cache whose entries live for `interval` nanoseconds.
    pub fn new(interval: u128) -> (cache: Cache)
        ensures
            cache@ == Map::<Seq<char>, EntryView>::empty(),
            cache.ttl() == interval,
    {
        Cache { store: CacheStore::new(), interval }
    }

    /// The time-to-live in nanoseconds.
    pub fn interval(&self) -> (ttl: u128)
        ensures
            ttl == self.ttl(),
    {
        self.interval
    }

    /// How long the reaper sleeps between two sweeps: half the time-to-live.
    pub fn sweep_period(&self) -> (period: u128)
        ensures
            period == sweep_period(self.ttl()),
    {
        self.interval / 2
    }

    /// The number of entries held, fresh or not.
    pub fn len(&self) -> (n: usize)
        ensures
            n == self@.len(),
            self@.dom().finite(),
    {
        self.store.len()
    }

    /// A copy of the entry under `key`, or `None` on a miss. An entry that
    /// has outlived the time-to-live and was not swept yet is still a hit.
    pub fn get_cache(&self, key: &str) -> (found: Option<CacheEntry>)
        ensures
            found matches Some(entry) ==> self@.contains_key(key@) && entry@ == self@[key@],
            found is None ==> !self@.contains_key(key@),
    {
        self.store.get(key)
    }

    /// The payload cached under `key`, or `None` on a miss.
    pub fn get_cached(&self, key: &str) -> (found: Option<String>)
        ensures
            found matches Some(value) ==> self@.contains_key(key@) && value@ == self@[key@].data,
            found is None ==> !self@.contains_key(key@),
    {
        match self.store.get(key) {
            Some(entry) => Some(entry.data),
            None => None,
        }
    }

    /// Inserts `value` under `key` as of the time `now`. The first writer of
    /// a key wins: where the key is present, nothing changes.
    pub fn add_cache_at(&mut self, key: &str, value: &str, now: u128)
        ensures
            final(self)@ == inserted(old(self)@, key@, value@, now as nat),
            final(self).ttl() == old(self).ttl(),
    {
        self.store.insert(key, value, now);
    }

    /// Inserts `value` under `key` with the system clock's reading as its
    /// timestamp. The first writer of a key wins.
    pub fn add_cache(&mut self, key: &str, value: &str)
        ensures
            exists|at: nat| final(self)@ == #[trigger] inserted(old(self)@, key@, value@, at),
            final(self).ttl() == old(self).ttl(),
    {
        let at = now();
        self.add_cache_at(key, value, at);
        assert(self@ == inserted(old(self)@, key@, value@, at as nat));
    }

    /// Caches `value` under `key`: the same as [`Cache::add_cache`].
    pub fn put_cached(&mut self, key: &str, value: &str)
        ensures
            exists|at: nat| final(self)@ == #[trigger] inserted(old(self)@, key@, value@, at),
            final(self).ttl() == old(self).ttl(),
    {
        self.add_cache(key, value);
    }

    /// Deletes the entry under `key`. Without one this does nothing.
    pub fn remove(&mut self, key: &str)
        ensures
            final(self)@ == old(self)@.remove(key@),
            final(self).ttl() == old(self).ttl(),
    {
        self.store.remove(key);
    }

    /// One sweep as of the time `now`: every entry older than the
    /// time-to-live is evicted, every other entry stays as it is.
    pub fn reap_at(&mut self, now: u128) -> (trace: Vec<Eviction>)
        ensures
            final(self)@ == swept(old(self)@, now as nat, old(self).ttl()),
            is_trace_of(trace@, old(self)@, now as nat, old(self).ttl()),
            final(self)@.len() + trace@.len() == old(self)@.len(),
            final(self).ttl() == old(self).ttl(),
    {
        self.store.sweep(now, self.interval)
    }
}

/// What the reaper does each time it wakes: one sweep of `cache` as of the
/// system clock's reading. The evictions are returned for the diagnostic
/// trace.
pub fn reap_loop(cache: &mut Cache) -> (trace: Vec<Eviction>)
    ensures
        exists|at: nat|
            {
                &&& final(cache)@ == #[trigger] swept(old(cache)@, at, old(cache).ttl())
                &&& is_trace_of(trace@, old(cache)@, at, old(cache).ttl())
            },
        final(cache)@.len() + trace@.len() == old(cache)@.len(),
        final(cache).ttl() == old(cache).ttl(),
{
    let at = now();
    let trace = cache.reap_at(at);
    assert(cache@ == swept(old(cache)@, at as nat, old(cache).ttl()));
    trace
}

} // verus!
