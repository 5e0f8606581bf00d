//! The mathematical model of the cache: a finite map from keys to
//! timestamped payloads, and what each operation does to it.
//!
//! Time is a natural number of nanoseconds. The contracts of the executable
//! store and of the cache speak of these functions, and the laws are stated
//! over them.

use vstd::prelude::*;

verus! {

/// An entry as a plain value: when it was made, and what it holds.
pub struct EntryView {
    pub created_at: nat,
    pub data: Seq<char>,
}

/// The contents of a store: at most one entry under each key.
pub type StoreView = Map<Seq<char>, EntryView>;

/// The age at `now` of an entry made at `created_at`, or `None` when the
/// clock reads earlier than the entry's own timestamp.
pub open spec fn age(created_at: nat, now: nat) -> Option<nat> {
    if now >= created_at {
        Some((now - created_at) as nat)
    } else {
        None
    }
}

/// An entry is expired once its age exceeds the time-to-live. With a clock
/// that went backwards there is no age, and the entry counts as fresh.
pub open spec fn expired(created_at: nat, now: nat, ttl: nat) -> bool {
    age(created_at, now) matches Some(a) && a > ttl
}

/// The store after an insert at `now`: the first writer of a key wins, so a
/// key that is present keeps its entry.
pub open spec fn inserted(m: StoreView, key: Seq<char>, data: Seq<char>, now: nat) -> StoreView {
    if m.contains_key(key) {
        m
    } else {
        m.insert(key, EntryView { created_at: now, data })
    }
}

/// The keys that a sweep at `now` evicts.
pub open spec fn stale_keys(m: StoreView, now: nat, ttl: nat) -> Set<Seq<char>> {
    Set::new(|k: Seq<char>| m.contains_key(k) && expired(m[k].created_at, now, ttl))
}

/// The store after a sweep at `now`: the expired entries are gone, the others
/// are untouched.
pub open spec fn swept(m: StoreView, now: nat, ttl: nat) -> StoreView {
    m.remove_keys(stale_keys(m, now, ttl))
}

/// The period of the reaper: half the time-to-live.
pub open spec fn sweep_period(ttl: nat) -> nat {
    ttl / 2
}

} // verus!
