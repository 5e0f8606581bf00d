//! The keyed store of timestamped payloads.
//!
//! Entries are kept in the order of their insertion, one per key. The store's
//! view is the map of `model`, which forgets that order.

use crate::model::{age, expired, inserted, stale_keys, swept, EntryView, StoreView};
use vstd::prelude::*;

verus! {

/// A payload and the time of its insertion. Neither changes afterwards.
#[derive(Debug)]
pub struct CacheEntry {
    pub created_at: u128,
    pub data: String,
}

impl View for CacheEntry {
    type V = EntryView;

    open spec fn view(&self) -> EntryView {
        EntryView { created_at: self.created_at as nat, data: self.data@ }
    }
}

impl Clone for CacheEntry {
    fn clone(&self) -> (copy: Self)
        ensures
            copy == *self,
    {
        CacheEntry { created_at: self.created_at, data: self.data.clone() }
    }
}

impl CacheEntry {
    /// The entry's age at `now`; `None` when the clock reads earlier than the
    /// entry's timestamp.
    pub fn age(&self, now: u128) -> (a: Option<u128>)
        ensures
            a matches Some(n) ==> age(self.created_at as nat, now as nat) == Some(n as nat),
            a is None ==> age(self.created_at as nat, now as nat) is None,
    {
        if now >= self.created_at {
            Some(now - self.created_at)
        } else {
            None
        }
    }

    /// Whether the entry's age at `now` exceeds `ttl`.
    pub fn is_expired(&self, now: u128, ttl: u128) -> (b: bool)
        ensures
            b == expired(self.created_at as nat, now as nat, ttl as nat),
    {
        match self.age(now) {
            Some(a) => a > ttl,
            None => false,
        }
    }
}

/// A key that a sweep evicted, and how many entries the store held once it
/// was gone.
#[derive(Debug)]
pub struct Eviction {
    pub key: String,
    pub remaining: usize,
}

struct Slot {
    key: String,
    entry: CacheEntry,
}

spec fn key_at(slots: Seq<Slot>, i: int) -> Seq<char> {
    slots[i].key@
}

spec fn distinct_keys(slots: Seq<Slot>) -> bool {
    forall|i: int, j: int|
        0 <= i < j < slots.len() ==> #[trigger] key_at(slots, i) != #[trigger] key_at(slots, j)
}

spec fn holds(slots: Seq<Slot>, key: Seq<char>) -> bool {
    exists|i: int| 0 <= i < slots.len() && #[trigger] key_at(slots, i) == key
}

spec fn slot_of(slots: Seq<Slot>, key: Seq<char>) -> int {
    choose|i: int| 0 <= i < slots.len() && #[trigger] key_at(slots, i) == key
}

spec fn model_of(slots: Seq<Slot>) -> StoreView {
    Map::new(|k: Seq<char>| holds(slots, k), |k: Seq<char>| slots[slot_of(slots, k)].entry@)
}

/// With distinct keys, the slot at `i` is the one the model shows under its key.
proof fn lemma_model_at(slots: Seq<Slot>, i: int)
    requires
        distinct_keys(slots),
        0 <= i < slots.len(),
    ensures
        model_of(slots).contains_key(slots[i].key@),
        model_of(slots)[slots[i].key@] == slots[i].entry@,
        slot_of(slots, slots[i].key@) == i,
{
    let k = slots[i].key@;
    assert(key_at(slots, i) == k);
    let j = slot_of(slots, k);
    assert(0 <= j < slots.len() && key_at(slots, j) == k);
    if j != i {
        if j < i {
            assert(key_at(slots, j) != key_at(slots, i));
        } else {
            assert(key_at(slots, i) != key_at(slots, j));
        }
    }
}

/// A key that no slot carries is absent from the model.
proof fn lemma_model_miss(slots: Seq<Slot>, key: Seq<char>)
    requires
        forall|i: int| 0 <= i < slots.len() ==> #[trigger] key_at(slots, i) != key,
    ensures
        !model_of(slots).contains_key(key),
{
}

/// Appending a slot with a fresh key inserts its entry into the model.
proof fn lemma_model_push(slots: Seq<Slot>, slot: Slot)
    requires
        distinct_keys(slots),
        !model_of(slots).contains_key(slot.key@),
    ensures
        distinct_keys(slots.push(slot)),
        model_of(slots.push(slot)) == model_of(slots).insert(slot.key@, slot.entry@),
{
    let grown = slots.push(slot);
    assert forall|i: int, j: int| 0 <= i < j < grown.len() implies #[trigger] key_at(grown, i)
        != #[trigger] key_at(grown, j) by {
        if j < slots.len() {
            assert(key_at(slots, i) != key_at(slots, j));
        } else {
            assert(key_at(slots, i) == key_at(grown, i));
            assert(holds(slots, key_at(slots, i)));
        }
    }
    let target = model_of(slots).insert(slot.key@, slot.entry@);
    assert forall|k: Seq<char>| model_of(grown).contains_key(k) <==> target.contains_key(k) by {
        if holds(grown, k) {
            let i = slot_of(grown, k);
            assert(key_at(grown, i) == k);
            if i < slots.len() {
                assert(key_at(slots, i) == k);
            }
        }
        if holds(slots, k) {
            let i = slot_of(slots, k);
            assert(key_at(grown, i) == k);
        }
        if k == slot.key@ {
            assert(key_at(grown, slots.len() as int) == k);
        }
    }
    assert forall|k: Seq<char>| model_of(grown).contains_key(k) implies model_of(grown)[k]
        == target[k] by {
        let i = slot_of(grown, k);
        assert(key_at(grown, i) == k);
        lemma_model_at(grown, i);
        if i < slots.len() {
            assert(key_at(slots, i) == k);
            lemma_model_at(slots, i);
        }
    }
    assert(model_of(grown) =~= target);
}

/// Taking the slot at `i` out removes its key from the model.
proof fn lemma_model_remove(slots: Seq<Slot>, i: int)
    requires
        distinct_keys(slots),
        0 <= i < slots.len(),
    ensures
        distinct_keys(slots.remove(i)),
        model_of(slots.remove(i)) == model_of(slots).remove(slots[i].key@),
{
    let rest = slots.remove(i);
    let gone = slots[i].key@;
    assert forall|a: int| 0 <= a < rest.len() implies #[trigger] key_at(rest, a) == key_at(
        slots,
        if a < i {
            a
        } else {
            a + 1
        },
    ) by {}
    assert forall|a: int, b: int| 0 <= a < b < rest.len() implies #[trigger] key_at(rest, a)
        != #[trigger] key_at(rest, b) by {
        let a0 = if a < i { a } else { a + 1 };
        let b0 = if b < i { b } else { b + 1 };
        assert(key_at(slots, a0) != key_at(slots, b0));
    }
    let target = model_of(slots).remove(gone);
    assert forall|k: Seq<char>| model_of(rest).contains_key(k) <==> target.contains_key(k) by {
        if holds(rest, k) {
            let a = slot_of(rest, k);
            let a0 = if a < i { a } else { a + 1 };
            assert(key_at(rest, a) == k);
            assert(key_at(slots, a0) == k);
            lemma_model_at(slots, a0);
            lemma_model_at(slots, i);
        }
        if holds(slots, k) && k != gone {
            let a0 = slot_of(slots, k);
            assert(key_at(slots, a0) == k);
            let a = if a0 < i { a0 } else { a0 - 1 };
            assert(key_at(rest, a) == k);
        }
    }
    assert forall|k: Seq<char>| model_of(rest).contains_key(k) implies model_of(rest)[k]
        == target[k] by {
        let a = slot_of(rest, k);
        let a0 = if a < i { a } else { a + 1 };
        assert(key_at(rest, a) == k);
        lemma_model_at(rest, a);
        lemma_model_at(slots, a0);
        lemma_model_at(slots, i);
    }
    assert(model_of(rest) =~= target);
}

/// The model of distinct slots has as many keys as there are slots.
proof fn lemma_model_len(slots: Seq<Slot>)
    requires
        distinct_keys(slots),
    ensures
        model_of(slots).dom().finite(),
        model_of(slots).len() == slots.len(),
    decreases slots.len(),
{
    if slots.len() == 0 {
        assert(model_of(slots) =~= Map::<Seq<char>, EntryView>::empty());
    } else {
        let front = slots.drop_last();
        let last = slots.last();
        assert forall|i: int, j: int| 0 <= i < j < front.len() implies #[trigger] key_at(front, i)
            != #[trigger] key_at(front, j) by {
            assert(key_at(slots, i) != key_at(slots, j));
        }
        assert(!model_of(front).contains_key(last.key@)) by {
            if holds(front, last.key@) {
                let i = slot_of(front, last.key@);
                assert(key_at(slots, i) != key_at(slots, slots.len() - 1));
            }
        }
        lemma_model_len(front);
        lemma_model_push(front, last);
        assert(front.push(last) =~= slots);
    }
}

spec fn stale(slot: Slot, now: nat, ttl: nat) -> bool {
    expired(slot.entry.created_at as nat, now, ttl)
}

/// What a sweep reports of the store it found: each expired key once, in the
/// order of eviction, each with the number of entries left after it.
pub open spec fn is_trace_of(trace: Seq<Eviction>, before: StoreView, now: nat, ttl: nat) -> bool {
    &&& forall|j: int|
        0 <= j < trace.len() ==> stale_keys(before, now, ttl).contains((#[trigger] trace[j]).key@)
    &&& forall|j: int|
        0 <= j < trace.len() ==> (#[trigger] trace[j]).remaining == before.len() - (j + 1)
    &&& forall|i: int, j: int|
        0 <= i < j < trace.len() ==> (#[trigger] trace[i]).key@ != (#[trigger] trace[j]).key@
    &&& forall|k: Seq<char>|
        stale_keys(before, now, ttl).contains(k) ==> exists|j: int|
            0 <= j < trace.len() && (#[trigger] trace[j]).key@ == k
}

/// The slots that a pass over `before` kept and those it evicted, each list
/// with the places its items came from, make up a sweep of the model.
proof fn lemma_sweep(
    before: Seq<Slot>,
    kept: Seq<Slot>,
    kept_from: Seq<int>,
    trace: Seq<Eviction>,
    gone_from: Seq<int>,
    now: nat,
    ttl: nat,
)
    requires
        distinct_keys(before),
        kept_from.len() == kept.len(),
        gone_from.len() == trace.len(),
        forall|j: int|
            0 <= j < kept.len() ==> 0 <= #[trigger] kept_from[j] < before.len() && kept[j]
                == before[kept_from[j]] && !stale(before[kept_from[j]], now, ttl),
        forall|a: int, b: int|
            0 <= a < b < kept.len() ==> #[trigger] kept_from[a] < #[trigger] kept_from[b],
        forall|j: int|
            0 <= j < trace.len() ==> 0 <= #[trigger] gone_from[j] < before.len() && trace[j].key@
                == before[gone_from[j]].key@ && stale(before[gone_from[j]], now, ttl),
        forall|a: int, b: int|
            0 <= a < b < trace.len() ==> #[trigger] gone_from[a] < #[trigger] gone_from[b],
        forall|j: int| 0 <= j < trace.len() ==> (#[trigger] trace[j]).remaining == before.len() - (j + 1),
        forall|i: int|
            0 <= i < before.len() ==> if stale(#[trigger] before[i], now, ttl) {
                gone_from.contains(i)
            } else {
                kept_from.contains(i)
            },
    ensures
        distinct_keys(kept),
        model_of(kept) == swept(model_of(before), now, ttl),
        is_trace_of(trace, model_of(before), now, ttl),
{
    let m = model_of(before);
    let target = swept(m, now, ttl);
    lemma_model_len(before);
    assert forall|a: int, b: int| 0 <= a < b < kept.len() implies #[trigger] key_at(kept, a)
        != #[trigger] key_at(kept, b) by {
        assert(kept_from[a] < kept_from[b]);
        assert(key_at(before, kept_from[a]) != key_at(before, kept_from[b]));
    }
    assert forall|k: Seq<char>| model_of(kept).contains_key(k) <==> target.contains_key(k) by {
        if holds(kept, k) {
            let j = slot_of(kept, k);
            assert(key_at(kept, j) == k);
            let i = kept_from[j];
            assert(key_at(before, i) == k);
            lemma_model_at(before, i);
        }
        if target.contains_key(k) {
            let i = slot_of(before, k);
            assert(key_at(before, i) == k);
            lemma_model_at(before, i);
            assert(!stale(before[i], now, ttl));
            assert(kept_from.contains(i));
            let j = choose|j: int| 0 <= j < kept_from.len() && kept_from[j] == i;
            assert(key_at(kept, j) == k);
        }
    }
    assert forall|k: Seq<char>| model_of(kept).contains_key(k) implies model_of(kept)[k]
        == target[k] by {
        let j = slot_of(kept, k);
        assert(key_at(kept, j) == k);
        lemma_model_at(kept, j);
        lemma_model_at(before, kept_from[j]);
    }
    assert(model_of(kept) =~= target);
    assert forall|j: int| 0 <= j < trace.len() implies stale_keys(m, now, ttl).contains(
        (#[trigger] trace[j]).key@,
    ) by {
        lemma_model_at(before, gone_from[j]);
    }
    assert forall|i: int, j: int| 0 <= i < j < trace.len() implies (#[trigger] trace[i]).key@ != (
    #[trigger] trace[j]).key@ by {
        assert(gone_from[i] < gone_from[j]);
        assert(key_at(before, gone_from[i]) != key_at(before, gone_from[j]));
    }
    assert forall|k: Seq<char>| stale_keys(m, now, ttl).contains(k) implies exists|j: int|
        0 <= j < trace.len() && (#[trigger] trace[j]).key@ == k by {
        let i = slot_of(before, k);
        assert(key_at(before, i) == k);
        lemma_model_at(before, i);
        assert(stale(before[i], now, ttl));
        assert(gone_from.contains(i));
        let j = choose|j: int| 0 <= j < gone_from.len() && gone_from[j] == i;
        assert(trace[j].key@ == k);
    }
}

/// A store of entries, at most one under each key.
pub struct CacheStore {
    slots: Vec<Slot>,
}

impl View for CacheStore {
    type V = StoreView;

    closed spec fn view(&self) -> StoreView {
        model_of(self.slots@)
    }
}

impl CacheStore {
    #[verifier::type_invariant]
    spec fn well_formed(self) -> bool {
        distinct_keys(self.slots@)
    }

    /// An empty store.
    pub fn new() -> (store: Self)
        ensures
            store@ == Map::<Seq<char>, EntryView>::empty(),
    {
        let store = CacheStore { slots: Vec::new() };
        assert(store@ =~= Map::<Seq<char>, EntryView>::empty());
        store
    }

    /// The number of entries.
    pub fn len(&self) -> (n: usize)
        ensures
            n == self@.len(),
            self@.dom().finite(),
    {
        proof {
            use_type_invariant(self);
            lemma_model_len(self.slots@);
        }
        self.slots.len()
    }

    fn position(&self, key: &String) -> (found: Option<usize>)
        ensures
            match found {
                Some(i) => i < self.slots@.len() && self.slots@[i as int].key@ == key@,
                None => !self@.contains_key(key@),
            },
    {
        let mut i: usize = 0;
        while i < self.slots.len()
            invariant
                i <= self.slots@.len(),
                forall|j: int| 0 <= j < i ==> #[trigger] key_at(self.slots@, j) != key@,
            decreases self.slots@.len() - i,
        {
            if self.slots[i].key == *key {
                return Some(i);
            }
            i += 1;
        }
        proof {
            lemma_model_miss(self.slots@, key@);
        }
        None
    }

    /// A copy of the entry under `key`, if there is one. The entry's age plays
    /// no part: an expired entry that no sweep has taken yet is still returned.
    pub fn get(&self, key: &str) -> (found: Option<CacheEntry>)
        ensures
            found matches Some(entry) ==> self@.contains_key(key@) && entry@ == self@[key@],
            found is None ==> !self@.contains_key(key@),
    {
        let owned = key.to_owned();
        match self.position(&owned) {
            Some(i) => {
                proof {
                    use_type_invariant(self);
                    lemma_model_at(self.slots@, i as int);
                }
                Some(self.slots[i].entry.clone())
            },
            None => None,
        }
    }

    /// Puts `data` under `key` with the timestamp `now`, unless the key is
    /// present: then nothing changes.
    pub fn insert(&mut self, key: &str, data: &str, now: u128)
        ensures
            final(self)@ == inserted(old(self)@, key@, data@, now as nat),
    {
        let owned = key.to_owned();
        match self.position(&owned) {
            Some(i) => {
                proof {
                    use_type_invariant(&*self);
                    lemma_model_at(self.slots@, i as int);
                }
            },
            None => {
                let entry = CacheEntry { created_at: now, data: data.to_owned() };
                let slot = Slot { key: owned, entry };
                proof {
                    use_type_invariant(&*self);
                    lemma_model_push(self.slots@, slot);
                }
                let mut slots: Vec<Slot> = Vec::new();
                std::mem::swap(&mut self.slots, &mut slots);
                slots.push(slot);
                self.slots = slots;
            },
        }
    }

    /// One pass of the reaper at `now`: evicts every entry whose age exceeds
    /// `ttl` and reports the evictions in the order they were made.
    pub fn sweep(&mut self, now: u128, ttl: u128) -> (trace: Vec<Eviction>)
        ensures
            final(self)@ == swept(old(self)@, now as nat, ttl as nat),
            is_trace_of(trace@, old(self)@, now as nat, ttl as nat),
            final(self)@.len() + trace@.len() == old(self)@.len(),
    {
        proof {
            use_type_invariant(&*self);
        }
        let ghost before = self.slots@;
        let mut source: Vec<Slot> = Vec::new();
        std::mem::swap(&mut self.slots, &mut source);
        let total = source.len();
        let mut kept: Vec<Slot> = Vec::new();
        let mut trace: Vec<Eviction> = Vec::new();
        let ghost mut kept_from: Seq<int> = Seq::empty();
        let ghost mut gone_from: Seq<int> = Seq::empty();
        for slot in it: source
            invariant
                it.seq() == before,
                total == before.len(),
                kept_from.len() == kept@.len(),
                gone_from.len() == trace@.len(),
                kept@.len() + trace@.len() == it.index(),
                forall|j: int|
                    0 <= j < kept@.len() ==> 0 <= #[trigger] kept_from[j] < it.index() && kept@[j]
                        == before[kept_from[j]] && !stale(before[kept_from[j]], now as nat, ttl as nat),
                forall|a: int, b: int|
                    0 <= a < b < kept@.len() ==> #[trigger] kept_from[a] < #[trigger] kept_from[b],
                forall|j: int|
                    0 <= j < trace@.len() ==> 0 <= #[trigger] gone_from[j] < it.index()
                        && trace@[j].key@ == before[gone_from[j]].key@ && stale(
                        before[gone_from[j]],
                        now as nat,
                        ttl as nat,
                    ),
                forall|a: int, b: int|
                    0 <= a < b < trace@.len() ==> #[trigger] gone_from[a] < #[trigger] gone_from[b],
                forall|j: int|
                    0 <= j < trace@.len() ==> (#[trigger] trace@[j]).remaining == total - (j + 1),
                forall|i: int|
                    0 <= i < it.index() ==> if stale(#[trigger] before[i], now as nat, ttl as nat) {
                        gone_from.contains(i)
                    } else {
                        kept_from.contains(i)
                    },
        {
            let ghost n = it.index() as int;
            if slot.entry.is_expired(now, ttl) {
                let remaining = total - (trace.len() + 1);
                trace.push(Eviction { key: slot.key, remaining });
                proof {
                    let earlier = gone_from;
                    gone_from = gone_from.push(n);
                    assert(gone_from[earlier.len() as int] == n);
                    assert forall|i: int| 0 <= i < n && stale(
                        #[trigger] before[i],
                        now as nat,
                        ttl as nat,
                    ) implies gone_from.contains(i) by {
                        assert(earlier.contains(i));
                        let j = choose|j: int| 0 <= j < earlier.len() && earlier[j] == i;
                        assert(gone_from[j] == i);
                    }
                }
            } else {
                kept.push(slot);
                proof {
                    let earlier = kept_from;
                    kept_from = kept_from.push(n);
                    assert(kept_from[earlier.len() as int] == n);
                    assert forall|i: int| 0 <= i < n && !stale(
                        #[trigger] before[i],
                        now as nat,
                        ttl as nat,
                    ) implies kept_from.contains(i) by {
                        assert(earlier.contains(i));
                        let j = choose|j: int| 0 <= j < earlier.len() && earlier[j] == i;
                        assert(kept_from[j] == i);
                    }
                }
            }
        }
        proof {
            lemma_model_len(before);
            lemma_sweep(before, kept@, kept_from, trace@, gone_from, now as nat, ttl as nat);
            lemma_model_len(kept@);
        }
        self.slots = kept;
        trace
    }

    /// Deletes the entry under `key`; without one, nothing changes.
    pub fn remove(&mut self, key: &str)
        ensures
            final(self)@ == old(self)@.remove(key@),
    {
        let owned = key.to_owned();
        match self.position(&owned) {
            Some(i) => {
                proof {
                    use_type_invariant(&*self);
                    lemma_model_remove(self.slots@, i as int);
                }
                let mut slots: Vec<Slot> = Vec::new();
                std::mem::swap(&mut self.slots, &mut slots);
                slots.remove(i);
                self.slots = slots;
            },
            None => {
                assert(old(self)@.remove(key@) =~= old(self)@);
            },
        }
    }
}

} // verus!
