//! What holds of the cache under every history, proved over the model.

use crate::model::{age, expired, inserted, sweep_period, swept, EntryView, StoreView};
use vstd::arithmetic::div_mod::{lemma_fundamental_div_mod, lemma_mod_pos_bound};
use vstd::prelude::*;

verus! {

/// One `put` as it reaches the store: the key, the payload and the time at
/// which the lock was taken.
pub struct Put {
    pub key: Seq<char>,
    pub data: Seq<char>,
    pub at: nat,
}

/// The store after the `puts`, applied in the order in which they took the lock.
pub open spec fn after_puts(m: StoreView, puts: Seq<Put>) -> StoreView
    decreases puts.len(),
{
    if puts.len() == 0 {
        m
    } else {
        let last = puts.last();
        inserted(after_puts(m, puts.drop_last()), last.key, last.data, last.at)
    }
}

/// The store after one sweep at each of `times`, in that order.
pub open spec fn after_sweeps(m: StoreView, ttl: nat, times: Seq<nat>) -> StoreView
    decreases times.len(),
{
    if times.len() == 0 {
        m
    } else {
        swept(after_sweeps(m, ttl, times.drop_last()), times.last(), ttl)
    }
}

/// The times of the reaper's first `n` sweeps: the first at `first`, each
/// one `period` after the one before.
pub open spec fn schedule(first: nat, period: nat, n: nat) -> Seq<nat> {
    Seq::new(n, |i: int| (first + i * period) as nat)
}

/// An insert under a key that is present changes nothing, so of two inserts
/// under one key the first payload and the first timestamp stay.
pub proof fn law_first_writer_wins(
    m: StoreView,
    key: Seq<char>,
    first: Seq<char>,
    first_at: nat,
    second: Seq<char>,
    second_at: nat,
)
    ensures
        inserted(inserted(m, key, first, first_at), key, second, second_at) == inserted(
            m,
            key,
            first,
            first_at,
        ),
        !m.contains_key(key) ==> inserted(inserted(m, key, first, first_at), key, second, second_at)[key]
            == (EntryView { created_at: first_at, data: first }),
        m.contains_key(key) ==> inserted(m, key, second, second_at) == m,
{
}

/// A lookup in an empty store misses, and right after an insert under a key
/// that was absent the lookup gives the inserted payload.
pub proof fn law_miss_then_hit(m: StoreView, key: Seq<char>, data: Seq<char>, at: nat)
    ensures
        !Map::<Seq<char>, EntryView>::empty().contains_key(key),
        inserted(m, key, data, at).contains_key(key),
        !m.contains_key(key) ==> inserted(m, key, data, at)[key].data == data,
        m.contains_key(key) ==> inserted(m, key, data, at)[key] == m[key],
{
}

/// Inserts never take a key away, and never touch an entry that is present.
pub proof fn law_puts_keep_entries(m: StoreView, puts: Seq<Put>, key: Seq<char>)
    requires
        m.contains_key(key),
    ensures
        after_puts(m, puts).contains_key(key),
        after_puts(m, puts)[key] == m[key],
    decreases puts.len(),
{
    if puts.len() > 0 {
        law_puts_keep_entries(m, puts.drop_last(), key);
    }
}

/// A key that no insert names is as absent afterwards as it was before.
pub proof fn lemma_puts_leave(m: StoreView, puts: Seq<Put>, key: Seq<char>)
    requires
        !m.contains_key(key),
        forall|i: int| 0 <= i < puts.len() ==> (#[trigger] puts[i]).key != key,
    ensures
        !after_puts(m, puts).contains_key(key),
    decreases puts.len(),
{
    if puts.len() > 0 {
        let front = puts.drop_last();
        assert forall|i: int| 0 <= i < front.len() implies (#[trigger] front[i]).key != key by {
            assert(front[i] == puts[i]);
        }
        lemma_puts_leave(m, front, key);
        assert(puts.last() == puts[puts.len() - 1]);
    }
}

/// Inserts under keys that differ from each other and from every key of the
/// store all take effect, in whatever order they reach the store: each
/// payload can be read back under its own key.
pub proof fn law_distinct_puts_all_land(m: StoreView, puts: Seq<Put>, i: int)
    requires
        0 <= i < puts.len(),
        forall|a: int| 0 <= a < puts.len() ==> !m.contains_key((#[trigger] puts[a]).key),
        forall|a: int, b: int|
            0 <= a < b < puts.len() ==> (#[trigger] puts[a]).key != (#[trigger] puts[b]).key,
    ensures
        after_puts(m, puts).contains_key(puts[i].key),
        after_puts(m, puts)[puts[i].key] == (EntryView { created_at: puts[i].at, data: puts[i].data }),
    decreases puts.len(),
{
    let front = puts.drop_last();
    let last = puts.last();
    assert(last == puts[puts.len() - 1]);
    assert forall|a: int| 0 <= a < front.len() implies (#[trigger] front[a]).key != last.key by {
        assert(front[a] == puts[a]);
    }
    if i == puts.len() - 1 {
        lemma_puts_leave(m, front, last.key);
    } else {
        assert forall|a: int| 0 <= a < front.len() implies !m.contains_key(
            (#[trigger] front[a]).key,
        ) by {
            assert(front[a] == puts[a]);
        }
        assert forall|a: int, b: int| 0 <= a < b < front.len() implies (#[trigger] front[a]).key != (
        #[trigger] front[b]).key by {
            assert(front[a] == puts[a]);
            assert(front[b] == puts[b]);
        }
        assert(front[i] == puts[i]);
        law_distinct_puts_all_land(m, front, i);
    }
}

/// Two inserts under different keys give the same store in either order, so
/// the order in which such inserts take the lock does not show.
pub proof fn law_distinct_puts_commute(m: StoreView, one: Put, other: Put)
    requires
        one.key != other.key,
    ensures
        inserted(inserted(m, one.key, one.data, one.at), other.key, other.data, other.at)
            == inserted(inserted(m, other.key, other.data, other.at), one.key, one.data, one.at),
{
    assert(inserted(inserted(m, one.key, one.data, one.at), other.key, other.data, other.at)
        =~= inserted(inserted(m, other.key, other.data, other.at), one.key, one.data, one.at));
}

/// Of any number of inserts under one key that was absent, exactly the first
/// to reach the store is retained, and no other key appears.
pub proof fn law_same_key_first_put_stays(m: StoreView, puts: Seq<Put>, key: Seq<char>)
    requires
        puts.len() > 0,
        !m.contains_key(key),
        forall|a: int| 0 <= a < puts.len() ==> (#[trigger] puts[a]).key == key,
    ensures
        after_puts(m, puts) == m.insert(
            key,
            EntryView { created_at: puts[0].at, data: puts[0].data },
        ),
    decreases puts.len(),
{
    let front = puts.drop_last();
    assert(puts.last() == puts[puts.len() - 1]);
    if front.len() == 0 {
        assert(after_puts(m, front) == m);
    } else {
        assert forall|a: int| 0 <= a < front.len() implies (#[trigger] front[a]).key == key by {
            assert(front[a] == puts[a]);
        }
        assert(front[0] == puts[0]);
        law_same_key_first_put_stays(m, front, key);
    }
}

/// A sweep leaves an entry that has not outlived the time-to-live as it is.
pub proof fn law_sweep_spares_unexpired(m: StoreView, key: Seq<char>, now: nat, ttl: nat)
    requires
        m.contains_key(key),
        !expired(m[key].created_at, now, ttl),
    ensures
        swept(m, now, ttl).contains_key(key),
        swept(m, now, ttl)[key] == m[key],
{
}

/// An entry inserted just before a sweep, or at any time up to a whole
/// time-to-live before it, is still there after the sweep, with its payload
/// and its timestamp.
pub proof fn law_sweep_spares_fresh(
    m: StoreView,
    key: Seq<char>,
    data: Seq<char>,
    at: nat,
    now: nat,
    ttl: nat,
)
    requires
        !m.contains_key(key),
        now <= at + ttl,
    ensures
        swept(inserted(m, key, data, at), now, ttl).contains_key(key),
        swept(inserted(m, key, data, at), now, ttl)[key] == (EntryView { created_at: at, data }),
{
}

/// A sweep made later than an entry's timestamp plus the time-to-live evicts
/// the entry, and a sweep adds nothing.
pub proof fn law_sweep_evicts_expired(m: StoreView, key: Seq<char>, now: nat, ttl: nat)
    ensures
        m.contains_key(key) && now > m[key].created_at + ttl ==> !swept(m, now, ttl).contains_key(
            key,
        ),
        !m.contains_key(key) ==> !swept(m, now, ttl).contains_key(key),
        swept(m, now, ttl).contains_key(key) ==> swept(m, now, ttl)[key] == m[key],
{
}

/// With a clock that reads earlier than an entry's timestamp the entry has no
/// age, and a sweep leaves it in place.
pub proof fn law_backward_clock_spares(m: StoreView, key: Seq<char>, now: nat, ttl: nat)
    requires
        m.contains_key(key),
        now < m[key].created_at,
    ensures
        age(m[key].created_at, now) is None,
        swept(m, now, ttl).contains_key(key),
        swept(m, now, ttl)[key] == m[key],
{
}

/// An entry that a sweep left in place is, until the next sweep is due, never
/// older than the time-to-live plus one period of the reaper.
pub proof fn law_staleness_is_bounded(
    m: StoreView,
    key: Seq<char>,
    ttl: nat,
    swept_at: nat,
    now: nat,
)
    requires
        swept(m, swept_at, ttl).contains_key(key),
        swept_at <= now <= swept_at + sweep_period(ttl),
    ensures
        age(m[key].created_at, now) matches Some(a) ==> a <= ttl + sweep_period(ttl),
        2 * (ttl + sweep_period(ttl)) <= 3 * ttl,
{
}

/// Removing a key that is absent changes nothing, and removing twice is the
/// same as removing once.
pub proof fn law_removal_is_idempotent(m: StoreView, key: Seq<char>)
    ensures
        !m.contains_key(key) ==> m.remove(key) == m,
        m.remove(key).remove(key) == m.remove(key),
{
    if !m.contains_key(key) {
        assert(m.remove(key) =~= m);
    }
    assert(m.remove(key).remove(key) =~= m.remove(key));
}

/// Whatever sweeps are made, an entry that is still there is the entry that
/// was there at the start, and an absent key stays absent.
pub proof fn lemma_sweeps_only_evict(m: StoreView, ttl: nat, times: Seq<nat>, key: Seq<char>)
    ensures
        after_sweeps(m, ttl, times).contains_key(key) ==> m.contains_key(key) && after_sweeps(
            m,
            ttl,
            times,
        )[key] == m[key],
    decreases times.len(),
{
    if times.len() > 0 {
        lemma_sweeps_only_evict(m, ttl, times.drop_last(), key);
    }
}

/// With no further write to its key, an entry made at time `T` is gone once
/// the reaper has made a sweep later than `T + ttl`, and the reaper, sweeping
/// once every half time-to-live since the cache was made, makes that sweep no
/// later than `T + ttl + ttl / 2`. The count of sweeps that suffices is
/// returned.
///
/// The reaper starts with the cache, at `started`, so no entry is older than
/// that; and the law is for a reaper whose period is not zero.
pub proof fn law_ttl_upper_bound(m: StoreView, key: Seq<char>, ttl: nat, started: nat) -> (n: nat)
    requires
        m.contains_key(key),
        started <= m[key].created_at,
        sweep_period(ttl) > 0,
    ensures
        n >= 1,
        started + n * sweep_period(ttl) <= m[key].created_at + ttl + sweep_period(ttl),
        2 * (m[key].created_at + ttl + sweep_period(ttl)) <= 2 * m[key].created_at + 3 * ttl,
        forall|more: nat|
            more >= n ==> !(#[trigger] after_sweeps(
                m,
                ttl,
                schedule(started + sweep_period(ttl), sweep_period(ttl), more),
            )).contains_key(key),
{
    let period = sweep_period(ttl);
    let first = started + period;
    let due = m[key].created_at + ttl;
    let n: nat = if first > due {
        1
    } else {
        ((due - first) / period as int + 2) as nat
    };
    assert(first + (n - 1) * period > due && first + (n - 1) * period <= due + period) by {
        if first <= due {
            let x = due - first;
            let p = period as int;
            let q = x / p;
            lemma_fundamental_div_mod(x, p);
            lemma_mod_pos_bound(x, p);
            assert(n - 1 == q + 1);
            assert((q + 1) * p == p * q + p) by (nonlinear_arith);
            assert((n - 1) * period == (q + 1) * p);
        } else {
            assert((n - 1) * period == 0) by (nonlinear_arith)
                requires
                    n == 1,
            ;
        }
    }
    assert(started + n * period == first + (n - 1) * period) by (nonlinear_arith)
        requires
            first == started + period,
    ;
    assert forall|more: nat| more >= n implies !(#[trigger] after_sweeps(
        m,
        ttl,
        schedule(first, period, more),
    )).contains_key(key) by {
        lemma_gone_after(m, key, ttl, first, period, n, more);
    }
    n
}

/// Once the `n`-th sweep of a schedule comes later than an entry's deadline,
/// the entry is absent after any `more >= n` sweeps of that schedule.
proof fn lemma_gone_after(
    m: StoreView,
    key: Seq<char>,
    ttl: nat,
    first: nat,
    period: nat,
    n: nat,
    more: nat,
)
    requires
        m.contains_key(key),
        n >= 1,
        more >= n,
        first + (n - 1) * period > m[key].created_at + ttl,
    ensures
        !after_sweeps(m, ttl, schedule(first, period, more)).contains_key(key),
    decreases more,
{
    let times = schedule(first, period, more);
    let earlier = schedule(first, period, (more - 1) as nat);
    assert(times.drop_last() =~= earlier);
    let found = after_sweeps(m, ttl, earlier);
    if more > n {
        lemma_gone_after(m, key, ttl, first, period, n, (more - 1) as nat);
    } else {
        lemma_sweeps_only_evict(m, ttl, earlier, key);
        assert(times.last() == first + (n - 1) * period);
    }
}

/// One step in the life of a store.
pub enum Event {
    /// An insert under the first-writer-wins rule.
    Write(Put),
    /// A sweep of the reaper at the time `at`.
    Sweep { at: nat },
    /// The removal of one key.
    Remove { key: Seq<char> },
}

/// The store after one event.
pub open spec fn after_event(m: StoreView, ttl: nat, event: Event) -> StoreView {
    match event {
        Event::Write(put) => inserted(m, put.key, put.data, put.at),
        Event::Sweep { at } => swept(m, at, ttl),
        Event::Remove { key } => m.remove(key),
    }
}

/// The store after the `events`, in the order in which they took the lock.
pub open spec fn after_events(m: StoreView, ttl: nat, events: Seq<Event>) -> StoreView
    decreases events.len(),
{
    if events.len() == 0 {
        m
    } else {
        after_event(after_events(m, ttl, events.drop_last()), ttl, events.last())
    }
}

/// Whether `event` is an insert under `key`.
pub open spec fn writes_to(event: Event, key: Seq<char>) -> bool {
    event matches Event::Write(put) && put.key == key
}

/// In a history without an insert under `key`, an entry found under `key` is
/// the one that was there at the start.
pub proof fn lemma_history_keeps_entry(m: StoreView, ttl: nat, events: Seq<Event>, key: Seq<char>)
    requires
        forall|i: int| 0 <= i < events.len() ==> !writes_to(#[trigger] events[i], key),
    ensures
        after_events(m, ttl, events).contains_key(key) ==> m.contains_key(key) && after_events(
            m,
            ttl,
            events,
        )[key] == m[key],
    decreases events.len(),
{
    if events.len() > 0 {
        let front = events.drop_last();
        assert forall|i: int| 0 <= i < front.len() implies !writes_to(#[trigger] front[i], key) by {
            assert(front[i] == events[i]);
        }
        lemma_history_keeps_entry(m, ttl, front, key);
        assert(events.last() == events[events.len() - 1]);
    }
}

/// Whatever else happens to the store, inserts under other keys and removals
/// among it, an entry is gone after the first sweep that comes later than
/// its timestamp plus the time-to-live, and stays gone as long as nothing is
/// inserted under its key.
pub proof fn law_expired_entry_leaves(
    m: StoreView,
    ttl: nat,
    events: Seq<Event>,
    key: Seq<char>,
    sweep: int,
)
    requires
        m.contains_key(key),
        0 <= sweep < events.len(),
        events[sweep] matches Event::Sweep { at } && at > m[key].created_at + ttl,
        forall|i: int| 0 <= i < events.len() ==> !writes_to(#[trigger] events[i], key),
    ensures
        !after_events(m, ttl, events).contains_key(key),
    decreases events.len(),
{
    let front = events.drop_last();
    assert forall|i: int| 0 <= i < front.len() implies !writes_to(#[trigger] front[i], key) by {
        assert(front[i] == events[i]);
    }
    assert(events.last() == events[events.len() - 1]);
    if sweep == events.len() - 1 {
        lemma_history_keeps_entry(m, ttl, front, key);
    } else {
        assert(front[sweep] == events[sweep]);
        law_expired_entry_leaves(m, ttl, front, key, sweep);
    }
}

} // verus!
