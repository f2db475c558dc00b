use vstd::prelude::*;
use vstd::string::StringSliceAdditionalSpecFns;

use crate::command::bytes_eq_str;
use crate::{bytes_eq, clone_bytes};

verus! {

// ---------------------------------------------------------------------------
// The store
//
// A mapping from keys (arbitrary byte sequences) to values with optional
// expiry, shared by every connection, plus two optional configuration
// strings fixed at startup. Entries are held in an association list with
// pairwise distinct keys; its mathematical form is a `Map`.
// ---------------------------------------------------------------------------

/// One stored value: the payload and an optional absolute expiry instant,
/// in milliseconds on the server's clock.
pub struct Entry {
    pub value: Vec<u8>,
    pub expiry: Option<u64>,
}

/// The mathematical form of a stored value.
pub struct EntryModel {
    pub value: Seq<u8>,
    pub expiry: Option<u64>,
}

impl Entry {
    pub open spec fn model(self) -> EntryModel {
        EntryModel { value: self.value@, expiry: self.expiry }
    }
}

/// An entry is still visible at time `now`: it either never expires or its
/// expiry instant is not yet strictly in the past.
pub open spec fn entry_live(e: EntryModel, now: u64) -> bool {
    match e.expiry {
        None => true,
        Some(t) => now <= t,
    }
}

/// Some entry of the list bears key `k`.
pub open spec fn has_key(es: Seq<(Vec<u8>, Entry)>, k: Seq<u8>) -> bool {
    exists|i: int| 0 <= i < es.len() && es[i].0@ == k
}

/// The mapping an entry list denotes.
pub open spec fn entries_map(es: Seq<(Vec<u8>, Entry)>) -> Map<Seq<u8>, EntryModel> {
    Map::new(
        |k: Seq<u8>| has_key(es, k),
        |k: Seq<u8>| es[choose|i: int| 0 <= i < es.len() && es[i].0@ == k].1.model(),
    )
}

/// Keys are pairwise distinct.
pub open spec fn distinct_keys(es: Seq<(Vec<u8>, Entry)>) -> bool {
    forall|i: int, j: int| 0 <= i < j < es.len() ==> es[i].0@ != es[j].0@
}

/// With distinct keys, the entry at index `i` is what the map holds at its
/// key.
proof fn lemma_entries_map_at(es: Seq<(Vec<u8>, Entry)>, i: int)
    requires
        distinct_keys(es),
        0 <= i < es.len(),
    ensures
        entries_map(es).contains_key(es[i].0@),
        entries_map(es)[es[i].0@] == es[i].1.model(),
{
    let k = es[i].0@;
    assert(has_key(es, k));
    let j = choose|j: int| 0 <= j < es.len() && es[j].0@ == k;
    assert(j == i);
}

/// Replacing the entry at index `i`, keeping its key, updates the map at
/// that key.
proof fn lemma_entries_map_update(es: Seq<(Vec<u8>, Entry)>, i: int, p: (Vec<u8>, Entry))
    requires
        distinct_keys(es),
        0 <= i < es.len(),
        p.0@ == es[i].0@,
    ensures
        distinct_keys(es.update(i, p)),
        entries_map(es.update(i, p)) == entries_map(es).insert(p.0@, p.1.model()),
{
    let es2 = es.update(i, p);
    let m2 = entries_map(es).insert(p.0@, p.1.model());
    assert forall|k: Seq<u8>| has_key(es2, k) implies m2.contains_key(k) by {
        let w = choose|w: int| 0 <= w < es2.len() && es2[w].0@ == k;
        if w != i {
            assert(es[w].0@ == k);
            assert(has_key(es, k));
        }
    }
    assert forall|k: Seq<u8>| m2.contains_key(k) implies has_key(es2, k) by {
        if k == p.0@ {
            assert(es2[i].0@ == k);
        } else {
            let w = choose|w: int| 0 <= w < es.len() && es[w].0@ == k;
            assert(es2[w].0@ == k);
        }
    }
    assert forall|k: Seq<u8>| has_key(es2, k) implies entries_map(es2)[k] == m2[k] by {
        let w = choose|w: int| 0 <= w < es2.len() && es2[w].0@ == k;
        lemma_entries_map_at(es2, w);
        if w == i {
            assert(k == p.0@);
        } else {
            assert(k != p.0@);
            assert(es[w].0@ == k);
            lemma_entries_map_at(es, w);
        }
    }
    assert(entries_map(es2) =~= m2);
}

/// Appending an entry whose key is fresh adds that key to the map.
proof fn lemma_entries_map_push(es: Seq<(Vec<u8>, Entry)>, p: (Vec<u8>, Entry))
    requires
        distinct_keys(es),
        !has_key(es, p.0@),
    ensures
        distinct_keys(es.push(p)),
        entries_map(es.push(p)) == entries_map(es).insert(p.0@, p.1.model()),
{
    let es2 = es.push(p);
    let n = es.len() as int;
    let m2 = entries_map(es).insert(p.0@, p.1.model());
    assert(es2[n] == p);
    assert(distinct_keys(es2)) by {
        assert forall|i: int, j: int| 0 <= i < j < es2.len() implies es2[i].0@ != es2[j].0@ by {
            if j < n {
                assert(es[i].0@ != es[j].0@);
            } else {
                assert(es2[i] == es[i]);
                assert(!(es[i].0@ == p.0@));
            }
        }
    }
    assert forall|k: Seq<u8>| has_key(es2, k) implies m2.contains_key(k) by {
        let w = choose|w: int| 0 <= w < es2.len() && es2[w].0@ == k;
        if w < n {
            assert(es[w].0@ == k);
            assert(has_key(es, k));
        }
    }
    assert forall|k: Seq<u8>| m2.contains_key(k) implies has_key(es2, k) by {
        if k == p.0@ {
            assert(es2[n].0@ == k);
        } else {
            let w = choose|w: int| 0 <= w < es.len() && es[w].0@ == k;
            assert(es2[w].0@ == k);
        }
    }
    assert forall|k: Seq<u8>| has_key(es2, k) implies entries_map(es2)[k] == m2[k] by {
        let w = choose|w: int| 0 <= w < es2.len() && es2[w].0@ == k;
        lemma_entries_map_at(es2, w);
        if w == n {
            assert(k == p.0@);
        } else {
            assert(es2[w] == es[w]);
            assert(k != p.0@);
            lemma_entries_map_at(es, w);
        }
    }
    assert(entries_map(es2) =~= m2);
}

/// Removing the entry at index `i` removes exactly its key from the map.
proof fn lemma_entries_map_remove(es: Seq<(Vec<u8>, Entry)>, i: int)
    requires
        distinct_keys(es),
        0 <= i < es.len(),
    ensures
        distinct_keys(es.remove(i)),
        entries_map(es.remove(i)) == entries_map(es).remove(es[i].0@),
{
    let es2 = es.remove(i);
    let ki = es[i].0@;
    let m2 = entries_map(es).remove(ki);
    assert(distinct_keys(es2)) by {
        assert forall|a: int, b: int| 0 <= a < b < es2.len() implies es2[a].0@ != es2[b].0@ by {
            let a0 = if a < i { a } else { a + 1 };
            let b0 = if b < i { b } else { b + 1 };
            assert(es2[a] == es[a0]);
            assert(es2[b] == es[b0]);
            assert(es[a0].0@ != es[b0].0@);
        }
    }
    assert forall|k: Seq<u8>| has_key(es2, k) implies m2.contains_key(k) by {
        let w = choose|w: int| 0 <= w < es2.len() && es2[w].0@ == k;
        let w0 = if w < i { w } else { w + 1 };
        assert(es2[w] == es[w0]);
        assert(has_key(es, k));
        assert(w0 != i);
        assert(k != ki);
    }
    assert forall|k: Seq<u8>| m2.contains_key(k) implies has_key(es2, k) by {
        let w = choose|w: int| 0 <= w < es.len() && es[w].0@ == k;
        assert(w != i);
        if w < i {
            assert(es2[w] == es[w]);
        } else {
            assert(es2[w - 1] == es[w]);
        }
    }
    assert forall|k: Seq<u8>| has_key(es2, k) implies entries_map(es2)[k] == m2[k] by {
        let w = choose|w: int| 0 <= w < es2.len() && es2[w].0@ == k;
        lemma_entries_map_at(es2, w);
        let w0 = if w < i { w } else { w + 1 };
        assert(es2[w] == es[w0]);
        lemma_entries_map_at(es, w0);
    }
    assert(entries_map(es2) =~= m2);
}

// ---------------------------------------------------------------------------
// Store operations, mathematically
// ---------------------------------------------------------------------------

/// Addition that stops at the largest representable instant instead of
/// wrapping around.
pub open spec fn sat_add_u64(a: u64, b: u64) -> u64 {
    if a + b > u64::MAX {
        u64::MAX
    } else {
        (a + b) as u64
    }
}

/// What a read of `k` at time `now` returns.
pub open spec fn get_result(m: Map<Seq<u8>, EntryModel>, k: Seq<u8>, now: u64) -> Option<Seq<u8>> {
    if m.contains_key(k) && entry_live(m[k], now) {
        Some(m[k].value)
    } else {
        None
    }
}

/// The mapping after a read of `k` at time `now`: an expired entry is
/// removed on the way (lazy expiry); nothing else changes.
pub open spec fn map_after_get(m: Map<Seq<u8>, EntryModel>, k: Seq<u8>, now: u64) -> Map<
    Seq<u8>,
    EntryModel,
> {
    if m.contains_key(k) && !entry_live(m[k], now) {
        m.remove(k)
    } else {
        m
    }
}

/// The mapping after a plain write: last writer wins, expiry cleared.
pub open spec fn set_spec(m: Map<Seq<u8>, EntryModel>, k: Seq<u8>, v: Seq<u8>) -> Map<
    Seq<u8>,
    EntryModel,
> {
    m.insert(k, EntryModel { value: v, expiry: None })
}

/// The mapping after a write with a relative time to live. A time to live
/// of zero milliseconds means the entry is expired from the moment it is
/// written: the key is simply absent afterwards, so every following read —
/// including one at the very same clock reading — finds nothing. A nonzero
/// time to live stores the expiry instant `now + ttl_ms` (saturating),
/// which reads then hold to the strictly-in-the-past rule.
pub open spec fn set_px_spec(
    m: Map<Seq<u8>, EntryModel>,
    k: Seq<u8>,
    v: Seq<u8>,
    ttl_ms: u64,
    now: u64,
) -> Map<Seq<u8>, EntryModel> {
    if ttl_ms == 0 {
        m.remove(k)
    } else {
        m.insert(k, EntryModel { value: v, expiry: Some(sat_add_u64(now, ttl_ms)) })
    }
}

// ---------------------------------------------------------------------------
// The store, executably
// ---------------------------------------------------------------------------

/// The shared key-value store.
pub struct Store {
    entries: Vec<(Vec<u8>, Entry)>,
    config: Option<(Vec<u8>, Vec<u8>)>,
}

/// The mathematical form of the store.
pub struct StoreModel {
    pub map: Map<Seq<u8>, EntryModel>,
    pub config: Option<(Seq<u8>, Seq<u8>)>,
}

/// Outcome of a configuration lookup.
#[derive(Debug, Clone, PartialEq, Eq)]
pub enum ConfigLookup {
    /// The parameter is known and configured; its value.
    Value(Vec<u8>),
    /// The parameter is not one this server reports.
    NotFound,
    /// No configuration was supplied at startup.
    NoConfig,
}

/// The mathematical form of a configuration lookup.
pub enum ConfigLookupModel {
    Value(Seq<u8>),
    NotFound,
    NoConfig,
}

impl ConfigLookup {
    pub open spec fn model(self) -> ConfigLookupModel {
        match self {
            ConfigLookup::Value(v) => ConfigLookupModel::Value(v@),
            ConfigLookup::NotFound => ConfigLookupModel::NotFound,
            ConfigLookup::NoConfig => ConfigLookupModel::NoConfig,
        }
    }
}

/// What `CONFIG GET name` answers: the configured directory for `dir`, the
/// configured file name for `dbfilename`, `NotFound` for any other name,
/// and `NoConfig` when no configuration was supplied at startup.
pub open spec fn config_get_spec(c: Option<(Seq<u8>, Seq<u8>)>, name: Seq<u8>) -> ConfigLookupModel {
    match c {
        None => ConfigLookupModel::NoConfig,
        Some(pair) => {
            if name == "dir".spec_bytes() {
                ConfigLookupModel::Value(pair.0)
            } else if name == "dbfilename".spec_bytes() {
                ConfigLookupModel::Value(pair.1)
            } else {
                ConfigLookupModel::NotFound
            }
        },
    }
}

impl Store {
    /// Keys of the entry list are pairwise distinct.
    pub closed spec fn wf(self) -> bool {
        distinct_keys(self.entries@)
    }

    pub closed spec fn model(self) -> StoreModel {
        StoreModel {
            map: entries_map(self.entries@),
            config: match self.config {
                None => None,
                Some(pair) => Some((pair.0@, pair.1@)),
            },
        }
    }

    /// An empty store with no configuration.
    pub fn new() -> (s: Store)
        ensures
            s.wf(),
            s.model().map == Map::<Seq<u8>, EntryModel>::empty(),
            s.model().config is None,
    {
        let s = Store { entries: Vec::new(), config: None };
        proof {
            assert(s.model().map =~= Map::<Seq<u8>, EntryModel>::empty());
        }
        s
    }

    /// An empty store carrying the snapshot directory and file name.
    pub fn new_with_config(dir: Vec<u8>, dbfilename: Vec<u8>) -> (s: Store)
        ensures
            s.wf(),
            s.model().map == Map::<Seq<u8>, EntryModel>::empty(),
            s.model().config == Some((dir@, dbfilename@)),
    {
        let s = Store { entries: Vec::new(), config: Some((dir, dbfilename)) };
        proof {
            assert(s.model().map =~= Map::<Seq<u8>, EntryModel>::empty());
        }
        s
    }

    /// Index of the entry bearing `key`, if any.
    fn find_index(&self, key: &Vec<u8>) -> (r: Option<usize>)
        ensures
            match r {
                Some(i) => i < self.entries@.len() && self.entries@[i as int].0@ == key@,
                None => !has_key(self.entries@, key@),
            },
    {
        let mut i: usize = 0;
        while i < self.entries.len()
            invariant
                i <= self.entries@.len(),
                forall|j: int| 0 <= j < i ==> self.entries@[j].0@ != key@,
            decreases self.entries@.len() - i,
        {
            if bytes_eq(&self.entries[i].0, key) {
                return Some(i);
            }
            i = i + 1;
        }
        None
    }

    /// Look a key up at time `now_ms`. An entry whose expiry is strictly in
    /// the past is treated as absent and removed on the way (lazy expiry).
    pub fn get(&mut self, key: &Vec<u8>, now_ms: u64) -> (r: Option<Vec<u8>>)
        requires
            old(self).wf(),
        ensures
            final(self).wf(),
            final(self).model().config == old(self).model().config,
            final(self).model().map == map_after_get(old(self).model().map, key@, now_ms),
            match r {
                Some(v) => get_result(old(self).model().map, key@, now_ms) == Some(v@),
                None => get_result(old(self).model().map, key@, now_ms) is None,
            },
    {
        match self.find_index(key) {
            None => None,
            Some(i) => {
                proof {
                    lemma_entries_map_at(self.entries@, i as int);
                }
                let expired = match self.entries[i].1.expiry {
                    Some(t) => t < now_ms,
                    None => false,
                };
                if expired {
                    proof {
                        lemma_entries_map_remove(self.entries@, i as int);
                    }
                    self.entries.remove(i);
                    None
                } else {
                    Some(clone_bytes(&self.entries[i].1.value))
                }
            },
        }
    }

    /// Insert or overwrite `key`, storing `e`.
    fn set_entry(&mut self, key: &Vec<u8>, e: Entry)
        requires
            old(self).wf(),
        ensures
            final(self).wf(),
            final(self).model().config == old(self).model().config,
            final(self).model().map == old(self).model().map.insert(key@, e.model()),
    {
        let ghost es0 = self.entries@;
        let k2 = clone_bytes(key);
        match self.find_index(key) {
            Some(i) => {
                self.entries[i] = (k2, e);
                proof {
                    lemma_entries_map_update(es0, i as int, self.entries@[i as int]);
                    assert(self.entries@ =~= es0.update(i as int, self.entries@[i as int]));
                }
            },
            None => {
                self.entries.push((k2, e));
                proof {
                    let n = es0.len() as int;
                    lemma_entries_map_push(es0, self.entries@[n]);
                    assert(self.entries@ =~= es0.push(self.entries@[n]));
                }
            },
        }
    }

    /// Plain write: overwrites any existing entry and clears its expiry
    /// (last writer wins).
    pub fn set(&mut self, key: &Vec<u8>, value: Vec<u8>)
        requires
            old(self).wf(),
        ensures
            final(self).wf(),
            final(self).model().config == old(self).model().config,
            final(self).model().map == set_spec(old(self).model().map, key@, value@),
    {
        self.set_entry(key, Entry { value, expiry: None });
    }

    /// Write with a relative time to live: the entry expires `ttl_ms`
    /// milliseconds after `now_ms` (saturating at the largest instant). A
    /// time to live of zero is valid and means the entry is expired on
    /// arrival: the key is removed outright, so even a read at this very
    /// clock reading finds nothing.
    pub fn set_with_expiry(&mut self, key: &Vec<u8>, value: Vec<u8>, ttl_ms: u64, now_ms: u64)
        requires
            old(self).wf(),
        ensures
            final(self).wf(),
            final(self).model().config == old(self).model().config,
            final(self).model().map == set_px_spec(old(self).model().map, key@, value@, ttl_ms, now_ms),
    {
        if ttl_ms == 0 {
            let ghost es0 = self.entries@;
            match self.find_index(key) {
                Some(i) => {
                    proof {
                        lemma_entries_map_remove(es0, i as int);
                    }
                    self.entries.remove(i);
                },
                None => {
                    proof {
                        assert(entries_map(es0).remove(key@) =~= entries_map(es0));
                    }
                },
            }
            return;
        }
        let t: u64 = if ttl_ms > u64::MAX - now_ms {
            u64::MAX
        } else {
            now_ms + ttl_ms
        };
        self.set_entry(key, Entry { value, expiry: Some(t) });
    }

    /// Answer `CONFIG GET name` from the configuration fixed at startup.
    pub fn config_get(&self, name: &Vec<u8>) -> (r: ConfigLookup)
        ensures
            r.model() == config_get_spec(self.model().config, name@),
    {
        match &self.config {
            None => ConfigLookup::NoConfig,
            Some(pair) => {
                if bytes_eq_str(name, "dir") {
                    ConfigLookup::Value(clone_bytes(&pair.0))
                } else if bytes_eq_str(name, "dbfilename") {
                    ConfigLookup::Value(clone_bytes(&pair.1))
                } else {
                    ConfigLookup::NotFound
                }
            },
        }
    }
}

// ---------------------------------------------------------------------------
// Laws of the store
// ---------------------------------------------------------------------------

/// Reading is idempotent on a key that is live at both instants: the first
/// read leaves the mapping unchanged and the second returns the same value.
pub proof fn lemma_get_idempotent(m: Map<Seq<u8>, EntryModel>, k: Seq<u8>, now1: u64, now2: u64)
    requires
        now1 <= now2,
        m.contains_key(k) ==> entry_live(m[k], now2),
    ensures
        map_after_get(m, k, now1) == m,
        get_result(map_after_get(m, k, now1), k, now2) == get_result(m, k, now1),
{
}

/// A key set with a time to live of zero milliseconds is already expired:
/// every read — at the write's own clock reading or any other — finds it
/// absent.
pub proof fn lemma_set_px_zero_expired(
    m: Map<Seq<u8>, EntryModel>,
    k: Seq<u8>,
    v: Seq<u8>,
    now: u64,
    later: u64,
)
    ensures
        get_result(set_px_spec(m, k, v, 0, now), k, later) is None,
{
}

/// A key read within its (nonzero) time to live still yields the value
/// just set.
pub proof fn lemma_set_px_live(
    m: Map<Seq<u8>, EntryModel>,
    k: Seq<u8>,
    v: Seq<u8>,
    ttl_ms: u64,
    now: u64,
    later: u64,
)
    requires
        ttl_ms > 0,
        later <= sat_add_u64(now, ttl_ms),
    ensures
        get_result(set_px_spec(m, k, v, ttl_ms, now), k, later) == Some(v),
{
}

/// A plain overwrite clears a previous expiry: after it, the new value is
/// returned however late the read happens.
pub proof fn lemma_set_clears_expiry(
    m: Map<Seq<u8>, EntryModel>,
    k: Seq<u8>,
    v1: Seq<u8>,
    ttl_ms: u64,
    now: u64,
    v2: Seq<u8>,
    later: u64,
)
    ensures
        get_result(set_spec(set_px_spec(m, k, v1, ttl_ms, now), k, v2), k, later) == Some(v2),
{
}

/// Operations on one key never change what a read of another key returns:
/// writes and lazy removals are confined to the key they name.
pub proof fn lemma_disjoint_keys(
    m: Map<Seq<u8>, EntryModel>,
    k1: Seq<u8>,
    k2: Seq<u8>,
    v: Seq<u8>,
    ttl_ms: u64,
    now: u64,
    later: u64,
)
    requires
        k1 != k2,
    ensures
        get_result(set_spec(m, k1, v), k2, later) == get_result(m, k2, later),
        get_result(set_px_spec(m, k1, v, ttl_ms, now), k2, later) == get_result(m, k2, later),
        get_result(map_after_get(m, k1, now), k2, later) == get_result(m, k2, later),
{
}

} // verus!
