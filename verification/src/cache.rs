//! TTL/capacity-bounded memoization: a keyed store with independent,
//! separately tuned partitions in front of the aggregation queries and icon
//! lookups. An entry is served only before its TTL expires; invalidating a
//! partition removes every entry, so no later read can observe stale data.

use vstd::pervasive::VecAdditionalExecFns;
use vstd::prelude::*;

use crate::time::{valid_ts, MAX_TS};

verus! {

/// A canonical cache key derived from query parameters.
#[derive(Debug, Clone)]
pub enum CacheKey {
    /// A half-open time range.
    Range { from: i64, to: i64 },
    /// A row-count bound.
    Limit { n: i64 },
    /// An app identity.
    App { id: String },
}

/// The mathematical value of a key: variant tag, numeric parameters, and
/// the app identity where one is carried.
pub open spec fn key_view(k: CacheKey) -> (int, int, int, Seq<char>) {
    match k {
        CacheKey::Range { from, to } => (0int, from as int, to as int, Seq::empty()),
        CacheKey::Limit { n } => (1int, n as int, 0int, Seq::empty()),
        CacheKey::App { id } => (2int, 0int, 0int, id@),
    }
}

/// Whether two keys denote the same query.
fn keys_equal(a: &CacheKey, b: &CacheKey) -> (r: bool)
    ensures
        r == (key_view(*a) == key_view(*b)),
{
    match (a, b) {
        (CacheKey::Range { from: f1, to: t1 }, CacheKey::Range { from: f2, to: t2 }) => {
            *f1 == *f2 && *t1 == *t2
        },
        (CacheKey::Limit { n: n1 }, CacheKey::Limit { n: n2 }) => *n1 == *n2,
        (CacheKey::App { id: i1 }, CacheKey::App { id: i2 }) => *i1 == *i2,
        _ => false,
    }
}

/// One cached result.
#[derive(Debug, Clone)]
pub struct Entry<V> {
    pub key: CacheKey,
    pub value: V,
    pub inserted_at: i64,
}

/// One cache partition: at most `capacity` entries, each served for at most
/// `ttl_s` seconds after its insertion.
#[derive(Debug)]
pub struct TtlCache<V> {
    pub entries: Vec<Entry<V>>,
    pub capacity: usize,
    pub ttl_s: i64,
}

/// The first entry carrying the wanted key, if any.
pub open spec fn lookup_in<V>(entries: Seq<Entry<V>>, kv: (int, int, int, Seq<char>)) -> Option<
    Entry<V>,
>
    decreases entries.len(),
{
    if entries.len() == 0 {
        None
    } else if key_view(entries.first().key) == kv {
        Some(entries.first())
    } else {
        lookup_in(entries.drop_first(), kv)
    }
}

/// With no earlier match, the lookup lands on the matching index.
proof fn lemma_lookup_in_index<V>(
    entries: Seq<Entry<V>>,
    kv: (int, int, int, Seq<char>),
    i: int,
)
    requires
        0 <= i < entries.len(),
        key_view(entries[i].key) == kv,
        forall|j: int| 0 <= j < i ==> key_view((#[trigger] entries[j]).key) != kv,
    ensures
        lookup_in(entries, kv) == Some(entries[i]),
    decreases i,
{
    if i == 0 {
    } else {
        assert forall|j: int|
            0 <= j < i - 1 implies key_view((#[trigger] entries.drop_first()[j]).key) != kv by {
            assert(entries.drop_first()[j] == entries[j + 1]);
        }
        assert(entries.drop_first()[i - 1] == entries[i]);
        lemma_lookup_in_index(entries.drop_first(), kv, i - 1);
    }
}

/// With no match at all, the lookup finds nothing.
proof fn lemma_lookup_in_none<V>(entries: Seq<Entry<V>>, kv: (int, int, int, Seq<char>))
    requires
        forall|j: int|
            0 <= j < entries.len() ==> key_view((#[trigger] entries[j]).key) != kv,
    ensures
        lookup_in(entries, kv) is None,
    decreases entries.len(),
{
    if entries.len() > 0 {
        assert forall|j: int|
            0 <= j < entries.drop_first().len() implies key_view((
        #[trigger] entries.drop_first()[j]).key) != kv by {
            assert(entries.drop_first()[j] == entries[j + 1]);
        }
        lemma_lookup_in_none(entries.drop_first(), kv);
    }
}

impl<V> TtlCache<V> {
    /// Well-formedness: bounded, with pairwise distinct keys, in-range
    /// insertion times, and a TTL that arithmetic can always add.
    pub open spec fn wf(self) -> bool {
        &&& 1 <= self.capacity
        &&& self.entries@.len() <= self.capacity
        &&& 0 <= self.ttl_s <= i64::MAX - MAX_TS
        &&& forall|i: int|
            0 <= i < self.entries@.len() ==> valid_ts(
                (#[trigger] self.entries@[i]).inserted_at as int,
            )
        &&& forall|i: int, j: int|
            0 <= i < j < self.entries@.len() ==> key_view((#[trigger] self.entries@[i]).key)
                != key_view((#[trigger] self.entries@[j]).key)
    }

    /// What a read at time `now` returns: the entry's value, if one with
    /// the key exists and its TTL has not yet expired.
    pub open spec fn get_spec(self, kv: (int, int, int, Seq<char>), now: i64) -> Option<V> {
        match lookup_in(self.entries@, kv) {
            Some(e) => if now < e.inserted_at + self.ttl_s {
                Some(e.value)
            } else {
                None
            },
            None => None,
        }
    }

    /// An empty partition.
    pub fn new(capacity: usize, ttl_s: i64) -> (r: TtlCache<V>)
        requires
            1 <= capacity,
            0 <= ttl_s <= i64::MAX - MAX_TS,
        ensures
            r.wf(),
            r.capacity == capacity,
            r.ttl_s == ttl_s,
            r.entries@.len() == 0,
    {
        TtlCache { entries: Vec::new(), capacity, ttl_s }
    }

    /// Serves a cached result: the value stored under the key, if it is
    /// still fresh at `now`.
    pub fn get(&self, key: &CacheKey, now: i64) -> (r: Option<&V>)
        requires
            self.wf(),
        ensures
            match r {
                Some(v) => self.get_spec(key_view(*key), now) == Some(*v),
                None => self.get_spec(key_view(*key), now) is None,
            },
    {
        let mut i: usize = 0;
        while i < self.entries.len()
            invariant
                self.wf(),
                0 <= i <= self.entries@.len(),
                forall|j: int|
                    0 <= j < i ==> key_view((#[trigger] self.entries@[j]).key) != key_view(
                        *key,
                    ),
            decreases self.entries@.len() - i,
        {
            if keys_equal(&self.entries[i].key, key) {
                proof {
                    lemma_lookup_in_index(self.entries@, key_view(*key), i as int);
                }
                if now < self.entries[i].inserted_at + self.ttl_s {
                    return Some(&self.entries[i].value);
                } else {
                    return None;
                }
            }
            i = i + 1;
        }
        proof {
            lemma_lookup_in_none(self.entries@, key_view(*key));
        }
        None
    }

    /// Stores a result under a key at time `now`, replacing any entry with
    /// the same key, and evicting the oldest-position entry if the
    /// partition is full. Afterwards the key serves this value for
    /// `ttl_s` seconds, and no other key serves anything it did not
    /// already serve.
    pub fn insert(&mut self, key: CacheKey, value: V, now: i64)
        requires
            old(self).wf(),
            valid_ts(now as int),
        ensures
            final(self).wf(),
            final(self).capacity == old(self).capacity,
            final(self).ttl_s == old(self).ttl_s,
            lookup_in(final(self).entries@, key_view(key)) matches Some(e) && e.value == value
                && e.inserted_at == now && key_view(e.key) == key_view(key),
            forall|kv2: (int, int, int, Seq<char>)|
                kv2 != key_view(key) ==> (#[trigger] lookup_in(final(self).entries@, kv2) matches
                    Some(e) ==> lookup_in(old(self).entries@, kv2) == Some(e)),
    {
        let ghost kv = key_view(key);
        let mut i: usize = 0;
        let mut found: Option<usize> = None;
        while i < self.entries.len() && found.is_none()
            invariant
                0 <= i <= self.entries@.len(),
                match found {
                    Some(j) => j < i && i <= self.entries@.len() && key_view(
                        self.entries@[j as int].key,
                    ) == key_view(key),
                    None => forall|j: int|
                        0 <= j < i ==> key_view((#[trigger] self.entries@[j]).key) != key_view(
                            key,
                        ),
                },
            decreases self.entries@.len() - i,
        {
            if keys_equal(&self.entries[i].key, &key) {
                found = Some(i);
            }
            i = i + 1;
        }
        let ghost epre = self.entries@;
        match found {
            Some(j) => {
                let new_key_entry = Entry { key, value, inserted_at: now };
                self.entries.set(j, new_key_entry);
                proof {
                    assert(key_view(self.entries@[j as int].key) == kv);
                    assert forall|p: int| 0 <= p < j implies key_view(
                        (#[trigger] self.entries@[p]).key,
                    ) != kv by {
                        assert(self.entries@[p] == epre[p]);
                    }
                    lemma_lookup_in_index(self.entries@, kv, j as int);
                    self.lemma_other_keys(epre, kv);
                }
            },
            None => {
                if self.entries.len() == self.capacity {
                    let _evicted = self.entries.remove(0);
                }
                let ghost emid = self.entries@;
                let new_key_entry = Entry { key, value, inserted_at: now };
                self.entries.push(new_key_entry);
                proof {
                    assert forall|p: int| 0 <= p < emid.len() implies key_view(
                        (#[trigger] emid[p]).key,
                    ) != kv by {
                        if epre.len() == old(self).capacity {
                            assert(emid[p] == epre[p + 1]);
                        } else {
                            assert(emid[p] == epre[p]);
                        }
                    }
                    assert forall|p: int| 0 <= p < self.entries@.len() - 1 implies key_view(
                        (#[trigger] self.entries@[p]).key,
                    ) != kv by {
                        assert(self.entries@[p] == emid[p]);
                    }
                    lemma_lookup_in_index(self.entries@, kv, self.entries@.len() - 1);
                    self.lemma_other_keys(epre, kv);
                }
            },
        }
    }

    /// Every entry of the new table other than the inserted key's stood in
    /// the old table, so any other key serves only what it already served.
    proof fn lemma_other_keys(self, epre: Seq<Entry<V>>, kv: (int, int, int, Seq<char>))
        requires
            forall|i: int, j: int|
                0 <= i < j < epre.len() ==> key_view((#[trigger] epre[i]).key) != key_view(
                    (#[trigger] epre[j]).key,
                ),
            forall|p: int|
                0 <= p < self.entries@.len() ==> key_view(
                    (#[trigger] self.entries@[p]).key,
                ) == kv || exists|q: int| 0 <= q < epre.len() && epre[q] == self.entries@[p],
        ensures
            forall|kv2: (int, int, int, Seq<char>)|
                kv2 != kv ==> (#[trigger] lookup_in(self.entries@, kv2) matches Some(e)
                    ==> lookup_in(epre, kv2) == Some(e)),
    {
        assert forall|kv2: (int, int, int, Seq<char>)|
            kv2 != kv implies (#[trigger] lookup_in(self.entries@, kv2) matches Some(e)
            ==> lookup_in(epre, kv2) == Some(e)) by {
            if lookup_in(self.entries@, kv2) is Some && kv2 != kv {
                let e = lookup_in(self.entries@, kv2)->0;
                Self::lemma_lookup_found(self.entries@, kv2);
                let p = choose|p: int|
                    0 <= p < self.entries@.len() && self.entries@[p] == e && key_view(e.key)
                        == kv2;
                let q = choose|q: int| 0 <= q < epre.len() && epre[q] == self.entries@[p];
                assert forall|w: int| 0 <= w < q implies key_view((#[trigger] epre[w]).key)
                    != kv2 by {}
                lemma_lookup_in_index(epre, kv2, q);
            }
        }
    }

    /// A found lookup names an entry of the table with the wanted key.
    proof fn lemma_lookup_found(entries: Seq<Entry<V>>, kv: (int, int, int, Seq<char>))
        requires
            lookup_in(entries, kv) is Some,
        ensures
            exists|p: int|
                0 <= p < entries.len() && entries[p] == lookup_in(entries, kv)->0 && key_view(
                    lookup_in(entries, kv)->0.key,
                ) == kv,
        decreases entries.len(),
    {
        if entries.len() > 0 {
            if key_view(entries.first().key) == kv {
                assert(entries[0] == lookup_in(entries, kv)->0);
            } else {
                Self::lemma_lookup_found(entries.drop_first(), kv);
                let p = choose|p: int|
                    0 <= p < entries.drop_first().len() && entries.drop_first()[p] == lookup_in(
                        entries.drop_first(),
                        kv,
                    )->0 && key_view(lookup_in(entries.drop_first(), kv)->0.key) == kv;
                assert(entries[p + 1] == entries.drop_first()[p]);
            }
        }
    }

    /// Drops every entry: afterwards no read, at any time, observes a
    /// value, so the next query re-reads the source of truth.
    pub fn invalidate_all(&mut self)
        requires
            old(self).wf(),
        ensures
            final(self).wf(),
            final(self).capacity == old(self).capacity,
            final(self).ttl_s == old(self).ttl_s,
            final(self).entries@.len() == 0,
            forall|kv: (int, int, int, Seq<char>), now: i64|
                #[trigger] final(self).get_spec(kv, now) is None,
    {
        self.entries.clear();
    }
}

/// Within an entry's TTL, reads are stable: two reads at any two times
/// before the TTL expires return the same value, the one stored, without
/// consulting the source of truth.
pub proof fn lemma_ttl_hit<V>(
    c: TtlCache<V>,
    kv: (int, int, int, Seq<char>),
    now1: i64,
    now2: i64,
)
    requires
        c.wf(),
        lookup_in(c.entries@, kv) is Some,
        now1 < lookup_in(c.entries@, kv)->0.inserted_at + c.ttl_s,
        now2 < lookup_in(c.entries@, kv)->0.inserted_at + c.ttl_s,
    ensures
        c.get_spec(kv, now1) == Some(lookup_in(c.entries@, kv)->0.value),
        c.get_spec(kv, now1) == c.get_spec(kv, now2),
{
}

} // verus!
