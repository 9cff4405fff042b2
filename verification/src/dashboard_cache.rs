//! Caching of dashboard data with a time to live, least-recently-used
//! eviction under a memory limit, and invalidation of the entries that
//! depend on a changed data source.

use vstd::prelude::*;
use crate::session::uuid_string;
use crate::session::uuid_text;
use crate::string_map::{str_eq, StringMap};
use crate::text::{concat_strs, decimal, decimal_string};
use crate::timeseries::{signed_decimal, signed_string};

verus! {

/// Different types of cacheable data.
#[derive(Debug, Clone, Copy, PartialEq, Eq, Structural)]
pub enum CacheDataType {
    DashboardData,
    LiveDashboardData,
    AnalyticsSummary,
    TimeSeriesData,
    PerformanceMetrics,
    SessionReport,
}

/// Cache key with metadata.
#[derive(Debug)]
pub struct CacheKey {
    pub data_type: CacheDataType,
    pub identifier: String,
    pub parameters: StringMap,
}

/// Whether two keys name the same cache entry: same type, identifier and
/// parameters.
pub open spec fn same_key(a: CacheKey, b: CacheKey) -> bool {
    a.data_type == b.data_type && a.identifier@ == b.identifier@ && a.parameters.map()
        == b.parameters.map()
}

impl Clone for CacheKey {
    /// A copy naming the same entry.
    fn clone(&self) -> (k: Self)
        ensures
            same_key(k, *self),
    {
        CacheKey { data_type: self.data_type, identifier: self.identifier.clone(), parameters: self.parameters.clone() }
    }
}

impl CacheKey {
    /// A key without parameters.
    pub fn new(data_type: CacheDataType, identifier: String) -> (k: Self)
        ensures
            k.data_type == data_type,
            k.identifier@ == identifier@,
            k.parameters.map() == Map::<Seq<char>, Seq<char>>::empty(),
    {
        CacheKey { data_type, identifier, parameters: StringMap::new() }
    }

    /// The key with one more parameter (replacing one of the same name).
    pub fn with_param(self, key: String, value: String) -> (k: Self)
        ensures
            k.data_type == self.data_type,
            k.identifier@ == self.identifier@,
            k.parameters.map() == self.parameters.map().insert(key@, value@),
    {
        let mut k = self;
        k.parameters.insert(key, value);
        k
    }

    /// The key of the dashboard data of a session, or of all sessions.
    pub fn dashboard_data(session_id: Option<u128>) -> (k: Self)
        ensures
            k.data_type == CacheDataType::DashboardData,
            k.identifier@ == match session_id {
                Some(id) => "session:"@ + uuid_text(id),
                None => "global"@,
            },
            k.parameters.map() == Map::<Seq<char>, Seq<char>>::empty(),
    {
        let identifier = match session_id {
            Some(id) => {
                let text = uuid_string(id);
                concat_strs("session:", text.as_str())
            },
            None => String::from_str("global"),
        };
        Self::new(CacheDataType::DashboardData, identifier)
    }

    /// The key of the live dashboard data.
    pub fn live_dashboard_data() -> (k: Self)
        ensures
            k.data_type == CacheDataType::LiveDashboardData,
            k.identifier@ == "current"@,
            k.parameters.map() == Map::<Seq<char>, Seq<char>>::empty(),
    {
        Self::new(CacheDataType::LiveDashboardData, String::from_str("current"))
    }

    /// The key of the analytics summary over `period_days` days.
    pub fn analytics_summary(period_days: u32) -> (k: Self)
        ensures
            k.data_type == CacheDataType::AnalyticsSummary,
            k.identifier@ == "summary"@,
            k.parameters.map() == Map::<Seq<char>, Seq<char>>::empty().insert(
                "period_days"@,
                decimal(period_days as nat),
            ),
    {
        Self::new(CacheDataType::AnalyticsSummary, String::from_str("summary")).with_param(
            String::from_str("period_days"),
            decimal_string(period_days as u64),
        )
    }

    /// The key of the time series of `metric_type` between two instants
    /// (seconds since the epoch).
    pub fn time_series_data(start: i64, end: i64, metric_type: &str) -> (k: Self)
        ensures
            k.data_type == CacheDataType::TimeSeriesData,
            k.identifier@ == metric_type@,
            k.parameters.map() == Map::<Seq<char>, Seq<char>>::empty().insert(
                "start"@,
                signed_decimal(start as int),
            ).insert("end"@, signed_decimal(end as int)),
    {
        Self::new(CacheDataType::TimeSeriesData, String::from_str(metric_type)).with_param(
            String::from_str("start"),
            signed_string(start),
        ).with_param(String::from_str("end"), signed_string(end))
    }

    /// Whether this key names the same entry as `other`.
    pub fn same_as(&self, other: &CacheKey) -> (b: bool)
        ensures
            b == same_key(*self, *other),
    {
        self.data_type == other.data_type && str_eq(
            self.identifier.as_str(),
            other.identifier.as_str(),
        ) && self.parameters.same_as(&other.parameters)
    }
}


// ---------------------------------------------------------------- slots

/// What the cache records of one entry; times are milliseconds since the
/// Unix epoch.
#[derive(Debug, Clone, Copy, PartialEq, Eq, Structural)]
pub struct CacheSlot {
    pub created_at: i64,
    pub expires_at: i64,
    pub access_count: u64,
    pub last_accessed: i64,
    pub estimated_size_bytes: usize,
}

/// Whether a slot has expired at `now`: strictly after its expiry time.
pub open spec fn expired(slot: CacheSlot, now: i64) -> bool {
    now > slot.expires_at
}

impl CacheSlot {
    /// The record of an entry stored at `now` for `ttl_seconds` seconds,
    /// estimated at `estimated_size` bytes, not accessed yet.
    pub fn stored_at(now: i64, ttl_seconds: u64, estimated_size: usize) -> (slot: CacheSlot)
        requires
            1000 * ttl_seconds <= i64::MAX,
            now + 1000 * ttl_seconds <= i64::MAX,
        ensures
            slot == (CacheSlot {
                created_at: now,
                expires_at: (now + 1000 * ttl_seconds) as i64,
                access_count: 0,
                last_accessed: now,
                estimated_size_bytes: estimated_size,
            }),
    {
        CacheSlot {
            created_at: now,
            expires_at: now + 1000 * (ttl_seconds as i64),
            access_count: 0,
            last_accessed: now,
            estimated_size_bytes: estimated_size,
        }
    }

    /// Whether the entry has expired at `now`.
    pub fn is_expired_at(&self, now: i64) -> (b: bool)
        ensures
            b == expired(*self, now),
    {
        now > self.expires_at
    }

    /// Records an access at `now`: one more access, last accessed at `now`.
    pub fn mark_accessed_at(&mut self, now: i64)
        ensures
            *final(self) == accessed(*old(self), now),
    {
        self.access_count = self.access_count.wrapping_add(1);
        self.last_accessed = now;
    }
}

#[verifier::external_type_specification]
#[verifier::external_body]
#[verifier::reject_recursive_types(K)]
#[verifier::reject_recursive_types(V)]
#[verifier::reject_recursive_types(S)]
pub struct ExLruCache<K, V, S>(lru::LruCache<K, V, S>);

#[verifier::external_type_specification]
#[verifier::external_body]
pub struct ExDefaultHasher(lru::DefaultHasher);

/// The entries of an LRU cache, most recently used first.
pub uninterp spec fn lru_entries(c: lru::LruCache<u64, CacheSlot>) -> Seq<(u64, CacheSlot)>;

/// The capacity an LRU cache was made with.
pub uninterp spec fn lru_capacity(c: lru::LruCache<u64, CacheSlot>) -> nat;

/// Whether `key` occurs among `entries` at position `i`.
pub open spec fn key_at(entries: Seq<(u64, CacheSlot)>, key: u64, i: int) -> bool {
    0 <= i < entries.len() && entries[i].0 == key
}

/// Whether no key occurs twice among `entries`.
pub open spec fn keys_distinct(entries: Seq<(u64, CacheSlot)>) -> bool {
    forall|i: int, j: int| 0 <= i < j < entries.len() ==> entries[i].0 != entries[j].0
}

/// `lru::LruCache::new` with capacity `cap` (positive): an empty cache.
#[verifier::external_body]
fn lru_new(cap: usize) -> (c: lru::LruCache<u64, CacheSlot>)
    requires
        cap > 0,
    ensures
        lru_entries(c) == Seq::<(u64, CacheSlot)>::empty(),
        lru_capacity(c) == cap,
{
    lru::LruCache::new(std::num::NonZeroUsize::new(cap).unwrap())
}

/// `lru::LruCache::get`: the value of `key`, which becomes the most
/// recently used entry; the cache is unchanged when the key is absent.
#[verifier::external_body]
fn lru_get(c: &mut lru::LruCache<u64, CacheSlot>, key: u64) -> (r: Option<CacheSlot>)
    ensures
        lru_capacity(*final(c)) == lru_capacity(*old(c)),
        match r {
            Some(v) => exists|i: int| #[trigger] key_at(lru_entries(*old(c)), key, i)
                && lru_entries(*old(c))[i].1 == v && lru_entries(*final(c)) == seq![(key, v)]
                + lru_entries(*old(c)).remove(i),
            None => (forall|i: int| !#[trigger] key_at(lru_entries(*old(c)), key, i))
                && lru_entries(*final(c)) == lru_entries(*old(c)),
        },
{
    c.get(&key).copied()
}

/// `lru::LruCache::put`: `key` with `value` becomes the most recently used
/// entry. A present key keeps its place in no other way and its old value
/// is returned; an absent key is added, in place of the least recently used
/// entry when the cache is full, and nothing is returned.
#[verifier::external_body]
fn lru_put(c: &mut lru::LruCache<u64, CacheSlot>, key: u64, value: CacheSlot) -> (r: Option<CacheSlot>)
    requires
        lru_capacity(*old(c)) > 0,
    ensures
        lru_capacity(*final(c)) == lru_capacity(*old(c)),
        match r {
            Some(v) => exists|i: int| #[trigger] key_at(lru_entries(*old(c)), key, i)
                && lru_entries(*old(c))[i].1 == v && lru_entries(*final(c)) == seq![(key, value)]
                + lru_entries(*old(c)).remove(i),
            None => (forall|i: int| !#[trigger] key_at(lru_entries(*old(c)), key, i))
                && lru_entries(*final(c)) == seq![(key, value)] + if lru_entries(*old(c)).len()
                == lru_capacity(*old(c)) {
                lru_entries(*old(c)).drop_last()
            } else {
                lru_entries(*old(c))
            },
        },
{
    c.put(key, value)
}

/// `lru::LruCache::pop`: removes `key`, giving its value.
#[verifier::external_body]
fn lru_pop(c: &mut lru::LruCache<u64, CacheSlot>, key: u64) -> (r: Option<CacheSlot>)
    ensures
        lru_capacity(*final(c)) == lru_capacity(*old(c)),
        match r {
            Some(v) => exists|i: int| #[trigger] key_at(lru_entries(*old(c)), key, i)
                && lru_entries(*old(c))[i].1 == v && lru_entries(*final(c)) == lru_entries(
                *old(c),
            ).remove(i),
            None => (forall|i: int| !#[trigger] key_at(lru_entries(*old(c)), key, i))
                && lru_entries(*final(c)) == lru_entries(*old(c)),
        },
{
    c.pop(&key)
}

/// `lru::LruCache::pop_lru`: removes the least recently used entry.
#[verifier::external_body]
fn lru_pop_lru(c: &mut lru::LruCache<u64, CacheSlot>) -> (r: Option<(u64, CacheSlot)>)
    ensures
        lru_capacity(*final(c)) == lru_capacity(*old(c)),
        lru_entries(*old(c)).len() == 0 ==> r is None && lru_entries(*final(c)) == lru_entries(*old(c)),
        lru_entries(*old(c)).len() > 0 ==> r == Some(lru_entries(*old(c)).last())
            && lru_entries(*final(c)) == lru_entries(*old(c)).drop_last(),
{
    c.pop_lru()
}

/// `lru::LruCache::iter`: the entries, most recently used first, each
/// copied out.
#[verifier::external_body]
fn lru_list(c: &lru::LruCache<u64, CacheSlot>) -> (r: Vec<(u64, CacheSlot)>)
    ensures
        r@ == lru_entries(*c),
{
    c.iter().map(|(k, v)| (*k, *v)).collect()
}

/// `lru::LruCache::len`: the number of entries.
#[verifier::external_body]
fn lru_len(c: &lru::LruCache<u64, CacheSlot>) -> (n: usize)
    ensures
        n == lru_entries(*c).len(),
{
    c.len()
}

/// `lru::LruCache::clear`: removes every entry.
#[verifier::external_body]
fn lru_clear(c: &mut lru::LruCache<u64, CacheSlot>)
    ensures
        lru_entries(*final(c)) == Seq::<(u64, CacheSlot)>::empty(),
        lru_capacity(*final(c)) == lru_capacity(*old(c)),
{
    c.clear()
}


// ---------------------------------------------------------------- store helpers

/// The entries of `entries` that have not expired at `now`, in order.
pub open spec fn unexpired(entries: Seq<(u64, CacheSlot)>, now: i64) -> Seq<(u64, CacheSlot)>
    decreases entries.len(),
{
    if entries.len() == 0 {
        Seq::empty()
    } else if expired(entries.last().1, now) {
        unexpired(entries.drop_last(), now)
    } else {
        unexpired(entries.drop_last(), now).push(entries.last())
    }
}

/// How many entries of `entries` have expired at `now`.
pub open spec fn expired_count(entries: Seq<(u64, CacheSlot)>, now: i64) -> nat
    decreases entries.len(),
{
    if entries.len() == 0 {
        0
    } else {
        expired_count(entries.drop_last(), now) + if expired(entries.last().1, now) { 1nat } else { 0nat }
    }
}

/// The estimated bytes of the entries of `entries` that have expired at
/// `now`.
pub open spec fn expired_bytes(entries: Seq<(u64, CacheSlot)>, now: i64) -> nat
    decreases entries.len(),
{
    if entries.len() == 0 {
        0
    } else {
        expired_bytes(entries.drop_last(), now) + if expired(entries.last().1, now) {
            entries.last().1.estimated_size_bytes as nat
        } else {
            0nat
        }
    }
}

/// Removing the entries at the positions not kept keeps the rest in order.
proof fn lemma_unexpired_step(entries: Seq<(u64, CacheSlot)>, now: i64, i: int)
    requires
        0 <= i < entries.len(),
    ensures
        unexpired(entries.take(i + 1), now) == if expired(entries[i].1, now) {
            unexpired(entries.take(i), now)
        } else {
            unexpired(entries.take(i), now).push(entries[i])
        },
        expired_count(entries.take(i + 1), now) == expired_count(entries.take(i), now) + if expired(
            entries[i].1,
            now,
        ) {
            1nat
        } else {
            0nat
        },
        expired_bytes(entries.take(i + 1), now) == expired_bytes(entries.take(i), now) + if expired(
            entries[i].1,
            now,
        ) {
            entries[i].1.estimated_size_bytes as nat
        } else {
            0nat
        },
{
    assert(entries.take(i + 1).drop_last() =~= entries.take(i));
}

/// The unexpired entries are a part of the entries: their keys occur there.
proof fn lemma_unexpired_keys(entries: Seq<(u64, CacheSlot)>, now: i64, k: u64)
    requires
        forall|j: int| 0 <= j < entries.len() ==> entries[j].0 != k,
    ensures
        forall|j: int| 0 <= j < unexpired(entries, now).len() ==> unexpired(entries, now)[j].0 != k,
    decreases entries.len(),
{
    if entries.len() > 0 {
        let rest = entries.drop_last();
        lemma_unexpired_keys(rest, now, k);
        let last = entries.last();
        assert(last.0 != k);
        let u = unexpired(rest, now);
        if !expired(last.1, now) {
            assert(unexpired(entries, now) == u.push(last));
            assert forall|j: int| 0 <= j < u.len() + 1 implies u.push(last)[j].0 != k by {
                if j < u.len() {
                    assert(u.push(last)[j] == u[j]);
                }
            }
        }
    }
}

/// Dropping entries keeps the keys distinct.
proof fn lemma_unexpired_distinct(entries: Seq<(u64, CacheSlot)>, now: i64)
    requires
        keys_distinct(entries),
    ensures
        keys_distinct(unexpired(entries, now)),
    decreases entries.len(),
{
    if entries.len() > 0 {
        let rest = entries.drop_last();
        lemma_unexpired_distinct(rest, now);
        lemma_unexpired_keys(rest, now, entries.last().0);
    }
}

/// A running sum kept modulo `m` stays the sum modulo `m` after adding `y`
/// with wrap-around.
proof fn lemma_wrapping_sum(a: int, x: int, y: int, m: int)
    requires
        m > 0,
        0 <= a < m,
        0 <= y < m,
        x >= 0,
        a == x % m,
    ensures
        (if a + y >= m { a + y - m } else { a + y }) == (x + y) % m,
{
    vstd::arithmetic::div_mod::lemma_add_mod_noop(x, y, m);
    vstd::arithmetic::div_mod::lemma_small_mod(y as nat, m as nat);
    if a + y >= m {
        vstd::arithmetic::div_mod::lemma_fundamental_div_mod_converse(a + y, m, 1, a + y - m);
    } else {
        vstd::arithmetic::div_mod::lemma_fundamental_div_mod_converse(a + y, m, 0, a + y);
    }
}

/// Removes the expired entries of one store; gives how many went and
/// their estimated bytes (summed as the counters wrap).
fn purge_expired(c: &mut lru::LruCache<u64, CacheSlot>, now: i64) -> (r: (u64, usize))
    requires
        keys_distinct(lru_entries(*old(c))),
    ensures
        lru_entries(*final(c)) == unexpired(lru_entries(*old(c)), now),
        lru_capacity(*final(c)) == lru_capacity(*old(c)),
        keys_distinct(lru_entries(*final(c))),
        r.0 as nat == expired_count(lru_entries(*old(c)), now) % 0x1_0000_0000_0000_0000,
        r.1 as nat == expired_bytes(lru_entries(*old(c)), now) % (usize::MAX as nat + 1),
{
    let entries = lru_list(c);
    let ghost orig = lru_entries(*c);
    let mut count: u64 = 0;
    let mut bytes: usize = 0;
    let mut i: usize = 0;
    assert(orig.take(0) =~= Seq::<(u64, CacheSlot)>::empty());
    assert(orig.skip(0) =~= orig);
    proof {
        vstd::arithmetic::div_mod::lemma_small_mod(0, usize::MAX as nat + 1);
        vstd::arithmetic::div_mod::lemma_small_mod(0, 0x1_0000_0000_0000_0000);
    }
    while i < entries.len()
        invariant
            entries@ == orig,
            keys_distinct(orig),
            i <= entries.len(),
            lru_capacity(*c) == lru_capacity(*old(c)),
            lru_entries(*c) == unexpired(orig.take(i as int), now) + orig.skip(i as int),
            count as nat == expired_count(orig.take(i as int), now) % 0x1_0000_0000_0000_0000,
            bytes as nat == expired_bytes(orig.take(i as int), now) % (usize::MAX as nat + 1),
        decreases entries.len() - i,
    {
        let (k, slot) = entries[i];
        proof {
            lemma_unexpired_step(orig, now, i as int);
        }
        if now > slot.expires_at {
            let ghost before = lru_entries(*c);
            let ghost pos = unexpired(orig.take(i as int), now).len() as int;
            proof {
                assert(before[pos] == orig[i as int]);
                assert forall|j: int| 0 <= j < orig.take(i as int).len() implies orig.take(i as int)[j].0 != k by {
                    assert(orig[j].0 != orig[i as int].0);
                }
                lemma_unexpired_keys(orig.take(i as int), now, k);
            }
            let popped = lru_pop(c, k);
            proof {
                match popped {
                    Some(v) => {
                        let j = choose|j: int| #[trigger] key_at(before, k, j) && before[j].1 == v && lru_entries(*c) == before.remove(j);
                        if j != pos {
                            if j < pos {
                                assert(before[j].0 != k);
                            } else {
                                assert(before[j] == orig[(j - pos) + i]);
                                assert(orig[(j - pos) + i].0 != orig[i as int].0);
                            }
                        }
                        assert(lru_entries(*c) =~= unexpired(orig.take(i + 1), now) + orig.skip(i + 1));
                    },
                    None => {
                        assert(key_at(before, k, pos));
                    },
                }
            }
            proof {
                lemma_wrapping_sum(
                    count as int,
                    expired_count(orig.take(i as int), now) as int,
                    1,
                    0x1_0000_0000_0000_0000,
                );
                lemma_wrapping_sum(
                    bytes as int,
                    expired_bytes(orig.take(i as int), now) as int,
                    slot.estimated_size_bytes as int,
                    usize::MAX as int + 1,
                );
            }
            count = count.wrapping_add(1);
            bytes = bytes.wrapping_add(slot.estimated_size_bytes);
        } else {
            assert(lru_entries(*c) =~= unexpired(orig.take(i + 1), now) + orig.skip(i + 1));
        }
        i += 1;
    }
    assert(orig.take(orig.len() as int) =~= orig);
    assert(orig.skip(orig.len() as int) =~= Seq::<(u64, CacheSlot)>::empty());
    proof {
        lemma_unexpired_distinct(orig, now);
    }
    (count, bytes)
}


/// Moving or adding one entry at the front keeps the keys distinct when
/// its key is gone from the rest.
proof fn lemma_front_distinct(rest: Seq<(u64, CacheSlot)>, e: (u64, CacheSlot))
    requires
        keys_distinct(rest),
        forall|j: int| 0 <= j < rest.len() ==> rest[j].0 != e.0,
    ensures
        keys_distinct(seq![e] + rest),
{
    let s = seq![e] + rest;
    assert forall|i: int, j: int| 0 <= i < j < s.len() implies s[i].0 != s[j].0 by {
        if i == 0 {
            assert(s[j] == rest[j - 1]);
        } else {
            assert(s[i] == rest[i - 1] && s[j] == rest[j - 1]);
        }
    }
}

/// Removing one entry keeps the keys distinct, and the removed key is gone.
proof fn lemma_remove_distinct(s: Seq<(u64, CacheSlot)>, i: int)
    requires
        keys_distinct(s),
        0 <= i < s.len(),
    ensures
        keys_distinct(s.remove(i)),
        forall|j: int| 0 <= j < s.remove(i).len() ==> s.remove(i)[j].0 != s[i].0,
{
    let r = s.remove(i);
    assert forall|a: int, b: int| 0 <= a < b < r.len() implies r[a].0 != r[b].0 by {
        let a0 = if a < i { a } else { a + 1 };
        let b0 = if b < i { b } else { b + 1 };
        assert(r[a] == s[a0] && r[b] == s[b0]);
    }
    assert forall|j: int| 0 <= j < r.len() implies r[j].0 != s[i].0 by {
        let j0 = if j < i { j } else { j + 1 };
        assert(r[j] == s[j0]);
    }
}

/// Whether `entries` holds the key `h`.
pub open spec fn holds(entries: Seq<(u64, CacheSlot)>, h: u64) -> bool {
    exists|i: int| key_at(entries, h, i)
}

/// The position of `h` among distinct keys, when it is there.
pub open spec fn position_of(entries: Seq<(u64, CacheSlot)>, h: u64) -> int {
    choose|i: int| key_at(entries, h, i)
}

/// With distinct keys, a key sits at one position only.
proof fn lemma_position_unique(entries: Seq<(u64, CacheSlot)>, h: u64, i: int)
    requires
        keys_distinct(entries),
        key_at(entries, h, i),
    ensures
        holds(entries, h),
        position_of(entries, h) == i,
{
    let j = position_of(entries, h);
    if j != i {
        if j < i {
            assert(entries[j].0 != entries[i].0);
        } else {
            assert(entries[i].0 != entries[j].0);
        }
    }
}

/// What a lookup found.
#[derive(Debug, Clone, Copy, PartialEq, Eq, Structural)]
pub enum Lookup {
    /// A live entry: it was marked accessed and moved to the front.
    Hit,
    /// An expired entry: it was removed.
    Expired,
    /// No entry.
    Miss,
}

/// The slot after an access at `now`.
pub open spec fn accessed(slot: CacheSlot, now: i64) -> CacheSlot {
    CacheSlot { access_count: slot.access_count.wrapping_add(1), last_accessed: now, ..slot }
}

/// The entries after looking `h` up at `now`.
pub open spec fn looked_up(entries: Seq<(u64, CacheSlot)>, h: u64, now: i64) -> Seq<(u64, CacheSlot)> {
    if holds(entries, h) {
        let i = position_of(entries, h);
        if expired(entries[i].1, now) {
            entries.remove(i)
        } else {
            seq![(h, accessed(entries[i].1, now))] + entries.remove(i)
        }
    } else {
        entries
    }
}

/// The outcome of looking `h` up at `now`.
pub open spec fn lookup_outcome(entries: Seq<(u64, CacheSlot)>, h: u64, now: i64) -> Lookup {
    if holds(entries, h) {
        if expired(entries[position_of(entries, h)].1, now) {
            Lookup::Expired
        } else {
            Lookup::Hit
        }
    } else {
        Lookup::Miss
    }
}

/// Looks `h` up at `now`: a live entry is marked accessed and becomes the
/// most recently used, an expired one is removed.
fn lookup(c: &mut lru::LruCache<u64, CacheSlot>, h: u64, now: i64) -> (r: Lookup)
    requires
        keys_distinct(lru_entries(*old(c))),
        lru_capacity(*old(c)) > 0,
    ensures
        r == lookup_outcome(lru_entries(*old(c)), h, now),
        lru_entries(*final(c)) == looked_up(lru_entries(*old(c)), h, now),
        keys_distinct(lru_entries(*final(c))),
        lru_capacity(*final(c)) == lru_capacity(*old(c)),
{
    let ghost before = lru_entries(*c);
    match lru_get(c, h) {
        Some(slot) => {
            let ghost i = choose|i: int| #[trigger] key_at(before, h, i) && before[i].1 == slot
                && lru_entries(*c) == seq![(h, slot)] + before.remove(i);
            proof {
                lemma_position_unique(before, h, i);
                lemma_remove_distinct(before, i);
                lemma_front_distinct(before.remove(i), (h, slot));
            }
            let ghost moved = lru_entries(*c);
            if now > slot.expires_at {
                let popped = lru_pop(c, h);
                proof {
                    assert(key_at(moved, h, 0));
                    lemma_position_unique(moved, h, 0);
                    match popped {
                        Some(v) => {
                            let j = choose|j: int| #[trigger] key_at(moved, h, j) && moved[j].1 == v
                                && lru_entries(*c) == moved.remove(j);
                            lemma_position_unique(moved, h, j);
                            assert(moved.remove(0) =~= before.remove(i));
                        },
                        None => {},
                    }
                }
                Lookup::Expired
            } else {
                let updated = CacheSlot {
                    access_count: slot.access_count.wrapping_add(1),
                    last_accessed: now,
                    ..slot
                };
                let replaced = lru_put(c, h, updated);
                proof {
                    assert(key_at(moved, h, 0));
                    lemma_position_unique(moved, h, 0);
                    match replaced {
                        Some(v) => {
                            let j = choose|j: int| #[trigger] key_at(moved, h, j) && moved[j].1 == v
                                && lru_entries(*c) == seq![(h, updated)] + moved.remove(j);
                            lemma_position_unique(moved, h, j);
                            assert(moved.remove(0) =~= before.remove(i));
                        },
                        None => {},
                    }
                }
                Lookup::Hit
            }
        },
        None => {
            proof {
                if holds(before, h) {
                    let i = position_of(before, h);
                    assert(key_at(before, h, i));
                }
            }
            Lookup::Miss
        },
    }
}


/// The entries after putting `h` with `slot` into `entries`, for a cache of
/// capacity `cap`.
pub open spec fn put_into(entries: Seq<(u64, CacheSlot)>, cap: nat, h: u64, slot: CacheSlot) -> Seq<(u64, CacheSlot)> {
    if holds(entries, h) {
        seq![(h, slot)] + entries.remove(position_of(entries, h))
    } else if entries.len() == cap {
        seq![(h, slot)] + entries.drop_last()
    } else {
        seq![(h, slot)] + entries
    }
}

/// Puts `h` with `slot`; gives the slot it replaced, if `h` was there.
fn put_slot(c: &mut lru::LruCache<u64, CacheSlot>, h: u64, slot: CacheSlot) -> (r: Option<CacheSlot>)
    requires
        keys_distinct(lru_entries(*old(c))),
        lru_capacity(*old(c)) > 0,
    ensures
        lru_entries(*final(c)) == put_into(lru_entries(*old(c)), lru_capacity(*old(c)), h, slot),
        match r {
            Some(v) => holds(lru_entries(*old(c)), h) && v == lru_entries(*old(c))[position_of(
                lru_entries(*old(c)),
                h,
            )].1,
            None => !holds(lru_entries(*old(c)), h),
        },
        keys_distinct(lru_entries(*final(c))),
        lru_capacity(*final(c)) == lru_capacity(*old(c)),
{
    let ghost before = lru_entries(*c);
    let r = lru_put(c, h, slot);
    proof {
        match r {
            Some(v) => {
                let i = choose|i: int| #[trigger] key_at(before, h, i) && before[i].1 == v
                    && lru_entries(*c) == seq![(h, slot)] + before.remove(i);
                lemma_position_unique(before, h, i);
                lemma_remove_distinct(before, i);
                lemma_front_distinct(before.remove(i), (h, slot));
            },
            None => {
                if holds(before, h) {
                    let i = position_of(before, h);
                    assert(key_at(before, h, i));
                }
                let rest = if before.len() == lru_capacity(*old(c)) {
                    before.drop_last()
                } else {
                    before
                };
                assert forall|a: int, b: int| 0 <= a < b < rest.len() implies rest[a].0 != rest[b].0 by {
                    assert(rest[a] == before[a] && rest[b] == before[b]);
                }
                assert forall|j: int| 0 <= j < rest.len() implies rest[j].0 != h by {
                    assert(rest[j] == before[j]);
                    assert(!key_at(before, h, j));
                }
                lemma_front_distinct(rest, (h, slot));
            },
        }
    }
    r
}

/// Removes the least recently used entry.
fn pop_oldest(c: &mut lru::LruCache<u64, CacheSlot>) -> (r: Option<(u64, CacheSlot)>)
    requires
        keys_distinct(lru_entries(*old(c))),
    ensures
        lru_entries(*old(c)).len() == 0 ==> r is None && lru_entries(*final(c)) == lru_entries(*old(c)),
        lru_entries(*old(c)).len() > 0 ==> r == Some(lru_entries(*old(c)).last())
            && lru_entries(*final(c)) == lru_entries(*old(c)).drop_last(),
        keys_distinct(lru_entries(*final(c))),
        lru_capacity(*final(c)) == lru_capacity(*old(c)),
{
    let ghost before = lru_entries(*c);
    let r = lru_pop_lru(c);
    proof {
        let after = lru_entries(*c);
        assert forall|a: int, b: int| 0 <= a < b < after.len() implies after[a].0 != after[b].0 by {
            assert(after[a] == before[a] && after[b] == before[b]);
        }
    }
    r
}

/// Removes the entry `h`, if it is there.
fn remove_slot(c: &mut lru::LruCache<u64, CacheSlot>, h: u64) -> (r: Option<CacheSlot>)
    requires
        keys_distinct(lru_entries(*old(c))),
    ensures
        holds(lru_entries(*old(c)), h) ==> lru_entries(*final(c)) == lru_entries(*old(c)).remove(
            position_of(lru_entries(*old(c)), h),
        ) && r == Some(lru_entries(*old(c))[position_of(lru_entries(*old(c)), h)].1),
        !holds(lru_entries(*old(c)), h) ==> lru_entries(*final(c)) == lru_entries(*old(c)) && r is None,
        keys_distinct(lru_entries(*final(c))),
        lru_capacity(*final(c)) == lru_capacity(*old(c)),
{
    let ghost before = lru_entries(*c);
    let r = lru_pop(c, h);
    proof {
        match r {
            Some(v) => {
                let i = choose|i: int| #[trigger] key_at(before, h, i) && before[i].1 == v
                    && lru_entries(*c) == before.remove(i);
                lemma_position_unique(before, h, i);
                lemma_remove_distinct(before, i);
            },
            None => {
                if holds(before, h) {
                    let i = position_of(before, h);
                    assert(key_at(before, h, i));
                }
            },
        }
    }
    r
}


// ---------------------------------------------------------------- the cache

/// Cache configuration options.
#[derive(Debug, Clone, Copy, PartialEq, Eq, Structural)]
pub struct CacheConfig {
    /// Default TTL for cached items in seconds.
    pub default_ttl_seconds: u64,
    /// Maximum memory usage in MB.
    pub max_memory_mb: usize,
    /// Maximum number of cached items per kind of data.
    pub max_items: usize,
    /// Enable smart invalidation based on data dependencies.
    pub enable_smart_invalidation: bool,
    /// Enable cache warming for frequently accessed data.
    pub enable_cache_warming: bool,
    /// Background cleanup interval in seconds.
    pub cleanup_interval_seconds: u64,
}

impl Default for CacheConfig {
    fn default() -> (c: Self)
        ensures
            c == (CacheConfig {
                default_ttl_seconds: 300,
                max_memory_mb: 200,
                max_items: 1000,
                enable_smart_invalidation: true,
                enable_cache_warming: true,
                cleanup_interval_seconds: 60,
            }),
    {
        CacheConfig {
            default_ttl_seconds: 300,
            max_memory_mb: 200,
            max_items: 1000,
            enable_smart_invalidation: true,
            enable_cache_warming: true,
            cleanup_interval_seconds: 60,
        }
    }
}

/// The four stores of the cache, one per kind of cached data.
#[derive(Debug, Clone, Copy, PartialEq, Eq, Structural)]
pub enum Store {
    Dashboard,
    Live,
    Summary,
    TimeSeries,
}

/// The store a key of type `t` lives in, if any.
pub open spec fn store_of(t: CacheDataType) -> Option<Store> {
    match t {
        CacheDataType::DashboardData => Some(Store::Dashboard),
        CacheDataType::LiveDashboardData => Some(Store::Live),
        CacheDataType::AnalyticsSummary => Some(Store::Summary),
        CacheDataType::TimeSeriesData => Some(Store::TimeSeries),
        _ => None,
    }
}

/// The time to live of an entry of `store` set without one: the
/// configured default for dashboard data, 30 seconds for live data, 600
/// for summaries and 300 for time series.
pub open spec fn default_ttl(store: Store, config: CacheConfig) -> u64 {
    match store {
        Store::Dashboard => config.default_ttl_seconds,
        Store::Live => 30,
        Store::Summary => 600,
        Store::TimeSeries => 300,
    }
}

/// The size estimate of dashboard data, in bytes.
pub const DASHBOARD_DATA_BYTES: usize = 1024;
/// The size estimate of live dashboard data, in bytes.
pub const LIVE_DASHBOARD_BYTES: usize = 2048;

/// The size estimate of an analytics summary: a base plus 100 bytes per
/// insight and 200 per alert.
pub fn analytics_summary_size(insights: usize, alerts: usize) -> (n: usize)
    requires
        1024 + insights * 100 + alerts * 200 <= usize::MAX,
    ensures
        n == 1024 + insights * 100 + alerts * 200,
{
    1024 + insights * 100 + alerts * 200
}

/// The size estimate of time series data: 64 bytes per point.
pub fn time_series_size(points: usize) -> (n: usize)
    requires
        points * 64 <= usize::MAX,
    ensures
        n == points * 64,
{
    points * 64
}

/// The position of the first key of `keys` that names the same entry as
/// `key`.
pub open spec fn handle_of(keys: Seq<CacheKey>, key: CacheKey) -> Option<u64>
    decreases keys.len(),
{
    if keys.len() == 0 {
        None
    } else {
        match handle_of(keys.drop_last(), key) {
            Some(h) => Some(h),
            None => if same_key(keys.last(), key) {
                Some((keys.len() - 1) as u64)
            } else {
                None
            },
        }
    }
}

/// Keys that name the same entry have the same handle.
pub proof fn lemma_same_key_same_handle(keys: Seq<CacheKey>, a: CacheKey, b: CacheKey)
    requires
        same_key(a, b),
    ensures
        handle_of(keys, a) == handle_of(keys, b),
    decreases keys.len(),
{
    if keys.len() > 0 {
        lemma_same_key_same_handle(keys.drop_last(), a, b);
    }
}

/// The data sources the entries of dashboard data depend on, by key type.
pub open spec fn depends_on(t: CacheDataType, source: Seq<char>) -> bool {
    match t {
        CacheDataType::DashboardData | CacheDataType::AnalyticsSummary
        | CacheDataType::TimeSeriesData => source == "cost_data"@ || source == "history_data"@,
        CacheDataType::LiveDashboardData => source == "cost_data"@ || source == "history_data"@
            || source == "system_metrics"@,
        _ => false,
    }
}

/// `entries` without the entries of the handles in `hs` that belong in
/// `store`.
pub open spec fn without_handles(
    entries: Seq<(u64, CacheSlot)>,
    hs: Seq<u64>,
    keys: Seq<CacheKey>,
    store: Store,
) -> Seq<(u64, CacheSlot)>
    decreases hs.len(),
{
    if hs.len() == 0 {
        entries
    } else {
        let before = without_handles(entries, hs.drop_last(), keys, store);
        let h = hs.last();
        if store_of(keys[h as int].data_type) == Some(store) && holds(before, h) {
            before.remove(position_of(before, h))
        } else {
            before
        }
    }
}

/// The entries left in one store by LRU eviction until `needed` bytes are
/// freed, with `freed` bytes freed so far: the least recently used go
/// first; gives the entries left, the bytes freed and the entries evicted.
pub open spec fn evict_until(entries: Seq<(u64, CacheSlot)>, needed: nat, freed: nat) -> (Seq<(u64, CacheSlot)>, nat, nat)
    decreases entries.len(),
{
    if freed >= needed || entries.len() == 0 {
        (entries, freed, 0)
    } else {
        let r = evict_until(entries.drop_last(), needed, freed + entries.last().1.estimated_size_bytes as nat);
        (r.0, r.1, r.2 + 1)
    }
}


/// Evicts least recently used entries of one store until `needed` bytes
/// are freed counting `freed` already freed; gives the bytes freed and the
/// entries evicted.
fn evict_store(c: &mut lru::LruCache<u64, CacheSlot>, needed: usize, freed: u128) -> (r: (u128, u128))
    requires
        keys_distinct(lru_entries(*old(c))),
        freed <= needed + usize::MAX,
    ensures
        lru_entries(*final(c)) == evict_until(lru_entries(*old(c)), needed as nat, freed as nat).0,
        r.0 == evict_until(lru_entries(*old(c)), needed as nat, freed as nat).1,
        r.1 == evict_until(lru_entries(*old(c)), needed as nat, freed as nat).2,
        r.0 <= needed + usize::MAX,
        keys_distinct(lru_entries(*final(c))),
        lru_capacity(*final(c)) == lru_capacity(*old(c)),
{
    let ghost start = lru_entries(*c);
    let ghost f0 = freed as nat;
    let total = lru_len(c);
    let mut freed = freed;
    let mut count: u128 = 0;
    while freed < needed as u128 && lru_len(c) > 0
        invariant
            keys_distinct(lru_entries(*c)),
            lru_capacity(*c) == lru_capacity(*old(c)),
            freed <= needed + usize::MAX,
            total == start.len(),
            count + lru_entries(*c).len() == total,
            evict_until(start, needed as nat, f0).0 == evict_until(lru_entries(*c), needed as nat, freed as nat).0,
            evict_until(start, needed as nat, f0).1 == evict_until(lru_entries(*c), needed as nat, freed as nat).1,
            evict_until(start, needed as nat, f0).2 == evict_until(lru_entries(*c), needed as nat, freed as nat).2
                + count,
        decreases lru_entries(*c).len(),
    {
        let ghost cur = lru_entries(*c);
        match pop_oldest(c) {
            Some((_, slot)) => {
                assert(slot == cur.last().1);
                freed = freed + slot.estimated_size_bytes as u128;
                count = count + 1;
            },
            None => {},
        }
    }
    (freed, count)
}


/// The counters of a cache.
#[derive(Debug, Clone, Copy, PartialEq, Eq, Structural)]
pub struct CacheCounters {
    pub total_requests: u64,
    pub cache_hits: u64,
    pub cache_misses: u64,
    pub evictions: u64,
    pub expired_cleaned: u64,
    pub current_memory_bytes: usize,
}

/// Whether every request is counted as exactly one hit or one miss: the
/// request count equals hits plus misses, all three wrapping at 2^64.
pub open spec fn requests_add_up(c: CacheCounters) -> bool {
    c.total_requests as int == (c.cache_hits + c.cache_misses) % 0x1_0000_0000_0000_0000
}

/// Counting one more request together with one more hit (or, swapping the
/// two counts, one more miss) keeps requests equal to hits plus misses.
proof fn lemma_count_request(c: CacheCounters, n: CacheCounters)
    requires
        requests_add_up(c),
        n.total_requests == c.total_requests.wrapping_add(1),
        (n.cache_hits == c.cache_hits.wrapping_add(1) && n.cache_misses == c.cache_misses)
            || (n.cache_misses == c.cache_misses.wrapping_add(1) && n.cache_hits == c.cache_hits),
    ensures
        requests_add_up(n),
{
    reveal(requests_add_up);
    let m: int = 0x1_0000_0000_0000_0000;
    let (h, s) = (c.cache_hits as int, c.cache_misses as int);
    vstd::arithmetic::div_mod::lemma_add_mod_noop(h + s, 1, m);
    vstd::arithmetic::div_mod::lemma_add_mod_noop(h + 1, s, m);
    vstd::arithmetic::div_mod::lemma_add_mod_noop(h, s + 1, m);
    vstd::arithmetic::div_mod::lemma_mod_self_0(m);
    vstd::arithmetic::div_mod::lemma_small_mod(1, m as nat);
    vstd::arithmetic::div_mod::lemma_small_mod(h as nat, m as nat);
    vstd::arithmetic::div_mod::lemma_small_mod(s as nat, m as nat);
    vstd::arithmetic::div_mod::lemma_small_mod((c.total_requests + 1) as nat, (m + 1) as nat);
    assert(n.total_requests as int == (c.total_requests + 1) % m);
    assert((h + 1) % m + s == n.cache_hits + n.cache_misses || h + (s + 1) % m == n.cache_hits + n.cache_misses);
}

/// Dashboard data cache: four least-recently-used stores whose entries
/// expire, under a common memory budget. `P` is the cached data.
pub struct DashboardCache<P> {
    config: CacheConfig,
    keys: Vec<CacheKey>,
    dashboard: lru::LruCache<u64, CacheSlot>,
    live: lru::LruCache<u64, CacheSlot>,
    summary: lru::LruCache<u64, CacheSlot>,
    series: lru::LruCache<u64, CacheSlot>,
    dashboard_data: Vec<Option<P>>,
    live_data: Vec<Option<P>>,
    summary_data: Vec<Option<P>>,
    series_data: Vec<Option<P>>,
    counters: CacheCounters,
    cost_deps: Vec<u64>,
    history_deps: Vec<u64>,
    system_deps: Vec<u64>,
}

impl<P> DashboardCache<P> {
    /// The configuration.
    pub closed spec fn spec_config(&self) -> CacheConfig {
        self.config
    }

    /// The keys seen so far; a key's position is its handle.
    pub closed spec fn spec_keys(&self) -> Seq<CacheKey> {
        self.keys@
    }

    /// The entries of a store, most recently used first.
    pub closed spec fn entries(&self, s: Store) -> Seq<(u64, CacheSlot)> {
        match s {
            Store::Dashboard => lru_entries(self.dashboard),
            Store::Live => lru_entries(self.live),
            Store::Summary => lru_entries(self.summary),
            Store::TimeSeries => lru_entries(self.series),
        }
    }

    /// The capacity of a store.
    pub closed spec fn capacity(&self, s: Store) -> nat {
        match s {
            Store::Dashboard => lru_capacity(self.dashboard),
            Store::Live => lru_capacity(self.live),
            Store::Summary => lru_capacity(self.summary),
            Store::TimeSeries => lru_capacity(self.series),
        }
    }

    /// The data stored in a store under handle `h`.
    pub closed spec fn data(&self, s: Store, h: u64) -> Option<P> {
        let v = match s {
            Store::Dashboard => self.dashboard_data@,
            Store::Live => self.live_data@,
            Store::Summary => self.summary_data@,
            Store::TimeSeries => self.series_data@,
        };
        if h < v.len() {
            v[h as int]
        } else {
            None
        }
    }

    /// The counters.
    pub closed spec fn spec_counters(&self) -> CacheCounters {
        self.counters
    }

    /// The handles registered as depending on a data source.
    pub closed spec fn dependents(&self, source: Seq<char>) -> Seq<u64> {
        if source == "cost_data"@ {
            self.cost_deps@
        } else if source == "history_data"@ {
            self.history_deps@
        } else if source == "system_metrics"@ {
            self.system_deps@
        } else {
            Seq::empty()
        }
    }

    /// The store's data vector has one slot per key, and every entry of the
    /// store has its data.
    pub closed spec fn store_wf(&self, s: Store) -> bool {
        let v = match s {
            Store::Dashboard => self.dashboard_data@,
            Store::Live => self.live_data@,
            Store::Summary => self.summary_data@,
            Store::TimeSeries => self.series_data@,
        };
        &&& v.len() == self.keys@.len()
        &&& keys_distinct(self.entries(s))
        &&& self.capacity(s) > 0
        &&& forall|i: int| 0 <= i < self.entries(s).len() ==> (#[trigger] self.entries(s)[i]).0 < self.keys@.len()
            && self.data(s, self.entries(s)[i].0) is Some
    }

    /// The cache's invariant.
    pub closed spec fn wf(&self) -> bool {
        &&& self.store_wf(Store::Dashboard)
        &&& self.store_wf(Store::Live)
        &&& self.store_wf(Store::Summary)
        &&& self.store_wf(Store::TimeSeries)
        &&& forall|i: int| 0 <= i < self.cost_deps@.len() ==> #[trigger] self.cost_deps@[i] < self.keys@.len()
        &&& forall|i: int| 0 <= i < self.history_deps@.len() ==> #[trigger] self.history_deps@[i] < self.keys@.len()
        &&& forall|i: int| 0 <= i < self.system_deps@.len() ==> #[trigger] self.system_deps@[i] < self.keys@.len()
        &&& requests_add_up(self.counters)
    }

    /// An empty cache. Each store holds `max_items` entries, or 1000 when
    /// that is zero.
    pub fn new(config: CacheConfig) -> (c: Self)
        ensures
            c.wf(),
            c.spec_config() == config,
            c.spec_keys() == Seq::<CacheKey>::empty(),
            forall|s: Store| #[trigger] c.entries(s) == Seq::<(u64, CacheSlot)>::empty(),
            forall|s: Store| #[trigger] c.capacity(s) == if config.max_items == 0 { 1000 } else { config.max_items as nat },
            forall|src: Seq<char>| #[trigger] c.dependents(src) == Seq::<u64>::empty(),
            c.spec_counters() == (CacheCounters {
                total_requests: 0,
                cache_hits: 0,
                cache_misses: 0,
                evictions: 0,
                expired_cleaned: 0,
                current_memory_bytes: 0,
            }),
    {
        let cap = if config.max_items == 0 { 1000 } else { config.max_items };
        let c = DashboardCache {
            config,
            keys: Vec::new(),
            dashboard: lru_new(cap),
            live: lru_new(cap),
            summary: lru_new(cap),
            series: lru_new(cap),
            dashboard_data: Vec::new(),
            live_data: Vec::new(),
            summary_data: Vec::new(),
            series_data: Vec::new(),
            counters: CacheCounters {
                total_requests: 0,
                cache_hits: 0,
                cache_misses: 0,
                evictions: 0,
                expired_cleaned: 0,
                current_memory_bytes: 0,
            },
            cost_deps: Vec::new(),
            history_deps: Vec::new(),
            system_deps: Vec::new(),
        };
        assert forall|s: Store| #[trigger] c.entries(s) == Seq::<(u64, CacheSlot)>::empty() by {
            match s {
                Store::Dashboard => {},
                Store::Live => {},
                Store::Summary => {},
                Store::TimeSeries => {},
            }
        }
        assert forall|s: Store| #[trigger] c.capacity(s) == if config.max_items == 0 { 1000 } else { config.max_items as nat } by {
            match s {
                Store::Dashboard => {},
                Store::Live => {},
                Store::Summary => {},
                Store::TimeSeries => {},
            }
        }
        c
    }

    /// A well-formed cache: every store has room for at least one entry and
    /// holds each handle at most once.
    pub proof fn lemma_stores_well_formed(&self)
        requires
            self.wf(),
        ensures
            forall|s: Store| #[trigger] self.capacity(s) > 0 && keys_distinct(self.entries(s)),
    {
        assert forall|s: Store| #[trigger] self.capacity(s) > 0 && keys_distinct(self.entries(s)) by {
            assert(self.store_wf(s));
        }
    }

    /// What looking `key` up in `store` at `now` finds.
    pub open spec fn outcome(&self, store: Store, key: CacheKey, now: i64) -> Lookup {
        match handle_of(self.spec_keys(), key) {
            None => Lookup::Miss,
            Some(h) => lookup_outcome(self.entries(store), h, now),
        }
    }

    /// The entries of `store` after looking `key` up at `now`.
    pub open spec fn entries_after_get(&self, store: Store, key: CacheKey, now: i64) -> Seq<(u64, CacheSlot)> {
        match handle_of(self.spec_keys(), key) {
            None => self.entries(store),
            Some(h) => looked_up(self.entries(store), h, now),
        }
    }

    /// The entries of `s` after making room for `size` bytes, when over
    /// budget: least recently used dashboard data goes first, then time
    /// series, until enough was freed.
    pub open spec fn entries_after_evict(&self, s: Store, size: usize) -> Seq<(u64, CacheSlot)> {
        let over = over_budget(self.spec_counters().current_memory_bytes, size, self.spec_config().max_memory_mb);
        let d = evict_until(self.entries(Store::Dashboard), size as nat, 0);
        let t = evict_until(self.entries(Store::TimeSeries), size as nat, d.1);
        if !over {
            self.entries(s)
        } else if s == Store::Dashboard {
            d.0
        } else if s == Store::TimeSeries {
            t.0
        } else {
            self.entries(s)
        }
    }

    /// The bytes freed and entries evicted to make room for `size` bytes.
    pub open spec fn evicted_for(&self, size: usize) -> (nat, nat) {
        let over = over_budget(self.spec_counters().current_memory_bytes, size, self.spec_config().max_memory_mb);
        let d = evict_until(self.entries(Store::Dashboard), size as nat, 0);
        let t = evict_until(self.entries(Store::TimeSeries), size as nat, d.1);
        if over {
            (t.1, d.2 + t.2)
        } else {
            (0, 0)
        }
    }

    /// The handle of `key`, if it was seen.
    pub fn find_handle(&self, key: &CacheKey) -> (r: Option<u64>)
        ensures
            r == handle_of(self.spec_keys(), *key),
            r matches Some(h) ==> h < self.spec_keys().len(),
    {
        let mut i: usize = 0;
        while i < self.keys.len()
            invariant
                i <= self.keys.len(),
                handle_of(self.keys@.take(i as int), *key) is None,
            decreases self.keys.len() - i,
        {
            assert(self.keys@.take(i + 1).drop_last() =~= self.keys@.take(i as int));
            if self.keys[i].same_as(key) {
                proof {
                    lemma_handle_prefix(self.keys@, *key, i + 1);
                }
                return Some(i as u64);
            }
            i += 1;
        }
        assert(self.keys@.take(self.keys.len() as int) =~= self.keys@);
        None
    }
}

/// Whether every handle in `a` occurs in `b`.
pub open spec fn handles_within(a: Seq<(u64, CacheSlot)>, b: Seq<(u64, CacheSlot)>) -> bool {
    forall|i: int| 0 <= i < a.len() ==> holds(b, #[trigger] a[i].0)
}

/// Removing an entry keeps the other handles.
proof fn lemma_remove_within(e: Seq<(u64, CacheSlot)>, p: int)
    requires
        0 <= p < e.len(),
    ensures
        handles_within(e.remove(p), e),
{
    let r = e.remove(p);
    assert forall|i: int| 0 <= i < r.len() implies holds(e, #[trigger] r[i].0) by {
        let j = if i < p { i } else { i + 1 };
        assert(r[i] == e[j]);
        assert(key_at(e, r[i].0, j));
    }
}

/// Moving an entry to the front keeps the handles.
proof fn lemma_front_within(e: Seq<(u64, CacheSlot)>, p: int, x: (u64, CacheSlot))
    requires
        0 <= p < e.len(),
        e[p].0 == x.0,
    ensures
        handles_within(seq![x] + e.remove(p), e),
{
    lemma_remove_within(e, p);
    let r = seq![x] + e.remove(p);
    assert forall|i: int| 0 <= i < r.len() implies holds(e, #[trigger] r[i].0) by {
        if i == 0 {
            assert(key_at(e, x.0, p));
        } else {
            assert(r[i] == e.remove(p)[i - 1]);
        }
    }
}

/// A lookup keeps only handles that were there.
proof fn lemma_looked_up_within(e: Seq<(u64, CacheSlot)>, h: u64, now: i64)
    ensures
        handles_within(looked_up(e, h, now), e),
{
    if holds(e, h) {
        let p = position_of(e, h);
        if expired(e[p].1, now) {
            lemma_remove_within(e, p);
        } else {
            lemma_front_within(e, p, (h, accessed(e[p].1, now)));
        }
    } else {
        assert forall|i: int| 0 <= i < e.len() implies holds(e, #[trigger] e[i].0) by {
            assert(key_at(e, e[i].0, i));
        }
    }
}

impl<P> DashboardCache<P> {
    /// Whether adding `additional_bytes` would go over the memory budget.
    pub fn would_exceed_memory_limit(&self, additional_bytes: usize) -> (b: bool)
        ensures
            b == over_budget(self.spec_counters().current_memory_bytes, additional_bytes, self.spec_config().max_memory_mb),
    {
        (self.counters.current_memory_bytes as u128) + (additional_bytes as u128) > (self.config.max_memory_mb as u128)
            * 1024 * 1024
    }

    /// The handle of `key`, registering it when it is new.
    fn handle_for(&mut self, key: CacheKey) -> (h: u64)
        requires
            old(self).wf(),
        ensures
            final(self).wf(),
            h < final(self).spec_keys().len(),
            handle_of(final(self).spec_keys(), key) == Some(h),
            handle_of(old(self).spec_keys(), key) matches Some(g) ==> g == h && final(self).spec_keys() == old(self).spec_keys(),
            handle_of(old(self).spec_keys(), key) is None ==> h == old(self).spec_keys().len()
                && final(self).spec_keys() == old(self).spec_keys().push(key),
            forall|s: Store| #[trigger] final(self).entries(s) == old(self).entries(s),
            forall|s: Store, g: u64| g != h ==> #[trigger] final(self).data(s, g) == old(self).data(s, g),
            forall|s: Store| (#[trigger] final(self).data(s, h)) == old(self).data(s, h) || h == old(self).spec_keys().len(),
            forall|src: Seq<char>| #[trigger] final(self).dependents(src) == old(self).dependents(src),
            final(self).spec_counters() == old(self).spec_counters(),
            final(self).spec_config() == old(self).spec_config(),
            forall|s: Store| #[trigger] final(self).capacity(s) == old(self).capacity(s),
    {
        let n = self.keys.len();
        match self.find_handle(&key) {
            Some(h) => h,
            None => {
                let ghost k = key;
                self.keys.push(key);
                self.dashboard_data.push(None);
                self.live_data.push(None);
                self.summary_data.push(None);
                self.series_data.push(None);
                proof {
                    assert(self.keys@.drop_last() =~= old(self).keys@);
                    assert(self.keys@.last() == k);
                    assert forall|s: Store, g: u64| g != n as u64 implies #[trigger] self.data(s, g) == old(self).data(s, g) by {}
                    assert forall|s: Store| #[trigger] self.entries(s) == old(self).entries(s) by {}
                    assert forall|s: Store| #[trigger] self.capacity(s) == old(self).capacity(s) by {}
                    assert(self.store_wf(Store::Dashboard));
                    assert(self.store_wf(Store::Live));
                    assert(self.store_wf(Store::Summary));
                    assert(self.store_wf(Store::TimeSeries));
                }
                n as u64
            },
        }
    }

    /// Frees at least `needed` bytes if it can by evicting least recently
    /// used dashboard data, then time series.
    fn evict_lru_items(&mut self, needed: usize)
        requires
            old(self).wf(),
        ensures
            final(self).wf(),
            final(self).entries(Store::Dashboard) == evict_until(old(self).entries(Store::Dashboard), needed as nat, 0).0,
            final(self).entries(Store::TimeSeries) == evict_until(
                old(self).entries(Store::TimeSeries),
                needed as nat,
                evict_until(old(self).entries(Store::Dashboard), needed as nat, 0).1,
            ).0,
            final(self).entries(Store::Live) == old(self).entries(Store::Live),
            final(self).entries(Store::Summary) == old(self).entries(Store::Summary),
            ({
                let d = evict_until(old(self).entries(Store::Dashboard), needed as nat, 0);
                let t = evict_until(old(self).entries(Store::TimeSeries), needed as nat, d.1);
                let (o, n) = (old(self).spec_counters(), final(self).spec_counters());
                &&& n.current_memory_bytes == o.current_memory_bytes.wrapping_sub(
                    (t.1 % (usize::MAX as nat + 1)) as usize,
                )
                &&& n.evictions == o.evictions.wrapping_add(((d.2 + t.2) % 0x1_0000_0000_0000_0000) as u64)
                &&& n.total_requests == o.total_requests && n.cache_hits == o.cache_hits
                &&& n.cache_misses == o.cache_misses && n.expired_cleaned == o.expired_cleaned
            }),
            final(self).spec_keys() == old(self).spec_keys(),
            final(self).spec_config() == old(self).spec_config(),
            forall|s: Store, h: u64| #[trigger] final(self).data(s, h) == old(self).data(s, h),
            forall|src: Seq<char>| #[trigger] final(self).dependents(src) == old(self).dependents(src),
            forall|s: Store| #[trigger] final(self).capacity(s) == old(self).capacity(s),
    {
        proof {
            assert(self.store_wf(Store::Dashboard));
            assert(self.store_wf(Store::TimeSeries));
            lemma_evict_within(old(self).entries(Store::Dashboard), needed as nat, 0);
        }
        let dashboard_len = lru_len(&self.dashboard);
        let series_len = lru_len(&self.series);
        let (f1, n1) = evict_store(&mut self.dashboard, needed, 0);
        let ghost mid = lru_entries(self.series);
        let (f2, n2) = if f1 < needed as u128 {
            evict_store(&mut self.series, needed, f1)
        } else {
            (f1, 0)
        };
        proof {
            lemma_evict_within(mid, needed as nat, f1 as nat);
            let e = self.entries(Store::Dashboard);
            assert forall|i: int| 0 <= i < e.len() implies (#[trigger] e[i]).0 < self.keys@.len()
                && self.data(Store::Dashboard, e[i].0) is Some by {
                assert(holds(old(self).entries(Store::Dashboard), e[i].0));
                let j = choose|j: int| key_at(old(self).entries(Store::Dashboard), e[i].0, j);
                assert(old(self).entries(Store::Dashboard)[j].0 == e[i].0);
            }
            let t = self.entries(Store::TimeSeries);
            assert forall|i: int| 0 <= i < t.len() implies (#[trigger] t[i]).0 < self.keys@.len()
                && self.data(Store::TimeSeries, t[i].0) is Some by {
                assert(holds(old(self).entries(Store::TimeSeries), t[i].0));
                let j = choose|j: int| key_at(old(self).entries(Store::TimeSeries), t[i].0, j);
                assert(old(self).entries(Store::TimeSeries)[j].0 == t[i].0);
            }
            vstd::arithmetic::div_mod::lemma_small_mod(0, usize::MAX as nat + 1);
            vstd::arithmetic::div_mod::lemma_small_mod(0, 0x1_0000_0000_0000_0000);
        }
        let freed = (f2 % ((usize::MAX as u128) + 1)) as usize;
        let count = ((n1 + n2) % 0x1_0000_0000_0000_0000u128) as u64;
        if f2 > 0 {
            self.counters.current_memory_bytes = self.counters.current_memory_bytes.wrapping_sub(freed);
        }
        if n1 + n2 > 0 {
            self.counters.evictions = self.counters.evictions.wrapping_add(count);
        }
        proof {
            assert forall|s: Store, h: u64| #[trigger] self.data(s, h) == old(self).data(s, h) by {}
            assert forall|s: Store| #[trigger] self.capacity(s) == old(self).capacity(s) by {}
        }
    }

    /// The time to live of an entry of `store` set without one.
    pub fn default_ttl_for(&self, store: Store) -> (t: u64)
        ensures
            t == default_ttl(store, self.spec_config()),
    {
        match store {
            Store::Dashboard => self.config.default_ttl_seconds,
            Store::Live => 30,
            Store::Summary => 600,
            Store::TimeSeries => 300,
        }
    }

    /// Stores `data` under `key` in `store` at `now` (milliseconds since
    /// the epoch), to expire after `ttl_seconds` (the store's default when
    /// `None`); `estimated_size` is its size estimate in bytes. When the
    /// memory budget would be exceeded, least recently used entries are
    /// evicted first. A full store drops its least recently used entry. The
    /// memory count loses the size of an entry replaced under the same key
    /// and gains the new size. Dashboard data under smart invalidation
    /// records the data sources it depends on.
    pub fn set(&mut self, store: Store, key: CacheKey, data: P, ttl_seconds: Option<u64>, estimated_size: usize, now: i64)
        requires
            old(self).wf(),
            1000 * match ttl_seconds {
                Some(t) => t,
                None => default_ttl(store, old(self).spec_config()),
            } <= i64::MAX,
            now + 1000 * match ttl_seconds {
                Some(t) => t,
                None => default_ttl(store, old(self).spec_config()),
            } <= i64::MAX,
        ensures
            final(self).wf(),
            forall|s: Store| #[trigger] final(self).capacity(s) == old(self).capacity(s),
            final(self).spec_config() == old(self).spec_config(),
            handle_of(final(self).spec_keys(), key) is Some,
            ({
                let h = handle_of(final(self).spec_keys(), key)->0;
                let ttl = match ttl_seconds {
                    Some(t) => t,
                    None => default_ttl(store, old(self).spec_config()),
                };
                let slot = CacheSlot {
                    created_at: now,
                    expires_at: (now + 1000 * ttl) as i64,
                    access_count: 0,
                    last_accessed: now,
                    estimated_size_bytes: estimated_size,
                };
                let room = old(self).entries_after_evict(store, estimated_size);
                let (freed, evicted) = old(self).evicted_for(estimated_size);
                let (o, n) = (old(self).spec_counters(), final(self).spec_counters());
                let after_evict = o.current_memory_bytes.wrapping_sub((freed % (usize::MAX as nat + 1)) as usize);
                let after_replace = if holds(room, h) {
                    after_evict.wrapping_sub(room[position_of(room, h)].1.estimated_size_bytes)
                } else {
                    after_evict
                };
                &&& final(self).entries(store) == put_into(room, old(self).capacity(store), h, slot)
                &&& forall|t: i64| t <= slot.expires_at ==> #[trigger] final(self).outcome(store, key, t) == Lookup::Hit
                &&& forall|s: Store| s != store ==> #[trigger] final(self).entries(s)
                    == old(self).entries_after_evict(s, estimated_size)
                &&& final(self).data(store, h) == Some(data)
                &&& n.current_memory_bytes == after_replace.wrapping_add(estimated_size)
                &&& n.evictions == o.evictions.wrapping_add((evicted % 0x1_0000_0000_0000_0000) as u64)
                &&& n.total_requests == o.total_requests && n.cache_hits == o.cache_hits
                &&& n.cache_misses == o.cache_misses && n.expired_cleaned == o.expired_cleaned
                &&& forall|src: Seq<char>| #[trigger] final(self).dependents(src) == if store == Store::Dashboard
                    && old(self).spec_config().enable_smart_invalidation && depends_on(key.data_type, src) {
                    old(self).dependents(src).push(h)
                } else {
                    old(self).dependents(src)
                }
            }),
            handle_of(old(self).spec_keys(), key) is Some ==> final(self).spec_keys() == old(self).spec_keys(),
            handle_of(old(self).spec_keys(), key) is None ==> final(self).spec_keys() == old(self).spec_keys().push(key),
    {
        let ttl = match ttl_seconds {
            Some(t) => t,
            None => self.default_ttl_for(store),
        };
        let slot = CacheSlot {
            created_at: now,
            expires_at: now + (ttl as i64) * 1000,
            access_count: 0,
            last_accessed: now,
            estimated_size_bytes: estimated_size,
        };
        let ghost room_d = old(self).entries_after_evict(Store::Dashboard, estimated_size);
        if self.would_exceed_memory_limit(estimated_size) {
            self.evict_lru_items(estimated_size);
        } else {
            proof {
                vstd::arithmetic::div_mod::lemma_small_mod(0, usize::MAX as nat + 1);
                vstd::arithmetic::div_mod::lemma_small_mod(0, 0x1_0000_0000_0000_0000);
            }
        }
        let ghost mid = *self;
        assert forall|s: Store| #[trigger] mid.entries(s) == old(self).entries_after_evict(s, estimated_size) by {}
        assert forall|s: Store| #[trigger] mid.capacity(s) == old(self).capacity(s) by {}
        let smart = store == Store::Dashboard && self.config.enable_smart_invalidation;
        let data_type = key.data_type;
        let h = self.handle_for(key);
        self.put_entry(store, h, slot, data);
        if smart {
            self.register_data_dependency(data_type, h);
        }
        proof {
            assert(mid.store_wf(store));
            assert forall|t: i64| t <= slot.expires_at implies #[trigger] self.outcome(store, key, t) == Lookup::Hit by {
                law_set_then_get(mid.entries(store), old(self).capacity(store), h, slot, t);
            }
        }
    }

    /// Puts the entry `h` with `slot` and `data` into `store` and counts
    /// its memory: the size of a replaced entry goes, the new size comes.
    fn put_entry(&mut self, store: Store, h: u64, slot: CacheSlot, data: P)
        requires
            old(self).wf(),
            h < old(self).spec_keys().len(),
        ensures
            final(self).wf(),
            final(self).entries(store) == put_into(old(self).entries(store), old(self).capacity(store), h, slot),
            forall|s: Store| s != store ==> #[trigger] final(self).entries(s) == old(self).entries(s),
            forall|s: Store| #[trigger] final(self).capacity(s) == old(self).capacity(s),
            final(self).data(store, h) == Some(data),
            ({
                let (o, n) = (old(self).spec_counters(), final(self).spec_counters());
                let e = old(self).entries(store);
                let after_replace = if holds(e, h) {
                    o.current_memory_bytes.wrapping_sub(e[position_of(e, h)].1.estimated_size_bytes)
                } else {
                    o.current_memory_bytes
                };
                &&& n.current_memory_bytes == after_replace.wrapping_add(slot.estimated_size_bytes)
                &&& n.evictions == o.evictions
                &&& n.total_requests == o.total_requests && n.cache_hits == o.cache_hits
                &&& n.cache_misses == o.cache_misses && n.expired_cleaned == o.expired_cleaned
            }),
            forall|src: Seq<char>| #[trigger] final(self).dependents(src) == old(self).dependents(src),
            final(self).spec_keys() == old(self).spec_keys(),
            final(self).spec_config() == old(self).spec_config(),
    {
        proof {
            assert(self.store_wf(store));
            lemma_put_within(self.entries(store), self.capacity(store), h, slot);
        }
        let replaced = match store {
            Store::Dashboard => put_slot(&mut self.dashboard, h, slot),
            Store::Live => put_slot(&mut self.live, h, slot),
            Store::Summary => put_slot(&mut self.summary, h, slot),
            Store::TimeSeries => put_slot(&mut self.series, h, slot),
        };
        match replaced {
            Some(r) => {
                self.counters.current_memory_bytes = self.counters.current_memory_bytes.wrapping_sub(
                    r.estimated_size_bytes,
                );
            },
            None => {},
        }
        self.counters.current_memory_bytes = self.counters.current_memory_bytes.wrapping_add(
            slot.estimated_size_bytes,
        );
        let nk = self.keys.len();
        assert(h < nk);
        let idx = h as usize;
        match store {
            Store::Dashboard => self.dashboard_data.set(idx, Some(data)),
            Store::Live => self.live_data.set(idx, Some(data)),
            Store::Summary => self.summary_data.set(idx, Some(data)),
            Store::TimeSeries => self.series_data.set(idx, Some(data)),
        }
        proof {
            let e = self.entries(store);
            assert forall|i: int| 0 <= i < e.len() implies (#[trigger] e[i]).0 < self.keys@.len()
                && self.data(store, e[i].0) is Some by {
                if e[i].0 != h {
                    assert(holds(old(self).entries(store), e[i].0));
                    let j = choose|j: int| key_at(old(self).entries(store), e[i].0, j);
                    assert(old(self).entries(store)[j].0 == e[i].0);
                }
            }
            assert forall|s: Store| s != store implies #[trigger] self.store_wf(s) by {
                assert(old(self).store_wf(s));
                assert forall|g: u64| #[trigger] self.data(s, g) == old(self).data(s, g) by {}
            }
            assert forall|s: Store| s != store implies #[trigger] self.entries(s) == old(self).entries(s) by {}
            assert forall|s: Store| #[trigger] self.capacity(s) == old(self).capacity(s) by {}
            assert forall|src: Seq<char>| #[trigger] self.dependents(src) == old(self).dependents(src) by {}
        }
    }

    /// Removes every entry that depends on `data_source`, from the store of
    /// its key's type, when smart invalidation is on; memory and counters
    /// are left as they are.
    pub fn invalidate_related_caches(&mut self, data_source: &str)
        requires
            old(self).wf(),
        ensures
            final(self).wf(),
            forall|s: Store| #[trigger] final(self).capacity(s) == old(self).capacity(s),
            forall|s: Store| #[trigger] final(self).entries(s) == if old(self).spec_config().enable_smart_invalidation {
                without_handles(old(self).entries(s), old(self).dependents(data_source@), old(self).spec_keys(), s)
            } else {
                old(self).entries(s)
            },
            final(self).spec_counters() == old(self).spec_counters(),
            final(self).spec_keys() == old(self).spec_keys(),
            final(self).spec_config() == old(self).spec_config(),
            forall|s: Store, h: u64| #[trigger] final(self).data(s, h) == old(self).data(s, h),
            forall|src: Seq<char>| #[trigger] final(self).dependents(src) == old(self).dependents(src),
    {
        if !self.config.enable_smart_invalidation {
            return;
        }
        proof {
            reveal_strlit("cost_data");
            reveal_strlit("history_data");
            reveal_strlit("system_metrics");
        }
        let deps: Vec<u64> = if str_eq(data_source, "cost_data") {
            self.cost_deps.clone()
        } else if str_eq(data_source, "history_data") {
            self.history_deps.clone()
        } else if str_eq(data_source, "system_metrics") {
            self.system_deps.clone()
        } else {
            Vec::new()
        };
        assert(deps@ == old(self).dependents(data_source@));
        let mut i: usize = 0;
        while i < deps.len()
            invariant
                i <= deps.len(),
                deps@ == old(self).dependents(data_source@),
                forall|k: int| 0 <= k < deps@.len() ==> #[trigger] deps@[k] < old(self).spec_keys().len(),
                self.wf(),
                forall|st: Store| #[trigger] self.capacity(st) == old(self).capacity(st),
                forall|st: Store| #[trigger] self.entries(st) == without_handles(
                    old(self).entries(st),
                    deps@.take(i as int),
                    old(self).spec_keys(),
                    st,
                ),
                self.spec_counters() == old(self).spec_counters(),
                self.spec_keys() == old(self).spec_keys(),
                self.spec_config() == old(self).spec_config(),
                forall|st: Store, h: u64| #[trigger] self.data(st, h) == old(self).data(st, h),
                forall|src: Seq<char>| #[trigger] self.dependents(src) == old(self).dependents(src),
            decreases deps.len() - i,
        {
            let h = deps[i];
            let nk = self.keys.len();
            assert(h < nk);
            let t = self.keys[h as usize].data_type;
            let ghost before = *self;
            proof {
                assert(deps@.take(i + 1).drop_last() =~= deps@.take(i as int));
                assert(deps@.take(i + 1).last() == h);
            }
            match t {
                CacheDataType::DashboardData => {
                    proof { assert(self.store_wf(Store::Dashboard)); }
                    remove_slot(&mut self.dashboard, h);
                },
                CacheDataType::LiveDashboardData => {
                    proof { assert(self.store_wf(Store::Live)); }
                    remove_slot(&mut self.live, h);
                },
                CacheDataType::AnalyticsSummary => {
                    proof { assert(self.store_wf(Store::Summary)); }
                    remove_slot(&mut self.summary, h);
                },
                CacheDataType::TimeSeriesData => {
                    proof { assert(self.store_wf(Store::TimeSeries)); }
                    remove_slot(&mut self.series, h);
                },
                _ => {},
            }
            proof {
                assert forall|st: Store| #[trigger] self.store_wf(st) by {
                    assert(before.store_wf(st));
                    let e = self.entries(st);
                    if e != before.entries(st) {
                        let b = before.entries(st);
                        lemma_remove_within(b, position_of(b, h));
                        assert forall|k: int| 0 <= k < e.len() implies (#[trigger] e[k]).0 < self.keys@.len()
                            && self.data(st, e[k].0) is Some by {
                            assert(holds(b, e[k].0));
                            let j = choose|j: int| key_at(b, e[k].0, j);
                            assert(b[j].0 == e[k].0);
                        }
                    }
                }
                assert forall|st: Store, g: u64| #[trigger] self.data(st, g) == old(self).data(st, g) by {
                    assert(self.data(st, g) == before.data(st, g));
                }
                assert forall|src: Seq<char>| #[trigger] self.dependents(src) == old(self).dependents(src) by {
                    assert(self.dependents(src) == before.dependents(src));
                }
                assert forall|st: Store| #[trigger] self.capacity(st) == old(self).capacity(st) by {
                    assert(self.capacity(st) == before.capacity(st));
                }
            }
            i += 1;
        }
        assert(deps@.take(deps.len() as int) =~= deps@);
    }

    /// Removes every expired entry of every store at `now`, counting them
    /// as cleaned and taking their sizes off the memory count.
    pub fn cleanup_expired_items(&mut self, now: i64)
        requires
            old(self).wf(),
        ensures
            final(self).wf(),
            forall|s: Store| #[trigger] final(self).capacity(s) == old(self).capacity(s),
            forall|s: Store| #[trigger] final(self).entries(s) == unexpired(old(self).entries(s), now),
            ({
                let (o, n) = (old(self).spec_counters(), final(self).spec_counters());
                let count = expired_count(old(self).entries(Store::Dashboard), now) + expired_count(
                    old(self).entries(Store::Live),
                    now,
                ) + expired_count(old(self).entries(Store::Summary), now) + expired_count(
                    old(self).entries(Store::TimeSeries),
                    now,
                );
                let bytes = expired_bytes(old(self).entries(Store::Dashboard), now) + expired_bytes(
                    old(self).entries(Store::Live),
                    now,
                ) + expired_bytes(old(self).entries(Store::Summary), now) + expired_bytes(
                    old(self).entries(Store::TimeSeries),
                    now,
                );
                &&& n.current_memory_bytes == o.current_memory_bytes.wrapping_sub(
                    (bytes % (usize::MAX as nat + 1)) as usize,
                )
                &&& n.expired_cleaned == o.expired_cleaned.wrapping_add((count % 0x1_0000_0000_0000_0000) as u64)
                &&& n.total_requests == o.total_requests && n.cache_hits == o.cache_hits
                &&& n.cache_misses == o.cache_misses && n.evictions == o.evictions
            }),
            final(self).spec_keys() == old(self).spec_keys(),
            final(self).spec_config() == old(self).spec_config(),
            forall|s: Store, h: u64| #[trigger] final(self).data(s, h) == old(self).data(s, h),
            forall|src: Seq<char>| #[trigger] final(self).dependents(src) == old(self).dependents(src),
    {
        proof {
            assert(self.store_wf(Store::Dashboard));
            assert(self.store_wf(Store::Live));
            assert(self.store_wf(Store::Summary));
            assert(self.store_wf(Store::TimeSeries));
        }
        let (c1, b1) = purge_expired(&mut self.dashboard, now);
        let (c2, b2) = purge_expired(&mut self.live, now);
        let (c3, b3) = purge_expired(&mut self.summary, now);
        let (c4, b4) = purge_expired(&mut self.series, now);
        let ghost m: int = usize::MAX as int + 1;
        let ghost w: int = 0x1_0000_0000_0000_0000;
        proof {
            let (e1, e2, e3, e4) = (
                old(self).entries(Store::Dashboard),
                old(self).entries(Store::Live),
                old(self).entries(Store::Summary),
                old(self).entries(Store::TimeSeries),
            );
            lemma_wrapping_add_mods(b1 as int, b2 as int, expired_bytes(e1, now) as int, expired_bytes(e2, now) as int, m);
            lemma_wrapping_add_mods(c1 as int, c2 as int, expired_count(e1, now) as int, expired_count(e2, now) as int, w);
        }
        let b12 = b1.wrapping_add(b2);
        let c12 = c1.wrapping_add(c2);
        proof {
            let (e1, e2, e3, e4) = (
                old(self).entries(Store::Dashboard),
                old(self).entries(Store::Live),
                old(self).entries(Store::Summary),
                old(self).entries(Store::TimeSeries),
            );
            lemma_wrapping_add_mods(b12 as int, b3 as int, (expired_bytes(e1, now) + expired_bytes(e2, now)) as int, expired_bytes(e3, now) as int, m);
            lemma_wrapping_add_mods(c12 as int, c3 as int, (expired_count(e1, now) + expired_count(e2, now)) as int, expired_count(e3, now) as int, w);
        }
        let b123 = b12.wrapping_add(b3);
        let c123 = c12.wrapping_add(c3);
        proof {
            let (e1, e2, e3, e4) = (
                old(self).entries(Store::Dashboard),
                old(self).entries(Store::Live),
                old(self).entries(Store::Summary),
                old(self).entries(Store::TimeSeries),
            );
            lemma_wrapping_add_mods(b123 as int, b4 as int, (expired_bytes(e1, now) + expired_bytes(e2, now) + expired_bytes(e3, now)) as int, expired_bytes(e4, now) as int, m);
            lemma_wrapping_add_mods(c123 as int, c4 as int, (expired_count(e1, now) + expired_count(e2, now) + expired_count(e3, now)) as int, expired_count(e4, now) as int, w);
            vstd::arithmetic::div_mod::lemma_small_mod(0, m as nat);
        }
        let freed = b123.wrapping_add(b4);
        let cleaned = c123.wrapping_add(c4);
        if freed > 0 {
            self.counters.current_memory_bytes = self.counters.current_memory_bytes.wrapping_sub(freed);
        }
        if cleaned > 0 {
            self.counters.expired_cleaned = self.counters.expired_cleaned.wrapping_add(cleaned);
        }
        proof {
            assert forall|st: Store| #[trigger] self.store_wf(st) by {
                assert(old(self).store_wf(st));
                let b = old(self).entries(st);
                let e = self.entries(st);
                lemma_unexpired_within(b, now);
                assert forall|k: int| 0 <= k < e.len() implies (#[trigger] e[k]).0 < self.keys@.len()
                    && self.data(st, e[k].0) is Some by {
                    assert(holds(b, e[k].0));
                    let j = choose|j: int| key_at(b, e[k].0, j);
                    assert(b[j].0 == e[k].0);
                }
            }
            assert forall|st: Store| #[trigger] self.entries(st) == unexpired(old(self).entries(st), now) by {}
            assert forall|st: Store, g: u64| #[trigger] self.data(st, g) == old(self).data(st, g) by {}
            assert forall|src: Seq<char>| #[trigger] self.dependents(src) == old(self).dependents(src) by {}
        }
    }

    /// Empties every store; the memory count starts again from zero.
    pub fn clear_all(&mut self)
        requires
            old(self).wf(),
        ensures
            final(self).wf(),
            forall|s: Store| #[trigger] final(self).capacity(s) == old(self).capacity(s),
            forall|s: Store| #[trigger] final(self).entries(s) == Seq::<(u64, CacheSlot)>::empty(),
            final(self).spec_counters() == (CacheCounters { current_memory_bytes: 0, ..old(self).spec_counters() }),
            final(self).spec_keys() == old(self).spec_keys(),
            final(self).spec_config() == old(self).spec_config(),
            forall|s: Store, h: u64| #[trigger] final(self).data(s, h) == old(self).data(s, h),
            forall|src: Seq<char>| #[trigger] final(self).dependents(src) == old(self).dependents(src),
    {
        proof {
            assert(self.store_wf(Store::Dashboard));
            assert(self.store_wf(Store::Live));
            assert(self.store_wf(Store::Summary));
            assert(self.store_wf(Store::TimeSeries));
        }
        lru_clear(&mut self.dashboard);
        lru_clear(&mut self.live);
        lru_clear(&mut self.summary);
        lru_clear(&mut self.series);
        self.counters.current_memory_bytes = 0;
        proof {
            assert forall|st: Store| #[trigger] self.entries(st) == Seq::<(u64, CacheSlot)>::empty() by {}
            assert forall|st: Store| #[trigger] self.store_wf(st) by {
                assert(old(self).store_wf(st));
            }
            assert forall|st: Store, g: u64| #[trigger] self.data(st, g) == old(self).data(st, g) by {}
            assert forall|src: Seq<char>| #[trigger] self.dependents(src) == old(self).dependents(src) by {}
        }
    }

    /// The counters: requests, hits, misses, evictions, expired entries
    /// cleaned and the memory count.
    pub fn counters(&self) -> (c: CacheCounters)
        ensures
            c == self.spec_counters(),
    {
        self.counters
    }

    /// The number of entries of each store: dashboard data, live data,
    /// summaries and time series.
    pub fn item_counts(&self) -> (n: (usize, usize, usize, usize))
        ensures
            n.0 == self.entries(Store::Dashboard).len(),
            n.1 == self.entries(Store::Live).len(),
            n.2 == self.entries(Store::Summary).len(),
            n.3 == self.entries(Store::TimeSeries).len(),
    {
        (lru_len(&self.dashboard), lru_len(&self.live), lru_len(&self.summary), lru_len(&self.series))
    }

    /// The number of entries over all four stores; the total must fit a
    /// `usize`.
    pub fn total_items(&self) -> (n: usize)
        requires
            self.entries(Store::Dashboard).len() + self.entries(Store::Live).len() + self.entries(Store::Summary).len()
                + self.entries(Store::TimeSeries).len() <= usize::MAX,
        ensures
            n == self.entries(Store::Dashboard).len() + self.entries(Store::Live).len() + self.entries(
                Store::Summary,
            ).len() + self.entries(Store::TimeSeries).len(),
    {
        lru_len(&self.dashboard) + lru_len(&self.live) + lru_len(&self.summary) + lru_len(&self.series)
    }

    /// The configuration.
    pub fn config(&self) -> (c: CacheConfig)
        ensures
            c == self.spec_config(),
    {
        self.config
    }

    /// Records that the entry `h` of type `t` depends on the data sources
    /// of its type.
    fn register_data_dependency(&mut self, t: CacheDataType, h: u64)
        requires
            old(self).wf(),
            h < old(self).spec_keys().len(),
        ensures
            final(self).wf(),
            forall|src: Seq<char>| #[trigger] final(self).dependents(src) == if depends_on(t, src) {
                old(self).dependents(src).push(h)
            } else {
                old(self).dependents(src)
            },
            forall|s: Store| #[trigger] final(self).entries(s) == old(self).entries(s),
            forall|s: Store, g: u64| #[trigger] final(self).data(s, g) == old(self).data(s, g),
            final(self).spec_keys() == old(self).spec_keys(),
            final(self).spec_counters() == old(self).spec_counters(),
            final(self).spec_config() == old(self).spec_config(),
            forall|s: Store| #[trigger] final(self).capacity(s) == old(self).capacity(s),
    {
        proof {
            reveal_strlit("cost_data");
            reveal_strlit("history_data");
            reveal_strlit("system_metrics");
        }
        match t {
            CacheDataType::DashboardData | CacheDataType::AnalyticsSummary | CacheDataType::TimeSeriesData => {
                self.cost_deps.push(h);
                self.history_deps.push(h);
            },
            CacheDataType::LiveDashboardData => {
                self.cost_deps.push(h);
                self.history_deps.push(h);
                self.system_deps.push(h);
            },
            _ => {},
        }
        proof {
            assert forall|s: Store| #[trigger] self.entries(s) == old(self).entries(s) by {}
            assert forall|s: Store| #[trigger] self.capacity(s) == old(self).capacity(s) by {}
            assert forall|s: Store, g: u64| #[trigger] self.data(s, g) == old(self).data(s, g) by {}
            assert forall|src: Seq<char>| #[trigger] self.dependents(src) == if depends_on(t, src) {
                old(self).dependents(src).push(h)
            } else {
                old(self).dependents(src)
            } by {}
            assert(self.store_wf(Store::Dashboard));
            assert(self.store_wf(Store::Live));
            assert(self.store_wf(Store::Summary));
            assert(self.store_wf(Store::TimeSeries));
        }
    }

    /// Looks `key` up in `store` at `now` (milliseconds since the epoch).
    /// Every request is counted. A live entry is a hit: it is marked
    /// accessed, becomes the most recently used, and its data is given. An
    /// expired entry is removed and counted as cleaned. Anything but a hit
    /// is a miss.
    pub fn get(&mut self, store: Store, key: &CacheKey, now: i64) -> (r: Option<&P>)
        requires
            old(self).wf(),
        ensures
            final(self).wf(),
            forall|s: Store| #[trigger] final(self).capacity(s) == old(self).capacity(s),
            final(self).spec_config() == old(self).spec_config(),
            final(self).spec_keys() == old(self).spec_keys(),
            final(self).entries(store) == old(self).entries_after_get(store, *key, now),
            forall|s: Store| s != store ==> #[trigger] final(self).entries(s) == old(self).entries(s),
            forall|s: Store, h: u64| #[trigger] final(self).data(s, h) == old(self).data(s, h),
            forall|src: Seq<char>| #[trigger] final(self).dependents(src) == old(self).dependents(src),
            ({
                let (o, n) = (old(self).spec_counters(), final(self).spec_counters());
                let outcome = old(self).outcome(store, *key, now);
                &&& n.total_requests == o.total_requests.wrapping_add(1)
                &&& n.cache_hits == if outcome == Lookup::Hit { o.cache_hits.wrapping_add(1) } else { o.cache_hits }
                &&& n.cache_misses == if outcome != Lookup::Hit { o.cache_misses.wrapping_add(1) } else { o.cache_misses }
                &&& n.expired_cleaned == if outcome == Lookup::Expired {
                    o.expired_cleaned.wrapping_add(1)
                } else {
                    o.expired_cleaned
                }
                &&& n.evictions == o.evictions
                &&& n.current_memory_bytes == o.current_memory_bytes
            }),
            (r is Some) == (old(self).outcome(store, *key, now) == Lookup::Hit),
            r matches Some(p) ==> Some(*p) == old(self).data(store, handle_of(old(self).spec_keys(), *key)->0),
    {
        let ghost before = self.counters;
        self.counters.total_requests = self.counters.total_requests.wrapping_add(1);
        let nkeys = self.keys.len();
        let found = self.find_handle(key);
        let h = match found {
            None => {
                self.counters.cache_misses = self.counters.cache_misses.wrapping_add(1);
                proof {
                    lemma_count_request(before, self.counters);
                }
                return None;
            },
            Some(h) => h,
        };
        proof {
            assert(self.store_wf(store));
        }
        let outcome = match store {
            Store::Dashboard => lookup(&mut self.dashboard, h, now),
            Store::Live => lookup(&mut self.live, h, now),
            Store::Summary => lookup(&mut self.summary, h, now),
            Store::TimeSeries => lookup(&mut self.series, h, now),
        };
        proof {
            lemma_looked_up_within(old(self).entries(store), h, now);
            let e = self.entries(store);
            assert forall|i: int| 0 <= i < e.len() implies (#[trigger] e[i]).0 < self.keys@.len()
                && self.data(store, e[i].0) is Some by {
                let j = choose|j: int| key_at(old(self).entries(store), e[i].0, j);
                assert(old(self).entries(store)[j].0 == e[i].0);
            }
            assert forall|s: Store| s != store implies #[trigger] self.entries(s) == old(self).entries(s) by {}
            assert forall|s: Store, hh: u64| #[trigger] self.data(s, hh) == old(self).data(s, hh) by {}
        }
        match outcome {
            Lookup::Hit => {
                self.counters.cache_hits = self.counters.cache_hits.wrapping_add(1);
                proof {
                    lemma_count_request(before, self.counters);
                    let p = position_of(old(self).entries(store), h);
                    assert(key_at(old(self).entries(store), h, p));
                    assert(old(self).store_wf(store));
                    assert(old(self).entries(store)[p].0 < old(self).keys@.len()
                        && old(self).data(store, old(self).entries(store)[p].0) is Some);
                }
                let v = match store {
                    Store::Dashboard => &self.dashboard_data,
                    Store::Live => &self.live_data,
                    Store::Summary => &self.summary_data,
                    Store::TimeSeries => &self.series_data,
                };
                assert(h < nkeys);
                let idx = h as usize;
                assert(v@[idx as int] == self.data(store, h));
                v[idx].as_ref()
            },
            Lookup::Expired => {
                self.counters.expired_cleaned = self.counters.expired_cleaned.wrapping_add(1);
                self.counters.cache_misses = self.counters.cache_misses.wrapping_add(1);
                proof {
                    lemma_count_request(before, self.counters);
                }
                None
            },
            Lookup::Miss => {
                self.counters.cache_misses = self.counters.cache_misses.wrapping_add(1);
                proof {
                    lemma_count_request(before, self.counters);
                }
                None
            },
        }
    }
}

/// Eviction keeps only handles that were there.
proof fn lemma_evict_within(e: Seq<(u64, CacheSlot)>, n: nat, f: nat)
    ensures
        handles_within(evict_until(e, n, f).0, e),
        keys_distinct(e) ==> keys_distinct(evict_until(e, n, f).0),
        evict_until(e, n, f).2 <= e.len(),
    decreases e.len(),
{
    if f >= n || e.len() == 0 {
        assert forall|i: int| 0 <= i < e.len() implies holds(e, #[trigger] e[i].0) by {
            assert(key_at(e, e[i].0, i));
        }
    } else {
        let d = e.drop_last();
        lemma_evict_within(d, n, f + e.last().1.estimated_size_bytes as nat);
        let r = evict_until(e, n, f).0;
        assert forall|i: int| 0 <= i < r.len() implies holds(e, #[trigger] r[i].0) by {
            let j = choose|j: int| key_at(d, r[i].0, j);
            assert(key_at(e, r[i].0, j));
        }
        if keys_distinct(e) {
            assert forall|a: int, b: int| 0 <= a < b < d.len() implies d[a].0 != d[b].0 by {
                assert(d[a] == e[a] && d[b] == e[b]);
            }
        }
    }
}

/// Putting an entry keeps the handles that were there, plus its own.
proof fn lemma_put_within(e: Seq<(u64, CacheSlot)>, cap: nat, h: u64, slot: CacheSlot)
    requires
        cap > 0,
    ensures
        forall|i: int| 0 <= i < put_into(e, cap, h, slot).len() ==> #[trigger] put_into(e, cap, h, slot)[i].0 == h
            || holds(e, put_into(e, cap, h, slot)[i].0),
{
    let r = put_into(e, cap, h, slot);
    if holds(e, h) {
        let p = position_of(e, h);
        assert(key_at(e, h, p));
        lemma_front_within(e, p, (h, slot));
    } else {
        let rest = if e.len() == cap { e.drop_last() } else { e };
        assert forall|i: int| 0 <= i < r.len() implies #[trigger] r[i].0 == h || holds(e, r[i].0) by {
            if i > 0 {
                assert(r[i] == rest[i - 1]);
                assert(rest[i - 1] == e[i - 1]);
                assert(key_at(e, r[i].0, i - 1));
            }
        }
    }
}

/// Sums kept modulo `m` add up modulo `m` with wrap-around.
proof fn lemma_wrapping_add_mods(a: int, b: int, x: int, y: int, m: int)
    requires
        m > 0,
        0 <= a < m,
        0 <= b < m,
        x >= 0,
        y >= 0,
        a == x % m,
        b == y % m,
    ensures
        (if a + b >= m { a + b - m } else { a + b }) == (x + y) % m,
{
    lemma_wrapping_sum(a, x, b, m);
    vstd::arithmetic::div_mod::lemma_add_mod_noop_right(x, y, m);
}

/// The unexpired entries are among the entries.
proof fn lemma_unexpired_within(e: Seq<(u64, CacheSlot)>, now: i64)
    ensures
        handles_within(unexpired(e, now), e),
    decreases e.len(),
{
    if e.len() > 0 {
        let d = e.drop_last();
        lemma_unexpired_within(d, now);
        let u = unexpired(e, now);
        assert forall|i: int| 0 <= i < u.len() implies holds(e, #[trigger] u[i].0) by {
            let ud = unexpired(d, now);
            if i < ud.len() {
                assert(u[i] == ud[i]);
                let j = choose|j: int| key_at(d, ud[i].0, j);
                assert(key_at(e, u[i].0, j));
            } else {
                assert(key_at(e, u[i].0, e.len() - 1));
            }
        }
    }
}

/// Whether adding `add` bytes to `current` goes over a budget of
/// `max_mb` megabytes.
pub open spec fn over_budget(current: usize, add: usize, max_mb: usize) -> bool {
    current + add > max_mb * 1024 * 1024
}

/// Every request is counted as exactly one hit or one miss. Every cache
/// that `new` makes is well formed and every operation keeps it so, so
/// after any sequence of calls the request count equals hits plus misses
/// (all three wrapping at 2^64).
pub proof fn law_requests_add_up<P>(c: &DashboardCache<P>)
    requires
        c.wf(),
    ensures
        c.spec_counters().total_requests as int == (c.spec_counters().cache_hits + c.spec_counters().cache_misses)
            % 0x1_0000_0000_0000_0000,
{
    reveal(requests_add_up);
}

/// What was just set is found again: an entry put into a store is a hit
/// until it expires, and once it has expired the lookup removes it.
pub proof fn law_set_then_get(e: Seq<(u64, CacheSlot)>, cap: nat, h: u64, slot: CacheSlot, t: i64)
    requires
        keys_distinct(e),
        cap > 0,
    ensures
        t <= slot.expires_at ==> lookup_outcome(put_into(e, cap, h, slot), h, t) == Lookup::Hit,
        t > slot.expires_at ==> lookup_outcome(put_into(e, cap, h, slot), h, t) == Lookup::Expired
            && !holds(looked_up(put_into(e, cap, h, slot), h, t), h),
{
    let r = put_into(e, cap, h, slot);
    let rest = r.drop_first();
    if holds(e, h) {
        let p = position_of(e, h);
        assert(key_at(e, h, p));
        lemma_remove_distinct(e, p);
        assert(rest =~= e.remove(p));
    } else {
        let d = if e.len() == cap { e.drop_last() } else { e };
        assert(rest =~= d);
        assert forall|a: int, b: int| 0 <= a < b < d.len() implies d[a].0 != d[b].0 by {
            assert(d[a] == e[a] && d[b] == e[b]);
        }
        assert forall|j: int| 0 <= j < d.len() implies d[j].0 != h by {
            assert(d[j] == e[j]);
            assert(!key_at(e, h, j));
        }
    }
    assert(r =~= seq![(h, slot)] + rest);
    lemma_front_distinct(rest, (h, slot));
    assert(key_at(r, h, 0));
    lemma_position_unique(r, h, 0);
    if t > slot.expires_at {
        lemma_remove_distinct(r, 0);
        let after = r.remove(0);
        if holds(after, h) {
            let j = choose|j: int| key_at(after, h, j);
            assert(after[j].0 != r[0].0);
        }
    }
}

/// A clean-up leaves no expired entry and keeps every live one, in order.
pub proof fn law_cleanup_leaves_live_entries(e: Seq<(u64, CacheSlot)>, now: i64)
    ensures
        forall|i: int| 0 <= i < unexpired(e, now).len() ==> !expired(#[trigger] unexpired(e, now)[i].1, now),
        expired_count(e, now) + unexpired(e, now).len() == e.len(),
    decreases e.len(),
{
    if e.len() > 0 {
        law_cleanup_leaves_live_entries(e.drop_last(), now);
        let u = unexpired(e.drop_last(), now);
        if !expired(e.last().1, now) {
            assert forall|i: int| 0 <= i < u.len() + 1 implies !expired(#[trigger] u.push(e.last())[i].1, now) by {
                if i < u.len() {
                    assert(u.push(e.last())[i] == u[i]);
                }
            }
        }
    }
}

/// After invalidation, no entry that depends on the source is left in the
/// store of its type.
pub proof fn law_invalidation_removes_dependents(
    e: Seq<(u64, CacheSlot)>,
    hs: Seq<u64>,
    keys: Seq<CacheKey>,
    s: Store,
)
    requires
        keys_distinct(e),
        forall|k: int| 0 <= k < hs.len() ==> #[trigger] hs[k] < keys.len(),
    ensures
        keys_distinct(without_handles(e, hs, keys, s)),
        forall|k: int| 0 <= k < hs.len() && store_of(keys[hs[k] as int].data_type) == Some(s) ==> !holds(
            without_handles(e, hs, keys, s),
            #[trigger] hs[k],
        ),
    decreases hs.len(),
{
    if hs.len() > 0 {
        let d = hs.drop_last();
        law_invalidation_removes_dependents(e, d, keys, s);
        let before = without_handles(e, d, keys, s);
        let h = hs.last();
        let after = without_handles(e, hs, keys, s);
        if store_of(keys[h as int].data_type) == Some(s) && holds(before, h) {
            let p = position_of(before, h);
            assert(key_at(before, h, p));
            lemma_remove_distinct(before, p);
            lemma_remove_within(before, p);
        }
        assert forall|k: int| 0 <= k < hs.len() && store_of(keys[hs[k] as int].data_type) == Some(s) implies !holds(
            after,
            #[trigger] hs[k],
        ) by {
            if k < d.len() {
                assert(hs[k] == d[k]);
                assert(!holds(before, d[k]));
                if holds(after, hs[k]) {
                    let j = choose|j: int| key_at(after, hs[k], j);
                    if after != before {
                        let p = position_of(before, h);
                        let j0 = if j < p { j } else { j + 1 };
                        assert(after[j] == before[j0]);
                        assert(key_at(before, hs[k], j0));
                    }
                }
            } else {
                if holds(after, h) && holds(before, h) {
                    let p = position_of(before, h);
                    assert(key_at(before, h, p));
                    let j = choose|j: int| key_at(after, h, j);
                    assert(after[j].0 != before[p].0);
                }
            }
        }
    }
}

/// A handle found in a prefix is the handle in the whole list.
proof fn lemma_handle_prefix(keys: Seq<CacheKey>, key: CacheKey, n: int)
    requires
        0 <= n <= keys.len(),
        handle_of(keys.take(n), key) is Some,
    ensures
        handle_of(keys, key) == handle_of(keys.take(n), key),
    decreases keys.len() - n,
{
    if n < keys.len() {
        assert(keys.take(n + 1).drop_last() =~= keys.take(n));
        lemma_handle_prefix(keys, key, n + 1);
    } else {
        assert(keys.take(n) =~= keys);
    }
}

// ---------------------------------------------------------------- access ranking

/// The name of a data type, as `Debug` writes it.
pub open spec fn data_type_name(t: CacheDataType) -> Seq<char> {
    match t {
        CacheDataType::DashboardData => "DashboardData"@,
        CacheDataType::LiveDashboardData => "LiveDashboardData"@,
        CacheDataType::AnalyticsSummary => "AnalyticsSummary"@,
        CacheDataType::TimeSeriesData => "TimeSeriesData"@,
        CacheDataType::PerformanceMetrics => "PerformanceMetrics"@,
        CacheDataType::SessionReport => "SessionReport"@,
    }
}

impl CacheDataType {
    /// The name of the data type.
    pub fn name(&self) -> (n: &'static str)
        ensures
            n@ == data_type_name(*self),
    {
        match self {
            CacheDataType::DashboardData => "DashboardData",
            CacheDataType::LiveDashboardData => "LiveDashboardData",
            CacheDataType::AnalyticsSummary => "AnalyticsSummary",
            CacheDataType::TimeSeriesData => "TimeSeriesData",
            CacheDataType::PerformanceMetrics => "PerformanceMetrics",
            CacheDataType::SessionReport => "SessionReport",
        }
    }
}

/// The label of a key in the access ranking: `<type>:<identifier>`.
pub open spec fn key_label(k: CacheKey) -> Seq<char> {
    data_type_name(k.data_type) + ":"@ + k.identifier@
}

/// The label and access count of each entry, in the order of `entries`.
pub open spec fn access_counts(entries: Seq<(u64, CacheSlot)>, keys: Seq<CacheKey>) -> Seq<(Seq<char>, u64)> {
    entries.map_values(|e: (u64, CacheSlot)| (key_label(keys[e.0 as int]), e.1.access_count))
}

/// The first position from `j` on whose count is below `c`.
pub open spec fn first_below(s: Seq<(Seq<char>, u64)>, c: u64, j: int) -> int
    decreases s.len() - j,
{
    if j < 0 || j >= s.len() {
        s.len() as int
    } else if s[j].1 < c {
        j
    } else {
        first_below(s, c, j + 1)
    }
}

/// `s` sorted by decreasing count; items of equal count keep their order.
pub open spec fn by_count_desc(s: Seq<(Seq<char>, u64)>) -> Seq<(Seq<char>, u64)>
    decreases s.len(),
{
    if s.len() == 0 {
        Seq::empty()
    } else {
        let sorted = by_count_desc(s.drop_last());
        sorted.insert(first_below(sorted, s.last().1, 0), s.last())
    }
}

/// How many keys the access ranking shows.
pub const MOST_ACCESSED_SHOWN: usize = 10;

/// The views of a list of labelled counts.
pub open spec fn label_views(v: Seq<(String, u64)>) -> Seq<(Seq<char>, u64)> {
    v.map_values(|x: (String, u64)| (x.0@, x.1))
}

/// The position at which an item of count `c` goes into `sorted`.
fn insertion_index(sorted: &Vec<(String, u64)>, c: u64) -> (j: usize)
    ensures
        j == first_below(label_views(sorted@), c, 0),
        j <= sorted.len(),
{
    let ghost v = label_views(sorted@);
    let mut j: usize = 0;
    while j < sorted.len() && sorted[j].1 >= c
        invariant
            v == label_views(sorted@),
            j <= sorted.len(),
            first_below(v, c, 0) == first_below(v, c, j as int),
        decreases sorted.len() - j,
    {
        j += 1;
    }
    j
}

impl<P> DashboardCache<P> {
    /// The keys of dashboard data accessed most, with their access counts:
    /// by decreasing count, most recently used first among equal counts,
    /// ten at most.
    pub fn most_accessed_keys(&self) -> (r: Vec<(String, u64)>)
        requires
            self.wf(),
        ensures
            label_views(r@) == by_count_desc(access_counts(self.entries(Store::Dashboard), self.spec_keys())).take(
                if by_count_desc(access_counts(self.entries(Store::Dashboard), self.spec_keys())).len() < 10 {
                    by_count_desc(access_counts(self.entries(Store::Dashboard), self.spec_keys())).len() as int
                } else {
                    10
                },
            ),
    {
        proof {
            assert(self.store_wf(Store::Dashboard));
        }
        let entries = lru_list(&self.dashboard);
        let ghost counts = access_counts(self.entries(Store::Dashboard), self.spec_keys());
        let mut sorted: Vec<(String, u64)> = Vec::new();
        let mut i: usize = 0;
        while i < entries.len()
            invariant
                entries@ == self.entries(Store::Dashboard),
                counts == access_counts(self.entries(Store::Dashboard), self.spec_keys()),
                self.store_wf(Store::Dashboard),
                i <= entries.len(),
                label_views(sorted@) == by_count_desc(counts.take(i as int)),
            decreases entries.len() - i,
        {
            let (h, slot) = entries[i];
            proof {
                assert(entries@[i as int] == self.entries(Store::Dashboard)[i as int]);
                assert(h < self.keys@.len());
                assert(h < self.keys.len());
            }
            let key = &self.keys[h as usize];
            let mut label = concat_strs(key.data_type.name(), ":");
            label.append(key.identifier.as_str());
            let ghost before = label_views(sorted@);
            let j = insertion_index(&sorted, slot.access_count);
            sorted.insert(j, (label, slot.access_count));
            proof {
                assert(counts.take(i + 1).drop_last() =~= counts.take(i as int));
                assert(counts[i as int] == (key_label(self.keys@[h as int]), slot.access_count));
                assert(label_views(sorted@) =~= before.insert(j as int, counts[i as int]));
            }
            i += 1;
        }
        proof {
            assert(counts.take(entries.len() as int) =~= counts);
        }
        let ghost full = label_views(sorted@);
        if sorted.len() > MOST_ACCESSED_SHOWN {
            sorted.truncate(MOST_ACCESSED_SHOWN);
            assert(label_views(sorted@) =~= full.take(10));
        } else {
            assert(label_views(sorted@) =~= full.take(full.len() as int));
        }
        sorted
    }
}

/// The statistics of a cache in whole numbers: requests, hits and misses,
/// the entries held, the memory count and its budget, evictions, expired
/// entries cleaned, and the most accessed dashboard keys.
#[derive(Debug)]
pub struct CacheStatCounts {
    pub total_requests: u64,
    pub cache_hits: u64,
    pub cache_misses: u64,
    pub total_items: usize,
    pub memory_bytes: usize,
    pub max_memory_mb: usize,
    pub evictions: u64,
    pub expired_items_cleaned: u64,
    pub most_accessed_keys: Vec<(String, u64)>,
}

impl<P> DashboardCache<P> {
    /// The cache's statistics. Every request counted is one hit or one miss,
    /// so requests equal hits plus misses (wrapping at 2^64, as the counters
    /// do); the item count is the entries of the four stores. The total of
    /// entries must fit a `usize`.
    pub fn get_stats(&self) -> (r: CacheStatCounts)
        requires
            self.wf(),
            self.entries(Store::Dashboard).len() + self.entries(Store::Live).len() + self.entries(Store::Summary).len()
                + self.entries(Store::TimeSeries).len() <= usize::MAX,
        ensures
            r.total_requests == self.spec_counters().total_requests,
            r.cache_hits == self.spec_counters().cache_hits,
            r.cache_misses == self.spec_counters().cache_misses,
            r.total_requests as int == (r.cache_hits + r.cache_misses) % 0x1_0000_0000_0000_0000,
            r.total_items == self.entries(Store::Dashboard).len() + self.entries(Store::Live).len() + self.entries(
                Store::Summary,
            ).len() + self.entries(Store::TimeSeries).len(),
            r.memory_bytes == self.spec_counters().current_memory_bytes,
            r.max_memory_mb == self.spec_config().max_memory_mb,
            r.evictions == self.spec_counters().evictions,
            r.expired_items_cleaned == self.spec_counters().expired_cleaned,
            label_views(r.most_accessed_keys@) == by_count_desc(access_counts(self.entries(Store::Dashboard), self.spec_keys())).take(
                if by_count_desc(access_counts(self.entries(Store::Dashboard), self.spec_keys())).len() < 10 {
                    by_count_desc(access_counts(self.entries(Store::Dashboard), self.spec_keys())).len() as int
                } else {
                    10
                },
            ),
    {
        proof {
            law_requests_add_up(self);
        }
        let c = self.counters();
        CacheStatCounts {
            total_requests: c.total_requests,
            cache_hits: c.cache_hits,
            cache_misses: c.cache_misses,
            total_items: self.total_items(),
            memory_bytes: c.current_memory_bytes,
            max_memory_mb: self.config.max_memory_mb,
            evictions: c.evictions,
            expired_items_cleaned: c.expired_cleaned,
            most_accessed_keys: self.most_accessed_keys(),
        }
    }
}

} // verus!
