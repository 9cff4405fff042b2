//! The cache of generated series. Each key holds a series and the instant
//! (nanoseconds since the Unix epoch) it was made. A series is served while
//! its age in whole seconds is under the time to live; once the cache would
//! hold more than its threshold of series, every series not made after
//! twice the time to live ago is dropped.

use vstd::prelude::*;
use crate::string_map::str_eq;
use crate::time::now_nanos;
use crate::timeseries::trunc_div;

verus! {

/// How many series the cache holds before it cleans up.
pub const CACHE_CLEANUP_THRESHOLD: usize = 100;

/// The longest span, in seconds, that the clean-up reaches back from now.
/// `chrono` panics on a span it cannot hold (more than `i64::MAX / 1000`
/// seconds) or on a cutoff outside its range of dates (about 262 000 years
/// from year 0); spans up to this bound are clear of both.
pub const MAX_CLEANUP_SPAN_SECONDS: i64 = 8_000_000_000_000_000;

/// The time to live as the signed number it is compared with (`ttl as i64`).
pub open spec fn ttl_signed(ttl: u64) -> int {
    if ttl <= i64::MAX {
        ttl as int
    } else {
        ttl - 0x1_0000_0000_0000_0000
    }
}

/// The age in whole seconds, rounded towards zero, of something made at
/// `made_at` when it is `now` (both in nanoseconds).
pub open spec fn age_seconds(made_at: int, now: int) -> int {
    trunc_div(now - made_at, 1_000_000_000)
}

/// Whether a series made at `made_at` is still served at `now`.
pub open spec fn is_fresh_at(made_at: int, now: int, ttl: u64) -> bool {
    age_seconds(made_at, now) < ttl_signed(ttl)
}

/// The instant (nanoseconds) that a series must be made after to survive
/// the clean-up at `now`: twice the time to live before `now`.
pub open spec fn cleanup_cutoff(now: int, ttl: u64) -> int {
    now - 2 * ttl_signed(ttl) * 1_000_000_000
}

/// Whether the clean-up span for this time to live is one `chrono` holds.
pub open spec fn span_in_range(ttl: u64) -> bool {
    -MAX_CLEANUP_SPAN_SECONDS <= 2 * ttl_signed(ttl) <= MAX_CLEANUP_SPAN_SECONDS
}

/// The time to live as a signed number.
fn signed_ttl(ttl: u64) -> (t: i128)
    ensures
        t == ttl_signed(ttl),
{
    if ttl <= 0x7FFF_FFFF_FFFF_FFFFu64 {
        ttl as i128
    } else {
        ttl as i128 - 0x1_0000_0000_0000_0000i128
    }
}

/// Whether a series made at `made_at` is still served at `now` (both in
/// nanoseconds since the epoch).
pub fn is_fresh(made_at: i64, now: i64, ttl_seconds: u64) -> (b: bool)
    ensures
        b == is_fresh_at(made_at as int, now as int, ttl_seconds),
{
    let age: i128 = (now as i128 - made_at as i128) / 1_000_000_000i128;
    age < signed_ttl(ttl_seconds)
}

/// The instant a series must be made after to survive the clean-up at `now`.
fn cutoff_at(now: i64, ttl_seconds: u64) -> (c: i128)
    requires
        span_in_range(ttl_seconds),
    ensures
        c == cleanup_cutoff(now as int, ttl_seconds),
{
    let t = signed_ttl(ttl_seconds);
    now as i128 - 2 * t * 1_000_000_000i128
}

/// Whether a series made at `made_at` survives the clean-up at `now`.
pub fn survives_cleanup(made_at: i64, now: i64, ttl_seconds: u64) -> (b: bool)
    requires
        span_in_range(ttl_seconds),
    ensures
        b == (made_at > cleanup_cutoff(now as int, ttl_seconds)),
{
    (made_at as i128) > cutoff_at(now, ttl_seconds)
}

/// A cached series: its key, the instant it was made, and the series.
pub type SeriesEntry<D> = (String, i64, D);

/// Whether no two entries share a key.
pub open spec fn keys_distinct<D>(e: Seq<SeriesEntry<D>>) -> bool {
    forall|i: int, j: int| 0 <= i < j < e.len() ==> (#[trigger] e[i]).0@ != (#[trigger] e[j]).0@
}

/// Whether some entry has the key `k`.
pub open spec fn holds_key<D>(e: Seq<SeriesEntry<D>>, k: Seq<char>) -> bool {
    exists|i: int| 0 <= i < e.len() && (#[trigger] e[i]).0@ == k
}

/// The position of the entry of key `k`, when there is one.
pub open spec fn position_of<D>(e: Seq<SeriesEntry<D>>, k: Seq<char>) -> int {
    choose|i: int| 0 <= i < e.len() && (#[trigger] e[i]).0@ == k
}

/// Holds of the entries whose key is not `k`.
pub open spec fn key_other_than<D>(k: Seq<char>) -> spec_fn(SeriesEntry<D>) -> bool {
    |x: SeriesEntry<D>| x.0@ != k
}

/// Holds of the entries made after `cutoff`.
pub open spec fn made_after<D>(cutoff: int) -> spec_fn(SeriesEntry<D>) -> bool {
    |x: SeriesEntry<D>| x.1 > cutoff
}

/// The entries once `entry` is stored: the others under its key go, and it
/// comes last.
pub open spec fn stored<D>(e: Seq<SeriesEntry<D>>, entry: SeriesEntry<D>) -> Seq<SeriesEntry<D>> {
    e.filter(key_other_than::<D>(entry.0@)).push(entry)
}

/// Whether storing under `k` takes the cache past its threshold.
pub open spec fn needs_cleanup<D>(e: Seq<SeriesEntry<D>>, k: Seq<char>) -> bool {
    e.filter(key_other_than::<D>(k)).len() + 1 > CACHE_CLEANUP_THRESHOLD
}

/// The entries after storing `entry` (made at `entry.1`, which is also the
/// instant of the clean-up): past the threshold, only the series made after
/// the cutoff stay.
pub open spec fn after_store<D>(e: Seq<SeriesEntry<D>>, entry: SeriesEntry<D>, ttl: u64) -> Seq<SeriesEntry<D>> {
    let s = stored(e, entry);
    if needs_cleanup(e, entry.0@) {
        s.filter(made_after::<D>(cleanup_cutoff(entry.1 as int, ttl)))
    } else {
        s
    }
}

/// Keeping only some entries keeps the keys distinct.
proof fn lemma_filter_keeps_distinct<D>(e: Seq<SeriesEntry<D>>, p: spec_fn(SeriesEntry<D>) -> bool)
    requires
        keys_distinct(e),
    ensures
        keys_distinct(e.filter(p)),
    decreases e.len(),
{
    if e.len() > 0 {
        let s = e.drop_last();
        let x = e.last();
        assert(e =~= s.push(x));
        assert(keys_distinct(s));
        lemma_filter_keeps_distinct(s, p);
        s.lemma_filter_push(x, p);
        if p(x) {
            let f = s.filter(p).push(x);
            assert forall|i: int, j: int| 0 <= i < j < f.len() implies (#[trigger] f[i]).0@ != (#[trigger] f[j]).0@ by {
                if j == f.len() - 1 {
                    let y = f[i];
                    assert(s.filter(p)[i] == y);
                    assert(s.filter(p).contains(y));
                    s.lemma_filter_contains_rev(p, y);
                    let m = choose|m: int| 0 <= m < s.len() && s[m] == y;
                    assert(e[m] == y && e[e.len() - 1] == x);
                }
            }
        }
    }
}

/// Storing an entry keeps the keys distinct.
proof fn lemma_stored_distinct<D>(e: Seq<SeriesEntry<D>>, entry: SeriesEntry<D>)
    requires
        keys_distinct(e),
    ensures
        keys_distinct(stored(e, entry)),
{
    let p = key_other_than::<D>(entry.0@);
    lemma_filter_keeps_distinct(e, p);
    let f = e.filter(p);
    let s = f.push(entry);
    assert forall|i: int, j: int| 0 <= i < j < s.len() implies (#[trigger] s[i]).0@ != (#[trigger] s[j]).0@ by {
        if j == s.len() - 1 {
            assert(s[i] == f[i]);
            e.lemma_filter_pred(p, i);
        }
    }
}

/// With distinct keys, the entry of key `k` is the one at `i`.
proof fn lemma_position<D>(e: Seq<SeriesEntry<D>>, k: Seq<char>, i: int)
    requires
        keys_distinct(e),
        0 <= i < e.len(),
        e[i].0@ == k,
    ensures
        holds_key(e, k),
        position_of(e, k) == i,
{
    let j = position_of(e, k);
    if j != i {
        if j < i {
            assert(e[j].0@ != e[i].0@);
        } else {
            assert(e[i].0@ != e[j].0@);
        }
    }
}

/// The position of the entry of key `key`, when there is one.
fn find_series<D>(items: &Vec<SeriesEntry<D>>, key: &str) -> (r: Option<usize>)
    ensures
        r matches Some(i) ==> i < items.len() && items@[i as int].0@ == key@,
        r is None ==> !holds_key(items@, key@),
{
    let mut i: usize = 0;
    while i < items.len()
        invariant
            i <= items.len(),
            forall|j: int| 0 <= j < i ==> (#[trigger] items@[j]).0@ != key@,
        decreases items.len() - i,
    {
        if str_eq(items[i].0.as_str(), key) {
            return Some(i);
        }
        i += 1;
    }
    None
}

/// The entries whose key is not `key`, in their order.
fn without_series<D>(items: Vec<SeriesEntry<D>>, key: &str) -> (r: Vec<SeriesEntry<D>>)
    ensures
        r@ == items@.filter(key_other_than::<D>(key@)),
{
    let ghost orig = items@;
    let ghost p = key_other_than::<D>(key@);
    let mut src = items;
    let mut out: Vec<SeriesEntry<D>> = Vec::new();
    let ghost mut n: int = 0;
    assert(orig.take(0) =~= Seq::<SeriesEntry<D>>::empty());
    while src.len() > 0
        invariant
            0 <= n <= orig.len(),
            src@ == orig.skip(n),
            out@ == orig.take(n).filter(p),
            p == key_other_than::<D>(key@),
        decreases src.len(),
    {
        let x = src.remove(0);
        proof {
            assert(x == orig[n]);
            assert(orig.take(n + 1) =~= orig.take(n).push(x));
            orig.take(n).lemma_filter_push(x, p);
            assert(src@ =~= orig.skip(n + 1));
            n = n + 1;
        }
        if !str_eq(x.0.as_str(), key) {
            out.push(x);
        }
    }
    assert(orig.take(n) =~= orig);
    out
}

/// The entries made after `cutoff`, in their order.
fn made_since<D>(items: Vec<SeriesEntry<D>>, cutoff: i128) -> (r: Vec<SeriesEntry<D>>)
    ensures
        r@ == items@.filter(made_after::<D>(cutoff as int)),
{
    let ghost orig = items@;
    let ghost p = made_after::<D>(cutoff as int);
    let mut src = items;
    let mut out: Vec<SeriesEntry<D>> = Vec::new();
    let ghost mut n: int = 0;
    assert(orig.take(0) =~= Seq::<SeriesEntry<D>>::empty());
    while src.len() > 0
        invariant
            0 <= n <= orig.len(),
            src@ == orig.skip(n),
            out@ == orig.take(n).filter(p),
            p == made_after::<D>(cutoff as int),
        decreases src.len(),
    {
        let x = src.remove(0);
        proof {
            assert(x == orig[n]);
            assert(orig.take(n + 1) =~= orig.take(n).push(x));
            orig.take(n).lemma_filter_push(x, p);
            assert(src@ =~= orig.skip(n + 1));
            n = n + 1;
        }
        if (x.1 as i128) > cutoff {
            out.push(x);
        }
    }
    assert(orig.take(n) =~= orig);
    out
}

/// Generated series by key, with the time to live they are served for.
pub struct SeriesCache<D> {
    ttl_seconds: u64,
    items: Vec<SeriesEntry<D>>,
}

impl<D> SeriesCache<D> {
    #[verifier::type_invariant]
    closed spec fn wf(self) -> bool {
        keys_distinct(self.items@)
    }

    /// The cached series, each key at most once.
    pub closed spec fn entries(&self) -> Seq<SeriesEntry<D>> {
        self.items@
    }

    /// The time to live, in seconds.
    pub closed spec fn ttl(&self) -> u64 {
        self.ttl_seconds
    }

    /// An empty cache serving series for `ttl_seconds` seconds.
    pub fn new(ttl_seconds: u64) -> (c: Self)
        ensures
            c.entries() == Seq::<SeriesEntry<D>>::empty(),
            c.ttl() == ttl_seconds,
            keys_distinct(c.entries()),
    {
        SeriesCache { ttl_seconds, items: Vec::new() }
    }

    /// The time to live, in seconds.
    pub fn ttl_seconds(&self) -> (t: u64)
        ensures
            t == self.ttl(),
    {
        self.ttl_seconds
    }

    /// How many series are cached.
    pub fn len(&self) -> (n: usize)
        ensures
            n == self.entries().len(),
    {
        self.items.len()
    }

    /// Stores `series` under `key`, made at `now`; past the threshold, the
    /// series made too long before `now` are dropped.
    pub fn store_at(&mut self, key: String, series: D, now: i64)
        requires
            needs_cleanup(old(self).entries(), key@) ==> span_in_range(old(self).ttl()),
        ensures
            final(self).ttl() == old(self).ttl(),
            keys_distinct(final(self).entries()),
            final(self).entries() == after_store(old(self).entries(), (key, now, series), old(self).ttl()),
    {
        proof {
            use_type_invariant(&*self);
        }
        let ghost e = self.items@;
        let mut items: Vec<SeriesEntry<D>> = Vec::new();
        std::mem::swap(&mut items, &mut self.items);
        let mut kept = without_series(items, key.as_str());
        let ghost k = key@;
        proof {
            lemma_stored_distinct(e, (key, now, series));
        }
        kept.push((key, now, series));
        if kept.len() > CACHE_CLEANUP_THRESHOLD {
            let cutoff = cutoff_at(now, self.ttl_seconds);
            let ghost s = kept@;
            kept = made_since(kept, cutoff);
            proof {
                lemma_filter_keeps_distinct(s, made_after::<D>(cutoff as int));
            }
        }
        self.items = kept;
    }

    /// Stores `series` under `key`, made now (`chrono::Utc::now`).
    pub fn store(&mut self, key: String, series: D)
        requires
            needs_cleanup(old(self).entries(), key@) ==> span_in_range(old(self).ttl()),
        ensures
            final(self).ttl() == old(self).ttl(),
            keys_distinct(final(self).entries()),
            exists|t: i64| final(self).entries() == after_store(old(self).entries(), (key, t, series), old(self).ttl()),
    {
        let now = now_nanos();
        self.store_at(key, series, now);
    }
}

impl<D: Clone> SeriesCache<D> {
    /// A copy of the series under `key` when it is still fresh at `now`.
    pub fn get_at(&self, key: &str, now: i64) -> (r: Option<D>)
        ensures
            r is Some <==> (holds_key(self.entries(), key@) && is_fresh_at(
                self.entries()[position_of(self.entries(), key@)].1 as int,
                now as int,
                self.ttl(),
            )),
            r matches Some(v) ==> cloned(self.entries()[position_of(self.entries(), key@)].2, v),
    {
        proof {
            use_type_invariant(self);
        }
        match find_series(&self.items, key) {
            Some(i) => {
                proof {
                    lemma_position(self.items@, key@, i as int);
                }
                if is_fresh(self.items[i].1, now, self.ttl_seconds) {
                    Some(self.items[i].2.clone())
                } else {
                    None
                }
            },
            None => None,
        }
    }

    /// A copy of the series under `key` when it is still fresh now
    /// (`chrono::Utc::now`).
    pub fn get(&self, key: &str) -> (r: Option<D>)
        ensures
            r is Some ==> holds_key(self.entries(), key@),
            exists|t: i64|
                #![trigger is_fresh_at(self.entries()[position_of(self.entries(), key@)].1 as int, t as int, self.ttl())]
                (r is Some <==> (holds_key(self.entries(), key@) && is_fresh_at(
                    self.entries()[position_of(self.entries(), key@)].1 as int,
                    t as int,
                    self.ttl(),
                ))),
            r matches Some(v) ==> cloned(self.entries()[position_of(self.entries(), key@)].2, v),
    {
        let now = now_nanos();
        let r = self.get_at(key, now);
        proof {
            // The clock reading witnesses the freshness stated above.
            let fresh_now = is_fresh_at(self.entries()[position_of(self.entries(), key@)].1 as int, now as int, self.ttl());
        }
        r
    }
}

/// A series stored at `now` is served by a lookup at that same instant,
/// whatever the cache held before, as long as the time to live is positive
/// (and no more than `i64::MAX`, the largest it can be as a signed number).
pub proof fn law_stored_series_is_served<D>(e: Seq<SeriesEntry<D>>, key: String, now: i64, series: D, ttl: u64)
    requires
        keys_distinct(e),
        0 < ttl <= i64::MAX,
    ensures
        ({
            let f = after_store(e, (key, now, series), ttl);
            &&& holds_key(f, key@)
            &&& f[position_of(f, key@)] == (key, now, series)
            &&& is_fresh_at(f[position_of(f, key@)].1 as int, now as int, ttl)
        }),
{
    let entry = (key, now, series);
    let s = stored(e, entry);
    lemma_stored_distinct(e, entry);
    let f = after_store(e, entry, ttl);
    assert(s[s.len() - 1] == entry);
    if needs_cleanup(e, key@) {
        let p = made_after::<D>(cleanup_cutoff(now as int, ttl));
        assert(p(entry));
        s.lemma_filter_contains(p, s.len() - 1);
        lemma_filter_keeps_distinct(s, p);
        let m = choose|m: int| 0 <= m < f.len() && f[m] == entry;
        lemma_position(f, key@, m);
    } else {
        lemma_position(f, key@, s.len() - 1);
    }
    assert(trunc_div(0, 1_000_000_000) == 0);
}

/// The entries after storing each of `stores` in turn, each at its own
/// instant.
pub open spec fn after_stores<D>(e: Seq<SeriesEntry<D>>, stores: Seq<SeriesEntry<D>>, ttl: u64) -> Seq<SeriesEntry<D>>
    decreases stores.len(),
{
    if stores.len() == 0 {
        e
    } else {
        after_store(after_stores(e, stores.drop_last(), ttl), stores.last(), ttl)
    }
}

/// Storing under another key keeps an entry made after the clean-up's
/// cutoff, and the keys stay distinct.
proof fn lemma_store_keeps_entry<D>(g: Seq<SeriesEntry<D>>, entry: SeriesEntry<D>, x: SeriesEntry<D>, ttl: u64)
    requires
        keys_distinct(g),
        g.contains(entry),
        x.0@ != entry.0@,
        entry.1 > cleanup_cutoff(x.1 as int, ttl),
    ensures
        keys_distinct(after_store(g, x, ttl)),
        after_store(g, x, ttl).contains(entry),
{
    let p = key_other_than::<D>(x.0@);
    let i = choose|i: int| 0 <= i < g.len() && g[i] == entry;
    g.lemma_filter_contains(p, i);
    let f = g.filter(p);
    let st = stored(g, x);
    lemma_stored_distinct(g, x);
    let j = choose|j: int| 0 <= j < f.len() && f[j] == entry;
    assert(st[j] == entry);
    if needs_cleanup(g, x.0@) {
        let q = made_after::<D>(cleanup_cutoff(x.1 as int, ttl));
        st.lemma_filter_contains(q, j);
        lemma_filter_keeps_distinct(st, q);
    }
}

/// A series stays served through later stores under other keys: stored
/// under `key` at `t`, it is still held after any stores of other keys made
/// no later than `later`, and a lookup at `later` serves it while `later`
/// is less than the time to live after `t` (a positive time to live, no
/// more than `i64::MAX`).
pub proof fn law_series_served_within_ttl<D>(
    e: Seq<SeriesEntry<D>>,
    key: String,
    t: i64,
    series: D,
    stores: Seq<SeriesEntry<D>>,
    later: i64,
    ttl: u64,
)
    requires
        keys_distinct(e),
        0 < ttl <= i64::MAX,
        forall|i: int| 0 <= i < stores.len() ==> (#[trigger] stores[i]).0@ != key@,
        forall|i: int| 0 <= i < stores.len() ==> (#[trigger] stores[i]).1 <= later,
        t <= later,
        later - t < ttl * 1_000_000_000,
    ensures
        ({
            let f = after_stores(after_store(e, (key, t, series), ttl), stores, ttl);
            &&& holds_key(f, key@)
            &&& f[position_of(f, key@)] == (key, t, series)
            &&& is_fresh_at(f[position_of(f, key@)].1 as int, later as int, ttl)
        }),
{
    let entry = (key, t, series);
    let f = after_stores(after_store(e, entry, ttl), stores, ttl);
    lemma_served_through(e, entry, stores, later, ttl);
    let m = choose|m: int| 0 <= m < f.len() && f[m] == entry;
    lemma_position(f, key@, m);
    let a = later - t;
    assert(a / 1_000_000_000 < ttl) by (nonlinear_arith)
        requires
            0 <= a < ttl * 1_000_000_000,
    ;
}

/// The entry stored first is still there, with the keys distinct, after
/// the later stores.
proof fn lemma_served_through<D>(
    e: Seq<SeriesEntry<D>>,
    entry: SeriesEntry<D>,
    stores: Seq<SeriesEntry<D>>,
    later: i64,
    ttl: u64,
)
    requires
        keys_distinct(e),
        0 < ttl <= i64::MAX,
        forall|i: int| 0 <= i < stores.len() ==> (#[trigger] stores[i]).0@ != entry.0@,
        forall|i: int| 0 <= i < stores.len() ==> (#[trigger] stores[i]).1 <= later,
        entry.1 <= later,
        later - entry.1 < ttl * 1_000_000_000,
    ensures
        keys_distinct(after_stores(after_store(e, entry, ttl), stores, ttl)),
        after_stores(after_store(e, entry, ttl), stores, ttl).contains(entry),
    decreases stores.len(),
{
    if stores.len() == 0 {
        law_stored_series_is_served(e, entry.0, entry.1, entry.2, ttl);
        let f = after_store(e, entry, ttl);
        lemma_stored_distinct(e, entry);
        let s = stored(e, entry);
        if needs_cleanup(e, entry.0@) {
            lemma_filter_keeps_distinct(s, made_after::<D>(cleanup_cutoff(entry.1 as int, ttl)));
        }
        assert(f[position_of(f, entry.0@)] == entry);
    } else {
        let rest = stores.drop_last();
        let x = stores.last();
        assert forall|i: int| 0 <= i < rest.len() implies (#[trigger] rest[i]).0@ != entry.0@ by {
            assert(rest[i] == stores[i]);
        }
        assert forall|i: int| 0 <= i < rest.len() implies (#[trigger] rest[i]).1 <= later by {
            assert(rest[i] == stores[i]);
        }
        lemma_served_through(e, entry, rest, later, ttl);
        let g = after_stores(after_store(e, entry, ttl), rest, ttl);
        assert(x == stores[stores.len() - 1]);
        assert(entry.1 > cleanup_cutoff(x.1 as int, ttl));
        lemma_store_keeps_entry(g, entry, x, ttl);
    }
}

} // verus!
