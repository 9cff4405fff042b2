//! Data structures for processing analytics data at scale: a bounded cache,
//! batching, object recycling, a sliding window of values and an index of
//! records by day.

use vstd::prelude::*;
use crate::string_map::str_eq;
use crate::time::Duration;

verus! {

// ---------------------------------------------------------------- bounded cache

/// An entry of a bounded cache: key, value and the size the value was
/// estimated at when it was stored.
pub type CacheEntryView<V> = (Seq<char>, V, usize);

/// Whether no two entries share a key.
pub open spec fn keys_unique<V>(e: Seq<CacheEntryView<V>>) -> bool {
    forall|i: int, j: int| 0 <= i < j < e.len() ==> (#[trigger] e[i]).0 != (#[trigger] e[j]).0
}

/// Whether `k` is the key of some entry.
pub open spec fn has_key<V>(e: Seq<CacheEntryView<V>>, k: Seq<char>) -> bool {
    exists|i: int| 0 <= i < e.len() && (#[trigger] e[i]).0 == k
}

/// The position of the entry of key `k`, when there is one.
pub open spec fn key_index<V>(e: Seq<CacheEntryView<V>>, k: Seq<char>) -> int {
    choose|i: int| 0 <= i < e.len() && (#[trigger] e[i]).0 == k
}

/// `e` without the entry of key `k`.
pub open spec fn without_key<V>(e: Seq<CacheEntryView<V>>, k: Seq<char>) -> Seq<CacheEntryView<V>> {
    if has_key(e, k) {
        e.remove(key_index(e, k))
    } else {
        e
    }
}

/// The entries and the size count left once the oldest entries are evicted
/// to make room for a value of `size` bytes: eviction goes on while the
/// cache holds `max_entries` entries or more, or the count plus `size` is
/// over `max_bytes`, and stops when the cache is empty. The size count
/// wraps, as the cache's arithmetic does in a release build.
pub open spec fn evict_for<V>(
    e: Seq<CacheEntryView<V>>,
    current: usize,
    size: usize,
    max_entries: usize,
    max_bytes: nat,
) -> (Seq<CacheEntryView<V>>, usize)
    decreases e.len(),
{
    if e.len() > 0 && (e.len() >= max_entries || current + size > max_bytes) {
        evict_for(e.drop_first(), current.wrapping_sub(e[0].2), size, max_entries, max_bytes)
    } else {
        (e, current)
    }
}

/// The entries and size count after storing `value` of `size` bytes under
/// `k`: room is made first, then an entry of the same key gives way and the
/// new entry becomes the newest. The size of a replaced value stays
/// counted.
pub open spec fn put_entry_spec<V>(
    e: Seq<CacheEntryView<V>>,
    current: usize,
    k: Seq<char>,
    value: V,
    size: usize,
    max_entries: usize,
    max_bytes: nat,
) -> (Seq<CacheEntryView<V>>, usize) {
    let (room, c) = evict_for(e, current, size, max_entries, max_bytes);
    (without_key(room, k).push((k, value, size)), c.wrapping_add(size))
}

/// The view of stored entries: each key by its text.
pub open spec fn view_entries<V>(e: Seq<(String, V, usize)>) -> Seq<CacheEntryView<V>> {
    e.map_values(|t: (String, V, usize)| (t.0@, t.1, t.2))
}

/// The entry of `k` is where it is found, in entries whose keys are unique.
proof fn lemma_key_index<V>(e: Seq<CacheEntryView<V>>, k: Seq<char>, i: int)
    requires
        keys_unique(e),
        0 <= i < e.len(),
        e[i].0 == k,
    ensures
        has_key(e, k),
        key_index(e, k) == i,
{
    let j = key_index(e, k);
    if j != i {
        if j < i {
            assert(e[j].0 != e[i].0);
        } else {
            assert(e[i].0 != e[j].0);
        }
    }
}

/// The position of the entry of `key`, if any.
fn find_key<V>(entries: &Vec<(String, V, usize)>, key: &str) -> (r: Option<usize>)
    ensures
        r matches Some(i) ==> i < entries.len() && view_entries(entries@)[i as int].0 == key@,
        r is None ==> !has_key(view_entries(entries@), key@),
{
    let mut i: usize = 0;
    while i < entries.len()
        invariant
            i <= entries.len(),
            forall|j: int| 0 <= j < i ==> (#[trigger] view_entries(entries@)[j]).0 != key@,
        decreases entries.len() - i,
    {
        if str_eq(entries[i].0.as_str(), key) {
            return Some(i);
        }
        i += 1;
    }
    None
}

/// Eviction keeps a suffix of the entries: fewer than `max_entries`, or
/// none at all.
proof fn lemma_evict_suffix<V>(
    e: Seq<CacheEntryView<V>>,
    current: usize,
    size: usize,
    max_entries: usize,
    max_bytes: nat,
)
    ensures
        ({
            let r = evict_for(e, current, size, max_entries, max_bytes).0;
            &&& r.len() <= e.len()
            &&& r == e.subrange(e.len() - r.len(), e.len() as int)
            &&& r.len() == 0 || r.len() < max_entries
        }),
    decreases e.len(),
{
    if e.len() > 0 && (e.len() >= max_entries || current + size > max_bytes) {
        let rest = e.drop_first();
        lemma_evict_suffix(rest, current.wrapping_sub(e[0].2), size, max_entries, max_bytes);
        let r = evict_for(rest, current.wrapping_sub(e[0].2), size, max_entries, max_bytes).0;
        assert(r =~= e.subrange(e.len() - r.len(), e.len() as int));
    } else {
        assert(e =~= e.subrange(0, e.len() as int));
    }
}

/// Removing the entry of `k` from entries with unique keys leaves unique
/// keys and none equal to `k`.
proof fn lemma_without_key<V>(e: Seq<CacheEntryView<V>>, k: Seq<char>)
    requires
        keys_unique(e),
    ensures
        keys_unique(without_key(e, k)),
        !has_key(without_key(e, k), k),
        without_key(e, k).len() <= e.len(),
{
    let w = without_key(e, k);
    if has_key(e, k) {
        let p = key_index(e, k);
        assert forall|i: int, j: int| 0 <= i < j < w.len() implies (#[trigger] w[i]).0 != (#[trigger] w[j]).0 by {
            let a = if i < p { i } else { i + 1 };
            let b = if j < p { j } else { j + 1 };
            assert(w[i] == e[a] && w[j] == e[b]);
        }
        if has_key(w, k) {
            let j = key_index(w, k);
            let b = if j < p { j } else { j + 1 };
            assert(w[j] == e[b]);
            if b < p {
                assert(e[b].0 != e[p].0);
            } else {
                assert(e[p].0 != e[b].0);
            }
        }
    }
}

/// What is stored can be read back: after storing `value` under `k`, the
/// entry of `k` holds `value`, keys stay unique, and the cache holds no
/// more than `max_entries` entries (at least one, the new one).
pub proof fn law_put_then_get<V>(
    e: Seq<CacheEntryView<V>>,
    current: usize,
    k: Seq<char>,
    value: V,
    size: usize,
    max_entries: usize,
    max_bytes: nat,
)
    requires
        keys_unique(e),
    ensures
        ({
            let r = put_entry_spec(e, current, k, value, size, max_entries, max_bytes).0;
            &&& keys_unique(r)
            &&& has_key(r, k)
            &&& r[key_index(r, k)].1 == value
            &&& r.len() <= if max_entries >= 1 { max_entries as int } else { 1 }
        }),
{
    let room = evict_for(e, current, size, max_entries, max_bytes).0;
    lemma_evict_suffix(e, current, size, max_entries, max_bytes);
    assert(keys_unique(room)) by {
        let off = e.len() - room.len();
        assert forall|i: int, j: int| 0 <= i < j < room.len() implies (#[trigger] room[i]).0 != (#[trigger] room[j]).0 by {
            assert(room[i] == e[off + i] && room[j] == e[off + j]);
        }
    }
    lemma_without_key(room, k);
    let w = without_key(room, k);
    let r = w.push((k, value, size));
    assert forall|i: int, j: int| 0 <= i < j < r.len() implies (#[trigger] r[i]).0 != (#[trigger] r[j]).0 by {
        if j == r.len() - 1 {
            assert(r[i] == w[i]);
            if w[i].0 == k {
                assert(has_key(w, k));
            }
        } else {
            assert(r[i] == w[i] && r[j] == w[j]);
        }
    }
    lemma_key_index(r, k, r.len() - 1);
}

/// A cache bounded in entries and in memory: storing a value first evicts
/// the oldest entries while the cache is full or the memory budget would be
/// exceeded. `size_estimator` gives the size of a value in bytes.
#[verifier::reject_recursive_types(V)]
pub struct BoundedCache<V, F: Fn(&V) -> usize> {
    entries: Vec<(String, V, usize)>,
    max_entries: usize,
    max_memory_mb: usize,
    size_estimator: F,
    current_size: usize,
}

impl<V, F: Fn(&V) -> usize> BoundedCache<V, F> {
    /// The entries, oldest first.
    pub closed spec fn spec_entries(&self) -> Seq<CacheEntryView<V>> {
        view_entries(self.entries@)
    }

    /// The bytes counted as in use.
    pub closed spec fn spec_current_size(&self) -> usize {
        self.current_size
    }

    /// The most entries the cache holds.
    pub closed spec fn spec_max_entries(&self) -> usize {
        self.max_entries
    }

    /// The memory budget in bytes.
    pub closed spec fn max_bytes(&self) -> nat {
        self.max_memory_mb as nat * 1024 * 1024
    }

    /// The function that estimates sizes.
    pub closed spec fn estimator(&self) -> F {
        self.size_estimator
    }

    #[verifier::type_invariant]
    closed spec fn inv(&self) -> bool {
        &&& keys_unique(self.spec_entries())
        &&& forall|v: V| self.size_estimator.requires((&v,))
    }

    /// An empty cache of at most `max_entries` entries and `max_memory_mb`
    /// megabytes.
    pub fn new(max_entries: usize, max_memory_mb: usize, size_estimator: F) -> (c: Self)
        requires
            forall|v: V| size_estimator.requires((&v,)),
        ensures
            c.spec_entries() == Seq::<CacheEntryView<V>>::empty(),
            c.spec_current_size() == 0,
            c.spec_max_entries() == max_entries,
            c.max_bytes() == max_memory_mb as nat * 1024 * 1024,
            c.estimator() == size_estimator,
    {
        let c = BoundedCache { entries: Vec::new(), max_entries, max_memory_mb, size_estimator, current_size: 0 };
        assert(c.spec_entries() =~= Seq::<CacheEntryView<V>>::empty());
        c
    }

    /// Stores `value` under `key`. While the cache is full, or the counted
    /// size plus the new value's would exceed the memory budget, the oldest
    /// entry is evicted and its size uncounted; then the value is stored as
    /// the newest entry, replacing one of the same key, and its size
    /// counted.
    pub fn put(&mut self, key: String, value: V)
        ensures
            exists|size: usize| {
                &&& old(self).estimator().ensures((&value,), size)
                &&& (final(self).spec_entries(), final(self).spec_current_size()) == put_entry_spec(
                    old(self).spec_entries(),
                    old(self).spec_current_size(),
                    key@,
                    value,
                    size,
                    old(self).spec_max_entries(),
                    old(self).max_bytes(),
                )
            },
            final(self).spec_max_entries() == old(self).spec_max_entries(),
            final(self).max_bytes() == old(self).max_bytes(),
            final(self).estimator() == old(self).estimator(),
    {
        proof {
            use_type_invariant(&*self);
        }
        let size = (self.size_estimator)(&value);
        let ghost v0 = value;
        let max_bytes: u128 = (self.max_memory_mb as u128) * 1024 * 1024;
        let max_entries = self.max_entries;
        let ghost e0 = self.spec_entries();
        let ghost target = evict_for(e0, self.current_size, size, max_entries, self.max_bytes());
        let mut entries: Vec<(String, V, usize)> = Vec::new();
        std::mem::swap(&mut entries, &mut self.entries);
        let mut current = self.current_size;
        while entries.len() > 0 && (entries.len() >= max_entries || (current as u128) + (size as u128) > max_bytes)
            invariant
                max_bytes == old(self).max_bytes(),
                max_entries == old(self).spec_max_entries(),
                keys_unique(view_entries(entries@)),
                evict_for(view_entries(entries@), current, size, max_entries, max_bytes as nat) == target,
            decreases entries.len(),
        {
            let ghost before = view_entries(entries@);
            let (_, _, s) = entries.remove(0);
            current = current.wrapping_sub(s);
            proof {
                assert(view_entries(entries@) =~= before.drop_first());
            }
        }
        let ghost room = view_entries(entries@);
        let ghost cur = current;
        assert(evict_for(room, cur, size, max_entries, max_bytes as nat) == (room, cur));
        assert(target == (room, cur));
        match find_key(&entries, key.as_str()) {
            Some(p) => {
                proof {
                    lemma_key_index(room, key@, p as int);
                }
                entries.remove(p);
                proof {
                    assert(view_entries(entries@) =~= room.remove(p as int));
                }
            },
            None => {},
        }
        let ghost rest = view_entries(entries@);
        assert(rest == without_key(room, key@));
        let ghost k = key@;
        proof {
            assert(!has_key(rest, k)) by {
                if has_key(rest, k) {
                    let j = key_index(rest, k);
                    if has_key(room, k) {
                        let p = key_index(room, k);
                        if j < p {
                            assert(rest[j] == room[j]);
                        } else {
                            assert(rest[j] == room[j + 1]);
                            assert(room[p].0 != room[j + 1].0);
                        }
                    }
                }
            }
        }
        entries.push((key, value, size));
        proof {
            assert(view_entries(entries@) =~= rest.push((k, value, size)));
        }
        self.entries = entries;
        self.current_size = current.wrapping_add(size);
        assert(exists|sz: usize| {
            &&& old(self).estimator().ensures((&v0,), sz)
            &&& (self.spec_entries(), self.spec_current_size()) == put_entry_spec(
                old(self).spec_entries(),
                old(self).spec_current_size(),
                k,
                v0,
                sz,
                old(self).spec_max_entries(),
                old(self).max_bytes(),
            )
        }) by {
            assert((self.spec_entries(), self.spec_current_size()) == put_entry_spec(
                old(self).spec_entries(),
                old(self).spec_current_size(),
                k,
                v0,
                size,
                old(self).spec_max_entries(),
                old(self).max_bytes(),
            ));
        }
    }

    /// Empties the cache; the size count starts again from zero.
    pub fn clear(&mut self)
        ensures
            final(self).spec_entries() == Seq::<CacheEntryView<V>>::empty(),
            final(self).spec_current_size() == 0,
            final(self).spec_max_entries() == old(self).spec_max_entries(),
            final(self).max_bytes() == old(self).max_bytes(),
            final(self).estimator() == old(self).estimator(),
    {
        proof {
            use_type_invariant(&*self);
        }
        self.entries = Vec::new();
        self.current_size = 0;
        assert(self.spec_entries() =~= Seq::<CacheEntryView<V>>::empty());
    }
}

impl<V: Clone, F: Fn(&V) -> usize> BoundedCache<V, F> {
    /// A copy of the value stored under `key`.
    pub fn get(&self, key: &str) -> (r: Option<V>)
        ensures
            r is Some <==> has_key(self.spec_entries(), key@),
            r matches Some(v) ==> cloned(self.spec_entries()[key_index(self.spec_entries(), key@)].1, v),
    {
        proof {
            use_type_invariant(self);
        }
        match find_key(&self.entries, key) {
            Some(i) => {
                proof {
                    lemma_key_index(self.spec_entries(), key@, i as int);
                }
                Some(self.entries[i].1.clone())
            },
            None => None,
        }
    }
}


// ---------------------------------------------------------------- batching

/// Collects items and hands them over in batches of a given size.
pub struct BatchProcessor<T> {
    batch_size: usize,
    batch_timeout: Duration,
    max_concurrent: usize,
    buffer: Vec<T>,
}

impl<T> BatchProcessor<T> {
    /// The items waiting, oldest first.
    pub closed spec fn pending(&self) -> Seq<T> {
        self.buffer@
    }

    /// The number of items that makes a batch.
    pub closed spec fn spec_batch_size(&self) -> usize {
        self.batch_size
    }

    /// How long a batch may wait.
    pub closed spec fn spec_batch_timeout(&self) -> Duration {
        self.batch_timeout
    }

    /// How many batches may be processed at once.
    pub closed spec fn spec_max_concurrent(&self) -> usize {
        self.max_concurrent
    }

    /// An empty batch processor.
    pub fn new(batch_size: usize, batch_timeout: Duration, max_concurrent: usize) -> (b: Self)
        ensures
            b.pending() == Seq::<T>::empty(),
            b.spec_batch_size() == batch_size,
            b.spec_batch_timeout() == batch_timeout,
            b.spec_max_concurrent() == max_concurrent,
    {
        BatchProcessor { batch_size, batch_timeout, max_concurrent, buffer: Vec::new() }
    }

    /// Adds `item`; once the batch size is reached every waiting item is
    /// handed over as one batch.
    pub fn add(&mut self, item: T) -> (batch: Option<Vec<T>>)
        ensures
            old(self).pending().len() + 1 >= old(self).spec_batch_size() ==> {
                &&& batch matches Some(b)
                &&& b@ == old(self).pending().push(item)
                &&& final(self).pending() == Seq::<T>::empty()
            },
            old(self).pending().len() + 1 < old(self).spec_batch_size() ==> {
                &&& batch is None
                &&& final(self).pending() == old(self).pending().push(item)
            },
            final(self).spec_batch_size() == old(self).spec_batch_size(),
            final(self).spec_batch_timeout() == old(self).spec_batch_timeout(),
            final(self).spec_max_concurrent() == old(self).spec_max_concurrent(),
    {
        self.buffer.push(item);
        if self.buffer.len() >= self.batch_size {
            let mut batch: Vec<T> = Vec::new();
            std::mem::swap(&mut batch, &mut self.buffer);
            Some(batch)
        } else {
            None
        }
    }

    /// Hands over the waiting items as one batch, if there are any.
    pub fn flush(&mut self) -> (batch: Option<Vec<T>>)
        ensures
            old(self).pending().len() > 0 ==> (batch matches Some(b) && b@ == old(self).pending()),
            old(self).pending().len() == 0 ==> batch is None,
            final(self).pending() == Seq::<T>::empty(),
            final(self).spec_batch_size() == old(self).spec_batch_size(),
            final(self).spec_batch_timeout() == old(self).spec_batch_timeout(),
            final(self).spec_max_concurrent() == old(self).spec_max_concurrent(),
    {
        if self.buffer.len() > 0 {
            let mut batch: Vec<T> = Vec::new();
            std::mem::swap(&mut batch, &mut self.buffer);
            Some(batch)
        } else {
            None
        }
    }
}

/// The start and end of chunk `k` when `total` items are cut into chunks of
/// `size`, the last one shorter.
pub open spec fn chunk_range(k: int, size: int, total: int) -> (int, int) {
    (k * size, if (k + 1) * size <= total { (k + 1) * size } else { total })
}

/// The number of chunks of `size` that `total` items make.
pub open spec fn chunk_count(total: int, size: int) -> int {
    total / size + if total % size > 0 { 1int } else { 0int }
}

/// Processes updates in chunks of a batch size, a limited number at once.
#[derive(Debug, Clone, Copy, PartialEq, Eq, Structural)]
pub struct SimpleBatchProcessor {
    pub batch_size: usize,
    pub max_concurrent: usize,
}

impl SimpleBatchProcessor {
    /// A processor with chunks of `batch_size` and at most `max_concurrent`
    /// chunks processed at once.
    pub fn new(batch_size: usize, max_concurrent: usize) -> (p: Self)
        ensures
            p.batch_size == batch_size,
            p.max_concurrent == max_concurrent,
    {
        SimpleBatchProcessor { batch_size, max_concurrent }
    }

    /// The ranges of the chunks that `total` updates are cut into, in
    /// order. The batch size must be positive, as cutting into chunks
    /// requires.
    pub fn chunks(&self, total: usize) -> (r: Vec<(usize, usize)>)
        requires
            self.batch_size > 0,
        ensures
            r.len() == chunk_count(total as int, self.batch_size as int),
            forall|k: int|
                0 <= k < r.len() ==> (#[trigger] r@[k]).0 == chunk_range(k, self.batch_size as int, total as int).0
                    && r@[k].1 == chunk_range(k, self.batch_size as int, total as int).1,
    {
        let size = self.batch_size;
        proof {
            vstd::arithmetic::div_mod::lemma_fundamental_div_mod(total as int, size as int);
            vstd::arithmetic::div_mod::lemma_mod_pos_bound(total as int, size as int);
            if total % size > 0 {
                assert(total / size < total) by (nonlinear_arith)
                    requires
                        total == (total / size) * size + total % size,
                        0 < total % size < size,
                ;
            }
        }
        let count = total / size + if total % size > 0 { 1 } else { 0 };
        let mut r: Vec<(usize, usize)> = Vec::new();
        let mut k: usize = 0;
        proof {
            vstd::arithmetic::div_mod::lemma_fundamental_div_mod(total as int, size as int);
            vstd::arithmetic::div_mod::lemma_mod_pos_bound(total as int, size as int);
        }
        while k < count
            invariant
                size == self.batch_size,
                size > 0,
                count == chunk_count(total as int, size as int),
                total == (total / size) * size + total % size,
                0 <= total % size < size,
                k <= count,
                r.len() == k,
                forall|j: int|
                    0 <= j < k ==> (#[trigger] r@[j]).0 == chunk_range(j, size as int, total as int).0
                        && r@[j].1 == chunk_range(j, size as int, total as int).1,
            decreases count - k,
        {
            proof {
                assert(k * size < total) by (nonlinear_arith)
                    requires
                        k < total / size + if total % size > 0 { 1int } else { 0int },
                        total == (total / size) * size + total % size,
                        0 <= total % size < size,
                        size > 0,
                ;
                assert((k + 1) * size == k * size + size) by (nonlinear_arith);
            }
            let start = k * size;
            let end = if total - start > size { start + size } else { total };
            r.push((start, end));
            k = k + 1;
        }
        r
    }
}


// ---------------------------------------------------------------- throughput

/// Counts what a pool of workers processed from a stream: items in batches
/// that went through, and items in batches that failed.
pub struct HighThroughputProcessor {
    worker_count: usize,
    buffer_size: usize,
    processed: u64,
    errors: u64,
}

impl HighThroughputProcessor {
    /// The number of workers.
    pub closed spec fn spec_worker_count(&self) -> usize {
        self.worker_count
    }

    /// The most items a batch holds.
    pub closed spec fn spec_buffer_size(&self) -> usize {
        self.buffer_size
    }

    /// Items of batches that went through.
    pub closed spec fn spec_processed(&self) -> u64 {
        self.processed
    }

    /// Items of batches that failed.
    pub closed spec fn spec_errors(&self) -> u64 {
        self.errors
    }

    /// A processor with `worker_count` workers and batches of
    /// `buffer_size` items, nothing counted yet.
    pub fn new(worker_count: usize, buffer_size: usize) -> (p: Self)
        ensures
            p.spec_worker_count() == worker_count,
            p.spec_buffer_size() == buffer_size,
            p.spec_processed() == 0,
            p.spec_errors() == 0,
    {
        HighThroughputProcessor { worker_count, buffer_size, processed: 0, errors: 0 }
    }

    /// Counts a batch of `batch_size` items as processed or as failed. The
    /// count must not overflow.
    pub fn record_batch(&mut self, batch_size: usize, succeeded: bool)
        requires
            succeeded ==> old(self).spec_processed() + batch_size <= u64::MAX,
            !succeeded ==> old(self).spec_errors() + batch_size <= u64::MAX,
        ensures
            succeeded ==> final(self).spec_processed() == old(self).spec_processed() + batch_size
                && final(self).spec_errors() == old(self).spec_errors(),
            !succeeded ==> final(self).spec_errors() == old(self).spec_errors() + batch_size
                && final(self).spec_processed() == old(self).spec_processed(),
            final(self).spec_worker_count() == old(self).spec_worker_count(),
            final(self).spec_buffer_size() == old(self).spec_buffer_size(),
    {
        if succeeded {
            self.processed = self.processed + batch_size as u64;
        } else {
            self.errors = self.errors + batch_size as u64;
        }
    }

    /// Items processed and items failed.
    pub fn counts(&self) -> (c: (u64, u64))
        ensures
            c == (self.spec_processed(), self.spec_errors()),
    {
        (self.processed, self.errors)
    }

    /// The number of workers and the batch size.
    pub fn shape(&self) -> (s: (usize, usize))
        ensures
            s == (self.spec_worker_count(), self.spec_buffer_size()),
    {
        (self.worker_count, self.buffer_size)
    }
}

// ---------------------------------------------------------------- recycling

/// A pool of objects to reuse: acquiring takes the most recently released
/// object, or makes one with `factory` when none is left; releasing keeps
/// the object while the pool holds fewer than its maximum.
#[verifier::reject_recursive_types(T)]
pub struct ObjectPool<T, F: Fn() -> T> {
    pool: Vec<T>,
    factory: F,
    max_size: usize,
}

impl<T, F: Fn() -> T> ObjectPool<T, F> {
    /// The objects waiting to be reused, the next one last.
    pub closed spec fn available(&self) -> Seq<T> {
        self.pool@
    }

    /// The function that makes new objects.
    pub closed spec fn spec_factory(&self) -> F {
        self.factory
    }

    /// The most objects the pool keeps.
    pub closed spec fn spec_max_size(&self) -> usize {
        self.max_size
    }

    /// An empty pool keeping at most `max_size` objects.
    pub fn new(max_size: usize, factory: F) -> (p: Self)
        ensures
            p.available() == Seq::<T>::empty(),
            p.spec_factory() == factory,
            p.spec_max_size() == max_size,
    {
        ObjectPool { pool: Vec::new(), factory, max_size }
    }

    /// An object to use: the most recently released one, or a new one.
    pub fn acquire(&mut self) -> (obj: T)
        requires
            old(self).spec_factory().requires(()),
        ensures
            old(self).available().len() > 0 ==> obj == old(self).available().last()
                && final(self).available() == old(self).available().drop_last(),
            old(self).available().len() == 0 ==> old(self).spec_factory().ensures((), obj)
                && final(self).available() == old(self).available(),
            final(self).spec_factory() == old(self).spec_factory(),
            final(self).spec_max_size() == old(self).spec_max_size(),
    {
        match self.pool.pop() {
            Some(obj) => obj,
            None => (self.factory)(),
        }
    }

    /// Takes an object back once it is no longer used; it is kept while
    /// the pool holds fewer than its maximum, and dropped otherwise.
    pub fn release(&mut self, obj: T)
        ensures
            old(self).available().len() < old(self).spec_max_size() ==> final(self).available()
                == old(self).available().push(obj),
            old(self).available().len() >= old(self).spec_max_size() ==> final(self).available()
                == old(self).available(),
            final(self).spec_factory() == old(self).spec_factory(),
            final(self).spec_max_size() == old(self).spec_max_size(),
    {
        if self.pool.len() < self.max_size {
            self.pool.push(obj);
        }
    }
}

/// An object released to a pool with room is the next one acquired.
pub proof fn law_released_object_is_reused<T>(available: Seq<T>, max_size: usize, obj: T)
    requires
        available.len() < max_size,
    ensures
        available.push(obj).len() > 0,
        available.push(obj).last() == obj,
        available.push(obj).drop_last() == available,
{
    assert(available.push(obj).drop_last() =~= available);
}

// ---------------------------------------------------------------- sliding window

/// The most recent values, at most a window's worth.
pub struct DataAggregator<T> {
    window_size: usize,
    buffer: Vec<T>,
}

impl<T> DataAggregator<T> {
    /// The values in the window, oldest first.
    pub closed spec fn window(&self) -> Seq<T> {
        self.buffer@
    }

    /// The most values the window holds.
    pub closed spec fn spec_window_size(&self) -> usize {
        self.window_size
    }

    /// An empty window of `window_size` values.
    pub fn new(window_size: usize) -> (a: Self)
        ensures
            a.window() == Seq::<T>::empty(),
            a.spec_window_size() == window_size,
    {
        DataAggregator { window_size, buffer: Vec::new() }
    }

    /// Adds `value`, dropping the oldest value when the window is full.
    /// The window size must be positive: an empty window has no oldest
    /// value to drop.
    pub fn add_value(&mut self, value: T)
        requires
            old(self).spec_window_size() > 0,
        ensures
            old(self).window().len() >= old(self).spec_window_size() ==> final(self).window()
                == old(self).window().drop_first().push(value),
            old(self).window().len() < old(self).spec_window_size() ==> final(self).window()
                == old(self).window().push(value),
            final(self).spec_window_size() == old(self).spec_window_size(),
    {
        if self.buffer.len() >= self.window_size {
            self.buffer.remove(0);
        }
        self.buffer.push(value);
    }

    /// The values in the window, oldest first.
    pub fn values(&self) -> (v: &Vec<T>)
        ensures
            v@ == self.window(),
    {
        &self.buffer
    }
}

/// The window never holds more than its size: adding to a window within
/// its size leaves it within its size, and the newest value is the last.
pub proof fn law_window_stays_bounded<T>(window: Seq<T>, size: usize, value: T)
    requires
        size > 0,
        window.len() <= size,
    ensures
        ({
            let next = if window.len() >= size { window.drop_first().push(value) } else { window.push(value) };
            &&& next.len() <= size
            &&& next.last() == value
        }),
{
}


// ---------------------------------------------------------------- index by day

/// The length of a day in seconds.
pub const SECONDS_PER_DAY: i128 = 86400;

/// The start of the UTC day that holds the second `secs` since the epoch.
pub open spec fn day_start(secs: int) -> int {
    (secs / 86400) * 86400
}

/// Whether the instant `(a_secs, a_nanos)` comes no later than
/// `(b_secs, b_nanos)`.
pub open spec fn instant_le(a_secs: int, a_nanos: int, b_secs: int, b_nanos: int) -> bool {
    a_secs < b_secs || (a_secs == b_secs && a_nanos <= b_nanos)
}

/// Whether the start of `day` falls between the two instants, both
/// included.
pub open spec fn day_in_range(day: int, start_secs: int, start_nanos: int, end_secs: int, end_nanos: int) -> bool {
    instant_le(start_secs, start_nanos, day, 0) && instant_le(day, 0, end_secs, end_nanos)
}

/// Whether the days are in strictly increasing order.
pub open spec fn days_sorted(d: Seq<(int, Seq<usize>)>) -> bool {
    forall|i: int, j: int| 0 <= i < j < d.len() ==> (#[trigger] d[i]).0 < (#[trigger] d[j]).0
}

/// The indices of the days that fall in the range, day by day in order.
pub open spec fn indices_in_range(
    d: Seq<(int, Seq<usize>)>,
    start_secs: int,
    start_nanos: int,
    end_secs: int,
    end_nanos: int,
) -> Seq<usize>
    decreases d.len(),
{
    if d.len() == 0 {
        Seq::empty()
    } else {
        indices_in_range(d.drop_last(), start_secs, start_nanos, end_secs, end_nanos) + if day_in_range(
            d.last().0,
            start_secs,
            start_nanos,
            end_secs,
            end_nanos,
        ) {
            d.last().1
        } else {
            Seq::empty()
        }
    }
}

/// Whether `p` is where `day` belongs among the days: after every earlier
/// day and at or before every later one.
pub open spec fn is_insert_point(d: Seq<(int, Seq<usize>)>, day: int, p: int) -> bool {
    &&& 0 <= p <= d.len()
    &&& forall|j: int| 0 <= j < p ==> (#[trigger] d[j]).0 < day
    &&& p < d.len() ==> d[p].0 >= day
}

/// The days once `index` is recorded under `day`, which belongs at `p`: it
/// joins the day's indices, or starts a new day there.
pub open spec fn placed(d: Seq<(int, Seq<usize>)>, day: int, index: usize, p: int) -> Seq<(int, Seq<usize>)> {
    if p < d.len() && d[p].0 == day {
        d.update(p, (day, d[p].1.push(index)))
    } else {
        d.insert(p, (day, seq![index]))
    }
}

/// The view of stored days.
pub open spec fn view_days(d: Seq<(i128, Vec<usize>)>) -> Seq<(int, Seq<usize>)> {
    d.map_values(|t: (i128, Vec<usize>)| (t.0 as int, t.1@))
}

/// The start of the day of `secs`.
fn day_of(secs: i64) -> (d: i128)
    ensures
        d == day_start(secs as int),
{
    let s = secs as i128;
    let q = s / SECONDS_PER_DAY;
    let r = s - q * SECONDS_PER_DAY;
    let f = if r < 0 { q - 1 } else { q };
    proof {
        let rem = s - f * 86400;
        assert(0 <= rem < 86400) by (nonlinear_arith)
            requires
                r == s - q * 86400,
                -86400 < r < 86400,
                f == if r < 0 { q - 1 } else { q as int },
                rem == s - f * 86400,
        ;
        vstd::arithmetic::div_mod::lemma_fundamental_div_mod_converse(s as int, 86400, f as int, rem);
    }
    f * SECONDS_PER_DAY
}

/// Indices of records grouped by the UTC day of their time.
pub struct TimeIndex {
    days: Vec<(i128, Vec<usize>)>,
}

impl TimeIndex {
    /// The days with their indices, in increasing order of day.
    pub closed spec fn spec_days(&self) -> Seq<(int, Seq<usize>)> {
        view_days(self.days@)
    }

    #[verifier::type_invariant]
    closed spec fn inv(&self) -> bool {
        days_sorted(self.spec_days())
    }

    /// An empty index.
    pub fn new() -> (t: Self)
        ensures
            t.spec_days() == Seq::<(int, Seq<usize>)>::empty(),
    {
        let t = TimeIndex { days: Vec::new() };
        assert(t.spec_days() =~= Seq::<(int, Seq<usize>)>::empty());
        t
    }

    /// Records `index` under the day of the instant `secs` seconds since
    /// the epoch.
    pub fn add_entry(&mut self, secs: i64, index: usize)
        ensures
            exists|p: int| {
                &&& is_insert_point(old(self).spec_days(), day_start(secs as int), p)
                &&& final(self).spec_days() == placed(old(self).spec_days(), day_start(secs as int), index, p)
            },
    {
        proof {
            use_type_invariant(&*self);
        }
        let day = day_of(secs);
        let mut days: Vec<(i128, Vec<usize>)> = Vec::new();
        std::mem::swap(&mut days, &mut self.days);
        let ghost d0 = view_days(days@);
        let mut p: usize = 0;
        while p < days.len() && days[p].0 < day
            invariant
                view_days(days@) == d0,
                days_sorted(d0),
                p <= days.len(),
                forall|j: int| 0 <= j < p ==> (#[trigger] d0[j]).0 < day,
            decreases days.len() - p,
        {
            p += 1;
        }
        assert(is_insert_point(d0, day as int, p as int));
        if p < days.len() && days[p].0 == day {
            let (k, mut list) = days.remove(p);
            list.push(index);
            days.insert(p, (k, list));
            proof {
                assert(view_days(days@) =~= d0.update(p as int, (day as int, d0[p as int].1.push(index))));
            }
        } else {
            let mut list: Vec<usize> = Vec::new();
            list.push(index);
            days.insert(p, (day, list));
            proof {
                assert(view_days(days@) =~= d0.insert(p as int, (day as int, seq![index])));
            }
        }
        proof {
            let n = view_days(days@);
            assert forall|i: int, j: int| 0 <= i < j < n.len() implies (#[trigger] n[i]).0 < (#[trigger] n[j]).0 by {
                if !(p < d0.len() && d0[p as int].0 == day) {
                    if i < p && j > p {
                        assert(n[i] == d0[i] && n[j] == d0[j - 1]);
                    } else if i < p && j == p {
                        assert(n[i] == d0[i]);
                    } else if i == p {
                        assert(n[j] == d0[j - 1]);
                    } else if j < p {
                        assert(n[i] == d0[i] && n[j] == d0[j]);
                    } else {
                        assert(n[i] == d0[i - 1] && n[j] == d0[j - 1]);
                    }
                }
            }
        }
        self.days = days;
    }

    /// The indices recorded for the days from `start` to `end`, both
    /// included, day by day in order; an instant is a second since the
    /// epoch and a nanosecond within it. The start must not come after the
    /// end.
    pub fn get_range(&self, start_secs: i64, start_nanos: u32, end_secs: i64, end_nanos: u32) -> (r: Vec<usize>)
        requires
            instant_le(start_secs as int, start_nanos as int, end_secs as int, end_nanos as int),
        ensures
            r@ == indices_in_range(
                self.spec_days(),
                start_secs as int,
                start_nanos as int,
                end_secs as int,
                end_nanos as int,
            ),
    {
        let ghost d = self.spec_days();
        let mut r: Vec<usize> = Vec::new();
        let mut i: usize = 0;
        while i < self.days.len()
            invariant
                d == self.spec_days(),
                i <= self.days.len(),
                r@ == indices_in_range(
                    d.take(i as int),
                    start_secs as int,
                    start_nanos as int,
                    end_secs as int,
                    end_nanos as int,
                ),
            decreases self.days.len() - i,
        {
            let day = self.days[i].0;
            let after_start = (start_secs as i128) < day || ((start_secs as i128) == day && start_nanos == 0);
            let before_end = day <= (end_secs as i128);
            assert(d.take(i + 1).drop_last() =~= d.take(i as int));
            if after_start && before_end {
                let list = &self.days[i].1;
                let mut j: usize = 0;
                let ghost base = r@;
                while j < list.len()
                    invariant
                        j <= list.len(),
                        r@ == base + list@.take(j as int),
                    decreases list.len() - j,
                {
                    r.push(list[j]);
                    assert(r@ =~= base + list@.take(j + 1));
                    j += 1;
                }
                assert(list@.take(list.len() as int) =~= list@);
            }
            i += 1;
        }
        assert(d.take(d.len() as int) =~= d);
        r
    }
}


/// A range query over two runs of days gives the first run's indices, then
/// the second's.
proof fn lemma_indices_concat(
    a: Seq<(int, Seq<usize>)>,
    b: Seq<(int, Seq<usize>)>,
    ss: int,
    sn: int,
    es: int,
    en: int,
)
    ensures
        indices_in_range(a + b, ss, sn, es, en) == indices_in_range(a, ss, sn, es, en) + indices_in_range(
            b,
            ss,
            sn,
            es,
            en,
        ),
    decreases b.len(),
{
    if b.len() == 0 {
        assert(a + b =~= a);
        assert(indices_in_range(a, ss, sn, es, en) + Seq::<usize>::empty() =~= indices_in_range(a, ss, sn, es, en));
    } else {
        lemma_indices_concat(a, b.drop_last(), ss, sn, es, en);
        assert((a + b).drop_last() =~= a + b.drop_last());
        assert((a + b).last() == b.last());
        let tail = if day_in_range(b.last().0, ss, sn, es, en) { b.last().1 } else { Seq::<usize>::empty() };
        assert(indices_in_range(a, ss, sn, es, en) + indices_in_range(b.drop_last(), ss, sn, es, en) + tail
            =~= indices_in_range(a, ss, sn, es, en) + (indices_in_range(b.drop_last(), ss, sn, es, en) + tail));
    }
}

/// What is recorded is found: once `index` is recorded under a day, every
/// range query whose range covers that day returns it.
pub proof fn law_recorded_index_is_found(
    d: Seq<(int, Seq<usize>)>,
    day: int,
    index: usize,
    p: int,
    start_secs: int,
    start_nanos: int,
    end_secs: int,
    end_nanos: int,
)
    requires
        days_sorted(d),
        is_insert_point(d, day, p),
        day_in_range(day, start_secs, start_nanos, end_secs, end_nanos),
    ensures
        indices_in_range(placed(d, day, index, p), start_secs, start_nanos, end_secs, end_nanos).contains(index),
{
    let n = placed(d, day, index, p);
    let (ss, sn, es, en) = (start_secs, start_nanos, end_secs, end_nanos);
    let (mid, rest) = if p < d.len() && d[p].0 == day {
        (seq![(day, d[p].1.push(index))], d.skip(p + 1))
    } else {
        (seq![(day, seq![index])], d.skip(p))
    };
    assert(n =~= d.take(p) + mid + rest);
    lemma_indices_concat(d.take(p) + mid, rest, ss, sn, es, en);
    lemma_indices_concat(d.take(p), mid, ss, sn, es, en);
    assert(mid.drop_last() =~= Seq::<(int, Seq<usize>)>::empty());
    let m = indices_in_range(mid, ss, sn, es, en);
    assert(indices_in_range(mid.drop_last(), ss, sn, es, en) == Seq::<usize>::empty());
    assert(mid.last() == mid[0] && mid[0].0 == day);
    assert(m =~= mid[0].1);
    assert(mid[0].1.contains(index)) by {
        assert(mid[0].1[mid[0].1.len() - 1] == index);
    }
    let k = choose|k: int| 0 <= k < m.len() && m[k] == index;
    let left = indices_in_range(d.take(p), ss, sn, es, en);
    assert((left + m + indices_in_range(rest, ss, sn, es, en))[left.len() + k] == index);
}

} // verus!
