//! Analytics bookkeeping: dashboard update kinds and profiles, generated
//! test data, load-test statistics and the memory optimizer's rules.

use vstd::prelude::*;
use crate::text::{concat_strs, decimal, decimal_string};

verus! {

/// Type of dashboard update.
#[derive(Debug, Clone, Copy, PartialEq, Eq, Structural)]
pub enum UpdateType {
    Full,
    Incremental,
    Differential,
    HeartBeat,
    Alert,
}

/// Update priority levels, from lowest to highest.
#[derive(Debug, Clone, Copy, PartialEq, Eq, Structural)]
pub enum UpdatePriority {
    Low,
    Normal,
    High,
    Critical,
}

/// The place of a priority in the order `Low < Normal < High < Critical`.
pub open spec fn priority_rank(p: UpdatePriority) -> nat {
    match p {
        UpdatePriority::Low => 0,
        UpdatePriority::Normal => 1,
        UpdatePriority::High => 2,
        UpdatePriority::Critical => 3,
    }
}

impl UpdatePriority {
    /// The place of the priority in the order, lowest first.
    pub fn rank(&self) -> (r: u8)
        ensures
            r == priority_rank(*self),
    {
        match self {
            UpdatePriority::Low => 0,
            UpdatePriority::Normal => 1,
            UpdatePriority::High => 2,
            UpdatePriority::Critical => 3,
        }
    }

    /// Whether this priority is above `other`.
    pub fn outranks(&self, other: &UpdatePriority) -> (b: bool)
        ensures
            b == (priority_rank(*self) > priority_rank(*other)),
    {
        self.rank() > other.rank()
    }
}

/// Trend of costs over time.
#[derive(Debug, Clone, Copy, PartialEq, Eq, Structural)]
pub enum TrendDirection {
    Increasing,
    Decreasing,
    Stable,
}

/// The settings of a dashboard profile: refresh and retention of the base
/// dashboard, and how updates are streamed to clients.
#[derive(Debug, Clone, Copy, PartialEq, Eq, Structural)]
pub struct DashboardProfile {
    /// Seconds between refreshes.
    pub refresh_interval_seconds: u64,
    /// Recent entries shown.
    pub max_recent_entries: usize,
    /// Whether the dashboard updates live.
    pub enable_live_updates: bool,
    /// Hours covered by charts.
    pub chart_time_range_hours: u32,
    /// Whether system resources are monitored.
    pub enable_real_system_monitoring: bool,
    /// Send only what changed.
    pub enable_differential_updates: bool,
    /// Updates larger than this many bytes are compressed.
    pub compression_threshold: usize,
    /// Most updates per second a client receives.
    pub max_client_update_rate: u32,
    /// Send urgent updates first.
    pub enable_priority_updates: bool,
    /// Buffer per client.
    pub enable_per_client_buffering: bool,
}

/// Ready-made dashboard profiles.
pub struct OptimizedDashboardFactory;

impl OptimizedDashboardFactory {
    /// Frequent refreshes and fast streaming.
    pub fn high_performance() -> (p: DashboardProfile)
        ensures
            p == (DashboardProfile {
                refresh_interval_seconds: 5,
                max_recent_entries: 100,
                enable_live_updates: true,
                chart_time_range_hours: 24,
                enable_real_system_monitoring: true,
                enable_differential_updates: true,
                compression_threshold: 512,
                max_client_update_rate: 20,
                enable_priority_updates: true,
                enable_per_client_buffering: true,
            }),
    {
        DashboardProfile {
            refresh_interval_seconds: 5,
            max_recent_entries: 100,
            enable_live_updates: true,
            chart_time_range_hours: 24,
            enable_real_system_monitoring: true,
            enable_differential_updates: true,
            compression_threshold: 512,
            max_client_update_rate: 20,
            enable_priority_updates: true,
            enable_per_client_buffering: true,
        }
    }

    /// Few refreshes and little retained data.
    pub fn memory_efficient() -> (p: DashboardProfile)
        ensures
            p == (DashboardProfile {
                refresh_interval_seconds: 15,
                max_recent_entries: 25,
                enable_live_updates: true,
                chart_time_range_hours: 12,
                enable_real_system_monitoring: false,
                enable_differential_updates: true,
                compression_threshold: 2048,
                max_client_update_rate: 2,
                enable_priority_updates: false,
                enable_per_client_buffering: false,
            }),
    {
        DashboardProfile {
            refresh_interval_seconds: 15,
            max_recent_entries: 25,
            enable_live_updates: true,
            chart_time_range_hours: 12,
            enable_real_system_monitoring: false,
            enable_differential_updates: true,
            compression_threshold: 2048,
            max_client_update_rate: 2,
            enable_priority_updates: false,
            enable_per_client_buffering: false,
        }
    }

    /// Refreshes every second and the fastest streaming.
    pub fn low_latency() -> (p: DashboardProfile)
        ensures
            p == (DashboardProfile {
                refresh_interval_seconds: 1,
                max_recent_entries: 200,
                enable_live_updates: true,
                chart_time_range_hours: 48,
                enable_real_system_monitoring: true,
                enable_differential_updates: true,
                compression_threshold: 256,
                max_client_update_rate: 50,
                enable_priority_updates: true,
                enable_per_client_buffering: true,
            }),
    {
        DashboardProfile {
            refresh_interval_seconds: 1,
            max_recent_entries: 200,
            enable_live_updates: true,
            chart_time_range_hours: 48,
            enable_real_system_monitoring: true,
            enable_differential_updates: true,
            compression_threshold: 256,
            max_client_update_rate: 50,
            enable_priority_updates: true,
            enable_per_client_buffering: true,
        }
    }
}

/// The minutes of inactivity after which a dashboard client is dropped.
pub const CLIENT_IDLE_MINUTES: i64 = 5;

/// Whether a client last updated `idle_minutes` ago stays connected.
pub fn client_stays(idle_minutes: i64) -> (b: bool)
    ensures
        b == (idle_minutes < 5),
{
    idle_minutes < CLIENT_IDLE_MINUTES
}

// ---------------------------------------------------------------- validation

/// Measures how much the optimizations speed up dashboard work on a data
/// set of a given size and time range.
#[derive(Debug, Clone, Copy, PartialEq, Eq, Structural)]
pub struct PerformanceImprovementValidator {
    test_data_volume: usize,
    time_range_days: u32,
}

impl PerformanceImprovementValidator {
    /// The size of the data set.
    pub closed spec fn spec_volume(&self) -> usize {
        self.test_data_volume
    }

    /// The days the data covers.
    pub closed spec fn spec_days(&self) -> u32 {
        self.time_range_days
    }

    /// A validator for `test_data_volume` records over `time_range_days`.
    pub fn new(test_data_volume: usize, time_range_days: u32) -> (v: Self)
        ensures
            v.spec_volume() == test_data_volume,
            v.spec_days() == time_range_days,
    {
        PerformanceImprovementValidator { test_data_volume, time_range_days }
    }

    /// The sessions generated for the measurement: a tenth of the volume.
    pub fn session_count(&self) -> (n: usize)
        ensures
            n == self.spec_volume() / 10,
    {
        self.test_data_volume / 10
    }

    /// The days the data covers.
    pub fn time_range_days(&self) -> (d: u32)
        ensures
            d == self.spec_days(),
    {
        self.time_range_days
    }
}

// ---------------------------------------------------------------- generated data

/// Generates cost records in batches.
#[derive(Debug, Clone, Copy, PartialEq, Eq, Structural)]
pub struct OptimizedDataGenerator {
    batch_size: usize,
}

/// The range of record numbers in batch `k` of batches of `size` out of
/// `total` records.
pub open spec fn batch_range(k: int, size: int, total: int) -> (int, int) {
    (k * size, if (k + 1) * size <= total { (k + 1) * size } else { total })
}

impl OptimizedDataGenerator {
    /// Records per batch.
    pub closed spec fn spec_batch_size(&self) -> usize {
        self.batch_size
    }

    /// A generator with batches of `batch_size` records.
    pub fn new(batch_size: usize) -> (g: Self)
        ensures
            g.spec_batch_size() == batch_size,
    {
        OptimizedDataGenerator { batch_size }
    }

    /// The record numbers of each batch for `total_items` records:
    /// consecutive ranges of the batch size, the last one shorter. The
    /// batch size must be positive and `total_items + batch_size` must fit.
    pub fn batch_ranges(&self, total_items: usize) -> (r: Vec<(usize, usize)>)
        requires
            self.spec_batch_size() > 0,
            total_items + self.spec_batch_size() <= usize::MAX,
        ensures
            r.len() == (total_items + self.spec_batch_size() - 1) / (self.spec_batch_size() as int),
            forall|k: int|
                0 <= k < r.len() ==> (#[trigger] r@[k]).0 == batch_range(k, self.spec_batch_size() as int, total_items as int).0
                    && r@[k].1 == batch_range(k, self.spec_batch_size() as int, total_items as int).1,
    {
        let size = self.batch_size;
        let count = (total_items + size - 1) / size;
        let mut r: Vec<(usize, usize)> = Vec::new();
        let mut k: usize = 0;
        proof {
            vstd::arithmetic::div_mod::lemma_fundamental_div_mod((total_items + size - 1) as int, size as int);
            vstd::arithmetic::div_mod::lemma_mod_pos_bound((total_items + size - 1) as int, size as int);
        }
        while k < count
            invariant
                size == self.spec_batch_size(),
                size > 0,
                total_items + size <= usize::MAX,
                count == (total_items + size - 1) / (size as int),
                count * size <= total_items + size - 1,
                k <= count,
                r.len() == k,
                forall|j: int|
                    0 <= j < k ==> (#[trigger] r@[j]).0 == batch_range(j, size as int, total_items as int).0
                        && r@[j].1 == batch_range(j, size as int, total_items as int).1,
            decreases count - k,
        {
            proof {
                assert(k * size <= (k + 1) * size <= count * size) by (nonlinear_arith)
                    requires
                        k + 1 <= count,
                        size > 0,
                ;
            }
            let start = k * size;
            let next = (k + 1) * size;
            let end = if next <= total_items { next } else { total_items };
            r.push((start, end));
            k += 1;
        }
        r
    }
}

/// The integer fields of generated cost record `i`: command name, input
/// and output tokens, and duration in milliseconds.
pub fn generated_record_fields(i: usize) -> (r: (String, u32, u32, u64))
    ensures
        r.0@ == "cmd_"@ + decimal(i as nat),
        r.1 == 100 + i % 1000,
        r.2 == 200 + i % 2000,
        r.3 == 1000 + i % 5000,
{
    let n = decimal_string(i as u64);
    let name = concat_strs("cmd_", n.as_str());
    (name, (100 + i % 1000) as u32, (200 + i % 2000) as u32, (1000 + i % 5000) as u64)
}

/// The fields of record `i` of a large generated data set, apart from its
/// time and cost: the command and its argument, the output, the outcome
/// (one in twenty fails), the tokens, the duration, and which of the three
/// models it is charged to (0, 1 or 2, in turn).
#[derive(Debug, Clone)]
pub struct DatasetRecord {
    pub command_name: String,
    pub arg: String,
    pub output: String,
    pub success: bool,
    pub input_tokens: u32,
    pub output_tokens: u32,
    pub duration_ms: u64,
    pub model_index: u8,
}

/// Record `i` of a large generated data set.
pub fn dataset_record(i: usize) -> (r: DatasetRecord)
    ensures
        r.command_name@ == "command_"@ + decimal(i as nat),
        r.arg@ == "--arg"@ + decimal((i % 5) as nat),
        r.output@ == "Output for command "@ + decimal(i as nat),
        r.success == (i % 20 != 0),
        r.input_tokens == 100 + i % 1000,
        r.output_tokens == 200 + i % 2000,
        r.duration_ms == 1000 + i % 5000,
        r.model_index == i % 3,
{
    let n = decimal_string(i as u64);
    let a = decimal_string((i % 5) as u64);
    DatasetRecord {
        command_name: concat_strs("command_", n.as_str()),
        arg: concat_strs("--arg", a.as_str()),
        output: concat_strs("Output for command ", n.as_str()),
        success: i % 20 != 0,
        input_tokens: (100 + i % 1000) as u32,
        output_tokens: (200 + i % 2000) as u32,
        duration_ms: (1000 + i % 5000) as u64,
        model_index: (i % 3) as u8,
    }
}

/// The batches cover every record exactly once, in order: each batch starts
/// where the one before ended, the first at zero and the last at the total.
pub proof fn law_batches_partition(size: int, total: int)
    requires
        size > 0,
        total >= 0,
    ensures
        batch_range(0, size, total).0 == 0,
        forall|k: int| 0 < k < (total + size - 1) / size ==> #[trigger] batch_range(k, size, total).0
            == batch_range(k - 1, size, total).1,
        total > 0 ==> batch_range((total + size - 1) / size - 1, size, total).1 == total,
{
    let count = (total + size - 1) / size;
    vstd::arithmetic::div_mod::lemma_fundamental_div_mod(total + size - 1, size);
    vstd::arithmetic::div_mod::lemma_mod_pos_bound(total + size - 1, size);
    assert forall|k: int| 0 < k < count implies #[trigger] batch_range(k, size, total).0 == batch_range(
        k - 1,
        size,
        total,
    ).1 by {
        assert(k * size <= (count - 1) * size) by (nonlinear_arith)
            requires
                k <= count - 1,
                size > 0,
        ;
        assert((count - 1) * size <= total - 1) by (nonlinear_arith)
            requires
                count * size <= total + size - 1,
        ;
        assert((k - 1 + 1) * size == k * size);
    }
    if total > 0 {
        assert(count * size >= total) by (nonlinear_arith)
            requires
                total + size - 1 == size * count + (total + size - 1) % size,
                (total + size - 1) % size < size,
        ;
        assert((count - 1 + 1) * size == count * size);
    }
}

// ---------------------------------------------------------------- load tests

/// Load testing scenario types.
#[derive(Debug, Clone, Copy, PartialEq, Eq, Structural)]
pub enum LoadTestScenario {
    /// Generate dashboard data repeatedly.
    DashboardGeneration,
    /// Generate time series data.
    TimeSeriesGeneration,
    /// Real-time streaming simulation.
    RealTimeStreaming,
    /// Mixed workload.
    MixedWorkload,
}

/// The sessions generated for a load test of `volume` records: one per
/// hundred records, at least one.
pub fn sessions_for_volume(volume: usize) -> (n: usize)
    ensures
        n == if volume / 100 >= 1 { volume / 100 } else { 1 },
{
    let n = volume / 100;
    if n >= 1 {
        n
    } else {
        1
    }
}

/// Whether request number `request` of a mixed workload generates dashboard
/// data (every third one) rather than a summary.
pub fn mixed_workload_uses_dashboard(request: u64) -> (b: bool)
    ensures
        b == (request % 3 == 0),
{
    request % 3 == 0
}

/// Whether `s` is in ascending order.
pub open spec fn ascending(s: Seq<u64>) -> bool {
    forall|i: int, j: int| 0 <= i <= j < s.len() ==> s[i] <= s[j]
}

/// The response times in ascending order.
pub fn sort_times(times: Vec<u64>) -> (sorted: Vec<u64>)
    ensures
        ascending(sorted@),
        sorted@.to_multiset() == times@.to_multiset(),
{
    broadcast use vstd::seq_lib::group_to_multiset_ensures;

    let ghost orig = times@;
    let mut rest = times;
    let total = rest.len();
    let mut sorted: Vec<u64> = Vec::new();
    let mut done: usize = 0;
    assert(orig.take(0) =~= Seq::<u64>::empty());
    while rest.len() > 0
        invariant
            done + rest.len() == total,
            orig.len() == total,
            rest@ == orig.skip(done as int),
            ascending(sorted@),
            sorted@.to_multiset() == orig.take(done as int).to_multiset(),
        decreases rest.len(),
    {
        let t = rest.remove(0);
        assert(rest@ =~= orig.skip(done + 1));
        assert(orig.take(done + 1) =~= orig.take(done as int).push(t));
        proof {
            vstd::seq_lib::to_multiset_build(orig.take(done as int), t);
        }
        let mut pos: usize = 0;
        while pos < sorted.len() && sorted[pos] <= t
            invariant
                pos <= sorted.len(),
                forall|i: int| 0 <= i < pos ==> sorted@[i] <= t,
            decreases sorted.len() - pos,
        {
            pos += 1;
        }
        let ghost before = sorted@;
        sorted.insert(pos, t);
        proof {
            vstd::seq_lib::to_multiset_insert(before, pos as int, t);
            assert forall|i: int, j: int| 0 <= i <= j < sorted@.len() implies sorted@[i] <= sorted@[j] by {
                if i < pos && j > pos {
                    assert(sorted@[i] == before[i] && sorted@[j] == before[j - 1]);
                } else if i > pos {
                    assert(sorted@[i] == before[i - 1] && sorted@[j] == before[j - 1]);
                } else if j < pos {
                    assert(sorted@[i] == before[i] && sorted@[j] == before[j]);
                } else if i == pos && j > pos {
                    assert(sorted@[j] == before[j - 1]);
                    assert(pos < before.len() && before[pos as int] > t);
                } else if j == pos && i < pos {
                    assert(sorted@[i] == before[i]);
                }
            }
        }
        done += 1;
    }
    assert(orig.take(orig.len() as int) =~= orig);
    sorted
}

/// The first and last of a list of response times, zero for an empty one:
/// for an ascending list, the fastest and the slowest.
pub fn time_range(sorted: &Vec<u64>) -> (r: (u64, u64))
    ensures
        sorted.len() == 0 ==> r == (0u64, 0u64),
        sorted.len() > 0 ==> r.0 == sorted@[0] && r.1 == sorted@.last(),
        ascending(sorted@) ==> forall|i: int| 0 <= i < sorted.len() ==> r.0 <= #[trigger] sorted@[i] <= r.1,
{
    if sorted.len() == 0 {
        (0, 0)
    } else {
        (sorted[0], sorted[sorted.len() - 1])
    }
}

// ---------------------------------------------------------------- memory

/// The buffers of a streaming processor: each emitted batch, in order,
/// followed by what is still buffered, is everything added.
pub open spec fn flatten<T>(batches: Seq<Seq<T>>) -> Seq<T>
    decreases batches.len(),
{
    if batches.len() == 0 {
        Seq::empty()
    } else {
        flatten(batches.drop_last()) + batches.last()
    }
}

/// Buffers items and hands them over in batches once enough have come.
pub struct StreamingDataProcessor<T> {
    buffer: Vec<T>,
    max_buffer_size: usize,
    items_processed: u64,
    memory_usage_bytes: usize,
}

impl<T> StreamingDataProcessor<T> {
    /// The items buffered, oldest first.
    pub closed spec fn buffered(&self) -> Seq<T> {
        self.buffer@
    }

    /// The batch size.
    pub closed spec fn capacity(&self) -> usize {
        self.max_buffer_size
    }

    /// The items handed over so far.
    pub closed spec fn processed(&self) -> u64 {
        self.items_processed
    }

    /// The bytes of the buffered items, as reported when they were added.
    pub closed spec fn memory(&self) -> usize {
        self.memory_usage_bytes
    }

    /// An empty processor handing over batches of `max_buffer_size`.
    pub fn new(max_buffer_size: usize) -> (p: Self)
        ensures
            p.buffered() == Seq::<T>::empty(),
            p.capacity() == max_buffer_size,
            p.processed() == 0,
            p.memory() == 0,
    {
        StreamingDataProcessor { buffer: Vec::new(), max_buffer_size, items_processed: 0, memory_usage_bytes: 0 }
    }

    /// Adds an item of `item_size_bytes`; once the buffer holds the batch
    /// size, the whole buffer is handed over and emptied.
    pub fn add_item(&mut self, item: T, item_size_bytes: usize) -> (batch: Option<Vec<T>>)
        ensures
            final(self).capacity() == old(self).capacity(),
            old(self).buffered().len() + 1 >= old(self).capacity() ==> {
                &&& batch matches Some(b)
                &&& b@ == old(self).buffered().push(item)
                &&& final(self).buffered() == Seq::<T>::empty()
                &&& final(self).memory() == 0
                &&& final(self).processed() == old(self).processed().wrapping_add(b.len() as u64)
            },
            old(self).buffered().len() + 1 < old(self).capacity() ==> {
                &&& batch is None
                &&& final(self).buffered() == old(self).buffered().push(item)
                &&& final(self).memory() == old(self).memory().wrapping_add(item_size_bytes)
                &&& final(self).processed() == old(self).processed()
            },
    {
        self.buffer.push(item);
        self.memory_usage_bytes = self.memory_usage_bytes.wrapping_add(item_size_bytes);
        if self.buffer.len() >= self.max_buffer_size {
            let mut batch: Vec<T> = Vec::new();
            std::mem::swap(&mut batch, &mut self.buffer);
            self.items_processed = self.items_processed.wrapping_add(batch.len() as u64);
            self.memory_usage_bytes = 0;
            Some(batch)
        } else {
            None
        }
    }

    /// Hands over whatever is buffered.
    pub fn flush(&mut self) -> (rest: Vec<T>)
        ensures
            rest@ == old(self).buffered(),
            final(self).buffered() == Seq::<T>::empty(),
            final(self).memory() == 0,
            final(self).processed() == old(self).processed().wrapping_add(rest.len() as u64),
            final(self).capacity() == old(self).capacity(),
    {
        let mut rest: Vec<T> = Vec::new();
        std::mem::swap(&mut rest, &mut self.buffer);
        self.items_processed = self.items_processed.wrapping_add(rest.len() as u64);
        self.memory_usage_bytes = 0;
        rest
    }

    /// Items handed over, bytes buffered and items buffered.
    pub fn get_stats(&self) -> (s: (u64, usize, usize))
        ensures
            s == (self.processed(), self.memory(), self.buffered().len() as usize),
    {
        (self.items_processed, self.memory_usage_bytes, self.buffer.len())
    }
}

/// The batches handed over and the items left buffered after adding each
/// of `items` in turn to an empty processor of batch size `cap`.
pub open spec fn streamed<T>(items: Seq<T>, cap: nat) -> (Seq<Seq<T>>, Seq<T>)
    decreases items.len(),
{
    if items.len() == 0 {
        (Seq::empty(), Seq::empty())
    } else {
        let (batches, buffer) = streamed(items.drop_last(), cap);
        let grown = buffer.push(items.last());
        if grown.len() >= cap {
            (batches.push(grown), Seq::empty())
        } else {
            (batches, grown)
        }
    }
}

/// No item is lost or reordered: the batches handed over, followed by what
/// is still buffered, are exactly the items added, in order.
pub proof fn law_stream_keeps_every_item<T>(items: Seq<T>, cap: nat)
    ensures
        flatten(streamed(items, cap).0) + streamed(items, cap).1 == items,
    decreases items.len(),
{
    if items.len() > 0 {
        let prefix = items.drop_last();
        law_stream_keeps_every_item(prefix, cap);
        let (batches, buffer) = streamed(prefix, cap);
        let grown = buffer.push(items.last());
        assert(items =~= prefix.push(items.last()));
        if grown.len() >= cap {
            assert(batches.push(grown).drop_last() =~= batches);
            assert(flatten(batches.push(grown)) == flatten(batches) + grown);
            assert(flatten(batches) + grown + Seq::<T>::empty() =~= items);
        } else {
            assert(flatten(batches) + grown =~= items);
        }
    } else {
        assert(flatten(Seq::<Seq<T>>::empty()) + Seq::<T>::empty() =~= items);
    }
}

/// The target size of a time series that optimization reduces: a longer
/// series keeps every n-th point, n being its length divided by this
/// target, so it can still end up longer than the target (1500 points
/// give a step of 1 and stay 1500).
pub const MAX_POINTS_PER_SERIES: usize = 1000;

/// Every `step`-th point of `data`, starting with the first.
pub open spec fn every_nth<T>(data: Seq<T>, step: nat) -> Seq<T>
    recommends
        step > 0,
{
    Seq::new(
        ((data.len() + step - 1) / (step as int)) as nat,
        |k: int| data[k * step],
    )
}

/// Thins a series longer than `target` by keeping every
/// `len / target`-th point from the first; a shorter one stays.
pub fn decimate<T: Copy>(data: &Vec<T>, target: usize) -> (r: Vec<T>)
    requires
        data.len() > target ==> target > 0,
    ensures
        data.len() <= target ==> r@ == data@,
        data.len() > target ==> r@ == every_nth(data@, (data.len() / target) as nat),
{
    if data.len() <= target {
        let mut r: Vec<T> = Vec::new();
        let mut i: usize = 0;
        while i < data.len()
            invariant
                i <= data.len(),
                r@ == data@.take(i as int),
            decreases data.len() - i,
        {
            r.push(data[i]);
            assert(r@ =~= data@.take(i + 1));
            i += 1;
        }
        assert(data@.take(data.len() as int) =~= data@);
        return r;
    }
    let n = data.len();
    let step = n / target;
    proof {
        vstd::arithmetic::div_mod::lemma_div_is_ordered(target as int, n as int, target as int);
        vstd::arithmetic::div_mod::lemma_div_basics(target as int);
        vstd::arithmetic::div_mod::lemma_div_is_ordered_by_denominator(n as int, 1, target as int);
        vstd::arithmetic::div_mod::lemma_div_basics(n as int);
    }
    assert(1 <= step <= n);
    let q = n / step;
    proof {
        vstd::arithmetic::div_mod::lemma_fundamental_div_mod(n as int, step as int);
        vstd::arithmetic::div_mod::lemma_mod_pos_bound(n as int, step as int);
        assert(q <= q * step) by (nonlinear_arith)
            requires
                step >= 1,
                q >= 0,
        ;
        vstd::arithmetic::mul::lemma_mul_is_commutative(q as int, step as int);
        assert(q * step <= n);
    }
    let count = if n % step == 0 { q } else { q + 1 };
    proof {
        lemma_point_count(n as int, step as int);
    }
    let mut r: Vec<T> = Vec::new();
    let mut k: usize = 0;
    while k < count
        invariant
            n == data.len(),
            step >= 1,
            count == (n + step - 1) / (step as int),
            r.len() == k,
            k <= count,
            forall|j: int| 0 <= j < k ==> #[trigger] r@[j] == data@[j * step],
        decreases count - k,
    {
        proof {
            lemma_point_in_range(n as int, step as int, k as int);
        }
        r.push(data[k * step]);
        k += 1;
    }
    assert(r@ =~= every_nth(data@, step as nat));
    r
}

/// The number of points kept: `len / step`, one more when it does not
/// divide.
proof fn lemma_point_count(n: int, step: int)
    requires
        step >= 1,
        n >= 0,
    ensures
        (n + step - 1) / step == n / step + if n % step == 0 { 0int } else { 1int },
{
    vstd::arithmetic::div_mod::lemma_fundamental_div_mod(n, step);
    vstd::arithmetic::div_mod::lemma_mod_pos_bound(n, step);
    let (q, r) = (n / step, n % step);
    if r == 0 {
        assert(n + step - 1 == q * step + (step - 1)) by (nonlinear_arith)
            requires
                n == step * q,
        ;
        vstd::arithmetic::div_mod::lemma_fundamental_div_mod_converse(n + step - 1, step, q, step - 1);
    } else {
        assert(n + step - 1 == (q + 1) * step + (r - 1)) by (nonlinear_arith)
            requires
                n == step * q + r,
        ;
        vstd::arithmetic::div_mod::lemma_fundamental_div_mod_converse(n + step - 1, step, q + 1, r - 1);
    }
}

/// Every index of a kept point lies inside the series.
proof fn lemma_point_in_range(n: int, step: int, k: int)
    requires
        step >= 1,
        0 <= k < (n + step - 1) / step,
    ensures
        0 <= k * step < n,
{
    vstd::arithmetic::div_mod::lemma_fundamental_div_mod(n + step - 1, step);
    vstd::arithmetic::div_mod::lemma_mod_pos_bound(n + step - 1, step);
    let q = (n + step - 1) / step;
    assert(0 <= k * step < n) by (nonlinear_arith)
        requires
            0 <= k < q,
            step >= 1,
            n + step - 1 == step * q + (n + step - 1) % step,
            0 <= (n + step - 1) % step < step,
    ;
}

/// Keeps at most `max` items of a list, the first ones.
pub fn cap_length<T>(v: &mut Vec<T>, max: usize)
    ensures
        old(v).len() <= max ==> final(v)@ == old(v)@,
        old(v).len() > max ==> final(v)@ == old(v)@.take(max as int),
{
    if v.len() > max {
        v.truncate(max);
    }
}

/// Most recent activity entries the dashboard keeps.
pub const MAX_RECENT_ACTIVITY: usize = 50;
/// Most top commands the dashboard keeps.
pub const MAX_TOP_COMMANDS: usize = 20;
/// Most active alerts the dashboard keeps.
pub const MAX_ACTIVE_ALERTS: usize = 10;

/// Counts of tracked allocations.
pub struct MemoryTracker {
    allocations: u64,
    deallocations: u64,
    current_bytes: usize,
    peak_bytes: usize,
}

impl MemoryTracker {
    /// Allocations recorded.
    pub closed spec fn spec_allocations(&self) -> u64 {
        self.allocations
    }

    /// Deallocations recorded.
    pub closed spec fn spec_deallocations(&self) -> u64 {
        self.deallocations
    }

    /// Bytes in use.
    pub closed spec fn spec_current(&self) -> usize {
        self.current_bytes
    }

    /// The most bytes in use after any allocation.
    pub closed spec fn spec_peak(&self) -> usize {
        self.peak_bytes
    }

    /// A tracker with nothing recorded.
    pub fn new() -> (t: Self)
        ensures
            t.spec_allocations() == 0,
            t.spec_deallocations() == 0,
            t.spec_current() == 0,
            t.spec_peak() == 0,
    {
        MemoryTracker { allocations: 0, deallocations: 0, current_bytes: 0, peak_bytes: 0 }
    }

    /// Records an allocation of `size_bytes`; the usage must stay within a
    /// `usize`.
    pub fn record_allocation(&mut self, size_bytes: usize)
        requires
            old(self).spec_current() + size_bytes <= usize::MAX,
        ensures
            final(self).spec_allocations() == old(self).spec_allocations().wrapping_add(1),
            final(self).spec_current() == old(self).spec_current() + size_bytes,
            final(self).spec_peak() == if old(self).spec_current() + size_bytes > old(self).spec_peak() {
                (old(self).spec_current() + size_bytes) as usize
            } else {
                old(self).spec_peak()
            },
            final(self).spec_deallocations() == old(self).spec_deallocations(),
    {
        self.allocations = self.allocations.wrapping_add(1);
        let new_usage = self.current_bytes + size_bytes;
        self.current_bytes = new_usage;
        if new_usage > self.peak_bytes {
            self.peak_bytes = new_usage;
        }
    }

    /// Records a deallocation of `size_bytes` (the count wraps as the
    /// atomic counter it stands for does).
    pub fn record_deallocation(&mut self, size_bytes: usize)
        ensures
            final(self).spec_deallocations() == old(self).spec_deallocations().wrapping_add(1),
            final(self).spec_current() == old(self).spec_current().wrapping_sub(size_bytes),
            final(self).spec_peak() == old(self).spec_peak(),
            final(self).spec_allocations() == old(self).spec_allocations(),
    {
        self.deallocations = self.deallocations.wrapping_add(1);
        self.current_bytes = self.current_bytes.wrapping_sub(size_bytes);
    }

    /// Allocations, deallocations, bytes in use and peak bytes.
    pub fn counts(&self) -> (c: (u64, u64, usize, usize))
        ensures
            c == (self.spec_allocations(), self.spec_deallocations(), self.spec_current(), self.spec_peak()),
    {
        (self.allocations, self.deallocations, self.current_bytes, self.peak_bytes)
    }
}

/// The peak never falls below the usage, as long as no deallocation frees
/// more than is in use: after an allocation the peak covers the new usage,
/// and a deallocation only lowers the usage.
pub proof fn law_peak_covers_usage(current: usize, peak: usize, size: usize)
    requires
        current <= peak,
        current + size <= usize::MAX,
    ensures
        ({
            let after = (current + size) as usize;
            let new_peak = if after > peak { after } else { peak };
            &&& after <= new_peak
            &&& new_peak >= peak
        }),
        size <= current ==> current.wrapping_sub(size) <= peak,
{
}

} // verus!
