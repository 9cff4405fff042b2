//! Time series built in one pass: entries are grouped into fixed time
//! buckets, and the buckets between two instants form the series.

use vstd::prelude::*;
use crate::text::{decimal, decimal_string};

verus! {

/// Types of time series data that can be generated.
#[derive(Debug, Clone, Copy, PartialEq, Eq, Structural)]
pub enum TimeSeriesType {
    Cost,
    Commands,
    SuccessRate,
    ResponseTime,
}

/// The name of a series type, as its `Debug` form writes it.
pub open spec fn series_name(t: TimeSeriesType) -> Seq<char> {
    match t {
        TimeSeriesType::Cost => "Cost"@,
        TimeSeriesType::Commands => "Commands"@,
        TimeSeriesType::SuccessRate => "SuccessRate"@,
        TimeSeriesType::ResponseTime => "ResponseTime"@,
    }
}

impl TimeSeriesType {
    /// The name of the series type.
    pub fn name(&self) -> (n: &'static str)
        ensures
            n@ == series_name(*self),
    {
        match self {
            TimeSeriesType::Cost => "Cost",
            TimeSeriesType::Commands => "Commands",
            TimeSeriesType::SuccessRate => "SuccessRate",
            TimeSeriesType::ResponseTime => "ResponseTime",
        }
    }
}

/// Configuration for time series generation.
#[derive(Debug, Clone, Copy, PartialEq, Eq, Structural)]
pub struct TimeSeriesConfig {
    /// Time bucket size (in minutes).
    pub bucket_size_minutes: u32,
    /// Whether to enable parallel processing.
    pub enable_parallel_processing: bool,
    /// Whether to use caching.
    pub enable_caching: bool,
    /// Cache TTL in seconds.
    pub cache_ttl_seconds: u64,
}

impl Default for TimeSeriesConfig {
    fn default() -> (c: Self)
        ensures
            c == (TimeSeriesConfig {
                bucket_size_minutes: 60,
                enable_parallel_processing: true,
                enable_caching: true,
                cache_ttl_seconds: 300,
            }),
    {
        TimeSeriesConfig {
            bucket_size_minutes: 60,
            enable_parallel_processing: true,
            enable_caching: true,
            cache_ttl_seconds: 300,
        }
    }
}

/// Integer division rounding towards zero, as Rust's `/` on integers does.
pub open spec fn trunc_div(a: int, b: int) -> int {
    if a >= 0 {
        a / b
    } else {
        -((-a) / b)
    }
}

/// The start (in seconds since the epoch) of the bucket of `bucket_minutes`
/// minutes that holds the instant `ts`: whole minutes since the epoch,
/// rounded towards zero to a multiple of the bucket size.
pub open spec fn bucket_start(ts: int, bucket_minutes: int) -> int {
    trunc_div(trunc_div(ts, 60), bucket_minutes) * bucket_minutes * 60
}

/// The start of the bucket that holds `ts` (seconds since the epoch).
pub fn align_to_bucket(ts: i64, bucket_minutes: u32) -> (aligned: i64)
    requires
        bucket_minutes > 0,
    ensures
        aligned == bucket_start(ts as int, bucket_minutes as int),
{
    let minutes = ts / 60;
    let bm = bucket_minutes as i64;
    let q = minutes / bm;
    proof {
        lemma_trunc_div_bound(ts as int, 60);
        lemma_trunc_div_bound(minutes as int, bm as int);
        assert(minutes == trunc_div(ts as int, 60));
        assert(q == trunc_div(minutes as int, bm as int));
        lemma_aligned_fits(ts as int, minutes as int, q as int, bm as int);
    }
    q * bm * 60
}

/// Truncating division by a positive number shrinks the magnitude.
proof fn lemma_trunc_div_bound(a: int, b: int)
    requires
        b > 0,
    ensures
        a >= 0 ==> 0 <= trunc_div(a, b) <= a,
        a < 0 ==> a <= trunc_div(a, b) <= 0,
        b * trunc_div(a, b) <= a || a < 0,
        a >= 0 ==> trunc_div(a, b) * b <= a,
        a < 0 ==> a <= trunc_div(a, b) * b <= 0,
{
    if a >= 0 {
        vstd::arithmetic::div_mod::lemma_div_pos_is_pos(a, b);
        vstd::arithmetic::div_mod::lemma_div_is_ordered_by_denominator(a, 1, b);
        vstd::arithmetic::div_mod::lemma_fundamental_div_mod(a, b);
        vstd::arithmetic::div_mod::lemma_mod_pos_bound(a, b);
        vstd::arithmetic::mul::lemma_mul_is_commutative(a / b, b);
    } else {
        let p = -a;
        vstd::arithmetic::div_mod::lemma_div_pos_is_pos(p, b);
        vstd::arithmetic::div_mod::lemma_div_is_ordered_by_denominator(p, 1, b);
        vstd::arithmetic::div_mod::lemma_fundamental_div_mod(p, b);
        vstd::arithmetic::div_mod::lemma_mod_pos_bound(p, b);
        vstd::arithmetic::mul::lemma_mul_is_commutative(p / b, b);
        vstd::arithmetic::mul::lemma_mul_unary_negation(p / b, b);
    }
}

/// The aligned instant fits in an `i64` and the computation cannot overflow.
proof fn lemma_aligned_fits(ts: int, minutes: int, q: int, bm: int)
    requires
        bm > 0,
        i64::MIN <= ts <= i64::MAX,
        minutes == trunc_div(ts, 60),
        q == trunc_div(minutes, bm),
    ensures
        i64::MIN <= q * bm <= i64::MAX,
        i64::MIN <= q * bm * 60 <= i64::MAX,
{
    lemma_trunc_div_bound(ts, 60);
    lemma_trunc_div_bound(minutes, bm);
    if minutes >= 0 {
        assert(0 <= q * bm <= minutes);
        assert(0 <= q * bm * 60 <= minutes * 60) by (nonlinear_arith)
            requires
                0 <= q * bm <= minutes,
        ;
    } else {
        assert(minutes <= q * bm <= 0);
        assert(minutes * 60 <= q * bm * 60 <= 0) by (nonlinear_arith)
            requires
                minutes <= q * bm <= 0,
        ;
    }
}

/// How far `from` lies below `to`, or zero.
pub open spec fn gap(from: int, to: int) -> int {
    if from < to {
        to - from
    } else {
        0
    }
}

/// The bucket starts of a series from `start` to `end`: from the bucket
/// holding `start`, one bucket length apart, while before `end`.
pub open spec fn grid(first: int, step: int, end: int) -> Seq<int>
    decreases gap(first, end),
    when step > 0
{
    if first >= end {
        Seq::empty()
    } else {
        seq![first] + grid(first + step, step, end)
    }
}

/// The bucket starts of a series from `start` to `end` (seconds since the
/// epoch) with buckets of `bucket_minutes` minutes; the last bucket start
/// plus one bucket must fit in an `i64`.
pub fn bucket_grid(start: i64, end: i64, bucket_minutes: u32) -> (g: Vec<i64>)
    requires
        bucket_minutes > 0,
        end + bucket_minutes * 60 <= i64::MAX,
    ensures
        g@.map_values(|t: i64| t as int) == grid(
            bucket_start(start as int, bucket_minutes as int),
            bucket_minutes * 60,
            end as int,
        ),
{
    let step: i64 = bucket_minutes as i64 * 60;
    let first = align_to_bucket(start, bucket_minutes);
    let mut g: Vec<i64> = Vec::new();
    let mut current = first;
    let ghost whole = grid(first as int, step as int, end as int);
    while current < end
        invariant
            step == bucket_minutes * 60,
            step > 0,
            end + step <= i64::MAX,
            current < end ==> current + step <= i64::MAX,
            whole == g@.map_values(|t: i64| t as int) + grid(current as int, step as int, end as int),
        decreases gap(current as int, end as int),
    {
        g.push(current);
        let ghost rest = grid(current as int, step as int, end as int);
        assert(rest == seq![current as int] + grid(current + step, step as int, end as int));
        current = current + step;
        assert(whole =~= g@.map_values(|t: i64| t as int) + grid(current as int, step as int, end as int));
    }
    assert(grid(current as int, step as int, end as int) =~= Seq::<int>::empty());
    assert(whole =~= g@.map_values(|t: i64| t as int));
    g
}

/// The positions `i < upto` of the timestamps that fall in the bucket
/// starting at `b`, in increasing order.
pub open spec fn members(ts: Seq<i64>, bucket_minutes: int, b: int, upto: int) -> Seq<usize>
    decreases upto,
{
    if upto <= 0 {
        Seq::empty()
    } else if bucket_start(ts[upto - 1] as int, bucket_minutes) == b {
        members(ts, bucket_minutes, b, upto - 1).push((upto - 1) as usize)
    } else {
        members(ts, bucket_minutes, b, upto - 1)
    }
}

/// The positions of the timestamps that fall in the bucket starting at
/// `b`, in increasing order.
pub fn bucket_members(timestamps: &Vec<i64>, bucket_minutes: u32, b: i64) -> (m: Vec<usize>)
    requires
        bucket_minutes > 0,
    ensures
        m@ == members(timestamps@, bucket_minutes as int, b as int, timestamps.len() as int),
{
    let mut m: Vec<usize> = Vec::new();
    let mut i: usize = 0;
    while i < timestamps.len()
        invariant
            bucket_minutes > 0,
            i <= timestamps.len(),
            m@ == members(timestamps@, bucket_minutes as int, b as int, i as int),
        decreases timestamps.len() - i,
    {
        if align_to_bucket(timestamps[i], bucket_minutes) == b {
            m.push(i);
        }
        i += 1;
    }
    m
}

/// The entries of each bucket of the series from `start` to `end`: one list
/// of positions per bucket start, in the order of `bucket_grid`.
pub fn group_by_bucket(timestamps: &Vec<i64>, start: i64, end: i64, bucket_minutes: u32) -> (r: (
    Vec<i64>,
    Vec<Vec<usize>>,
))
    requires
        bucket_minutes > 0,
        end + bucket_minutes * 60 <= i64::MAX,
    ensures
        r.0@.map_values(|t: i64| t as int) == grid(
            bucket_start(start as int, bucket_minutes as int),
            bucket_minutes * 60,
            end as int,
        ),
        r.1.len() == r.0.len(),
        forall|k: int|
            0 <= k < r.1.len() ==> (#[trigger] r.1@[k])@ == members(
                timestamps@,
                bucket_minutes as int,
                r.0@[k] as int,
                timestamps.len() as int,
            ),
{
    let g = bucket_grid(start, end, bucket_minutes);
    let mut groups: Vec<Vec<usize>> = Vec::new();
    let mut k: usize = 0;
    while k < g.len()
        invariant
            bucket_minutes > 0,
            k <= g.len(),
            groups.len() == k,
            forall|j: int|
                0 <= j < k ==> (#[trigger] groups@[j])@ == members(
                    timestamps@,
                    bucket_minutes as int,
                    g@[j] as int,
                    timestamps.len() as int,
                ),
        decreases g.len() - k,
    {
        groups.push(bucket_members(timestamps, bucket_minutes, g[k]));
        k += 1;
    }
    (g, groups)
}

/// Every multiple of `step` past `first` and before `end` is a start of
/// the grid.
proof fn lemma_grid_contains(first: int, step: int, end: int, k: nat)
    requires
        step > 0,
        first + k * step < end,
    ensures
        grid(first, step, end).contains(first + k * step),
    decreases k,
{
    let x = first + k * step;
    assert(k * step >= 0) by (nonlinear_arith)
        requires
            step > 0,
    ;
    let whole = grid(first, step, end);
    let rest = grid(first + step, step, end);
    assert(whole == seq![first] + rest);
    if k == 0 {
        assert(k * step == 0) by (nonlinear_arith)
            requires
                k == 0,
        ;
        assert(whole[0] == x);
    } else {
        assert(x == (first + step) + (k - 1) * step) by (nonlinear_arith)
            requires
                x == first + k * step,
        ;
        lemma_grid_contains(first + step, step, end, (k - 1) as nat);
        assert(rest.contains(x));
        let i = choose|i: int| 0 <= i < rest.len() && rest[i] == x;
        assert(whole[i + 1] == x);
    }
}

/// Bucketing loses no entry: every instant from `start` (not before the
/// epoch) up to `end` falls in one of the buckets of the series from
/// `start` to `end`.
pub proof fn law_buckets_cover_range(start: int, end: int, bucket_minutes: int, ts: int)
    requires
        0 <= start <= ts < end,
        bucket_minutes > 0,
    ensures
        grid(bucket_start(start, bucket_minutes), bucket_minutes * 60, end).contains(
            bucket_start(ts, bucket_minutes),
        ),
{
    let bm = bucket_minutes;
    let (ms, mt) = (start / 60, ts / 60);
    vstd::arithmetic::div_mod::lemma_div_is_ordered(start, ts, 60);
    vstd::arithmetic::div_mod::lemma_div_pos_is_pos(start, 60);
    let (qs, qt) = (ms / bm, mt / bm);
    vstd::arithmetic::div_mod::lemma_div_is_ordered(ms, mt, bm);
    vstd::arithmetic::div_mod::lemma_div_pos_is_pos(ms, bm);
    vstd::arithmetic::div_mod::lemma_div_pos_is_pos(mt, bm);
    assert(bucket_start(ts, bm) == qt * bm * 60);
    assert(bucket_start(start, bm) == qs * bm * 60);
    lemma_trunc_div_bound(ts, 60);
    lemma_trunc_div_bound(mt, bm);
    assert(qt * bm * 60 <= mt * 60) by (nonlinear_arith)
        requires
            qt * bm <= mt,
    ;
    let k = (qt - qs) as nat;
    assert(qt * bm * 60 == qs * bm * 60 + k * (bm * 60)) by (nonlinear_arith)
        requires
            k == qt - qs,
    ;
    lemma_grid_contains(qs * bm * 60, bm * 60, end, k);
}

/// Text of a signed number, as `i64`'s `Display` writes it.
pub open spec fn signed_decimal(x: int) -> Seq<char> {
    if x < 0 {
        "-"@ + decimal((-x) as nat)
    } else {
        decimal(x as nat)
    }
}

/// The text of a signed number.
pub fn signed_string(x: i64) -> (s: String)
    ensures
        s@ == signed_decimal(x as int),
{
    if x < 0 {
        let magnitude: u64 = if x == i64::MIN {
            9_223_372_036_854_775_808u64
        } else {
            (-x) as u64
        };
        let mut s = String::from_str("-");
        let d = decimal_string(magnitude);
        s.append(d.as_str());
        s
    } else {
        decimal_string(x as u64)
    }
}

/// The names of the series types, one after another.
pub open spec fn series_names(types: Seq<TimeSeriesType>) -> Seq<char>
    decreases types.len(),
{
    if types.len() == 0 {
        Seq::empty()
    } else {
        series_names(types.drop_last()) + series_name(types.last())
    }
}

/// The key a generated set of series is cached under:
/// `<start>:<end>:<type names>:<bucket minutes>`.
pub fn series_cache_key(start: i64, end: i64, types: &Vec<TimeSeriesType>, bucket_minutes: u32) -> (k: String)
    ensures
        k@ == signed_decimal(start as int) + ":"@ + signed_decimal(end as int) + ":"@ + series_names(types@)
            + ":"@ + decimal(bucket_minutes as nat),
{
    let mut k = signed_string(start);
    k.append(":");
    let e = signed_string(end);
    k.append(e.as_str());
    k.append(":");
    let ghost prefix = k@;
    let mut i: usize = 0;
    while i < types.len()
        invariant
            i <= types.len(),
            k@ == prefix + series_names(types@.take(i as int)),
        decreases types.len() - i,
    {
        assert(types@.take(i + 1).drop_last() =~= types@.take(i as int));
        k.append(types[i].name());
        i += 1;
    }
    assert(types@.take(types.len() as int) =~= types@);
    k.append(":");
    let b = decimal_string(bucket_minutes as u64);
    k.append(b.as_str());
    k
}

/// The integer figures of one bucket of command history: how many entries
/// it holds, how many succeeded, their total duration, and the shortest
/// and longest duration (`None` when the bucket is empty).
#[derive(Debug, Clone, Copy, PartialEq, Eq, Structural)]
pub struct BucketStats {
    pub count: usize,
    pub successful: usize,
    pub total_duration_ms: u64,
    pub min_duration_ms: Option<u64>,
    pub max_duration_ms: Option<u64>,
}

/// The number of the entries at `members` that succeeded.
pub open spec fn successes_of(success: Seq<bool>, members: Seq<usize>) -> nat
    decreases members.len(),
{
    if members.len() == 0 {
        0
    } else {
        successes_of(success, members.drop_last()) + if success[members.last() as int] { 1nat } else { 0nat }
    }
}

/// The total duration of the entries at `members`.
pub open spec fn duration_sum(durations: Seq<u64>, members: Seq<usize>) -> nat
    decreases members.len(),
{
    if members.len() == 0 {
        0
    } else {
        duration_sum(durations, members.drop_last()) + durations[members.last() as int] as nat
    }
}

/// The shortest duration of the entries at `members`.
pub open spec fn duration_min(durations: Seq<u64>, members: Seq<usize>) -> Option<u64>
    decreases members.len(),
{
    if members.len() == 0 {
        None
    } else {
        let d = durations[members.last() as int];
        match duration_min(durations, members.drop_last()) {
            Some(m) => Some(if d < m { d } else { m }),
            None => Some(d),
        }
    }
}

/// The longest duration of the entries at `members`.
pub open spec fn duration_max(durations: Seq<u64>, members: Seq<usize>) -> Option<u64>
    decreases members.len(),
{
    if members.len() == 0 {
        None
    } else {
        let d = durations[members.last() as int];
        match duration_max(durations, members.drop_last()) {
            Some(m) => Some(if d > m { d } else { m }),
            None => Some(d),
        }
    }
}

/// The figures of the bucket whose entries are at `members`, for entries
/// with the given durations (in milliseconds) and outcomes. The total
/// duration must fit a `u64`, as summing it requires.
pub fn bucket_stats(durations: &Vec<u64>, success: &Vec<bool>, members: &Vec<usize>) -> (r: BucketStats)
    requires
        durations.len() == success.len(),
        forall|k: int| 0 <= k < members.len() ==> #[trigger] members@[k] < durations.len(),
        duration_sum(durations@, members@) <= u64::MAX,
    ensures
        r.count == members.len(),
        r.successful == successes_of(success@, members@),
        r.total_duration_ms == duration_sum(durations@, members@),
        r.min_duration_ms == duration_min(durations@, members@),
        r.max_duration_ms == duration_max(durations@, members@),
{
    let mut successful: usize = 0;
    let mut total: u64 = 0;
    let mut min: Option<u64> = None;
    let mut max: Option<u64> = None;
    let mut k: usize = 0;
    while k < members.len()
        invariant
            durations.len() == success.len(),
            forall|j: int| 0 <= j < members.len() ==> #[trigger] members@[j] < durations.len(),
            duration_sum(durations@, members@) <= u64::MAX,
            k <= members.len(),
            successful == successes_of(success@, members@.take(k as int)),
            successful <= k,
            total == duration_sum(durations@, members@.take(k as int)),
            min == duration_min(durations@, members@.take(k as int)),
            max == duration_max(durations@, members@.take(k as int)),
        decreases members.len() - k,
    {
        let ghost prefix = members@.take(k + 1);
        assert(prefix.drop_last() =~= members@.take(k as int));
        assert(prefix.last() == members@[k as int]);
        proof {
            lemma_duration_sum_prefix(durations@, members@, k + 1);
        }
        let m = members[k];
        let d = durations[m];
        if success[m] {
            successful = successful + 1;
        }
        total = total + d;
        min = match min {
            Some(x) => Some(if d < x { d } else { x }),
            None => Some(d),
        };
        max = match max {
            Some(x) => Some(if d > x { d } else { x }),
            None => Some(d),
        };
        k += 1;
    }
    assert(members@.take(members.len() as int) =~= members@);
    BucketStats {
        count: members.len(),
        successful,
        total_duration_ms: total,
        min_duration_ms: min,
        max_duration_ms: max,
    }
}

/// The total of a prefix of the members is at most the total of all.
proof fn lemma_duration_sum_prefix(durations: Seq<u64>, members: Seq<usize>, k: int)
    requires
        0 <= k <= members.len(),
    ensures
        duration_sum(durations, members.take(k)) <= duration_sum(durations, members),
    decreases members.len() - k,
{
    if k < members.len() {
        lemma_duration_sum_prefix(durations, members, k + 1);
        assert(members.take(k + 1).drop_last() =~= members.take(k));
    } else {
        assert(members.take(k) =~= members);
    }
}

/// The series generated so far for one request, one slot per series type,
/// and how many were generated.
pub struct SeriesSet<D> {
    pub cost: Option<D>,
    pub commands: Option<D>,
    pub success_rate: Option<D>,
    pub response_time: Option<D>,
    pub total_queries: usize,
}

/// The slot of `t` in `s`.
pub open spec fn series_slot<D>(s: SeriesSet<D>, t: TimeSeriesType) -> Option<D> {
    match t {
        TimeSeriesType::Cost => s.cost,
        TimeSeriesType::Commands => s.commands,
        TimeSeriesType::SuccessRate => s.success_rate,
        TimeSeriesType::ResponseTime => s.response_time,
    }
}

impl<D> SeriesSet<D> {
    /// No series generated yet.
    pub fn new() -> (s: Self)
        ensures
            forall|t: TimeSeriesType| #[trigger] series_slot(s, t) is None,
            s.total_queries == 0,
    {
        SeriesSet { cost: None, commands: None, success_rate: None, response_time: None, total_queries: 0 }
    }

    /// Records the series generated for `t`: it fills that slot, and one
    /// more series counts as generated.
    pub fn record(&mut self, t: TimeSeriesType, data: D)
        requires
            old(self).total_queries < usize::MAX,
        ensures
            series_slot(*final(self), t) == Some(data),
            forall|u: TimeSeriesType| u != t ==> #[trigger] series_slot(*final(self), u) == series_slot(*old(self), u),
            final(self).total_queries == old(self).total_queries + 1,
    {
        match t {
            TimeSeriesType::Cost => self.cost = Some(data),
            TimeSeriesType::Commands => self.commands = Some(data),
            TimeSeriesType::SuccessRate => self.success_rate = Some(data),
            TimeSeriesType::ResponseTime => self.response_time = Some(data),
        }
        self.total_queries = self.total_queries + 1;
    }

    /// Takes in the outcome of generating the series of `t`. A success is
    /// recorded. A failure leaves the set as it was; generating one series
    /// after another, the failure is handed back so the request stops
    /// there; generating them side by side, it is skipped.
    pub fn record_outcome<E>(&mut self, t: TimeSeriesType, outcome: Result<D, E>, one_after_another: bool) -> (r: Result<(), E>)
        requires
            outcome is Ok ==> old(self).total_queries < usize::MAX,
        ensures
            match outcome {
                Ok(d) => {
                    &&& r is Ok
                    &&& series_slot(*final(self), t) == Some(d)
                    &&& forall|u: TimeSeriesType| u != t ==> #[trigger] series_slot(*final(self), u) == series_slot(*old(self), u)
                    &&& final(self).total_queries == old(self).total_queries + 1
                },
                Err(e) => {
                    &&& forall|u: TimeSeriesType| #[trigger] series_slot(*final(self), u) == series_slot(*old(self), u)
                    &&& final(self).total_queries == old(self).total_queries
                    &&& if one_after_another { r == Err::<(), E>(e) } else { r is Ok }
                },
            },
    {
        match outcome {
            Ok(d) => {
                self.record(t, d);
                Ok(())
            },
            Err(e) => {
                if one_after_another {
                    Err(e)
                } else {
                    Ok(())
                }
            },
        }
    }
}

} // verus!
