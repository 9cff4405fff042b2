//! Recovery from runtime failures: a three-state circuit breaker, stream
//! reconnection with exponential backoff, and a bounded buffer of partial
//! results.

use vstd::prelude::*;
use crate::time::{instant_now, millis_since, Duration};

verus! {

/// The state of a circuit breaker.
#[derive(Debug, Clone, Copy, PartialEq, Eq, Structural)]
pub enum CircuitState {
    /// Requests go through.
    Closed,
    /// Requests are refused because of failures.
    Open,
    /// Requests go through on trial, to test recovery.
    HalfOpen,
}

/// The values a circuit breaker holds, as the rules speak of them. Times
/// are milliseconds on the breaker's clock.
pub struct BreakerView {
    pub state: CircuitState,
    pub failure_threshold: u32,
    pub success_threshold: u32,
    pub open_timeout: u128,
    pub failure_count: u32,
    pub success_count: u32,
    pub last_state_change: u64,
}

/// The breaker after moving to `to` at time `now`: counters reset and the
/// time of change recorded, unless it is already in that state.
pub open spec fn transition(b: BreakerView, to: CircuitState, now: u64) -> BreakerView {
    if b.state == to {
        b
    } else {
        BreakerView { state: to, failure_count: 0, success_count: 0, last_state_change: now, ..b }
    }
}

/// The breaker once the open timeout is checked at `now`: an open breaker
/// whose timeout has run out becomes half-open.
pub open spec fn checked(b: BreakerView, now: u64) -> BreakerView {
    if b.state == CircuitState::Open && now >= b.last_state_change && now - b.last_state_change
        >= b.open_timeout {
        transition(b, CircuitState::HalfOpen, now)
    } else {
        b
    }
}

/// The breaker after a successful call at `now`: enough successes while
/// half-open close it; a success while closed clears the failure count.
pub open spec fn after_success(b: BreakerView, now: u64) -> BreakerView {
    match b.state {
        CircuitState::HalfOpen => {
            let count = b.success_count.wrapping_add(1);
            if count >= b.success_threshold {
                transition(BreakerView { success_count: count, ..b }, CircuitState::Closed, now)
            } else {
                BreakerView { success_count: count, ..b }
            }
        },
        CircuitState::Closed => BreakerView { failure_count: 0, ..b },
        CircuitState::Open => b,
    }
}

/// The breaker after a failed call at `now`: enough failures while closed
/// open it; any failure while half-open opens it again.
pub open spec fn after_failure(b: BreakerView, now: u64) -> BreakerView {
    match b.state {
        CircuitState::Closed => {
            let count = b.failure_count.wrapping_add(1);
            if count >= b.failure_threshold {
                transition(BreakerView { failure_count: count, ..b }, CircuitState::Open, now)
            } else {
                BreakerView { failure_count: count, ..b }
            }
        },
        CircuitState::HalfOpen => transition(b, CircuitState::Open, now),
        CircuitState::Open => b,
    }
}

/// A circuit breaker that stops calls to a failing service and lets a few
/// through on trial once a timeout has passed.
pub struct CircuitBreaker {
    state: CircuitState,
    failure_threshold: u32,
    success_threshold: u32,
    open_timeout: Duration,
    failure_count: u32,
    success_count: u32,
    last_state_change: u64,
    clock_origin: std::time::Instant,
}

impl View for CircuitBreaker {
    type V = BreakerView;

    closed spec fn view(&self) -> BreakerView {
        BreakerView {
            state: self.state,
            failure_threshold: self.failure_threshold,
            success_threshold: self.success_threshold,
            open_timeout: self.open_timeout.millis,
            failure_count: self.failure_count,
            success_count: self.success_count,
            last_state_change: self.last_state_change,
        }
    }
}

impl CircuitBreaker {
    /// A closed breaker that opens after `failure_threshold` failures in a
    /// row, waits `open_timeout` before a trial, and closes again after
    /// `success_threshold` trial successes. Its clock starts now.
    pub fn new(failure_threshold: u32, success_threshold: u32, open_timeout: Duration) -> (b: Self)
        ensures
            b@ == (BreakerView {
                state: CircuitState::Closed,
                failure_threshold,
                success_threshold,
                open_timeout: open_timeout.millis,
                failure_count: 0,
                success_count: 0,
                last_state_change: 0,
            }),
    {
        CircuitBreaker {
            state: CircuitState::Closed,
            failure_threshold,
            success_threshold,
            open_timeout,
            failure_count: 0,
            success_count: 0,
            last_state_change: 0,
            clock_origin: instant_now(),
        }
    }

    /// Milliseconds elapsed on the breaker's clock.
    pub fn now_millis(&self) -> u64 {
        millis_since(&self.clock_origin)
    }

    fn transition_to(&mut self, to: CircuitState, now: u64)
        ensures
            final(self)@ == transition(old(self)@, to, now),
            final(self).clock_origin == old(self).clock_origin,
    {
        if self.state != to {
            self.state = to;
            self.last_state_change = now;
            self.failure_count = 0;
            self.success_count = 0;
        }
    }

    /// Checks the open timeout at time `now`.
    pub fn check_state_transition_at(&mut self, now: u64)
        ensures
            final(self)@ == checked(old(self)@, now),
    {
        if self.state == CircuitState::Open && now >= self.last_state_change && ((now
            - self.last_state_change) as u128) >= self.open_timeout.millis {
            self.transition_to(CircuitState::HalfOpen, now);
        }
    }

    /// Whether a call may go ahead at time `now`, checking the open
    /// timeout first: every state but open lets it through.
    pub fn allows_call_at(&mut self, now: u64) -> (allowed: bool)
        ensures
            final(self)@ == checked(old(self)@, now),
            allowed == (final(self)@.state != CircuitState::Open),
    {
        self.check_state_transition_at(now);
        self.state != CircuitState::Open
    }

    /// Records a successful call at time `now`.
    pub fn on_success_at(&mut self, now: u64)
        ensures
            final(self)@ == after_success(old(self)@, now),
    {
        match self.state {
            CircuitState::HalfOpen => {
                let count = self.success_count.wrapping_add(1);
                self.success_count = count;
                if count >= self.success_threshold {
                    self.transition_to(CircuitState::Closed, now);
                }
            },
            CircuitState::Closed => {
                self.failure_count = 0;
            },
            CircuitState::Open => {},
        }
    }

    /// Records a failed call at time `now`.
    pub fn on_failure_at(&mut self, now: u64)
        ensures
            final(self)@ == after_failure(old(self)@, now),
    {
        match self.state {
            CircuitState::Closed => {
                let count = self.failure_count.wrapping_add(1);
                self.failure_count = count;
                if count >= self.failure_threshold {
                    self.transition_to(CircuitState::Open, now);
                }
            },
            CircuitState::HalfOpen => {
                self.transition_to(CircuitState::Open, now);
            },
            CircuitState::Open => {},
        }
    }

    /// Whether a call may go ahead now.
    pub fn allows_call(&mut self) -> (allowed: bool)
        ensures
            exists|t: u64| #[trigger] checked(old(self)@, t) == final(self)@,
            allowed == (final(self)@.state != CircuitState::Open),
    {
        let now = self.now_millis();
        self.allows_call_at(now)
    }

    /// Records a call that ended now, successfully or not.
    pub fn record_outcome(&mut self, succeeded: bool)
        ensures
            succeeded ==> exists|t: u64| #[trigger] after_success(old(self)@, t) == final(self)@,
            !succeeded ==> exists|t: u64| #[trigger] after_failure(old(self)@, t) == final(self)@,
    {
        let now = self.now_millis();
        if succeeded {
            self.on_success_at(now);
        } else {
            self.on_failure_at(now);
        }
    }

    /// The current state.
    pub fn current_state(&self) -> (s: CircuitState)
        ensures
            s == self@.state,
    {
        self.state
    }
}

/// The message a call refused by an open breaker fails with.
pub open spec fn breaker_open_message() -> Seq<char> {
    "Service unavailable - circuit breaker is open"@
}

/// The text of the error a refused call gets.
pub fn breaker_open_error() -> (m: String)
    ensures
        m@ == breaker_open_message(),
{
    String::from_str("Service unavailable - circuit breaker is open")
}

/// `failure_threshold` failures in a row open a closed breaker (whose
/// threshold is at least one), and it refuses calls until the timeout.
pub proof fn law_failures_open_breaker(b: BreakerView, now: u64)
    requires
        b.state == CircuitState::Closed,
        b.failure_threshold >= 1,
        b.failure_count + 1 == b.failure_threshold,
    ensures
        after_failure(b, now).state == CircuitState::Open,
        after_failure(b, now).last_state_change == now,
        forall|t: u64| now <= t < now + b.open_timeout ==> #[trigger] checked(after_failure(b, now), t).state
            == CircuitState::Open,
{
}

/// A failure on a closed breaker opens it exactly when it brings the
/// number of failures in a row to the threshold; otherwise the breaker
/// stays closed with one more failure counted.
pub proof fn law_closed_breaker_opens_at_threshold(b: BreakerView, now: u64)
    requires
        b.state == CircuitState::Closed,
        b.failure_count < u32::MAX,
    ensures
        (after_failure(b, now).state == CircuitState::Open) <==> (b.failure_count + 1 >= b.failure_threshold),
        (after_failure(b, now).state == CircuitState::Closed) <==> (b.failure_count + 1 < b.failure_threshold),
        b.failure_count + 1 < b.failure_threshold ==> after_failure(b, now).failure_count == b.failure_count + 1,
{
}

/// The breaker after failures at each of `times` in turn.
pub open spec fn after_failures(b: BreakerView, times: Seq<u64>) -> BreakerView
    decreases times.len(),
{
    if times.len() == 0 {
        b
    } else {
        after_failure(after_failures(b, times.drop_last()), times.last())
    }
}

/// From a closed breaker with no failures counted, fewer failures in a row
/// than the threshold leave it closed, counting them; the failure that
/// reaches the threshold opens it.
pub proof fn law_failures_below_threshold_keep_closed(b: BreakerView, times: Seq<u64>)
    requires
        b.state == CircuitState::Closed,
        b.failure_count == 0,
        times.len() <= b.failure_threshold,
    ensures
        times.len() < b.failure_threshold ==> after_failures(b, times).state == CircuitState::Closed
            && after_failures(b, times).failure_count == times.len(),
        times.len() == b.failure_threshold && times.len() > 0 ==> after_failures(b, times).state
            == CircuitState::Open,
        after_failures(b, times).failure_threshold == b.failure_threshold,
    decreases times.len(),
{
    if times.len() > 0 {
        law_failures_below_threshold_keep_closed(b, times.drop_last());
        let prev = after_failures(b, times.drop_last());
        assert(after_failures(b, times) == after_failure(prev, times.last()));
        assert(prev.state == CircuitState::Closed && prev.failure_count == times.len() - 1);
        law_closed_breaker_opens_at_threshold(prev, times.last());
    } else {
        assert(after_failures(b, times) == b);
    }
}

/// An open breaker becomes half-open once its timeout has run out, and a
/// failure while half-open opens it again.
pub proof fn law_timeout_then_trial(b: BreakerView, t: u64, later: u64)
    requires
        b.state == CircuitState::Open,
        t >= b.last_state_change,
        t - b.last_state_change >= b.open_timeout,
    ensures
        checked(b, t).state == CircuitState::HalfOpen,
        checked(b, t).failure_count == 0 && checked(b, t).success_count == 0,
        after_failure(checked(b, t), later).state == CircuitState::Open,
{
}

/// `success_threshold` trial successes close a half-open breaker.
pub proof fn law_successes_close_breaker(b: BreakerView, now: u64)
    requires
        b.state == CircuitState::HalfOpen,
        b.success_count + 1 == b.success_threshold,
    ensures
        after_success(b, now).state == CircuitState::Closed,
        after_success(b, now).failure_count == 0,
{
}

/// A success while closed clears the failures counted so far.
pub proof fn law_success_clears_failures(b: BreakerView, now: u64)
    requires
        b.state == CircuitState::Closed,
    ensures
        after_success(b, now).failure_count == 0,
        after_success(b, now).state == CircuitState::Closed,
{
}

// ---------------------------------------------------------------- reconnection

/// The milliseconds of `d` as the backoff reads them: as a `u64`, that is
/// modulo 2^64.
pub open spec fn low_millis(d: Duration) -> nat {
    (d.millis % 0x1_0000_0000_0000_0000) as nat
}

/// The longest backoff before a reconnection, in milliseconds.
pub const MAX_BACKOFF_MILLIS: u64 = 60_000;

/// The backoff before reconnection attempt `attempt` (counting from zero),
/// before jitter: the base delay doubled per attempt, at most a minute.
pub open spec fn backoff_millis(base: nat, attempt: nat) -> nat {
    let exponential = base * vstd::arithmetic::power2::pow2(attempt);
    if exponential <= 60_000 {
        exponential
    } else {
        60_000
    }
}

/// Reconnection backs off exponentially up to a minute: no backoff is longer
/// than a minute, none is shorter than the one before, and while under the
/// cap each is twice the one before.
pub proof fn law_backoff_grows_to_cap(base: nat, attempt: nat)
    ensures
        backoff_millis(base, attempt) <= 60_000,
        backoff_millis(base, attempt) <= backoff_millis(base, attempt + 1),
        base * vstd::arithmetic::power2::pow2(attempt + 1) <= 60_000 ==> backoff_millis(base, attempt + 1) == 2
            * backoff_millis(base, attempt),
{
    vstd::arithmetic::power2::lemma_pow2_unfold(attempt + 1);
    let p = vstd::arithmetic::power2::pow2(attempt);
    assert(base * (2 * p) == 2 * (base * p)) by (nonlinear_arith);
    assert(base * p <= 2 * (base * p)) by (nonlinear_arith);
}

/// What the reconnection manager does when asked to reconnect.
#[derive(Debug, Clone, Copy, PartialEq, Eq, Structural)]
pub enum ReconnectStep {
    /// The attempts are used up: the stream stays closed and the count
    /// starts over.
    GiveUp,
    /// Wait about `delay` (before jitter), then try to connect; this is
    /// attempt number `attempt`, counting from zero.
    Attempt { attempt: u32, delay: Duration },
}

/// Reconnection of a stream with exponential backoff, and counts of how
/// connections went.
pub struct StreamReconnectionManager {
    attempts: u32,
    max_attempts: u32,
    base_delay: Duration,
    successful_connections: u64,
    failed_connections: u64,
}

impl StreamReconnectionManager {
    /// The reconnection attempts made since the last success or give-up.
    pub closed spec fn attempts(&self) -> u32 {
        self.attempts
    }

    /// The most attempts in a row.
    pub closed spec fn max_attempts(&self) -> u32 {
        self.max_attempts
    }

    /// The delay before the first retry.
    pub closed spec fn base_delay(&self) -> Duration {
        self.base_delay
    }

    /// Connections that succeeded.
    pub closed spec fn successes(&self) -> u64 {
        self.successful_connections
    }

    /// Connections that failed.
    pub closed spec fn failures(&self) -> u64 {
        self.failed_connections
    }

    /// A manager with no attempt made yet.
    pub fn new(max_attempts: u32, base_delay: Duration) -> (m: Self)
        ensures
            m.attempts() == 0,
            m.max_attempts() == max_attempts,
            m.base_delay() == base_delay,
            m.successes() == 0,
            m.failures() == 0,
    {
        StreamReconnectionManager {
            attempts: 0,
            max_attempts,
            base_delay,
            successful_connections: 0,
            failed_connections: 0,
        }
    }

    /// The backoff before attempt `attempt`, before jitter. The doubling
    /// must fit in a `u64`.
    pub fn calculate_backoff(&self, attempt: u32) -> (d: Duration)
        requires
            attempt < 64,
            low_millis(self.base_delay()) * vstd::arithmetic::power2::pow2(attempt as nat) <= u64::MAX,
        ensures
            d.millis == backoff_millis(low_millis(self.base_delay()), attempt as nat),
    {
        let mut factor: u64 = 1;
        let mut k: u32 = 0;
        proof {
            vstd::arithmetic::power2::lemma2_to64();
        }
        while k < attempt
            invariant
                k <= attempt < 64,
                factor == vstd::arithmetic::power2::pow2(k as nat),
                low_millis(self.base_delay()) * vstd::arithmetic::power2::pow2(attempt as nat) <= u64::MAX,
            decreases attempt - k,
        {
            proof {
                vstd::arithmetic::power2::lemma_pow2_unfold((k + 1) as nat);
                vstd::arithmetic::power2::lemma_pow2_strictly_increases((k + 1) as nat, 64);
                vstd::arithmetic::power2::lemma2_to64_rest();
            }
            factor = factor * 2;
            k += 1;
        }
        let base = (self.base_delay.millis % 0x1_0000_0000_0000_0000u128) as u64;
        let exponential = base * factor;
        if exponential <= MAX_BACKOFF_MILLIS {
            Duration::from_millis(exponential)
        } else {
            Duration::from_millis(MAX_BACKOFF_MILLIS)
        }
    }

    /// Starts a reconnection: once `max_attempts` attempts were made the
    /// manager gives up and starts counting again; else it counts the
    /// attempt and gives its backoff.
    pub fn begin_attempt(&mut self) -> (step: ReconnectStep)
        requires
            old(self).attempts() < old(self).max_attempts() ==> old(self).attempts() < 64
                && low_millis(old(self).base_delay()) * vstd::arithmetic::power2::pow2(
                old(self).attempts() as nat,
            ) <= u64::MAX,
        ensures
            old(self).attempts() >= old(self).max_attempts() ==> step == ReconnectStep::GiveUp
                && final(self).attempts() == 0,
            old(self).attempts() < old(self).max_attempts() ==> {
                &&& step matches ReconnectStep::Attempt { attempt, delay }
                &&& attempt == old(self).attempts()
                &&& delay.millis == backoff_millis(
                    low_millis(old(self).base_delay()),
                    old(self).attempts() as nat,
                )
                &&& final(self).attempts() == old(self).attempts() + 1
            },
            final(self).max_attempts() == old(self).max_attempts(),
            final(self).base_delay() == old(self).base_delay(),
            final(self).successes() == old(self).successes(),
            final(self).failures() == old(self).failures(),
    {
        let current = self.attempts;
        if current >= self.max_attempts {
            self.attempts = 0;
            return ReconnectStep::GiveUp;
        }
        self.attempts = current + 1;
        let delay = self.calculate_backoff(current);
        ReconnectStep::Attempt { attempt: current, delay }
    }

    /// Records a connection that succeeded: the attempts start over.
    pub fn on_success(&mut self)
        ensures
            final(self).attempts() == 0,
            final(self).successes() == old(self).successes().wrapping_add(1),
            final(self).failures() == old(self).failures(),
            final(self).max_attempts() == old(self).max_attempts(),
            final(self).base_delay() == old(self).base_delay(),
    {
        self.attempts = 0;
        self.successful_connections = self.successful_connections.wrapping_add(1);
    }

    /// Records a connection that failed.
    pub fn on_failure(&mut self)
        ensures
            final(self).attempts() == old(self).attempts(),
            final(self).successes() == old(self).successes(),
            final(self).failures() == old(self).failures().wrapping_add(1),
            final(self).max_attempts() == old(self).max_attempts(),
            final(self).base_delay() == old(self).base_delay(),
    {
        self.failed_connections = self.failed_connections.wrapping_add(1);
    }

    /// The most attempts in a row.
    pub fn attempt_limit(&self) -> (n: u32)
        ensures
            n == self.max_attempts(),
    {
        self.max_attempts
    }

    /// The delay before the first retry.
    pub fn backoff_base(&self) -> (d: Duration)
        ensures
            d == self.base_delay(),
    {
        self.base_delay
    }

    /// The attempts made since the last success or give-up.
    pub fn current_attempts(&self) -> (n: u32)
        ensures
            n == self.attempts(),
    {
        self.attempts
    }

    /// The connections made in all, successful or not.
    pub fn total_connections(&self) -> (n: u64)
        requires
            self.successes() + self.failures() <= u64::MAX,
        ensures
            n == self.successes() + self.failures(),
    {
        self.successful_connections + self.failed_connections
    }

    /// The connections that succeeded.
    pub fn successful_connections(&self) -> (n: u64)
        ensures
            n == self.successes(),
    {
        self.successful_connections
    }
}

// ---------------------------------------------------------------- partial results

/// The buffer after saving `data` with room for `max` chunks: the oldest
/// chunk goes when the buffer is full.
pub open spec fn saved(buffer: Seq<String>, max: nat, data: String) -> Seq<String> {
    if buffer.len() >= max {
        buffer.drop_first().push(data)
    } else {
        buffer.push(data)
    }
}

/// The buffer after saving each chunk of `chunks` in turn, starting empty.
pub open spec fn saved_all(chunks: Seq<String>, max: nat) -> Seq<String>
    decreases chunks.len(),
{
    if chunks.len() == 0 {
        Seq::empty()
    } else {
        saved(saved_all(chunks.drop_last(), max), max, chunks.last())
    }
}

/// Partial results of an interrupted stream, the most recent ones kept.
pub struct PartialResultRecovery {
    buffer: Vec<String>,
    last_checkpoint: Option<usize>,
    max_buffer_size: usize,
}

impl PartialResultRecovery {
    /// The chunks kept, oldest first.
    pub closed spec fn chunks(&self) -> Seq<String> {
        self.buffer@
    }

    /// The checkpoint: the buffer's length after the last save.
    pub closed spec fn checkpoint(&self) -> Option<usize> {
        self.last_checkpoint
    }

    /// How many chunks are kept at most.
    pub closed spec fn capacity(&self) -> usize {
        self.max_buffer_size
    }

    /// Whether the buffer holds no more chunks than its capacity.
    pub open spec fn wf(&self) -> bool {
        self.chunks().len() <= self.capacity()
    }

    /// An empty buffer with room for `max_buffer_size` chunks.
    pub fn new(max_buffer_size: usize) -> (r: Self)
        ensures
            r.chunks() == Seq::<String>::empty(),
            r.checkpoint() is None,
            r.capacity() == max_buffer_size,
            r.wf(),
    {
        PartialResultRecovery { buffer: Vec::new(), last_checkpoint: None, max_buffer_size }
    }

    /// Saves a chunk, dropping the oldest when the buffer is full. A buffer
    /// without room can hold nothing, so its capacity must be positive.
    pub fn save_partial(&mut self, data: String)
        requires
            old(self).wf(),
            old(self).capacity() > 0,
        ensures
            final(self).chunks() == saved(old(self).chunks(), old(self).capacity() as nat, data),
            final(self).checkpoint() == Some(final(self).chunks().len() as usize),
            final(self).capacity() == old(self).capacity(),
            final(self).wf(),
    {
        if self.buffer.len() >= self.max_buffer_size {
            self.buffer.remove(0);
        }
        self.buffer.push(data);
        self.last_checkpoint = Some(self.buffer.len());
    }

    /// The chunks kept, oldest first.
    pub fn recover(&self) -> (r: Vec<String>)
        ensures
            r@ == self.chunks(),
    {
        let mut r: Vec<String> = Vec::new();
        let mut i: usize = 0;
        while i < self.buffer.len()
            invariant
                i <= self.buffer.len(),
                r@ == self.buffer@.take(i as int),
            decreases self.buffer.len() - i,
        {
            r.push(self.buffer[i].clone());
            assert(r@ =~= self.buffer@.take(i + 1));
            i += 1;
        }
        assert(self.buffer@.take(self.buffer.len() as int) =~= self.buffer@);
        r
    }

    /// The checkpoint of the last save, if any.
    pub fn last_checkpoint(&self) -> (c: Option<usize>)
        ensures
            c == self.checkpoint(),
    {
        self.last_checkpoint
    }

    /// Empties the buffer and forgets the checkpoint.
    pub fn clear(&mut self)
        ensures
            final(self).chunks() == Seq::<String>::empty(),
            final(self).checkpoint() is None,
            final(self).capacity() == old(self).capacity(),
            final(self).wf(),
    {
        self.buffer.clear();
        self.last_checkpoint = None;
    }
}

/// Saving chunks one by one into an empty buffer of positive capacity keeps
/// exactly the most recent ones, at most as many as the capacity, in the
/// order they were saved; since each save sets the checkpoint to the
/// buffer's length, the checkpoint after the last save is the smaller of
/// the number of chunks saved and the capacity.
pub proof fn law_buffer_keeps_latest(chunks: Seq<String>, max: nat)
    requires
        max > 0,
    ensures
        saved_all(chunks, max) == chunks.skip(if chunks.len() > max { chunks.len() - max } else { 0 }),
        saved_all(chunks, max).len() == if chunks.len() > max { max } else { chunks.len() },
    decreases chunks.len(),
{
    if chunks.len() > 0 {
        let prefix = chunks.drop_last();
        law_buffer_keeps_latest(prefix, max);
        let start = if prefix.len() > max { prefix.len() - max } else { 0 };
        let kept = prefix.skip(start);
        if kept.len() >= max {
            assert(kept.drop_first().push(chunks.last()) =~= chunks.skip(chunks.len() - max));
        } else {
            assert(kept.push(chunks.last()) =~= chunks.skip(0));
        }
    } else {
        assert(chunks.skip(0) =~= chunks);
    }
}

} // verus!
