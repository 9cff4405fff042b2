//! Error handling for calls to external services: a consecutive-failure
//! circuit breaker, retry decisions with capped exponential backoff, and the
//! mapping of HTTP status codes to workflow errors.

use crate::text::{concat_strs, decimal, decimal_string};
use crate::time::{instant_now, millis_since, Duration};
use vstd::prelude::*;
use vstd::string::*;

verus! {

/// Errors reported by workflow steps that talk to external services.
#[derive(Debug, Clone)]
pub enum WorkflowError {
    ExternalServiceError { service: String, message: String },
    TimeoutError(String),
    ConnectionError(String),
    AuthenticationError { message: String },
    NotFound { resource: String },
    RateLimitExceeded,
    Other { message: String },
}

/// The health of a service.
#[derive(Debug, Clone)]
pub enum ServiceHealth {
    Healthy,
    Degraded { reason: String },
    Unhealthy { reason: String },
}

/// The outcome of one health check.
#[derive(Debug)]
pub struct HealthCheckResult {
    pub service: String,
    pub status: ServiceHealth,
    pub last_check: std::time::Instant,
    pub response_time: Option<Duration>,
}

/// Whether a failed call with this error is worth another attempt.
pub open spec fn spec_is_retryable(err: WorkflowError) -> bool {
    match err {
        WorkflowError::ExternalServiceError { .. } => true,
        WorkflowError::TimeoutError(_) => true,
        WorkflowError::ConnectionError(_) => true,
        _ => false,
    }
}

/// Whether a failed call with this error is worth another attempt:
/// service errors, timeouts and connection errors are; the others are not.
pub fn is_retryable(err: &WorkflowError) -> (r: bool)
    ensures
        r == spec_is_retryable(*err),
{
    match err {
        WorkflowError::ExternalServiceError { .. } => true,
        WorkflowError::TimeoutError(_) => true,
        WorkflowError::ConnectionError(_) => true,
        WorkflowError::AuthenticationError { .. } => false,
        WorkflowError::NotFound { .. } => false,
        _ => false,
    }
}

/// Transient failures are retried: a service error, a timeout and a
/// lost or refused connection are worth another attempt, whatever their
/// messages; a refused authentication, a missing resource, an exceeded rate
/// limit and any other error are not.
pub proof fn law_transient_errors_are_retried(service: String, message: String)
    ensures
        spec_is_retryable(WorkflowError::ExternalServiceError { service, message }),
        spec_is_retryable(WorkflowError::TimeoutError(message)),
        spec_is_retryable(WorkflowError::ConnectionError(message)),
        !spec_is_retryable(WorkflowError::AuthenticationError { message }),
        !spec_is_retryable(WorkflowError::NotFound { resource: message }),
        !spec_is_retryable(WorkflowError::RateLimitExceeded),
        !spec_is_retryable(WorkflowError::Other { message }),
{
}

/// Retry policy for external service calls
#[derive(Debug, Clone, Copy)]
pub struct RetryPolicy {
    pub max_attempts: u32,
    pub initial_delay: Duration,
    pub max_delay: Duration,
    pub exponential_backoff: bool,
}

impl Default for RetryPolicy {
    fn default() -> (p: Self)
        ensures
            p.max_attempts == 3,
            p.initial_delay.millis == 100,
            p.max_delay.millis == 10_000,
            p.exponential_backoff,
    {
        Self {
            max_attempts: 3,
            initial_delay: Duration::from_millis(100),
            max_delay: Duration::from_secs(10),
            exponential_backoff: true,
        }
    }
}

/// The smaller of twice `delay` and `cap`, in milliseconds.
pub open spec fn doubled_capped(delay: nat, cap: nat) -> nat {
    if 2 * delay <= cap {
        2 * delay
    } else {
        cap
    }
}

/// The delay that follows `delay` under `policy`.
pub open spec fn next_delay_millis(policy: RetryPolicy, delay: nat) -> nat {
    if policy.exponential_backoff {
        doubled_capped(delay, policy.max_delay.millis as nat)
    } else {
        delay
    }
}

/// The delay before the retry that follows the `k`-th failed attempt
/// (counting from zero).
pub open spec fn nth_delay_millis(policy: RetryPolicy, k: nat) -> nat
    decreases k,
{
    if k == 0 {
        policy.initial_delay.millis as nat
    } else {
        next_delay_millis(policy, nth_delay_millis(policy, (k - 1) as nat))
    }
}

impl RetryPolicy {
    /// The delay to wait after the one of `delay`: doubled and capped at
    /// `max_delay` under exponential backoff, unchanged otherwise.
    pub fn next_delay(&self, delay: Duration) -> (next: Duration)
        ensures
            next.millis == next_delay_millis(*self, delay.millis as nat),
    {
        if self.exponential_backoff {
            if delay.millis <= self.max_delay.millis / 2 {
                Duration { millis: 2 * delay.millis }
            } else {
                self.max_delay
            }
        } else {
            delay
        }
    }
}

/// Error handling configuration for external services
#[derive(Debug, Clone, Copy)]
pub struct ErrorHandlingConfig {
    pub retry_policy: RetryPolicy,
    pub circuit_breaker_enabled: bool,
    pub failure_threshold: u32,
    pub recovery_timeout: Duration,
    pub log_errors: bool,
}

impl Default for ErrorHandlingConfig {
    fn default() -> (c: Self)
        ensures
            c.retry_policy.max_attempts == 3,
            c.retry_policy.initial_delay.millis == 100,
            c.retry_policy.max_delay.millis == 10_000,
            c.retry_policy.exponential_backoff,
            c.circuit_breaker_enabled,
            c.failure_threshold == 5,
            c.recovery_timeout.millis == 60_000,
            c.log_errors,
    {
        Self {
            retry_policy: RetryPolicy::default(),
            circuit_breaker_enabled: true,
            failure_threshold: 5,
            recovery_timeout: Duration::from_secs(60),
            log_errors: true,
        }
    }
}

/// `a + b`, or `u64::MAX` where the sum does not fit.
fn add_saturating(a: u64, b: u128) -> (r: u64)
    ensures
        r == saturating_sum(a, b),
{
    if b > (u64::MAX - a) as u128 {
        u64::MAX
    } else {
        a + b as u64
    }
}

/// `a + b`, or `u64::MAX` where the sum does not fit.
pub open spec fn saturating_sum(a: u64, b: u128) -> u64 {
    if a + b > u64::MAX {
        u64::MAX
    } else {
        (a + b) as u64
    }
}

/// Whether a circuit that stays open until `until` is open at time `now`.
pub open spec fn circuit_open(until: Option<u64>, now: u64) -> bool {
    match until {
        Some(u) => now < u,
        None => false,
    }
}

/// What to do after an attempt of a retried operation has failed.
#[derive(Debug, Clone, Copy, PartialEq, Eq, Structural)]
pub enum RetryStep {
    /// Wait `wait`, then try again; the wait after that one is `next_wait`.
    Retry { wait: Duration, next_wait: Duration },
    /// Stop and report the error.
    GiveUp,
}

/// Enhanced error handling for external service operations
#[derive(Debug)]
pub struct ErrorHandler {
    config: ErrorHandlingConfig,
    consecutive_failures: u32,
    /// Milliseconds on this handler's clock until which the circuit is open.
    circuit_open_until: Option<u64>,
    clock_origin: std::time::Instant,
}

impl ErrorHandler {
    /// The configuration the handler was made with.
    pub closed spec fn spec_config(&self) -> ErrorHandlingConfig {
        self.config
    }

    /// The number of failures recorded since the last success.
    pub closed spec fn failures(&self) -> u32 {
        self.consecutive_failures
    }

    /// The time (milliseconds on the handler's clock) until which the
    /// circuit stays open, if it was opened.
    pub closed spec fn open_until(&self) -> Option<u64> {
        self.circuit_open_until
    }

    /// Whether the circuit is open at time `now`.
    pub open spec fn open_at(&self, now: u64) -> bool {
        circuit_open(self.open_until(), now)
    }

    /// Whether recording a failure that brings the count to `failures`
    /// opens the circuit.
    pub open spec fn trips_at(&self, failures: nat) -> bool {
        self.spec_config().circuit_breaker_enabled && failures >= self.spec_config().failure_threshold
    }

    /// The handler after a failure recorded at `now`.
    pub open spec fn after_failure(&self, now: u64) -> (u32, Option<u64>) {
        let failures = (self.failures() + 1) as u32;
        if self.trips_at(failures as nat) {
            (failures, Some(saturating_sum(now, self.spec_config().recovery_timeout.millis)))
        } else {
            (failures, self.open_until())
        }
    }

    pub fn new(config: ErrorHandlingConfig) -> (h: Self)
        ensures
            h.spec_config() == config,
            h.failures() == 0,
            h.open_until() is None,
    {
        Self {
            config,
            consecutive_failures: 0,
            circuit_open_until: None,
            clock_origin: instant_now(),
        }
    }

    /// The configuration the handler was made with.
    pub fn config(&self) -> (c: ErrorHandlingConfig)
        ensures
            c == self.spec_config(),
    {
        self.config
    }

    /// The number of failures recorded since the last success.
    pub fn consecutive_failures(&self) -> (n: u32)
        ensures
            n == self.failures(),
    {
        self.consecutive_failures
    }

    /// Milliseconds elapsed on this handler's clock.
    pub fn now_millis(&self) -> u64 {
        millis_since(&self.clock_origin)
    }

    /// Whether the circuit is open at time `now` of the handler's clock.
    pub fn is_circuit_open_at(&self, now: u64) -> (open: bool)
        ensures
            open == self.open_at(now),
    {
        match self.circuit_open_until {
            Some(until) => now < until,
            None => false,
        }
    }

    /// Check if circuit breaker is open
    pub fn is_circuit_open(&self) -> (open: bool)
        ensures
            self.open_until() is None ==> !open,
            open ==> exists|now: u64| self.open_at(now),
    {
        let now = self.now_millis();
        self.is_circuit_open_at(now)
    }

    /// Record a successful operation
    pub fn record_success(&mut self)
        ensures
            final(self).spec_config() == old(self).spec_config(),
            final(self).failures() == 0,
            final(self).open_until() is None,
    {
        self.consecutive_failures = 0;
        self.circuit_open_until = None;
    }

    /// Record a failed operation at time `now` of the handler's clock.
    pub fn record_failure_at(&mut self, now: u64)
        requires
            old(self).failures() < u32::MAX,
        ensures
            final(self).spec_config() == old(self).spec_config(),
            (final(self).failures(), final(self).open_until()) == old(self).after_failure(now),
    {
        self.consecutive_failures = self.consecutive_failures + 1;
        if self.config.circuit_breaker_enabled
            && self.consecutive_failures >= self.config.failure_threshold {
            self.circuit_open_until = Some(add_saturating(now, self.config.recovery_timeout.millis));
        }
    }

    /// Record a failed operation
    pub fn record_failure(&mut self)
        requires
            old(self).failures() < u32::MAX,
        ensures
            final(self).spec_config() == old(self).spec_config(),
            exists|now: u64|
                (final(self).failures(), final(self).open_until()) == old(self).after_failure(now),
    {
        let now = self.now_millis();
        self.record_failure_at(now);
    }

    /// The decision after attempt number `attempt` (counting from one)
    /// failed with `err`, while the next wait would be `delay`: give up
    /// (recording a failure at `now`) when the error is not retryable or the
    /// attempts are used up, else wait `delay` and try again.
    pub fn after_failed_attempt(
        &mut self,
        attempt: u32,
        err: &WorkflowError,
        delay: Duration,
        now: u64,
    ) -> (step: RetryStep)
        requires
            old(self).failures() < u32::MAX,
        ensures
            final(self).spec_config() == old(self).spec_config(),
            !spec_is_retryable(*err) || attempt >= old(self).spec_config().retry_policy.max_attempts
                ==> step == RetryStep::GiveUp && (final(self).failures(), final(self).open_until())
                == old(self).after_failure(now),
            spec_is_retryable(*err) && attempt < old(self).spec_config().retry_policy.max_attempts
                ==> {
                &&& step matches RetryStep::Retry { wait, next_wait }
                &&& wait == delay
                &&& next_wait.millis == next_delay_millis(
                    old(self).spec_config().retry_policy,
                    delay.millis as nat,
                )
                &&& final(self).failures() == old(self).failures()
                &&& final(self).open_until() == old(self).open_until()
            },
    {
        if !is_retryable(err) || attempt >= self.config.retry_policy.max_attempts {
            self.record_failure_at(now);
            RetryStep::GiveUp
        } else {
            let next_wait = self.config.retry_policy.next_delay(delay);
            RetryStep::Retry { wait: delay, next_wait }
        }
    }
}

/// The error reported when a call is refused because the circuit is open.
pub fn circuit_open_error(service_name: &str) -> (e: WorkflowError)
    ensures
        e matches WorkflowError::ExternalServiceError { service, message } && (service@
            == service_name@ && message@ == "Circuit breaker is open due to repeated failures"@),
{
    WorkflowError::ExternalServiceError {
        service: String::from_str(service_name),
        message: String::from_str("Circuit breaker is open due to repeated failures"),
    }
}

/// A status line from a code and its reason phrase, if it has one.
pub open spec fn status_line_text(code: u16, reason: Option<Seq<char>>) -> Seq<char> {
    decimal(code as nat) + " "@ + match reason {
        Some(r) => r,
        None => "<unknown status code>"@,
    }
}

/// The text of a status line: `"<code> <reason>"`, as `StatusCode` displays.
pub open spec fn status_text(code: u16) -> Seq<char> {
    status_line_text(code, canonical_reason_text(code))
}

/// The canonical reason phrase of an HTTP status code, as
/// `reqwest::StatusCode::canonical_reason` gives it.
pub uninterp spec fn canonical_reason_text(code: u16) -> Option<Seq<char>>;

/// `reqwest::StatusCode::canonical_reason` of the status with number `code`
/// (100 to 999, the numbers `StatusCode::from_u16` accepts). The contract
/// ties the result to the code through `canonical_reason_text`; the table of
/// reason phrases itself is not restated here.
#[verifier::external_body]
fn status_canonical_reason(code: u16) -> (r: Option<&'static str>)
    requires
        100 <= code <= 999,
    ensures
        match r {
            Some(s) => canonical_reason_text(code) == Some(s@),
            None => canonical_reason_text(code) is None,
        },
{
    match reqwest::StatusCode::from_u16(code) {
        Ok(status) => status.canonical_reason(),
        Err(_) => None,
    }
}

/// The status line of an HTTP status code: its number, a space and its
/// reason phrase (or `<unknown status code>`).
pub fn http_status_text(code: u16) -> (s: String)
    requires
        100 <= code <= 999,
    ensures
        s@ == status_text(code),
{
    status_line(code, status_canonical_reason(code))
}

/// The status line of a code with the given reason phrase: the number, a
/// space and the phrase, or `<unknown status code>` without one.
pub fn status_line(code: u16, reason: Option<&str>) -> (s: String)
    ensures
        s@ == status_line_text(
            code,
            match reason {
                Some(r) => Some(r@),
                None => None,
            },
        ),
{
    let mut s = decimal_string(code as u64);
    s.append(" ");
    match reason {
        Some(r) => s.append(r),
        None => s.append("<unknown status code>"),
    }
    s
}

/// Common error transformations for external services: 401 and 403 are
/// authentication errors, 404 a missing resource, 429 a rate limit, 503 and
/// 504 a temporarily unavailable service, every other code a service error
/// that carries the status line.
pub fn transform_http_error(status: u16, service: &str) -> (e: WorkflowError)
    requires
        100 <= status <= 999,
    ensures
        status == 401 ==> {
            &&& e matches WorkflowError::AuthenticationError { message }
            &&& message@ == service@ + " authentication failed"@
        },
        status == 403 ==> {
            &&& e matches WorkflowError::AuthenticationError { message }
            &&& message@ == service@ + " access forbidden"@
        },
        status == 404 ==> {
            &&& e matches WorkflowError::NotFound { resource }
            &&& resource@ == service@ + " resource"@
        },
        status == 429 ==> e matches WorkflowError::RateLimitExceeded,
        status == 503 || status == 504 ==> {
            &&& e matches WorkflowError::ExternalServiceError { service: svc, message }
            &&& svc@ == service@
            &&& message@ == "Service temporarily unavailable"@
        },
        status != 401 && status != 403 && status != 404 && status != 429 && status != 503
            && status != 504 ==> {
            &&& e matches WorkflowError::ExternalServiceError { service: svc, message }
            &&& svc@ == service@
            &&& message@ == "HTTP error: "@ + status_text(status)
        },
{
    if status == 401 {
        WorkflowError::AuthenticationError { message: concat_strs(service, " authentication failed") }
    } else if status == 403 {
        WorkflowError::AuthenticationError { message: concat_strs(service, " access forbidden") }
    } else if status == 404 {
        WorkflowError::NotFound { resource: concat_strs(service, " resource") }
    } else if status == 429 {
        WorkflowError::RateLimitExceeded
    } else if status == 503 || status == 504 {
        WorkflowError::ExternalServiceError {
            service: String::from_str(service),
            message: String::from_str("Service temporarily unavailable"),
        }
    } else {
        let text = http_status_text(status);
        WorkflowError::ExternalServiceError {
            service: String::from_str(service),
            message: concat_strs("HTTP error: ", text.as_str()),
        }
    }
}

/// A failure that brings the count to the threshold of an enabled breaker
/// opens the circuit at once, and it stays open until exactly the recovery
/// timeout has passed.
pub proof fn law_threshold_failure_opens_circuit(h: ErrorHandler, now: u64)
    requires
        h.failures() < u32::MAX,
        h.trips_at((h.failures() + 1) as nat),
        h.spec_config().recovery_timeout.millis > 0,
        now + h.spec_config().recovery_timeout.millis <= u64::MAX,
    ensures
        ({
            let until = h.after_failure(now).1;
            let timeout = h.spec_config().recovery_timeout.millis;
            &&& circuit_open(until, now)
            &&& forall|t: u64| now <= t < now + timeout ==> circuit_open(until, t)
            &&& forall|t: u64| t >= now + timeout ==> !circuit_open(until, t)
        }),
{
}

/// Failures below the threshold, or with the breaker disabled, leave a
/// closed circuit closed at every time.
pub proof fn law_failure_below_threshold_keeps_closed(h: ErrorHandler, now: u64, t: u64)
    requires
        h.failures() < u32::MAX,
        !h.trips_at((h.failures() + 1) as nat),
        h.open_until() is None,
    ensures
        !circuit_open(h.after_failure(now).1, t),
        h.after_failure(now).0 == h.failures() + 1,
{
}

/// One recorded failure at `now`, on the failure count and the time the
/// circuit stays open until: the count grows by one, and reaching the
/// threshold of an enabled breaker opens the circuit for the recovery
/// timeout.
pub open spec fn failure_step(cfg: ErrorHandlingConfig, failures: nat, until: Option<u64>, now: u64) -> (nat, Option<u64>) {
    if cfg.circuit_breaker_enabled && failures + 1 >= cfg.failure_threshold {
        (failures + 1, Some(saturating_sum(now, cfg.recovery_timeout.millis)))
    } else {
        (failures + 1, until)
    }
}

/// The failure count and open-until time after failures recorded at each
/// of `times` in turn, from `failures` and `until`.
pub open spec fn failures_recorded(cfg: ErrorHandlingConfig, failures: nat, until: Option<u64>, times: Seq<u64>) -> (nat, Option<u64>)
    decreases times.len(),
{
    if times.len() == 0 {
        (failures, until)
    } else {
        let (f, u) = failures_recorded(cfg, failures, until, times.drop_last());
        failure_step(cfg, f, u, times.last())
    }
}

/// `record_failure_at` takes one step: the handler after a failure at
/// `now` is `failure_step` of the handler before.
pub proof fn law_failure_is_one_step(h: ErrorHandler, now: u64)
    requires
        h.failures() < u32::MAX,
    ensures
        h.after_failure(now).0 as nat == failure_step(h.spec_config(), h.failures() as nat, h.open_until(), now).0,
        h.after_failure(now).1 == failure_step(h.spec_config(), h.failures() as nat, h.open_until(), now).1,
{
}

/// After a success (no failures, circuit closed), fewer failures than the
/// threshold, at any times, leave the circuit closed at every time, with
/// the count equal to the number of failures.
pub proof fn law_success_then_failures_stay_closed(h: ErrorHandler, times: Seq<u64>, t: u64)
    requires
        h.failures() == 0,
        h.open_until() is None,
        times.len() < h.spec_config().failure_threshold,
    ensures
        failures_recorded(h.spec_config(), 0, None, times) == (times.len(), None::<u64>),
        !circuit_open(failures_recorded(h.spec_config(), 0, None, times).1, t),
    decreases times.len(),
{
    if times.len() > 0 {
        law_success_then_failures_stay_closed(h, times.drop_last(), t);
    }
}

/// Under exponential backoff with `initial_delay <= max_delay`, the wait
/// before retry `k` is `min(initial_delay * 2^k, max_delay)`.
pub proof fn law_backoff_closed_form(policy: RetryPolicy, k: nat)
    requires
        policy.exponential_backoff,
        policy.initial_delay.millis <= policy.max_delay.millis,
    ensures
        nth_delay_millis(policy, k) == if policy.initial_delay.millis * vstd::arithmetic::power2::pow2(k)
            <= policy.max_delay.millis {
            policy.initial_delay.millis * vstd::arithmetic::power2::pow2(k)
        } else {
            policy.max_delay.millis as int
        },
    decreases k,
{
    if k == 0 {
        vstd::arithmetic::power2::lemma2_to64();
    } else {
        law_backoff_closed_form(policy, (k - 1) as nat);
        vstd::arithmetic::power2::lemma_pow2_unfold(k);
        let i = policy.initial_delay.millis as int;
        let p = vstd::arithmetic::power2::pow2((k - 1) as nat) as int;
        assert(i * (2 * p) == 2 * (i * p)) by (nonlinear_arith);
        assert(i * p >= 0) by (nonlinear_arith)
            requires
                i >= 0,
                p >= 0,
        ;
    }
}

/// Under a policy without exponential backoff every retry waits the
/// initial delay.
pub proof fn law_constant_backoff(policy: RetryPolicy, k: nat)
    requires
        !policy.exponential_backoff,
    ensures
        nth_delay_millis(policy, k) == policy.initial_delay.millis,
    decreases k,
{
    if k > 0 {
        law_constant_backoff(policy, (k - 1) as nat);
    }
}

} // verus!
