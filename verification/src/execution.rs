//! What a command run is given and how the runner decides on retries.

use vstd::prelude::*;
use crate::text::{join_seqs, join_strings, views};
use crate::time::Duration;

verus! {

/// Everything the runner needs to execute one command.
#[derive(Debug, Clone)]
pub struct ExecutionContext {
    /// The session the command runs in, if any.
    pub session_id: Option<u128>,
    /// The command to execute.
    pub command_name: String,
    /// Its arguments.
    pub args: Vec<String>,
    /// Whether the run is one of several parallel ones.
    pub parallel: bool,
    /// How many agents take part.
    pub agent_count: usize,
}

/// The text sent for a command: its name, then its arguments, each after a
/// single space.
pub open spec fn command_text(name: Seq<char>, args: Seq<Seq<char>>) -> Seq<char> {
    if args.len() == 0 {
        name
    } else {
        name + " "@ + join_seqs(args, " "@)
    }
}

/// A command followed by its arguments, each after a single space.
pub fn command_line(name: &str, args: &Vec<String>) -> (s: String)
    ensures
        s@ == command_text(name@, views(args@)),
{
    let mut s = String::from_str(name);
    if args.len() > 0 {
        s.append(" ");
        let rest = join_strings(args, " ");
        s.append(rest.as_str());
    }
    s
}

/// The text sent for `context`: the command name, followed by the arguments
/// joined with spaces when there are any.
pub fn build_command_text(context: &ExecutionContext) -> (s: String)
    ensures
        s@ == command_text(context.command_name@, views(context.args@)),
{
    command_line(context.command_name.as_str(), &context.args)
}

/// The stream formats the command runner can ask for.
#[derive(Debug, Clone, Copy, PartialEq, Eq, Structural)]
pub enum StreamFormat {
    Text,
    Json,
    StreamJson,
}

/// Configuration of the command runner.
#[derive(Debug, Clone, Copy)]
pub struct RunnerConfig {
    /// Timeout for one execution.
    pub timeout: Duration,
    /// Whether responses are streamed.
    pub streaming: bool,
    /// The stream format asked for.
    pub stream_format: StreamFormat,
    /// How many times a failed command is retried.
    pub max_retries: usize,
    /// The pause before each retry.
    pub retry_delay: Duration,
}

impl Default for RunnerConfig {
    fn default() -> (c: Self)
        ensures
            c.timeout.millis == 30_000,
            c.streaming,
            c.stream_format == StreamFormat::StreamJson,
            c.max_retries == 3,
            c.retry_delay.millis == 1000,
    {
        RunnerConfig {
            timeout: Duration { millis: 30_000 },
            streaming: true,
            stream_format: StreamFormat::StreamJson,
            max_retries: 3,
            retry_delay: Duration { millis: 1000 },
        }
    }
}

/// What the runner does after an attempt failed.
#[derive(Debug, Clone, Copy, PartialEq, Eq, Structural)]
pub enum RunnerStep {
    /// Wait `delay`, then make attempt number `attempt`.
    Retry { attempt: usize, delay: Duration },
    /// Report the last error.
    Stop,
}

impl RunnerConfig {
    /// The decision after attempt `attempt` (counting from zero) failed with
    /// an error that is retryable or not: attempts run from `0` to
    /// `max_retries`, and an error that is not retryable ends them at once.
    pub fn after_failed_attempt(&self, attempt: usize, retryable: bool) -> (step: RunnerStep)
        ensures
            retryable && attempt < self.max_retries ==> step == (RunnerStep::Retry {
                attempt: (attempt + 1) as usize,
                delay: self.retry_delay,
            }),
            !(retryable && attempt < self.max_retries) ==> step == RunnerStep::Stop,
    {
        if retryable && attempt < self.max_retries {
            RunnerStep::Retry { attempt: attempt + 1, delay: self.retry_delay }
        } else {
            RunnerStep::Stop
        }
    }
}

// ---------------------------------------------------------------- parallel runs

/// Configuration for parallel execution.
#[derive(Debug, Clone, Copy, PartialEq, Eq, Structural)]
pub struct ParallelConfig {
    /// Maximum number of concurrent executions.
    pub max_concurrent: usize,
    /// Whether to continue on error or stop all.
    pub continue_on_error: bool,
    /// Timeout for the entire parallel operation.
    pub total_timeout: Duration,
    /// Buffer size for output channels.
    pub output_buffer_size: usize,
}

impl Default for ParallelConfig {
    fn default() -> (c: Self)
        ensures
            c == (ParallelConfig {
                max_concurrent: 4,
                continue_on_error: true,
                total_timeout: Duration { millis: 300_000 },
                output_buffer_size: 1000,
            }),
    {
        ParallelConfig {
            max_concurrent: 4,
            continue_on_error: true,
            total_timeout: Duration { millis: 300_000 },
            output_buffer_size: 1000,
        }
    }
}

impl ParallelConfig {
    /// Whether moving to `next` needs a new concurrency limit: when the
    /// number of concurrent executions changes.
    pub fn needs_new_limit(&self, next: &ParallelConfig) -> (b: bool)
        ensures
            b == (self.max_concurrent != next.max_concurrent),
    {
        self.max_concurrent != next.max_concurrent
    }
}

/// Statistics for parallel execution.
#[derive(Debug, Clone, Copy, PartialEq, Eq, Structural)]
pub struct ParallelStats {
    pub active_executions: usize,
    pub queued_executions: usize,
    pub completed_executions: usize,
    pub failed_executions: usize,
    pub total_executions: usize,
}

/// `a - b`, or zero when `b` is larger.
pub open spec fn monus(a: usize, b: usize) -> usize {
    if a >= b {
        (a - b) as usize
    } else {
        0
    }
}

/// The statistics once a batch of `n` executions is queued.
pub open spec fn queued_batch(st: ParallelStats, n: usize) -> ParallelStats {
    ParallelStats {
        total_executions: (st.total_executions + n) as usize,
        queued_executions: n,
        ..st
    }
}

/// The statistics once a batch ended with `s` successes and `f` failures.
pub open spec fn finished_batch(st: ParallelStats, s: usize, f: usize) -> ParallelStats {
    ParallelStats {
        completed_executions: (st.completed_executions + s) as usize,
        failed_executions: (st.failed_executions + f) as usize,
        queued_executions: 0,
        active_executions: 0,
        ..st
    }
}

impl ParallelStats {
    /// Statistics before any execution.
    pub fn new() -> (s: Self)
        ensures
            s == (ParallelStats {
                active_executions: 0,
                queued_executions: 0,
                completed_executions: 0,
                failed_executions: 0,
                total_executions: 0,
            }),
    {
        ParallelStats {
            active_executions: 0,
            queued_executions: 0,
            completed_executions: 0,
            failed_executions: 0,
            total_executions: 0,
        }
    }

    /// A batch of `n` executions is queued.
    pub fn batch_started(&mut self, n: usize)
        requires
            old(self).total_executions + n <= usize::MAX,
        ensures
            *final(self) == queued_batch(*old(self), n),
    {
        self.total_executions = self.total_executions + n;
        self.queued_executions = n;
    }

    /// An execution leaves the queue and starts.
    pub fn execution_started(&mut self)
        requires
            old(self).active_executions < usize::MAX,
        ensures
            *final(self) == (ParallelStats {
                active_executions: (old(self).active_executions + 1) as usize,
                queued_executions: monus(old(self).queued_executions, 1),
                ..*old(self)
            }),
    {
        self.active_executions = self.active_executions + 1;
        self.queued_executions = self.queued_executions.saturating_sub(1);
    }

    /// An execution ends.
    pub fn execution_finished(&mut self)
        ensures
            *final(self) == (ParallelStats {
                active_executions: monus(old(self).active_executions, 1),
                ..*old(self)
            }),
    {
        self.active_executions = self.active_executions.saturating_sub(1);
    }

    /// The batch ended with `successful` and `failed` executions; nothing
    /// is left queued or running.
    pub fn batch_finished(&mut self, successful: usize, failed: usize)
        requires
            old(self).completed_executions + successful <= usize::MAX,
            old(self).failed_executions + failed <= usize::MAX,
        ensures
            *final(self) == finished_batch(*old(self), successful, failed),
    {
        self.completed_executions = self.completed_executions + successful;
        self.failed_executions = self.failed_executions + failed;
        self.queued_executions = 0;
        self.active_executions = 0;
    }

    /// Every running and queued execution is cancelled.
    pub fn cancelled(&mut self)
        ensures
            *final(self) == (ParallelStats {
                active_executions: 0,
                queued_executions: 0,
                ..*old(self)
            }),
    {
        self.active_executions = 0;
        self.queued_executions = 0;
    }
}

/// The number of `true` entries of `s`.
pub open spec fn count_true(s: Seq<bool>) -> nat
    decreases s.len(),
{
    if s.len() == 0 {
        0
    } else {
        count_true(s.drop_last()) + if s.last() { 1nat } else { 0nat }
    }
}

/// The successful and failed counts of a batch whose outcomes are
/// `succeeded` (one entry per execution).
pub fn tally(succeeded: &Vec<bool>) -> (r: (usize, usize))
    ensures
        r.0 == count_true(succeeded@),
        r.0 + r.1 == succeeded.len(),
{
    let mut ok: usize = 0;
    let mut i: usize = 0;
    while i < succeeded.len()
        invariant
            i <= succeeded.len(),
            ok == count_true(succeeded@.take(i as int)),
            ok <= i,
        decreases succeeded.len() - i,
    {
        assert(succeeded@.take(i + 1).drop_last() =~= succeeded@.take(i as int));
        if succeeded[i] {
            ok += 1;
        }
        i += 1;
    }
    assert(succeeded@.take(succeeded.len() as int) =~= succeeded@);
    (ok, succeeded.len() - ok)
}

/// Agent numbers handed out to parallel executions, one after another.
pub struct AgentCounter {
    next: usize,
}

impl AgentCounter {
    /// The number the next agent gets.
    pub closed spec fn spec_next(&self) -> usize {
        self.next
    }

    /// A counter that starts at agent 0.
    pub fn new() -> (c: Self)
        ensures
            c.spec_next() == 0,
    {
        AgentCounter { next: 0 }
    }

    /// The next agent number; numbers wrap around after `usize::MAX`.
    pub fn next_agent(&mut self) -> (id: usize)
        ensures
            id == old(self).spec_next(),
            final(self).spec_next() == old(self).spec_next().wrapping_add(1),
    {
        let id = self.next;
        self.next = self.next.wrapping_add(1);
        id
    }
}

/// Over a batch that queued `n` executions and finished with `s` successes
/// and `f` failures where `s + f == n`, finished executions never outnumber
/// those queued, and nothing stays queued or running.
pub proof fn law_batch_accounting(before: ParallelStats, n: usize, s: usize, f: usize)
    requires
        before.completed_executions + before.failed_executions <= before.total_executions,
        s + f == n,
        before.total_executions + n <= usize::MAX,
    ensures
        ({
            let after = finished_batch(queued_batch(before, n), s, f);
            &&& after.completed_executions + after.failed_executions <= after.total_executions
            &&& after.total_executions == before.total_executions + n
            &&& after.queued_executions == 0
            &&& after.active_executions == 0
        }),
{
}

} // verus!
