//! The decisions of the reconnecting client: admission of a request to the
//! work queue, whether a failure calls for a redial, the bounded
//! exponential backoff between dial attempts, and the polled sleep that
//! cancellation, deadlines and shutdown interrupt.

use vstd::prelude::*;
use crate::error::{connection_error, is_connection_error, Error};

verus! {

pub const DEFAULT_MAX_RETRIES: usize = 5;
pub const DEFAULT_RETRY_DELAY_MS: u64 = 100;
pub const DEFAULT_MAX_RETRY_DELAY_MS: u64 = 30_000;
pub const DEFAULT_QUEUE_SIZE: usize = 10_000;

/// The longest single wait of a polled sleep, in milliseconds.
pub const POLL_STEP_MS: u64 = 50;

/// Settings of the reconnecting client.
#[derive(Debug, Clone, Copy, PartialEq, Eq, Structural)]
pub struct ReconnectConfig {
    pub max_retries: usize,
    pub retry_delay_ms: u64,
    pub max_retry_delay_ms: u64,
    pub queue_size: usize,
}

impl Default for ReconnectConfig {
    fn default() -> (r: ReconnectConfig)
        ensures
            r == (ReconnectConfig {
                max_retries: DEFAULT_MAX_RETRIES,
                retry_delay_ms: DEFAULT_RETRY_DELAY_MS,
                max_retry_delay_ms: DEFAULT_MAX_RETRY_DELAY_MS,
                queue_size: DEFAULT_QUEUE_SIZE,
            }),
    {
        ReconnectConfig {
            max_retries: DEFAULT_MAX_RETRIES,
            retry_delay_ms: DEFAULT_RETRY_DELAY_MS,
            max_retry_delay_ms: DEFAULT_MAX_RETRY_DELAY_MS,
            queue_size: DEFAULT_QUEUE_SIZE,
        }
    }
}

/// One setting of [`ReconnectConfig`].
#[derive(Debug, Clone, Copy, PartialEq, Eq, Structural)]
pub enum ReconnectOption {
    MaxRetries(usize),
    RetryDelayMs(u64),
    MaxRetryDelayMs(u64),
    QueueSize(usize),
}

pub fn with_max_retries(n: usize) -> (r: ReconnectOption)
    ensures
        r == ReconnectOption::MaxRetries(n),
{
    ReconnectOption::MaxRetries(n)
}

pub fn with_retry_delay(delay_ms: u64) -> (r: ReconnectOption)
    ensures
        r == ReconnectOption::RetryDelayMs(delay_ms),
{
    ReconnectOption::RetryDelayMs(delay_ms)
}

pub fn with_max_retry_delay(delay_ms: u64) -> (r: ReconnectOption)
    ensures
        r == ReconnectOption::MaxRetryDelayMs(delay_ms),
{
    ReconnectOption::MaxRetryDelayMs(delay_ms)
}

pub fn with_queue_size(size: usize) -> (r: ReconnectOption)
    ensures
        r == ReconnectOption::QueueSize(size),
{
    ReconnectOption::QueueSize(size)
}

impl ReconnectConfig {
    /// Applies one setting.
    pub fn apply(&mut self, opt: ReconnectOption)
        ensures
            *final(self) == match opt {
                ReconnectOption::MaxRetries(n) => ReconnectConfig { max_retries: n, ..*old(self) },
                ReconnectOption::RetryDelayMs(d) => ReconnectConfig { retry_delay_ms: d, ..*old(self) },
                ReconnectOption::MaxRetryDelayMs(d) => ReconnectConfig { max_retry_delay_ms: d, ..*old(self) },
                ReconnectOption::QueueSize(s) => ReconnectConfig { queue_size: s, ..*old(self) },
            },
    {
        match opt {
            ReconnectOption::MaxRetries(n) => self.max_retries = n,
            ReconnectOption::RetryDelayMs(d) => self.retry_delay_ms = d,
            ReconnectOption::MaxRetryDelayMs(d) => self.max_retry_delay_ms = d,
            ReconnectOption::QueueSize(s) => self.queue_size = s,
        }
    }
}

/// The checks before a request joins the queue, in order: a closed client,
/// a cancelled context, a passed deadline.
pub open spec fn admission(closed: bool, cancelled: bool, deadline_passed: bool) -> Option<Error> {
    if closed {
        Some(Error::ClientClosed)
    } else if cancelled {
        Some(Error::Cancelled)
    } else if deadline_passed {
        Some(Error::Timeout)
    } else {
        None
    }
}

/// Whether a request may join the queue.
pub fn admit_request(closed: bool, cancelled: bool, deadline_passed: bool) -> (r: Result<(), Error>)
    ensures
        match admission(closed, cancelled, deadline_passed) {
            None => r is Ok,
            Some(Error::ClientClosed) => r matches Err(Error::ClientClosed),
            Some(Error::Cancelled) => r matches Err(Error::Cancelled),
            Some(_) => r matches Err(Error::Timeout),
        },
{
    if closed {
        Err(Error::ClientClosed)
    } else if cancelled {
        Err(Error::Cancelled)
    } else if deadline_passed {
        Err(Error::Timeout)
    } else {
        Ok(())
    }
}

/// Whether a request finds room in a queue of `capacity` that holds
/// `queued` requests; a full queue refuses it.
pub fn queue_admission(queued: usize, capacity: usize) -> (r: Result<(), Error>)
    ensures
        queued >= capacity ==> (r matches Err(Error::QueueFull)),
        queued < capacity ==> r is Ok,
{
    if queued >= capacity {
        Err(Error::QueueFull)
    } else {
        Ok(())
    }
}

/// The checks the worker makes before running a dequeued request.
pub fn worker_precheck(cancelled: bool, deadline_passed: bool) -> (r: Result<(), Error>)
    ensures
        cancelled ==> (r matches Err(Error::Cancelled)),
        !cancelled && deadline_passed ==> (r matches Err(Error::Timeout)),
        !cancelled && !deadline_passed ==> r is Ok,
{
    if cancelled {
        Err(Error::Cancelled)
    } else if deadline_passed {
        Err(Error::Timeout)
    } else {
        Ok(())
    }
}

/// Whether the first try of an operation calls for a redial and one more
/// try: exactly when it failed with a transport failure.
pub fn should_reconnect(result: &Result<(), Error>) -> (r: bool)
    ensures
        r == (*result matches Err(e) && connection_error(e)),
{
    match result {
        Ok(()) => false,
        Err(e) => is_connection_error(e),
    }
}

/// What the worker delivers once the redial after a transport failure has
/// ended: the redial's own error when it failed; after a successful redial,
/// `None` (run the operation once more on the new client), or the first
/// result when no client is there to run it on.
pub fn after_redial(first: Result<(), Error>, redial: Result<(), Error>, have_client: bool) -> (r: Option<Result<(), Error>>)
    ensures
        redial is Err ==> r == Some(redial),
        redial is Ok && have_client ==> r is None,
        redial is Ok && !have_client ==> r == Some(first),
{
    match redial {
        Err(e) => Some(Err(e)),
        Ok(()) => if have_client {
            None
        } else {
            Some(first)
        },
    }
}

/// The delay before the next attempt: twice the last, at most `max`.
pub open spec fn next_delay(delay: u64, max: u64) -> u64 {
    if delay as int * 2 > max as int {
        max
    } else {
        (delay * 2) as u64
    }
}

/// The sleep before attempt `k + 2`: the first delay, then doubled each
/// time up to `max`.
pub open spec fn backoff(first: u64, max: u64, k: nat) -> u64
    decreases k,
{
    if k == 0 {
        first
    } else {
        next_delay(backoff(first, max, (k - 1) as nat), max)
    }
}

/// What the redial routine does next.
#[derive(Debug, Clone, Copy, PartialEq, Eq, Structural)]
pub enum ReconnectStep {
    /// Dial at once (the first attempt).
    Dial,
    /// Sleep this many milliseconds, then dial.
    SleepThenDial(u64),
    /// Every attempt failed.
    GiveUp,
}

/// Progress of one redial routine.
#[derive(Debug, Clone, Copy, PartialEq, Eq, Structural)]
pub struct ReconnectPlan {
    pub attempts: usize,
    pub delay_ms: u64,
    pub max_retries: usize,
    pub max_delay_ms: u64,
}

impl ReconnectPlan {
    pub fn new(config: &ReconnectConfig) -> (r: ReconnectPlan)
        ensures
            r == (ReconnectPlan {
                attempts: 0,
                delay_ms: config.retry_delay_ms,
                max_retries: config.max_retries,
                max_delay_ms: config.max_retry_delay_ms,
            }),
    {
        ReconnectPlan {
            attempts: 0,
            delay_ms: config.retry_delay_ms,
            max_retries: config.max_retries,
            max_delay_ms: config.max_retry_delay_ms,
        }
    }

    /// The next step after a failed attempt (or at the start): up to
    /// `max_retries` attempts, each after the first preceded by a sleep
    /// that doubles, capped, from the configured delay.
    pub fn next_step(&mut self) -> (r: ReconnectStep)
        ensures
            final(self).max_retries == old(self).max_retries,
            final(self).max_delay_ms == old(self).max_delay_ms,
            old(self).attempts >= old(self).max_retries ==> r == ReconnectStep::GiveUp && *final(self) == *old(self),
            old(self).attempts < old(self).max_retries && old(self).attempts == 0 ==> r == ReconnectStep::Dial
                && final(self).attempts == 1 && final(self).delay_ms == old(self).delay_ms,
            old(self).attempts < old(self).max_retries && old(self).attempts > 0 ==> r
                == ReconnectStep::SleepThenDial(old(self).delay_ms) && final(self).attempts == old(self).attempts + 1
                && final(self).delay_ms == next_delay(old(self).delay_ms, old(self).max_delay_ms),
    {
        if self.attempts >= self.max_retries {
            return ReconnectStep::GiveUp;
        }
        self.attempts = self.attempts + 1;
        if self.attempts == 1 {
            return ReconnectStep::Dial;
        }
        let d = self.delay_ms;
        self.delay_ms = if d as u128 * 2 > self.max_delay_ms as u128 {
            self.max_delay_ms
        } else {
            d * 2
        };
        ReconnectStep::SleepThenDial(d)
    }
}

/// The error a redial routine ends with once every attempt failed: the last
/// dial error, or a closed client when no attempt was made.
pub fn give_up_error(last: Option<Error>) -> (r: Error)
    ensures
        match last {
            Some(e) => r == e,
            None => r matches Error::ClientClosed,
        },
{
    match last {
        Some(e) => e,
        None => Error::ClientClosed,
    }
}

/// One step of a polled sleep of `duration_ms`, of which `elapsed_ms` have
/// passed: interrupted (shutdown, then cancellation, then the deadline)
/// whatever time is left, else done, else the next wait, never longer than
/// [`POLL_STEP_MS`].
pub fn sleep_step(elapsed_ms: u64, duration_ms: u64, closed: bool, cancelled: bool, deadline_passed: bool) -> (r: Result<Option<u64>, Error>)
    ensures
        closed ==> (r matches Err(Error::ClientClosed)),
        !closed && cancelled ==> (r matches Err(Error::Cancelled)),
        !closed && !cancelled && deadline_passed ==> (r matches Err(Error::Timeout)),
        !closed && !cancelled && !deadline_passed && elapsed_ms >= duration_ms ==> r == Ok::<Option<u64>, Error>(None),
        !closed && !cancelled && !deadline_passed && elapsed_ms < duration_ms ==> r == Ok::<Option<u64>, Error>(
            Some(if duration_ms - elapsed_ms < POLL_STEP_MS { (duration_ms - elapsed_ms) as u64 } else { POLL_STEP_MS }),
        ),
{
    if closed {
        return Err(Error::ClientClosed);
    }
    if cancelled {
        return Err(Error::Cancelled);
    }
    if deadline_passed {
        return Err(Error::Timeout);
    }
    if elapsed_ms >= duration_ms {
        return Ok(None);
    }
    let remaining = duration_ms - elapsed_ms;
    Ok(Some(if remaining < POLL_STEP_MS { remaining } else { POLL_STEP_MS }))
}

/// What a caller waiting for its result sees at one poll.
#[derive(Debug)]
pub enum WaitEvent {
    /// The worker delivered this result.
    Delivered(Result<(), Error>),
    /// Nothing yet within the poll's wait.
    Pending,
    /// The worker dropped the request.
    Disconnected,
}

/// The caller's decision at one poll of its result: cancellation and the
/// deadline win over waiting on; a delivered result is returned; a
/// dropped request reads as a closed client. `None` means wait again.
pub fn wait_step(event: WaitEvent, cancelled: bool, deadline_passed: bool) -> (r: Option<Result<(), Error>>)
    ensures
        match event {
            WaitEvent::Delivered(res) => r == Some(res),
            WaitEvent::Disconnected => r matches Some(Err(Error::ClientClosed)),
            WaitEvent::Pending => if cancelled {
                r matches Some(Err(Error::Cancelled))
            } else if deadline_passed {
                r matches Some(Err(Error::Timeout))
            } else {
                r is None
            },
        },
{
    match event {
        WaitEvent::Delivered(res) => Some(res),
        WaitEvent::Disconnected => Some(Err(Error::ClientClosed)),
        WaitEvent::Pending => {
            if cancelled {
                Some(Err(Error::Cancelled))
            } else if deadline_passed {
                Some(Err(Error::Timeout))
            } else {
                None
            }
        },
    }
}

/// Attempt `k + 2` of a redial waits `backoff(first, max, k)` before
/// dialling, and no wait after the first one exceeds the larger of the
/// first delay and the cap.
pub proof fn lemma_backoff_bounded(first: u64, max: u64, k: nat)
    ensures
        backoff(first, max, k) <= if first > max { first } else { max },
        k > 0 ==> backoff(first, max, k) <= max,
    decreases k,
{
    if k > 0 {
        lemma_backoff_bounded(first, max, (k - 1) as nat);
    }
}

/// The waits of a redial grow: each is at least the one before, until the
/// cap is reached.
pub proof fn lemma_backoff_grows(first: u64, max: u64, k: nat)
    requires
        first <= max,
    ensures
        backoff(first, max, k) <= backoff(first, max, k + 1),
    decreases k,
{
    lemma_backoff_bounded(first, max, k);
}

/// A cancelled request is refused before it joins the queue, unless the
/// client is closed.
pub proof fn lemma_cancelled_before_enqueue(deadline_passed: bool)
    ensures
        admission(false, true, deadline_passed) == Some(Error::Cancelled),
{
}

} // verus!
