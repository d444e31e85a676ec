//! Request contexts: an optional deadline and a cancellation flag shared
//! with a handle that can set it from another thread.

use vstd::prelude::*;
use std::sync::atomic::{AtomicBool, Ordering};
use std::sync::Arc;
use std::time::{Duration, Instant};

verus! {

#[verifier::external_type_specification]
#[verifier::external_body]
pub struct ExInstant(Instant);

/// Relies on `Instant::now`: the current instant of the monotonic clock.
#[verifier::external_body]
fn instant_now() -> (r: Instant) {
    Instant::now()
}

/// Relies on `Instant::checked_add`: `at` moved `by` later, or none where
/// that is past what an `Instant` holds.
#[verifier::external_body]
fn instant_checked_add(at: Instant, by: Duration) -> (r: Option<Instant>) {
    at.checked_add(by)
}

/// Relies on `Arc::clone`: a second owner of the same flag.
#[verifier::external_body]
fn share_flag(flag: &Arc<AtomicBool>) -> (r: Arc<AtomicBool>) {
    Arc::clone(flag)
}

/// The deadline and cancellation flag of one request.
#[derive(Debug)]
pub struct RequestContext {
    deadline: Option<Instant>,
    cancelled: Arc<AtomicBool>,
}

/// Cancels the contexts that share its flag.
#[derive(Debug)]
pub struct CancelHandle {
    cancelled: Arc<AtomicBool>,
}

impl CancelHandle {
    /// Sets the shared flag; it is never cleared.
    pub fn cancel(&self) {
        self.cancelled.store(true, Ordering::SeqCst);
    }
}

impl RequestContext {
    /// The context's deadline.
    pub closed spec fn deadline_spec(&self) -> Option<Instant> {
        self.deadline
    }

    /// No deadline, never cancelled.
    pub fn background() -> (r: RequestContext)
        ensures
            r.deadline_spec() is None,
    {
        RequestContext { deadline: None, cancelled: Arc::new(AtomicBool::new(false)) }
    }

    /// A context that expires at `deadline`.
    pub fn with_deadline(deadline: Instant) -> (r: RequestContext)
        ensures
            r.deadline_spec() == Some(deadline),
    {
        RequestContext { deadline: Some(deadline), cancelled: Arc::new(AtomicBool::new(false)) }
    }

    /// A context that expires `timeout` from now.
    pub fn with_timeout(timeout: Duration) -> (r: RequestContext) {
        RequestContext { deadline: instant_checked_add(instant_now(), timeout), cancelled: Arc::new(AtomicBool::new(false)) }
    }

    /// A context without deadline, with the handle that cancels it.
    pub fn cancellable() -> (r: (RequestContext, CancelHandle))
        ensures
            r.0.deadline_spec() is None,
    {
        let cancelled = Arc::new(AtomicBool::new(false));
        let handle = CancelHandle { cancelled: share_flag(&cancelled) };
        (RequestContext { deadline: None, cancelled }, handle)
    }

    /// Whether the shared flag has been set.
    pub fn is_cancelled(&self) -> bool {
        self.cancelled.load(Ordering::SeqCst)
    }

    /// The deadline, if any.
    pub fn deadline(&self) -> (r: Option<Instant>)
        ensures
            r == self.deadline_spec(),
    {
        self.deadline
    }

    /// A second context with the same deadline and the same flag.
    pub fn share(&self) -> (r: RequestContext)
        ensures
            r.deadline_spec() == self.deadline_spec(),
    {
        RequestContext { deadline: self.deadline, cancelled: share_flag(&self.cancelled) }
    }
}

} // verus!
