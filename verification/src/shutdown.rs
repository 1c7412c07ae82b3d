//! A shutdown request shared by all tasks: a flag that is set once, and a notifier
//! that wakes the tasks waiting for it.

use std::sync::Arc;
use std::sync::atomic::{AtomicBool, Ordering};
use tokio::sync::Notify;
use vstd::prelude::*;

verus! {

#[verifier::external_type_specification]
#[verifier::external_body]
pub struct ExNotify(Notify);

/// Calls `tokio::sync::Notify::new`, which makes a notifier with no waiter and no
/// stored permit. The contract states nothing of the value.
#[verifier::external_body]
fn new_notify() -> Notify {
    Notify::new()
}

/// Calls `tokio::sync::Notify::notify_waiters`, which wakes every task that is
/// waiting on the notifier at the time of the call and stores no permit. The
/// contract states nothing of the effect.
#[verifier::external_body]
fn wake_waiters(notify: &Notify) {
    notify.notify_waiters()
}

/// A shutdown request shared between tasks.
#[derive(Clone)]
pub struct Shutdown {
    flag: Arc<AtomicBool>,
    notify: Arc<Notify>,
}

impl Shutdown {
    /// A request that has not been made yet.
    pub fn new() -> Self {
        Shutdown { flag: Arc::new(AtomicBool::new(false)), notify: Arc::new(new_notify()) }
    }

    /// Makes the request; the first call wakes the tasks waiting for it.
    pub fn trigger(&self) {
        let already = self.flag.swap(true, Ordering::SeqCst);
        if !already {
            wake_waiters(&self.notify);
        }
    }

    /// Whether the request has been made. Other tasks may make it at any time, so
    /// nothing is stated of the answer.
    pub fn is_triggered(&self) -> bool {
        self.flag.load(Ordering::SeqCst)
    }

    /// The notifier of this request, which `trigger` wakes.
    pub closed spec fn notify_handle(&self) -> Arc<Notify> {
        self.notify
    }

    /// The notifier that waiting tasks wait on: the one that `trigger` wakes.
    pub fn notifier(&self) -> (r: &Arc<Notify>)
        ensures
            *r == self.notify_handle(),
    {
        &self.notify
    }
}

} // verus!
