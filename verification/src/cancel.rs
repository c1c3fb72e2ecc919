//! The flag by which a running job is asked to stop.

use std::sync::atomic::AtomicBool;
use std::sync::atomic::Ordering;
use std::sync::Arc;
use vstd::prelude::*;

verus! {

/// A flag shared between a job and whoever may ask it to stop. The job only
/// ever reads it; a request to stop sets it, and nothing clears it again.
pub type CancellationToken = Arc<AtomicBool>;

/// A new flag, not set. Any holder of the flag may set it at any moment, so
/// nothing is promised of what a later look at it finds.
pub fn create_cancellation_token() -> (token: CancellationToken) {
    Arc::new(AtomicBool::new(false))
}

/// Asks the job that watches `token` to stop before its next step.
pub fn request_cancellation(token: &CancellationToken) {
    token.store(true, Ordering::Relaxed);
}

/// Whether a stop had been asked for when the flag was looked at.
pub fn cancellation_requested(token: &CancellationToken) -> (seen: bool) {
    token.load(Ordering::Relaxed)
}

} // verus!
