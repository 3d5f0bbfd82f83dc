//! Progress reporting for long runs, and a reporter that ignores it.
use vstd::prelude::*;

verus! {

/// Receives the progress of a long run.
pub trait ProgressReporter: Clone {
    /// Counts `delta` more units of work as done.
    fn increment(&self, delta: u64);

    /// Signals that the run is complete.
    fn finish(&self);

    /// Shows a status message.
    fn set_message(&self, message: &str);
}

/// A reporter that ignores all progress, for tests.
#[derive(Clone, Copy, Debug)]
pub struct MockProgressReporter;

impl ProgressReporter for MockProgressReporter {
    fn increment(&self, _delta: u64) {
    }

    fn finish(&self) {
    }

    fn set_message(&self, _message: &str) {
    }
}

} // verus!
