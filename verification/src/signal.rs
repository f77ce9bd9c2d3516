//! What the workers of one search share: the termination flag, which the
//! first worker to find a match sets, and the count of digests computed.

use std::sync::atomic::AtomicBool;
use std::sync::atomic::AtomicU64;
use std::sync::atomic::Ordering;
use vstd::prelude::*;

verus! {

/// The termination flag and the attempt counter of one search.
///
/// Both are atomics that any number of threads may use through a shared
/// reference. What a thread reads from them depends on what the others have
/// done, so the methods promise nothing about the values they return.
pub struct SearchSignal {
    found: AtomicBool,
    attempts: AtomicU64,
}

impl SearchSignal {
    /// A signal with the flag unset and no attempts counted.
    pub fn new() -> (signal: SearchSignal) {
        SearchSignal { found: AtomicBool::new(false), attempts: AtomicU64::new(0) }
    }

    /// Whether some worker has set the flag.
    pub fn is_set(&self) -> (set: bool) {
        self.found.load(Ordering::Relaxed)
    }

    /// Sets the flag and returns what it was before: `false` for the one
    /// call that makes the transition, `true` for every later one.
    pub fn test_and_set(&self) -> (previous: bool) {
        self.found.swap(true, Ordering::Relaxed)
    }

    /// Counts one computed digest.
    pub fn count_attempt(&self) {
        let _ = self.attempts.fetch_add(1, Ordering::Relaxed);
    }

    /// The number of digests counted so far.
    pub fn attempts(&self) -> (total: u64) {
        self.attempts.load(Ordering::Relaxed)
    }
}

} // verus!
