//! Backoff/circuit-breaker bookkeeping consulted around every external
//! vision-model call.
//!
//! The governor counts consecutive failures. Once the count reaches a
//! configured threshold, callers about to issue a call must pause for a
//! fixed duration and then reset the state before proceeding. A success
//! always resets the count. The state itself carries no lock: callers
//! share it behind whatever mutual exclusion their runtime provides.

use vstd::prelude::*;

verus! {

/// Consecutive failures needed before a pause, when not configured.
pub const DEFAULT_PAUSE_THRESHOLD: u64 = 3;

/// Length of the cool-down pause in milliseconds, when not configured:
/// five minutes.
pub const DEFAULT_PAUSE_MS: u64 = 300_000;

/// Shared rate-limit state: a consecutive-failure counter plus its
/// configured threshold and pause duration.
pub struct RateLimitGovernor {
    consecutive_failures: u64,
    threshold: u64,
    pause_ms: u64,
}

impl RateLimitGovernor {
    /// The threshold is always at least one: a governor that pauses
    /// before its first failure would never issue a call.
    pub closed spec fn wf(self) -> bool {
        self.threshold >= 1
    }

    pub closed spec fn spec_failures(self) -> u64 {
        self.consecutive_failures
    }

    pub closed spec fn spec_threshold(self) -> u64 {
        self.threshold
    }

    pub closed spec fn spec_pause_ms(self) -> u64 {
        self.pause_ms
    }

    /// A fresh governor with no recorded failures. A threshold of zero
    /// is raised to one.
    pub fn new(threshold: u64, pause_ms: u64) -> (r: Self)
        ensures
            r.wf(),
            r.spec_failures() == 0,
            r.spec_threshold() == if threshold == 0 {
                1u64
            } else {
                threshold
            },
            r.spec_pause_ms() == pause_ms,
    {
        RateLimitGovernor {
            consecutive_failures: 0,
            threshold: if threshold == 0 {
                1
            } else {
                threshold
            },
            pause_ms,
        }
    }

    /// A governor with the default threshold and pause.
    pub fn with_defaults() -> (r: Self)
        ensures
            r.wf(),
            r.spec_failures() == 0,
            r.spec_threshold() == DEFAULT_PAUSE_THRESHOLD,
            r.spec_pause_ms() == DEFAULT_PAUSE_MS,
    {
        Self::new(DEFAULT_PAUSE_THRESHOLD, DEFAULT_PAUSE_MS)
    }

    /// A successful call, or a completed cool-down pause, always resets
    /// the counter to zero, whatever its prior value.
    pub fn record_success(&mut self)
        ensures
            final (self).wf() == old(self).wf(),
            final (self).spec_failures() == 0,
            final (self).spec_threshold() == old(self).spec_threshold(),
            final (self).spec_pause_ms() == old(self).spec_pause_ms(),
    {
        self.consecutive_failures = 0;
    }

    /// A rate-limit-attributable failure bumps the counter (saturating
    /// at the counter type's maximum).
    pub fn record_failure(&mut self)
        ensures
            final (self).wf() == old(self).wf(),
            final (self).spec_failures() == if old(self).spec_failures() == u64::MAX {
                u64::MAX
            } else {
                (old(self).spec_failures() + 1) as u64
            },
            final (self).spec_threshold() == old(self).spec_threshold(),
            final (self).spec_pause_ms() == old(self).spec_pause_ms(),
    {
        if self.consecutive_failures < u64::MAX {
            self.consecutive_failures = self.consecutive_failures + 1;
        }
    }

    /// Whether a caller must cool down before issuing the next call:
    /// true exactly once the consecutive failures reach the threshold.
    pub fn should_pause(&self) -> (r: bool)
        ensures
            r == (self.spec_failures() >= self.spec_threshold()),
    {
        self.consecutive_failures >= self.threshold
    }

    /// How long the cool-down pause lasts, in milliseconds.
    pub fn pause_duration_ms(&self) -> (r: u64)
        ensures
            r == self.spec_pause_ms(),
    {
        self.pause_ms
    }

    /// The current consecutive-failure count.
    pub fn failures(&self) -> (r: u64)
        ensures
            r == self.spec_failures(),
    {
        self.consecutive_failures
    }
}

} // verus!
