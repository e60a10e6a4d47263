//! The per-call state of a point resolution: a bounded pool of
//! concurrent sample tasks that is refilled one-for-one as tasks
//! complete, until the target sample count is reached, and whose
//! outcomes are aggregated when all are in.
//!
//! The pool only decides: what to launch first, whether a finished task
//! is replaced, and what the call returns. The caller runs the tasks
//! and reports each outcome, in any order — aggregation does not depend
//! on completion order.

use crate::aggregate::{aggregate_points, majority_double, robust_mean, xs_of, ys_of, ViewportPoint};
use vstd::prelude::*;

verus! {

/// Why a point resolution failed.
#[derive(Debug, Clone, Copy, PartialEq, Eq, Structural)]
pub enum ResolveError {
    /// Every concurrent sample errored: nothing to aggregate.
    AllSamplesFailed,
}

/// The sampling pool of one resolution call.
pub struct SamplePool {
    target: usize,
    max_conc: usize,
    launched: usize,
    completed: usize,
    succeeded: Vec<ViewportPoint>,
    failed: usize,
}

impl SamplePool {
    pub closed spec fn spec_target(self) -> usize {
        self.target
    }

    pub closed spec fn spec_max_conc(self) -> usize {
        self.max_conc
    }

    pub closed spec fn spec_launched(self) -> usize {
        self.launched
    }

    pub closed spec fn spec_completed(self) -> usize {
        self.completed
    }

    pub closed spec fn spec_succeeded(self) -> Seq<ViewportPoint> {
        self.succeeded@
    }

    pub closed spec fn spec_failed(self) -> usize {
        self.failed
    }

    /// Counters hang together: every outcome belongs to a launched
    /// task, and no more tasks are launched than asked for.
    pub open spec fn wf(self) -> bool {
        &&& 1 <= self.spec_target() <= 0x7FFF_FFFF
        &&& 1 <= self.spec_max_conc()
        &&& self.spec_succeeded().len() + self.spec_failed() == self.spec_completed()
        &&& self.spec_completed() <= self.spec_launched() <= self.spec_target()
    }

    /// A pool for one resolution call. A sample count or concurrency of
    /// zero is raised to one; a sample count beyond the samples' index
    /// range is clamped.
    pub fn new(samples: usize, max_conc: usize) -> (r: Self)
        ensures
            r.wf(),
            r.spec_target() == if samples == 0 {
                1usize
            } else if samples > 0x7FFF_FFFF {
                0x7FFF_FFFFusize
            } else {
                samples
            },
            r.spec_max_conc() == if max_conc == 0 {
                1usize
            } else {
                max_conc
            },
            r.spec_launched() == r.initial_batch(),
            r.spec_completed() == 0,
            r.spec_succeeded() == Seq::<ViewportPoint>::empty(),
            r.spec_failed() == 0,
    {
        let target = if samples == 0 {
            1
        } else if samples > 0x7FFF_FFFF {
            0x7FFF_FFFF
        } else {
            samples
        };
        let conc = if max_conc == 0 {
            1
        } else {
            max_conc
        };
        let launched = if target < conc {
            target
        } else {
            conc
        };
        let r = SamplePool {
            target,
            max_conc: conc,
            launched,
            completed: 0,
            succeeded: Vec::new(),
            failed: 0,
        };
        proof {
            assert(r.spec_succeeded() =~= Seq::<ViewportPoint>::empty());
        }
        r
    }

    /// How many tasks start immediately: the target, capped by the
    /// concurrency bound. `new` has already launched them.
    pub open spec fn initial_batch(self) -> usize {
        if self.spec_target() < self.spec_max_conc() {
            self.spec_target()
        } else {
            self.spec_max_conc()
        }
    }

    /// Report one finished task. A success joins the samples, a failure
    /// is counted; the result says whether to launch a replacement task
    /// (true exactly while the launch count is below the target).
    pub fn on_sample_done(&mut self, outcome: Option<ViewportPoint>) -> (launch_more: bool)
        requires
            old(self).wf(),
            old(self).spec_completed() < old(self).spec_launched(),
        ensures
            final (self).wf(),
            final (self).spec_target() == old(self).spec_target(),
            final (self).spec_max_conc() == old(self).spec_max_conc(),
            final (self).spec_completed() == old(self).spec_completed() + 1,
            match outcome {
                Some(p) => final (self).spec_succeeded() == old(self).spec_succeeded().push(p)
                    && final (self).spec_failed() == old(self).spec_failed(),
                None => final (self).spec_succeeded() == old(self).spec_succeeded() && final (
                self).spec_failed() == old(self).spec_failed() + 1,
            },
            launch_more == (old(self).spec_launched() < old(self).spec_target()),
            final (self).spec_launched() == if launch_more {
                (old(self).spec_launched() + 1) as usize
            } else {
                old(self).spec_launched()
            },
    {
        self.completed = self.completed + 1;
        match outcome {
            Some(p) => {
                self.succeeded.push(p);
            },
            None => {
                self.failed = self.failed + 1;
            },
        }
        if self.launched < self.target {
            self.launched = self.launched + 1;
            true
        } else {
            false
        }
    }

    /// Whether every launched task has reported and no more will start.
    pub fn all_done(&self) -> (r: bool)
        ensures
            r == (self.spec_completed() == self.spec_launched() && self.spec_launched()
                == self.spec_target()),
    {
        self.completed == self.launched && self.launched == self.target
    }

    /// The resolution's result: the aggregate of the successful
    /// samples, or the terminal error when every sample failed.
    pub fn finish(&self) -> (r: Result<ViewportPoint, ResolveError>)
        requires
            self.wf(),
            self.spec_completed() == self.spec_launched(),
            self.spec_launched() == self.spec_target(),
        ensures
            match r {
                Ok(p) => self.spec_succeeded().len() > 0 && p.x as int == robust_mean(
                    xs_of(self.spec_succeeded()),
                ) && p.y as int == robust_mean(ys_of(self.spec_succeeded())) && p.double
                    == majority_double(self.spec_succeeded()),
                Err(e) => self.spec_succeeded().len() == 0 && e == ResolveError::AllSamplesFailed,
            },
    {
        if self.succeeded.len() == 0 {
            Err(ResolveError::AllSamplesFailed)
        } else {
            Ok(aggregate_points(&self.succeeded))
        }
    }

    /// How many successful samples are in so far.
    pub fn successes(&self) -> (r: usize)
        ensures
            r == self.spec_succeeded().len(),
    {
        self.succeeded.len()
    }
}

/// The start delay of a sample task, smearing request bursts: the
/// stagger unit times one more than the task's index modulo eight,
/// saturating at the timer type's maximum.
pub open spec fn spec_stagger_ms(stagger: int, task_index: int) -> int {
    let k = task_index % 8 + 1;
    if stagger * k > u64::MAX {
        u64::MAX as int
    } else {
        stagger * k
    }
}

/// The start delay of the sample task with the given index.
pub fn stagger_delay_ms(stagger: u64, task_index: usize) -> (r: u64)
    ensures
        r as int == spec_stagger_ms(stagger as int, task_index as int),
{
    let k: u64 = (task_index as u64) % 8 + 1;
    proof {
        assert(task_index as int % 8 == (task_index as u64) as int % 8);
    }
    if stagger == 0 {
        return 0;
    }
    if stagger > u64::MAX / k {
        proof {
            vstd::arithmetic::div_mod::lemma_fundamental_div_mod(u64::MAX as int, k as int);
            assert((u64::MAX as int) < ((u64::MAX as int) / (k as int) + 1) * k)
                by (nonlinear_arith)
                requires
                    u64::MAX as int == ((u64::MAX as int) / (k as int)) * k + (u64::MAX as int) % (
                    k as int),
                    0 <= (u64::MAX as int) % (k as int) < k,
                    k >= 1,
            ;
            assert(stagger * k > u64::MAX) by (nonlinear_arith)
                requires
                    stagger >= (u64::MAX as int) / (k as int) + 1,
                    k >= 1,
                    ((u64::MAX as int) / (k as int) + 1) * k > u64::MAX,
            ;
        }
        u64::MAX
    } else {
        proof {
            vstd::arithmetic::div_mod::lemma_fundamental_div_mod(u64::MAX as int, k as int);
            assert(((u64::MAX as int) / (k as int)) * k <= u64::MAX) by (nonlinear_arith)
                requires
                    u64::MAX as int == ((u64::MAX as int) / (k as int)) * k + (u64::MAX as int) % (
                    k as int),
                    0 <= (u64::MAX as int) % (k as int),
            ;
            assert(stagger * k <= u64::MAX) by (nonlinear_arith)
                requires
                    1 <= stagger <= (u64::MAX as int) / (k as int),
                    k >= 1,
                    ((u64::MAX as int) / (k as int)) * k <= u64::MAX,
            ;
        }
        stagger * k
    }
}

/// Apply a fixed operator-calibration offset to a single resolved
/// point, saturating at the coordinate range's ends.
pub fn offset_point(p: ViewportPoint, dx: i32, dy: i32) -> (r: ViewportPoint)
    ensures
        r.x as int == if p.x + dx > i32::MAX {
            i32::MAX as int
        } else if p.x + dx < i32::MIN {
            i32::MIN as int
        } else {
            p.x + dx
        },
        r.y as int == if p.y + dy > i32::MAX {
            i32::MAX as int
        } else if p.y + dy < i32::MIN {
            i32::MIN as int
        } else {
            p.y + dy
        },
        r.double == p.double,
{
    let x = clamp_add(p.x, dx);
    let y = clamp_add(p.y, dy);
    ViewportPoint { x, y, double: p.double }
}

/// Add within the coordinate range, sticking at its ends.
fn clamp_add(a: i32, b: i32) -> (r: i32)
    ensures
        r as int == if a + b > i32::MAX {
            i32::MAX as int
        } else if a + b < i32::MIN {
            i32::MIN as int
        } else {
            a + b
        },
{
    if b >= 0 {
        if a > i32::MAX - b {
            i32::MAX
        } else {
            a + b
        }
    } else {
        if a < i32::MIN - b {
            i32::MIN
        } else {
            a + b
        }
    }
}

} // verus!
