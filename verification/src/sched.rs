//! Bounded-concurrency accounting and per-file outcomes: the permit pool
//! that gates how many file mappings are open at once, and the aggregation
//! of per-file results into the run's verdict.
//!
//! The pool is the decision core of the scheduler: the surrounding program
//! acquires a permit before opening and mapping a file and releases it when
//! the task completes, success or failure, so the number of simultaneously
//! open mappings never exceeds the limit.

use vstd::prelude::*;
use crate::tiff::LocateError;

verus! {

/// The permit pool: a concurrency limit and the number of permits out.
pub struct PermitPool {
    pub limit: usize,
    pub active: usize,
}

impl PermitPool {
    /// The pool never hands out more permits than its limit.
    pub open spec fn wf(self) -> bool {
        self.active <= self.limit
    }

    /// A fresh pool with the given concurrency limit and no permit out.
    pub fn new(limit: usize) -> (p: PermitPool)
        ensures
            p.wf(),
            p.limit == limit,
            p.active == 0,
    {
        PermitPool { limit, active: 0 }
    }

    /// Hands out one permit when one is free: the result says whether the
    /// caller may proceed, and the count of permits out grows only then.
    pub fn try_acquire(&mut self) -> (r: bool)
        requires
            old(self).wf(),
        ensures
            final(self).wf(),
            final(self).limit == old(self).limit,
            r == (old(self).active < old(self).limit),
            r ==> final(self).active == old(self).active + 1,
            !r ==> final(self).active == old(self).active,
    {
        if self.active < self.limit {
            self.active = self.active + 1;
            true
        } else {
            false
        }
    }

    /// Returns one permit; every completion path of a task must reach this
    /// exactly once.
    pub fn release(&mut self)
        requires
            old(self).wf(),
            old(self).active > 0,
        ensures
            final(self).wf(),
            final(self).limit == old(self).limit,
            final(self).active == old(self).active - 1,
    {
        self.active = self.active - 1;
    }
}

/// However permits are acquired and released, the number of permits out —
/// and with it the number of simultaneously open file mappings — never
/// exceeds the pool's limit.
pub proof fn lemma_permits_bounded(p: PermitPool)
    requires
        p.wf(),
    ensures
        p.active <= p.limit,
{
}

/// Why processing one file failed.
#[derive(Clone, Copy, Debug, PartialEq, Eq, Structural)]
pub enum FailureCause {
    /// The container locator rejected the file.
    Parse(LocateError),
    /// Opening, mapping, reading or writing failed in the operating system.
    IoFailure,
}

/// The result of one file's task.
#[derive(Clone, Copy, Debug, PartialEq, Eq, Structural)]
pub enum TaskResult {
    /// The located JPEG slice was written; holds the number of bytes.
    Written { bytes: usize },
    /// The task failed; no output file was produced for it.
    Failed { cause: FailureCause },
}

/// The outcome of one file, never silently dropped: its relative path and
/// how its task ended.
pub struct ProcessingOutcome {
    pub rel_path: Vec<u8>,
    pub result: TaskResult,
}

/// Whether every file of the run was processed without error: the run's
/// exit is success exactly when this holds.
pub fn all_succeeded(outcomes: &Vec<ProcessingOutcome>) -> (r: bool)
    ensures
        r == (forall|i: int|
            0 <= i < outcomes@.len() ==> (#[trigger] outcomes@[i].result) is Written),
{
    let n = outcomes.len();
    let mut i: usize = 0;
    while i < n
        invariant
            n == outcomes@.len(),
            i <= n,
            forall|k: int| 0 <= k < i ==> (#[trigger] outcomes@[k].result) is Written,
        decreases n - i,
    {
        match outcomes[i].result {
            TaskResult::Written { .. } => {},
            TaskResult::Failed { .. } => {
                return false;
            },
        }
        i = i + 1;
    }
    true
}

} // verus!
