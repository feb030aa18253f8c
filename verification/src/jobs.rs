//! One archive job at a time: the flags that the application shares between
//! its commands, and the step that claims them.
use crate::error::Error;
use vstd::prelude::*;

verus! {

/// Whether a job runs and whether it was asked to stop.
pub struct Jobs {
    busy: bool,
    cancel: bool,
}

impl Jobs {
    pub closed spec fn spec_busy(&self) -> bool {
        self.busy
    }

    pub closed spec fn spec_cancel(&self) -> bool {
        self.cancel
    }

    /// No job runs.
    pub fn new() -> (j: Jobs)
        ensures
            !j.spec_busy(),
            !j.spec_cancel(),
    {
        Jobs { busy: false, cancel: false }
    }

    pub fn is_busy(&self) -> (r: bool)
        ensures
            r == self.spec_busy(),
    {
        self.busy
    }

    pub fn is_cancelled(&self) -> (r: bool)
        ensures
            r == self.spec_cancel(),
    {
        self.cancel
    }

    /// Asks the running job, if any, to stop.
    pub fn cancel_job(&mut self)
        ensures
            final(self).spec_cancel(),
            final(self).spec_busy() == old(self).spec_busy(),
    {
        self.cancel = true;
    }

    /// The running job has ended, however it ended.
    pub fn finish(&mut self)
        ensures
            !final(self).spec_busy(),
            final(self).spec_cancel() == old(self).spec_cancel(),
    {
        self.busy = false;
    }
}

/// What `begin` does: it refuses while a job runs and changes nothing then;
/// otherwise the job runs and no stop is asked for.
pub open spec fn begin_spec(before: Jobs, after: Jobs, r: Result<(), Error>) -> bool {
    if before.spec_busy() {
        r matches Err(Error::Busy) && after == before
    } else {
        r is Ok && after.spec_busy() && !after.spec_cancel()
    }
}

/// Claims the job flags for a new job.
pub fn begin(state: &mut Jobs) -> (r: Result<(), Error>)
    ensures
        begin_spec(*old(state), *final(state), r),
{
    if state.busy {
        return Err(Error::Busy);
    }
    state.busy = true;
    state.cancel = false;
    Ok(())
}

/// While a job runs, no second job can begin; once it has finished, one can.
pub proof fn lemma_one_job_at_a_time(
    s0: Jobs,
    s1: Jobs,
    r1: Result<(), Error>,
    s2: Jobs,
    r2: Result<(), Error>,
    s3: Jobs,
    s4: Jobs,
    r4: Result<(), Error>,
)
    requires
        begin_spec(s0, s1, r1),
        r1 is Ok,
        begin_spec(s1, s2, r2),
        !s3.spec_busy(),
        begin_spec(s3, s4, r4),
    ensures
        r2 matches Err(Error::Busy),
        s2 == s1,
        r4 is Ok,
{
}

} // verus!
