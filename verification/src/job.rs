//! Job results, exit codes, and the bookkeeping of outstanding jobs.
use vstd::prelude::*;

use crate::text::{dec_of, string_of, u64_to_dec};

verus! {

/// How a job's process ended.
#[derive(Clone, Copy, Debug, PartialEq, Eq, Structural)]
pub enum JobStatus {
    Exited(u8),
    Signaled(u8),
}

/// One captured output stream of a job.
#[derive(Clone, Debug, PartialEq, Eq)]
pub enum JobOutputResult {
    Empty,
    Inline(Vec<u8>),
    Truncated { first: Vec<u8>, truncated: u64 },
}

/// What a completed job produced.
#[derive(Clone, Debug, PartialEq, Eq)]
pub struct JobEffects {
    pub stdout: JobOutputResult,
    pub stderr: JobOutputResult,
    pub duration_nanos: u64,
}

/// A failure of the infrastructure, not of the job's own code.
#[derive(Clone, Debug, PartialEq, Eq)]
pub enum JobError {
    Execution(String),
    System(String),
}

/// How a job run ended.
#[derive(Clone, Debug, PartialEq, Eq)]
pub enum JobOutcome {
    Completed { status: JobStatus, effects: JobEffects },
    TimedOut(JobEffects),
}

/// The result delivered to a job's handler.
pub type JobOutcomeResult = Result<JobOutcome, JobError>;

/// The exit code a result maps to: a completed job's own exit code; any
/// signal, timeout or error is a plain failure.
pub open spec fn spec_exit_code(res: JobOutcomeResult) -> u8 {
    match res {
        Ok(JobOutcome::Completed { status: JobStatus::Exited(code), .. }) => code,
        Ok(JobOutcome::Completed { status: JobStatus::Signaled(_), .. }) => 1,
        Ok(JobOutcome::TimedOut(_)) => 1,
        Err(_) => 1,
    }
}

/// The exit code for one job result.
pub fn exit_code_for(res: &JobOutcomeResult) -> (r: u8)
    ensures
        r == spec_exit_code(*res),
{
    match res {
        Ok(JobOutcome::Completed { status: JobStatus::Exited(code), .. }) => *code,
        Ok(JobOutcome::Completed { status: JobStatus::Signaled(_), .. }) => 1,
        Ok(JobOutcome::TimedOut(_)) => 1,
        Err(_) => 1,
    }
}

/// Keeps the first failing exit code that was added.
#[derive(Clone, Copy, Debug, PartialEq, Eq, Structural)]
pub struct ExitCodeAccumulator {
    pub first_failure: Option<u8>,
}

impl ExitCodeAccumulator {
    /// An accumulator that has seen no failure.
    pub fn new() -> (r: Self)
        ensures
            r.first_failure is None,
    {
        ExitCodeAccumulator { first_failure: None }
    }

    /// Record one exit code; only the first nonzero one is kept.
    pub fn add(&mut self, code: u8)
        ensures
            final(self).first_failure == if old(self).first_failure is None && code != 0 {
                Some(code)
            } else {
                old(self).first_failure
            },
    {
        if self.first_failure.is_none() && code != 0 {
            self.first_failure = Some(code);
        }
    }

    /// The overall exit code: the first failure, or success.
    pub fn get(&self) -> (r: u8)
        ensures
            r == match self.first_failure {
                Some(c) => c,
                None => 0u8,
            },
    {
        match self.first_failure {
            Some(c) => c,
            None => 0,
        }
    }
}

/// Counts the jobs submitted but not yet completed, and accumulates their
/// exit codes. Waiting for the count to reach zero is the caller's loop.
#[derive(Clone, Copy, Debug, PartialEq, Eq, Structural)]
pub struct JobTracker {
    pub outstanding: usize,
    pub accum: ExitCodeAccumulator,
}

impl JobTracker {
    /// A tracker with nothing outstanding.
    pub fn new() -> (r: Self)
        ensures
            r.outstanding == 0,
            r.accum.first_failure is None,
    {
        JobTracker { outstanding: 0, accum: ExitCodeAccumulator::new() }
    }

    /// Note one more submitted job.
    pub fn add_outstanding(&mut self)
        requires
            old(self).outstanding < usize::MAX,
        ensures
            final(self).outstanding == old(self).outstanding + 1,
            final(self).accum == old(self).accum,
    {
        self.outstanding = self.outstanding + 1;
    }

    /// Note one completed job and its exit code.
    pub fn job_completed(&mut self, exit_code: u8)
        requires
            old(self).outstanding > 0,
        ensures
            final(self).outstanding == old(self).outstanding - 1,
            final(self).accum.first_failure == if old(self).accum.first_failure is None
                && exit_code != 0 {
                Some(exit_code)
            } else {
                old(self).accum.first_failure
            },
    {
        self.outstanding = self.outstanding - 1;
        self.accum.add(exit_code);
    }

    /// Whether every submitted job has completed.
    pub fn all_done(&self) -> (r: bool)
        ensures
            r == (self.outstanding == 0),
    {
        self.outstanding == 0
    }
}

/// The note printed for a result that is not a plain success, rendered
/// exactly; `None` for a clean exit.
pub open spec fn spec_result_note(cjid: u32, res: JobOutcomeResult) -> Option<Seq<char>> {
    match res {
        Ok(JobOutcome::Completed { status: JobStatus::Exited(code), .. }) => if code == 0 {
            None
        } else {
            Some(
                "job "@ + dec_of(cjid as nat) + ": exited with code "@ + dec_of(code as nat),
            )
        },
        Ok(JobOutcome::Completed { status: JobStatus::Signaled(signo), .. }) => Some(
            "job "@ + dec_of(cjid as nat) + ": killed by signal "@ + dec_of(signo as nat),
        ),
        Ok(JobOutcome::TimedOut(_)) => Some("job "@ + dec_of(cjid as nat) + ": timed out"@),
        Err(JobError::Execution(e)) => Some(
            "job "@ + dec_of(cjid as nat) + ": execution error: "@ + e@,
        ),
        Err(JobError::System(e)) => Some(
            "job "@ + dec_of(cjid as nat) + ": system error: "@ + e@,
        ),
    }
}

fn note_with(cjid: u32, middle: &str, tail: &Vec<char>) -> (r: String)
    ensures
        r@ == "job "@ + dec_of(cjid as nat) + middle@ + tail@,
{
    let head = crate::text::chars_of("job ");
    let id = u64_to_dec(cjid as u64);
    let mid = crate::text::chars_of(middle);
    let a = crate::text::concat_chars(&head, &id);
    let b = crate::text::concat_chars(&a, &mid);
    let c = crate::text::concat_chars(&b, tail);
    proof {
        assert(c@ =~= "job "@ + dec_of(cjid as nat) + middle@ + tail@);
    }
    string_of(&c)
}

/// The decision part of delivering one job result: the exit code, and the
/// note to print if the result was not a plain success.
pub fn visit_result(cjid: u32, res: &JobOutcomeResult) -> (r: (u8, Option<String>))
    ensures
        r.0 == spec_exit_code(*res),
        match r.1 {
            Some(s) => spec_result_note(cjid, *res) == Some(s@),
            None => spec_result_note(cjid, *res) is None,
        },
{
    let code = exit_code_for(res);
    let note = match res {
        Ok(JobOutcome::Completed { status: JobStatus::Exited(c), .. }) => {
            if *c == 0 {
                None
            } else {
                let tail = u64_to_dec(*c as u64);
                Some(note_with(cjid, ": exited with code ", &tail))
            }
        },
        Ok(JobOutcome::Completed { status: JobStatus::Signaled(s), .. }) => {
            let tail = u64_to_dec(*s as u64);
            Some(note_with(cjid, ": killed by signal ", &tail))
        },
        Ok(JobOutcome::TimedOut(_)) => {
            let tail: Vec<char> = Vec::new();
            proof {
                assert(": timed out"@ + tail@ =~= ": timed out"@);
            }
            Some(note_with(cjid, ": timed out", &tail))
        },
        Err(JobError::Execution(e)) => {
            let tail = crate::text::chars_of(e.as_str());
            Some(note_with(cjid, ": execution error: ", &tail))
        },
        Err(JobError::System(e)) => {
            let tail = crate::text::chars_of(e.as_str());
            Some(note_with(cjid, ": system error: ", &tail))
        },
    };
    (code, note)
}

} // verus!
