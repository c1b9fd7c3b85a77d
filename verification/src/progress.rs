//! Live execution progress: the job and step start/finish events a run
//! emits so that a UI can draw real-time state. Stamps are nanoseconds
//! since the Unix epoch, on the same axis as the final results.

use vstd::prelude::*;
use crate::models::{JobStatus, StepStatus};
use crate::text::owned;

verus! {

/// A step's result as the executor records it.
pub struct StepResult {
    pub name: String,
    pub status: StepStatus,
    pub output: String,
    pub finished_at: Option<i128>,
}

/// A live execution event; `at` is the executor's wall-clock stamp.
#[allow(inconsistent_fields)]
pub enum ProgressEvent {
    JobStarted { job: String, at: i128 },
    JobFinished { job: String, status: JobStatus, at: i128 },
    StepStarted { job: String, step: String, at: i128 },
    StepFinished { job: String, step: String, status: StepStatus, output: String, at: i128 },
}

/// The event for a job that started at `at`.
pub fn job_started_event(job: &str, at: i128) -> (e: ProgressEvent)
    ensures
        e matches ProgressEvent::JobStarted { job: j, at: a } && j@ == job@ && a == at,
{
    ProgressEvent::JobStarted { job: owned(job), at }
}

/// The event for a job that finished with `status`, stamped `now`.
pub fn job_finished_event(job: &str, status: JobStatus, now: i128) -> (e: ProgressEvent)
    ensures
        e matches ProgressEvent::JobFinished { job: j, status: s, at: a } && j@ == job@ && s == status && a == now,
{
    ProgressEvent::JobFinished { job: owned(job), status, at: now }
}

/// The event for a step of `job` that started, stamped `now`.
pub fn step_started_event(job: &str, step: &str, now: i128) -> (e: ProgressEvent)
    ensures
        e matches ProgressEvent::StepStarted { job: j, step: s, at: a } && j@ == job@ && s@ == step@ && a == now,
{
    ProgressEvent::StepStarted { job: owned(job), step: owned(step), at: now }
}

/// The finish event for a step's result: its name, status and output,
/// stamped with the result's own finish time, or `now` when it has none.
pub fn step_finished_event(job: &str, result: &StepResult, now: i128) -> (e: ProgressEvent)
    ensures
        e matches ProgressEvent::StepFinished { job: j, step: s, status: st, output: o, at: a }
            && j@ == job@ && s@ == result.name@ && st == result.status && o@ == result.output@
            && a == (match result.finished_at {
                Some(t) => t,
                None => now,
            }),
{
    let at = match result.finished_at {
        Some(t) => t,
        None => now,
    };
    ProgressEvent::StepFinished {
        job: owned(job),
        step: owned(result.name.as_str()),
        status: result.status,
        output: owned(result.output.as_str()),
        at,
    }
}

} // verus!
