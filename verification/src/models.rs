//! The UI's data model: workflows, their executions, jobs and steps, and
//! the log filter.
//!
//! Wall-clock stamps are held as nanoseconds since the Unix epoch
//! (negative before it), so that durations are plain integer arithmetic.

use vstd::prelude::*;
use crate::text::{contains_seq, chars_of, chars_eq, starts_with, str_contains};

verus! {

broadcast use vstd::string::group_string_axioms;

/// Final status of a job.
#[derive(Clone, Copy, Debug, PartialEq, Eq, Structural)]
pub enum JobStatus {
    Success,
    Failure,
    Skipped,
}

/// Final status of a step.
#[derive(Clone, Copy, Debug, PartialEq, Eq, Structural)]
pub enum StepStatus {
    Success,
    Failure,
    Skipped,
}

/// Result of trigger evaluation for display.
#[derive(Clone, Debug)]
pub enum TriggerMatchStatus {
    /// The workflow would trigger based on the current diff.
    Matched(String),
    /// The workflow would not trigger.
    Skipped(String),
}

/// Status of a workflow.
#[derive(Clone, Copy, Debug, PartialEq, Eq, Structural)]
pub enum WorkflowStatus {
    NotStarted,
    Running,
    Success,
    Failed,
    Skipped,
}

/// A workflow queued for execution, with its own target job.
pub struct QueuedExecution {
    pub workflow_idx: usize,
    pub target_job: Option<String>,
}

/// Step execution details. `env` is the (masked) environment the step saw;
/// `outputs`, `env_writes` and `path_writes` are what it wrote to
/// `$GITHUB_OUTPUT`, `$GITHUB_ENV` and `$GITHUB_PATH`.
pub struct StepExecution {
    pub name: String,
    pub status: StepStatus,
    pub output: String,
    pub started_at: Option<i128>,
    pub finished_at: Option<i128>,
    pub env: Vec<(String, String)>,
    pub outputs: Vec<(String, String)>,
    pub env_writes: Vec<(String, String)>,
    pub path_writes: Vec<String>,
}

/// Job execution details. `started_at`/`finished_at` are `None` for jobs
/// that never ran or synthetic results.
pub struct JobExecution {
    pub name: String,
    pub status: JobStatus,
    pub steps: Vec<StepExecution>,
    pub logs: Vec<String>,
    pub started_at: Option<i128>,
    pub finished_at: Option<i128>,
}

/// Detailed execution information of a workflow run.
pub struct WorkflowExecution {
    pub jobs: Vec<JobExecution>,
    pub start_time: i128,
    pub end_time: Option<i128>,
    pub logs: Vec<String>,
}

/// An individual workflow file.
pub struct Workflow {
    pub name: String,
    pub path: String,
    pub selected: bool,
    pub status: WorkflowStatus,
    pub execution_details: Option<WorkflowExecution>,
    pub job_names: Vec<String>,
    pub trigger_match: Option<TriggerMatchStatus>,
}

/// Started but not finished.
pub open spec fn running_spec(started: Option<i128>, finished: Option<i128>) -> bool {
    started is Some && finished is None
}

impl JobExecution {
    /// Started but not finished: a live progress row, whose `status` is a
    /// placeholder.
    pub fn is_running(&self) -> (r: bool)
        ensures
            r == running_spec(self.started_at, self.finished_at),
    {
        self.started_at.is_some() && self.finished_at.is_none()
    }
}

impl StepExecution {
    /// Started but not finished: a live progress row, whose `status` is a
    /// placeholder.
    pub fn is_running(&self) -> (r: bool)
        ensures
            r == running_spec(self.started_at, self.finished_at),
    {
        self.started_at.is_some() && self.finished_at.is_none()
    }
}

/// Whether `jobs[i]` answers to the pane entry `name`: exactly, or (when
/// `exact` is false) as a matrix combination named `"<name> (<combo>)"`.
pub open spec fn job_answers(job_name: Seq<char>, name: Seq<char>, exact: bool) -> bool {
    if exact {
        job_name == name
    } else {
        name.push(' ').push('(').is_prefix_of(job_name)
    }
}

/// The first index at or after `i` whose job answers to `name`.
pub open spec fn first_answering(jobs: Seq<JobExecution>, name: Seq<char>, exact: bool, i: int) -> Option<int>
    decreases jobs.len() - i,
{
    if i < 0 || i >= jobs.len() {
        None
    } else if job_answers(jobs[i].name@, name, exact) {
        Some(i)
    } else {
        first_answering(jobs, name, exact, i + 1)
    }
}

/// The execution entry index that the jobs-pane row `idx` resolves to.
pub open spec fn job_index_at(w: Workflow, idx: int) -> Option<int> {
    if 0 <= idx < w.job_names.len() && w.execution_details is Some {
        let jobs = w.execution_details->0.jobs@;
        let name = w.job_names@[idx]@;
        match first_answering(jobs, name, true, 0) {
            Some(i) => Some(i),
            None => first_answering(jobs, name, false, 0),
        }
    } else {
        None
    }
}

pub(crate) fn find_answering(jobs: &Vec<JobExecution>, name: &[char], exact: bool) -> (r: Option<usize>)
    ensures
        match r {
            Some(i) => i < jobs.len() && first_answering(jobs@, name@, exact, 0) == Some(i as int),
            None => first_answering(jobs@, name@, exact, 0) is None,
        },
{
    let mut pat: Vec<char> = Vec::new();
    crate::text::push_all(&mut pat, name);
    if !exact {
        pat.push(' ');
        pat.push('(');
    }
    let mut i: usize = 0;
    while i < jobs.len()
        invariant
            i <= jobs.len(),
            first_answering(jobs@, name@, exact, 0) == first_answering(jobs@, name@, exact, i as int),
            exact ==> pat@ == name@,
            !exact ==> pat@ == name@.push(' ').push('('),
        decreases jobs.len() - i,
    {
        let jn = chars_of(jobs[i].name.as_str());
        let hit = if exact {
            chars_eq(jn.as_slice(), pat.as_slice())
        } else {
            starts_with(jn.as_slice(), pat.as_slice())
        };
        if hit {
            return Some(i);
        }
        i += 1;
    }
    None
}

impl Workflow {
    /// The execution entry for the job at row `idx` of the jobs pane.
    ///
    /// The pane lists `job_names`, while `execution_details.jobs` is in
    /// execution order and holds only started jobs, so the row is resolved
    /// by name; a matrix job's first combination (`"<name> (<combo>)"`)
    /// stands in when there is no exact entry.
    pub fn job_execution_at(&self, idx: usize) -> (r: Option<&JobExecution>)
        ensures
            r == (match job_index_at(*self, idx as int) {
                Some(i) => Some(&self.execution_details->0.jobs@[i]),
                None => None,
            }),
    {
        if idx >= self.job_names.len() {
            return None;
        }
        let exec = match &self.execution_details {
            Some(e) => e,
            None => return None,
        };
        let name = chars_of(self.job_names[idx].as_str());
        match find_answering(&exec.jobs, name.as_slice(), true) {
            Some(i) => Some(&exec.jobs[i]),
            None => match find_answering(&exec.jobs, name.as_slice(), false) {
                Some(i) => Some(&exec.jobs[i]),
                None => None,
            },
        }
    }

    /// Number of rows in the jobs pane: the job names, or the executed jobs
    /// when there are no names (the definition failed to parse).
    pub fn job_pane_len(&self) -> (n: usize)
        ensures
            n == (if self.job_names.len() > 0 {
                self.job_names.len()
            } else {
                match self.execution_details {
                    Some(e) => e.jobs.len(),
                    None => 0,
                }
            }),
    {
        if !self.job_names.is_empty() {
            self.job_names.len()
        } else {
            match &self.execution_details {
                Some(e) => e.jobs.len(),
                None => 0,
            }
        }
    }
}

/// The workflow a detail view shows: the running one, else the selected
/// one, provided it is in range.
pub fn resolve_workflow_idx(current: Option<usize>, selected: Option<usize>, len: usize) -> (r: Option<usize>)
    ensures
        r == (match (if current is Some { current } else { selected }) {
            Some(i) => if i < len { Some(i) } else { None },
            None => None,
        }),
{
    let pick = match current {
        Some(c) => Some(c),
        None => selected,
    };
    match pick {
        Some(i) => if i < len { Some(i) } else { None },
        None => None,
    }
}

/// Severity of a status-bar message.
#[derive(Clone, Copy, Debug, PartialEq, Eq, Structural)]
pub enum StatusSeverity {
    Success,
    Info,
    Warning,
    Error,
}

impl Default for StatusSeverity {
    fn default() -> (s: StatusSeverity)
        ensures
            s == StatusSeverity::Error,
    {
        StatusSeverity::Error
    }
}

/// Log filter levels.
#[derive(Clone, Copy, Debug, PartialEq, Eq, Structural)]
pub enum LogFilterLevel {
    Info,
    Warning,
    Error,
    Success,
    Trigger,
    All,
}

/// The markers the logger prefixes to its lines, one per kind.
pub struct LogSymbols {
    pub info: String,
    pub warning: String,
    pub failure: String,
    pub success: String,
}

/// The level that follows `l` when cycling the filter.
pub open spec fn next_level(l: LogFilterLevel) -> LogFilterLevel {
    match l {
        LogFilterLevel::All => LogFilterLevel::Info,
        LogFilterLevel::Info => LogFilterLevel::Warning,
        LogFilterLevel::Warning => LogFilterLevel::Error,
        LogFilterLevel::Error => LogFilterLevel::Success,
        LogFilterLevel::Success => LogFilterLevel::Trigger,
        LogFilterLevel::Trigger => LogFilterLevel::All,
    }
}

/// The label of a level.
pub open spec fn level_label(l: LogFilterLevel) -> Seq<char> {
    match l {
        LogFilterLevel::All => "ALL"@,
        LogFilterLevel::Info => "INFO"@,
        LogFilterLevel::Warning => "WARNING"@,
        LogFilterLevel::Error => "ERROR"@,
        LogFilterLevel::Success => "SUCCESS"@,
        LogFilterLevel::Trigger => "TRIGGER"@,
    }
}

/// Whether `log` passes the filter `l`.
pub open spec fn level_matches(l: LogFilterLevel, log: Seq<char>, sym: LogSymbols) -> bool {
    match l {
        LogFilterLevel::Info => contains_seq(log, sym.info@) || (contains_seq(log, "INFO"@)
            && !contains_seq(log, "SUCCESS"@)),
        LogFilterLevel::Warning => contains_seq(log, sym.warning@) || contains_seq(log, "WARN"@),
        LogFilterLevel::Error => contains_seq(log, sym.failure@) || contains_seq(log, "ERROR"@),
        LogFilterLevel::Success => contains_seq(log, sym.success@) || contains_seq(log, "SUCCESS"@)
            || contains_seq(log, "success"@),
        LogFilterLevel::Trigger => contains_seq(log, "Triggering"@) || contains_seq(
            log,
            "triggered"@,
        ) || contains_seq(log, "TRIG"@),
        LogFilterLevel::All => true,
    }
}

impl LogFilterLevel {
    /// Whether `log` passes this filter; `symbols` are the logger's markers.
    pub fn matches(&self, log: &str, symbols: &LogSymbols) -> (r: bool)
        ensures
            r == level_matches(*self, log@, *symbols),
    {
        match self {
            LogFilterLevel::Info => str_contains(log, symbols.info.as_str()) || (str_contains(
                log,
                "INFO",
            ) && !str_contains(log, "SUCCESS")),
            LogFilterLevel::Warning => str_contains(log, symbols.warning.as_str()) || str_contains(
                log,
                "WARN",
            ),
            LogFilterLevel::Error => str_contains(log, symbols.failure.as_str()) || str_contains(
                log,
                "ERROR",
            ),
            LogFilterLevel::Success => str_contains(log, symbols.success.as_str()) || str_contains(
                log,
                "SUCCESS",
            ) || str_contains(log, "success"),
            LogFilterLevel::Trigger => str_contains(log, "Triggering") || str_contains(
                log,
                "triggered",
            ) || str_contains(log, "TRIG"),
            LogFilterLevel::All => true,
        }
    }

    /// The next level in the cycle All → Info → Warning → Error → Success →
    /// Trigger → All.
    pub fn next(&self) -> (r: Self)
        ensures
            r == next_level(*self),
    {
        match self {
            LogFilterLevel::All => LogFilterLevel::Info,
            LogFilterLevel::Info => LogFilterLevel::Warning,
            LogFilterLevel::Warning => LogFilterLevel::Error,
            LogFilterLevel::Error => LogFilterLevel::Success,
            LogFilterLevel::Success => LogFilterLevel::Trigger,
            LogFilterLevel::Trigger => LogFilterLevel::All,
        }
    }

    /// The label of this level.
    pub fn as_str(&self) -> (s: &str)
        ensures
            s@ == level_label(*self),
    {
        match self {
            LogFilterLevel::All => "ALL",
            LogFilterLevel::Info => "INFO",
            LogFilterLevel::Warning => "WARNING",
            LogFilterLevel::Error => "ERROR",
            LogFilterLevel::Success => "SUCCESS",
            LogFilterLevel::Trigger => "TRIGGER",
        }
    }
}

/// `next_level` applied `k` times.
pub open spec fn next_n(l: LogFilterLevel, k: nat) -> LogFilterLevel
    decreases k,
{
    if k == 0 {
        l
    } else {
        next_n(next_level(l), (k - 1) as nat)
    }
}

/// Cycling the filter six times comes back to where it started, and no
/// fewer presses do: the cycle goes through all six levels.
pub proof fn law_filter_cycle_returns(l: LogFilterLevel)
    ensures
        next_n(l, 6) == l,
        forall|k: nat| 1 <= k < 6 ==> #[trigger] next_n(l, k) != l,
{
    reveal_with_fuel(next_n, 7);
}

/// Every level is reached from `All` by cycling.
pub proof fn law_filter_cycle_reaches_all(l: LogFilterLevel)
    ensures
        exists|k: nat| k < 6 && #[trigger] next_n(LogFilterLevel::All, k) == l,
{
    reveal_with_fuel(next_n, 7);
    match l {
        LogFilterLevel::All => assert(next_n(LogFilterLevel::All, 0) == l),
        LogFilterLevel::Info => assert(next_n(LogFilterLevel::All, 1) == l),
        LogFilterLevel::Warning => assert(next_n(LogFilterLevel::All, 2) == l),
        LogFilterLevel::Error => assert(next_n(LogFilterLevel::All, 3) == l),
        LogFilterLevel::Success => assert(next_n(LogFilterLevel::All, 4) == l),
        LogFilterLevel::Trigger => assert(next_n(LogFilterLevel::All, 5) == l),
    }
}

/// Distinct levels have distinct labels.
pub proof fn law_level_labels_distinct(a: LogFilterLevel, b: LogFilterLevel)
    requires
        a != b,
    ensures
        level_label(a) != level_label(b),
{
    reveal_strlit("ALL");
    reveal_strlit("INFO");
    reveal_strlit("WARNING");
    reveal_strlit("ERROR");
    reveal_strlit("SUCCESS");
    reveal_strlit("TRIGGER");
    if level_label(a) == level_label(b) {
        let la = level_label(a);
        let lb = level_label(b);
        assert(la.len() == lb.len());
        assert(la[0] == lb[0]);
        assert(la[1] == lb[1]);
    }
}

/// The `All` filter lets every line through.
pub proof fn law_all_matches_everything(log: Seq<char>, sym: LogSymbols)
    ensures
        level_matches(LogFilterLevel::All, log, sym),
{
}

} // verus!
