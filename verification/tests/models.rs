use wrkflw_ui::models::{
    resolve_workflow_idx, JobExecution, JobStatus, LogFilterLevel, LogSymbols, QueuedExecution, StatusSeverity,
    StepExecution, StepStatus, TriggerMatchStatus, Workflow, WorkflowExecution, WorkflowStatus,
};

fn job(name: &str, start: Option<i128>, end: Option<i128>) -> JobExecution {
    JobExecution { name: name.to_string(), status: JobStatus::Success, steps: vec![], logs: vec![], started_at: start, finished_at: end }
}

fn workflow(job_names: &[&str], jobs: Option<Vec<JobExecution>>) -> Workflow {
    Workflow {
        name: "ci".to_string(),
        path: "ci.yml".to_string(),
        selected: false,
        status: WorkflowStatus::NotStarted,
        execution_details: jobs.map(|jobs| WorkflowExecution { jobs, start_time: 0, end_time: None, logs: vec![] }),
        job_names: job_names.iter().map(|s| s.to_string()).collect(),
        trigger_match: Some(TriggerMatchStatus::Matched("push".to_string())),
    }
}

fn symbols() -> LogSymbols {
    LogSymbols { info: "ℹ️".to_string(), warning: "⚠️".to_string(), failure: "❌".to_string(), success: "✅".to_string() }
}

#[test]
fn job_rows_resolve_by_name_not_position() {
    let w = workflow(&["lint", "build"], Some(vec![job("build", Some(0), Some(1)), job("lint", Some(0), Some(1))]));
    assert_eq!(w.job_execution_at(0).unwrap().name, "lint");
    assert_eq!(w.job_execution_at(1).unwrap().name, "build");
    assert!(w.job_execution_at(2).is_none());
}

#[test]
fn matrix_rows_fall_back_to_the_first_combination() {
    let w = workflow(&["test"], Some(vec![job("test (a)", Some(0), None), job("test (b)", Some(0), None)]));
    assert_eq!(w.job_execution_at(0).unwrap().name, "test (a)");
    let exact = workflow(&["test"], Some(vec![job("test (a)", Some(0), None), job("test", Some(0), None)]));
    assert_eq!(exact.job_execution_at(0).unwrap().name, "test");
    let none = workflow(&["test"], None);
    assert!(none.job_execution_at(0).is_none());
}

#[test]
fn job_pane_len_falls_back_to_executed_jobs() {
    assert_eq!(workflow(&["a", "b"], None).job_pane_len(), 2);
    assert_eq!(workflow(&[], Some(vec![job("x", None, None)])).job_pane_len(), 1);
    assert_eq!(workflow(&[], None).job_pane_len(), 0);
}

#[test]
fn running_means_started_and_not_finished() {
    assert!(job("a", Some(1), None).is_running());
    assert!(!job("a", Some(1), Some(2)).is_running());
    assert!(!job("a", None, None).is_running());
    let s = StepExecution {
        name: "s".to_string(),
        status: StepStatus::Success,
        output: String::new(),
        started_at: Some(5),
        finished_at: None,
        env: vec![],
        outputs: vec![],
        env_writes: vec![],
        path_writes: vec![],
    };
    assert!(s.is_running());
}

#[test]
fn resolve_prefers_the_running_workflow() {
    assert_eq!(resolve_workflow_idx(Some(1), Some(0), 3), Some(1));
    assert_eq!(resolve_workflow_idx(None, Some(2), 3), Some(2));
    assert_eq!(resolve_workflow_idx(Some(5), Some(0), 3), None);
    assert_eq!(resolve_workflow_idx(None, None, 3), None);
}

#[test]
fn status_severity_defaults_to_error() {
    assert_eq!(StatusSeverity::default(), StatusSeverity::Error);
}

#[test]
fn filter_cycles_through_every_level() {
    let mut l = LogFilterLevel::All;
    let mut seen = vec![];
    for _ in 0..6 {
        seen.push(l.as_str().to_string());
        l = l.next();
    }
    assert_eq!(l, LogFilterLevel::All);
    assert_eq!(seen, vec!["ALL", "INFO", "WARNING", "ERROR", "SUCCESS", "TRIGGER"]);
}

#[test]
fn filter_matches_by_marker_or_word() {
    let s = symbols();
    assert!(LogFilterLevel::All.matches("anything", &s));
    assert!(LogFilterLevel::Info.matches("ℹ️ starting", &s));
    assert!(LogFilterLevel::Info.matches("INFO ready", &s));
    assert!(!LogFilterLevel::Info.matches("INFO SUCCESS", &s));
    assert!(LogFilterLevel::Warning.matches("WARN: low disk", &s));
    assert!(LogFilterLevel::Error.matches("❌ failed", &s));
    assert!(!LogFilterLevel::Error.matches("all good", &s));
    assert!(LogFilterLevel::Success.matches("job success", &s));
    assert!(LogFilterLevel::Trigger.matches("Triggering workflow", &s));
    assert!(!LogFilterLevel::Trigger.matches("trigger", &s));
}

#[test]
fn queued_execution_carries_its_target() {
    let q = QueuedExecution { workflow_idx: 2, target_job: Some("build".to_string()) };
    assert_eq!(q.workflow_idx, 2);
    assert_eq!(q.target_job.as_deref(), Some("build"));
}
