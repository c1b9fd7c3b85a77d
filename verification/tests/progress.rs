use wrkflw_ui::models::{JobStatus, StepStatus};
use wrkflw_ui::progress::{job_finished_event, job_started_event, step_finished_event, step_started_event, ProgressEvent, StepResult};

#[test]
fn job_events_carry_name_status_and_stamp() {
    match job_started_event("build", 42) {
        ProgressEvent::JobStarted { job, at } => assert_eq!((job.as_str(), at), ("build", 42)),
        _ => panic!("expected JobStarted"),
    }
    match job_finished_event("build", JobStatus::Failure, 99) {
        ProgressEvent::JobFinished { job, status, at } => {
            assert_eq!((job.as_str(), status, at), ("build", JobStatus::Failure, 99))
        }
        _ => panic!("expected JobFinished"),
    }
    match step_started_event("build", "compile", 7) {
        ProgressEvent::StepStarted { job, step, at } => assert_eq!((job.as_str(), step.as_str(), at), ("build", "compile", 7)),
        _ => panic!("expected StepStarted"),
    }
}

#[test]
fn step_finish_uses_the_result_stamp_when_there_is_one() {
    let stamped = StepResult { name: "greet".to_string(), status: StepStatus::Success, output: "hello".to_string(), finished_at: Some(5) };
    match step_finished_event("first", &stamped, 100) {
        ProgressEvent::StepFinished { job, step, status, output, at } => {
            assert_eq!((job.as_str(), step.as_str(), status, output.as_str(), at), ("first", "greet", StepStatus::Success, "hello", 5));
        }
        _ => panic!("expected StepFinished"),
    }
    let unstamped = StepResult { name: "s".to_string(), status: StepStatus::Skipped, output: String::new(), finished_at: None };
    match step_finished_event("first", &unstamped, 100) {
        ProgressEvent::StepFinished { at, status, .. } => assert_eq!((at, status), (100, StepStatus::Skipped)),
        _ => panic!("expected StepFinished"),
    }
}
