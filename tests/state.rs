use gbe_core::error::JobsDomainError;
use gbe_core::state::{JobState, TaskState};

#[test]
fn job_pending_to_running() {
    assert!(JobState::Pending.can_transition_to(JobState::Running));
}

#[test]
fn job_running_to_completed() {
    assert!(JobState::Running.can_transition_to(JobState::Completed));
}

#[test]
fn job_running_to_failed() {
    assert!(JobState::Running.can_transition_to(JobState::Failed));
}

#[test]
fn job_cancel_from_pending_and_running() {
    assert!(JobState::Pending.can_transition_to(JobState::Cancelled));
    assert!(JobState::Running.can_transition_to(JobState::Cancelled));
}

#[test]
fn job_no_backward_transitions() {
    assert!(!JobState::Running.can_transition_to(JobState::Pending));
    assert!(!JobState::Completed.can_transition_to(JobState::Running));
    assert!(!JobState::Failed.can_transition_to(JobState::Running));
}

#[test]
fn job_no_transitions_from_terminal() {
    for terminal in [JobState::Completed, JobState::Failed, JobState::Cancelled] {
        for target in [
            JobState::Pending,
            JobState::Running,
            JobState::Completed,
            JobState::Failed,
            JobState::Cancelled,
        ] {
            assert!(!terminal.can_transition_to(target));
        }
    }
}

#[test]
fn job_terminal_states() {
    assert!(!JobState::Pending.is_terminal());
    assert!(!JobState::Running.is_terminal());
    assert!(JobState::Completed.is_terminal());
    assert!(JobState::Failed.is_terminal());
    assert!(JobState::Cancelled.is_terminal());
}

#[test]
fn job_transition_to_returns_error_on_invalid() {
    let result = JobState::Completed.transition_to(JobState::Running);
    assert!(result.is_err());
}

#[test]
fn task_normal_flow() {
    assert!(TaskState::Blocked.can_transition_to(TaskState::Pending));
    assert!(TaskState::Pending.can_transition_to(TaskState::Claimed));
    assert!(TaskState::Claimed.can_transition_to(TaskState::Running));
    assert!(TaskState::Running.can_transition_to(TaskState::Completed));
}

#[test]
fn task_running_to_failed() {
    assert!(TaskState::Running.can_transition_to(TaskState::Failed));
}

#[test]
fn task_watcher_retries() {
    assert!(TaskState::Claimed.can_transition_to(TaskState::Pending));
    assert!(TaskState::Running.can_transition_to(TaskState::Pending));
}

#[test]
fn task_cancel_from_any_non_terminal() {
    assert!(TaskState::Blocked.can_transition_to(TaskState::Cancelled));
    assert!(TaskState::Pending.can_transition_to(TaskState::Cancelled));
    assert!(TaskState::Claimed.can_transition_to(TaskState::Cancelled));
    assert!(TaskState::Running.can_transition_to(TaskState::Cancelled));
}

#[test]
fn task_no_transitions_from_terminal() {
    for terminal in [TaskState::Completed, TaskState::Failed, TaskState::Cancelled] {
        for target in [
            TaskState::Blocked,
            TaskState::Pending,
            TaskState::Claimed,
            TaskState::Running,
            TaskState::Completed,
            TaskState::Failed,
            TaskState::Cancelled,
        ] {
            assert!(!terminal.can_transition_to(target));
        }
    }
}

#[test]
fn task_no_skip_transitions() {
    assert!(!TaskState::Blocked.can_transition_to(TaskState::Claimed));
    assert!(!TaskState::Blocked.can_transition_to(TaskState::Running));
    assert!(!TaskState::Pending.can_transition_to(TaskState::Running));
}

#[test]
fn task_terminal_states() {
    assert!(!TaskState::Blocked.is_terminal());
    assert!(!TaskState::Pending.is_terminal());
    assert!(!TaskState::Claimed.is_terminal());
    assert!(!TaskState::Running.is_terminal());
    assert!(TaskState::Completed.is_terminal());
    assert!(TaskState::Failed.is_terminal());
    assert!(TaskState::Cancelled.is_terminal());
}

#[test]
fn transition_error_names_both_states() {
    match TaskState::Completed.transition_to(TaskState::Running) {
        Err(JobsDomainError::InvalidTransition { from, to }) => {
            assert_eq!(from, "Completed");
            assert_eq!(to, "Running");
        }
        other => panic!("unexpected: {other:?}"),
    }
    assert_eq!(JobState::Pending.transition_to(JobState::Running).unwrap(), JobState::Running);
    assert_eq!(TaskState::Claimed.transition_to(TaskState::Pending).unwrap(), TaskState::Pending);
}

#[test]
fn wire_names_are_lowercase() {
    assert_eq!(JobState::Running.as_str(), "running");
    assert_eq!(JobState::Cancelled.as_str(), "cancelled");
    assert_eq!(TaskState::Blocked.as_str(), "blocked");
    assert_eq!(TaskState::Claimed.as_str(), "claimed");
}

#[test]
fn terminal_states_have_no_successor() {
    let all = [
        TaskState::Blocked,
        TaskState::Pending,
        TaskState::Claimed,
        TaskState::Running,
        TaskState::Completed,
        TaskState::Failed,
        TaskState::Cancelled,
    ];
    for from in all {
        if from.is_terminal() {
            for to in all {
                assert!(from.transition_to(to).is_err());
            }
        }
    }
}
