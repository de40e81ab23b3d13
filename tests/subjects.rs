use gbe_core::keys::{job_key, job_task_index_key, job_tasks_prefix, task_key};
use gbe_core::subjects::{jobs, lifecycle, tasks};

#[test]
fn job_subjects() {
    assert_eq!(jobs::created("daily-report"), "gbe.jobs.daily-report.created");
    assert_eq!(jobs::completed("daily-report"), "gbe.jobs.daily-report.completed");
    assert_eq!(jobs::failed("daily-report"), "gbe.jobs.daily-report.failed");
    assert_eq!(jobs::cancelled("daily-report"), "gbe.jobs.daily-report.cancelled");
    assert_eq!(jobs::all("daily-report"), "gbe.jobs.daily-report.*");
}

#[test]
fn task_subjects() {
    assert_eq!(tasks::queue("email-send"), "gbe.tasks.email-send.queue");
    assert_eq!(tasks::progress("email-send"), "gbe.tasks.email-send.progress");
    assert_eq!(tasks::terminal("email-send"), "gbe.tasks.email-send.terminal");
}

#[test]
fn lifecycle_subjects() {
    assert_eq!(lifecycle::started("operative"), "gbe.events.lifecycle.operative.started");
    assert_eq!(lifecycle::stopped("oracle"), "gbe.events.lifecycle.oracle.stopped");
    assert_eq!(lifecycle::heartbeat("sentinel"), "gbe.events.lifecycle.sentinel.heartbeat");
    assert_eq!(lifecycle::degraded("watcher"), "gbe.events.lifecycle.watcher.degraded");
    assert_eq!(lifecycle::all("operative"), "gbe.events.lifecycle.operative.*");
    assert_eq!(lifecycle::all_components(), "gbe.events.lifecycle.*.*");
}

#[test]
fn job_key_format() {
    assert_eq!(job_key("daily-report", "job_abc123"), "gbe.state.jobs.daily-report.job_abc123");
}

#[test]
fn task_key_format() {
    assert_eq!(task_key("email-send", "task_xyz789"), "gbe.state.tasks.email-send.task_xyz789");
}

#[test]
fn index_key_format() {
    assert_eq!(
        job_task_index_key("job_abc123", "fetch-data"),
        "gbe.idx.jobs.job_abc123.tasks.fetch-data"
    );
}

#[test]
fn index_prefix_format() {
    assert_eq!(job_tasks_prefix("job_abc123"), "gbe.idx.jobs.job_abc123.tasks.");
}

#[test]
fn index_key_starts_with_prefix() {
    let key = job_task_index_key("job_x", "send");
    assert!(key.starts_with(&job_tasks_prefix("job_x")));
}
