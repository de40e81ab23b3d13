use gbe_core::error::JobsDomainError;
use gbe_core::ids::{JobId, OrgId, TaskId, TaskType};

#[test]
fn valid_job_id() {
    assert!(JobId::new("job_daily-report").is_ok());
    assert!(JobId::new("job_abc_123").is_ok());
    assert!(JobId::new("job_a").is_ok());
}

#[test]
fn invalid_job_id() {
    assert!(JobId::new("").is_err());
    assert!(JobId::new("daily-report").is_err());
    // A prefixed id needs a non-empty suffix after the prefix.
    assert!(JobId::new("job_").is_err());
    assert!(JobId::new("job_has spaces").is_err());
    assert!(JobId::new("job_has.dots").is_err());
    let long = "job_".to_string() + &"a".repeat(61);
    assert!(JobId::new(&long).is_err());
}

#[test]
fn valid_task_id() {
    assert!(TaskId::new("task_fetch-data").is_ok());
    assert!(TaskId::new("task_step_1").is_ok());
}

#[test]
fn invalid_task_id() {
    assert!(TaskId::new("").is_err());
    assert!(TaskId::new("fetch-data").is_err());
    assert!(TaskId::new("job_wrong-prefix").is_err());
}

#[test]
fn valid_org_id() {
    assert!(OrgId::new("org_acme").is_ok());
    assert!(OrgId::new("org_test-corp").is_ok());
}

#[test]
fn invalid_org_id() {
    assert!(OrgId::new("").is_err());
    assert!(OrgId::new("acme").is_err());
}

#[test]
fn valid_task_type() {
    assert!(TaskType::new("email-send").is_ok());
    assert!(TaskType::new("data-fetch").is_ok());
    assert!(TaskType::new("a").is_ok());
    assert!(TaskType::new("step1").is_ok());
}

#[test]
fn invalid_task_type() {
    assert!(TaskType::new("").is_err());
    assert!(TaskType::new("-leading").is_err());
    assert!(TaskType::new("trailing-").is_err());
    assert!(TaskType::new("UPPERCASE").is_err());
    assert!(TaskType::new("has spaces").is_err());
    assert!(TaskType::new("has.dots").is_err());
    assert!(TaskType::new(&"a".repeat(49)).is_err());
}

#[test]
fn id_length_edges() {
    let longest = "job_".to_string() + &"a".repeat(60);
    assert_eq!(longest.len(), 64);
    assert!(JobId::new(&longest).is_ok());
    assert!(TaskType::new(&"a".repeat(48)).is_ok());
}

#[test]
fn unicode_alphanumerics_are_slug_characters() {
    assert!(OrgId::new("org_caf\u{e9}").is_ok());
    assert!(OrgId::new("org_a!").is_err());
}

#[test]
fn id_errors_carry_the_input() {
    match JobId::new("nope") {
        Err(JobsDomainError::InvalidJobId(raw)) => assert_eq!(raw, "nope"),
        other => panic!("unexpected: {other:?}"),
    }
    match TaskType::new("Bad") {
        Err(JobsDomainError::InvalidTaskType(raw)) => assert_eq!(raw, "Bad"),
        other => panic!("unexpected: {other:?}"),
    }
    assert_eq!(TaskId::new("task_a").unwrap().as_str(), "task_a");
    assert_eq!(TaskType::new("email-send").unwrap().as_str(), "email-send");
}
