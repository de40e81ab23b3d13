use gbe_core::definition::{JobDefinition, TaskDefinition, TaskParams};
use gbe_core::error::JobsDomainError;
use gbe_core::ids::TaskType;

fn task(name: &str, task_type: &str, deps: &[&str]) -> TaskDefinition {
    TaskDefinition {
        name: name.to_string(),
        task_type: TaskType::new(task_type).unwrap(),
        depends_on: deps.iter().map(|d| d.to_string()).collect(),
        params: TaskParams::default(),
        timeout_secs: None,
        max_retries: None,
    }
}

fn job(name: &str, tasks: Vec<TaskDefinition>) -> JobDefinition {
    JobDefinition { v: 1, name: name.to_string(), job_type: name.to_lowercase(), tasks }
}

fn simple_dag() -> JobDefinition {
    let mut fetch = task("fetch", "data-fetch", &[]);
    fetch.timeout_secs = Some(120);
    let mut transform = task("transform", "data-transform", &["fetch"]);
    transform.max_retries = Some(3);
    JobDefinition {
        v: 1,
        name: "Test Job".to_string(),
        job_type: "test-job".to_string(),
        tasks: vec![fetch, transform, task("send", "email-send", &["transform"])],
    }
}

#[test]
fn valid_dag_passes_validation() {
    assert!(simple_dag().validate().is_ok());
}

#[test]
fn topological_order_roots_first() {
    let dag = simple_dag();
    let order = dag.topological_order().unwrap();
    assert_eq!(order, vec!["fetch", "transform", "send"]);
}

#[test]
fn roots_returns_tasks_without_deps() {
    let dag = simple_dag();
    let roots = dag.roots();
    assert_eq!(roots, vec!["fetch"]);
}

#[test]
fn parallel_tasks_both_root() {
    let def = job(
        "Parallel",
        vec![task("a", "work", &[]), task("b", "work", &[]), task("c", "work", &["a", "b"])],
    );
    assert!(def.validate().is_ok());
    let roots = def.roots();
    assert_eq!(roots.len(), 2);
    assert!(roots.contains(&"a"));
    assert!(roots.contains(&"b"));
}

#[test]
fn cyclic_dependency_detected() {
    let def = job("Cycle", vec![task("a", "work", &["b"]), task("b", "work", &["a"])]);
    assert!(matches!(def.validate(), Err(JobsDomainError::CyclicDependency)));
}

#[test]
fn self_dependency_detected() {
    let def = job("Self", vec![task("a", "work", &["a"])]);
    assert!(matches!(def.validate(), Err(JobsDomainError::CyclicDependency)));
}

#[test]
fn unknown_dependency_detected() {
    let def = job("Unknown", vec![task("a", "work", &["nonexistent"])]);
    assert!(matches!(def.validate(), Err(JobsDomainError::UnknownDependency { .. })));
}

#[test]
fn duplicate_task_name_detected() {
    let def = job("Dup", vec![task("a", "work", &[]), task("a", "work", &[])]);
    assert!(matches!(def.validate(), Err(JobsDomainError::ValidationFailed(_))));
}

#[test]
fn empty_tasks_rejected() {
    let def = job("Empty", vec![]);
    assert!(matches!(def.validate(), Err(JobsDomainError::ValidationFailed(_))));
}

#[test]
fn unknown_dependency_names_task_and_dependency() {
    let def = job("Unknown", vec![task("a", "work", &[]), task("b", "work", &["a", "ghost"])]);
    match def.validate() {
        Err(JobsDomainError::UnknownDependency { task, dependency }) => {
            assert_eq!(task, "b");
            assert_eq!(dependency, "ghost");
        }
        other => panic!("unexpected: {other:?}"),
    }
}

#[test]
fn ties_resolve_in_insertion_order() {
    // Declared out of dependency order: the order still puts every task after its dependencies.
    let def = job(
        "Diamond",
        vec![
            task("join", "work", &["left", "right"]),
            task("right", "work", &["start"]),
            task("left", "work", &["start"]),
            task("start", "work", &[]),
        ],
    );
    assert_eq!(def.topological_order().unwrap(), vec!["start", "right", "left", "join"]);
}

#[test]
fn topological_order_follows_dependencies() {
    let def = job(
        "Wide",
        vec![
            task("d", "work", &["b", "c"]),
            task("a", "work", &[]),
            task("c", "work", &["a"]),
            task("b", "work", &["a"]),
            task("e", "work", &[]),
        ],
    );
    let order = def.topological_order().unwrap();
    assert_eq!(order.len(), 5);
    let pos = |n: &str| order.iter().position(|x| *x == n).unwrap();
    for t in &def.tasks {
        for d in &t.depends_on {
            assert!(pos(d) < pos(&t.name));
        }
    }
}

#[test]
fn cycle_behind_a_root_rejected() {
    let def = job(
        "Tail",
        vec![task("a", "work", &[]), task("b", "work", &["a", "c"]), task("c", "work", &["b"])],
    );
    assert!(matches!(def.topological_order(), Err(JobsDomainError::CyclicDependency)));
}

#[test]
fn validation_is_deterministic() {
    let def = job("Cycle", vec![task("a", "work", &["b"]), task("b", "work", &["a"])]);
    for _ in 0..3 {
        assert!(matches!(def.validate(), Err(JobsDomainError::CyclicDependency)));
    }
    let ok = simple_dag();
    assert_eq!(ok.topological_order().unwrap(), ok.topological_order().unwrap());
}
