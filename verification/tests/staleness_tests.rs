use rusk::path::NormarizedPath;
use rusk::staleness::{
    conclude, copy_result, dependency_probe, staleness_gate, target_probe, FileState, Gate, Probe,
    TaskError,
};
use rusk::taskkey::{TaskKey, TaskKeyRelative};

fn base() -> NormarizedPath {
    NormarizedPath::current_dir("/work".to_string())
}

fn key(s: &str) -> TaskKey {
    TaskKeyRelative::try_from(s.to_string())
        .unwrap()
        .into_task_key(&base())
}

fn at(t: u128) -> FileState {
    FileState::Present { modified: Some(t) }
}

#[test]
fn file_task_newer_than_its_dependency_is_skipped() {
    let gate = staleness_gate(&key("out.o"), &vec![key("in.c")], at(200), &vec![at(100)]);
    assert!(matches!(gate, Gate::Skip));
}

#[test]
fn file_task_older_than_its_dependency_runs() {
    let gate = staleness_gate(&key("out.o"), &vec![key("in.c")], at(100), &vec![at(200)]);
    assert!(matches!(gate, Gate::Run));
}

#[test]
fn file_task_as_old_as_its_dependency_runs() {
    let gate = staleness_gate(&key("out.o"), &vec![key("in.c")], at(100), &vec![at(100)]);
    assert!(matches!(gate, Gate::Run));
}

#[test]
fn one_newer_dependency_among_many_makes_the_task_run() {
    let deps = vec![key("a.c"), key("b.c"), key("c.c")];
    let gate = staleness_gate(&key("out.o"), &deps, at(50), &vec![at(10), at(60), at(20)]);
    assert!(matches!(gate, Gate::Run));
    let gate = staleness_gate(&key("out.o"), &deps, at(61), &vec![at(10), at(60), at(20)]);
    assert!(matches!(gate, Gate::Skip));
}

#[test]
fn missing_file_dependency_of_a_phony_task_fails_it() {
    let gate = staleness_gate(
        &key("test"),
        &vec![key("fixtures/data.bin")],
        FileState::Missing,
        &vec![FileState::Missing],
    );
    match gate {
        Gate::Fail(TaskError::DependencyFileNotFound { dep_file, task }) => {
            assert_eq!(dep_file.as_abs_str(), "/work/fixtures/data.bin");
            assert!(matches!(task, TaskKey::Phony(_)));
            assert_eq!(task.as_str(), "test");
        }
        _ => panic!("unexpected"),
    }
}

#[test]
fn missing_file_dependency_of_a_file_task_fails_it() {
    let gate = staleness_gate(
        &key("out.o"),
        &vec![key("a.c"), key("b.c")],
        at(5),
        &vec![at(1), FileState::Missing],
    );
    match gate {
        Gate::Fail(TaskError::DependencyFileNotFound { dep_file, task }) => {
            assert_eq!(dep_file.as_abs_str(), "/work/b.c");
            assert_eq!(task.as_str(), "/work/out.o");
        }
        _ => panic!("unexpected"),
    }
}

#[test]
fn first_missing_dependency_is_the_one_reported() {
    let gate = staleness_gate(
        &key("t"),
        &vec![key("a.c"), key("b.c")],
        FileState::Missing,
        &vec![FileState::Missing, FileState::Missing],
    );
    match gate {
        Gate::Fail(TaskError::DependencyFileNotFound { dep_file, .. }) => {
            assert_eq!(dep_file.as_abs_str(), "/work/a.c")
        }
        _ => panic!("unexpected"),
    }
}

#[test]
fn phony_task_always_runs() {
    let gate = staleness_gate(&key("build"), &vec![], FileState::Missing, &vec![]);
    assert!(matches!(gate, Gate::Run));
    let gate = staleness_gate(&key("build"), &vec![key("in.c")], at(900), &vec![at(1)]);
    assert!(matches!(gate, Gate::Run));
    let gate = staleness_gate(
        &key("build"),
        &vec![key("other")],
        FileState::Missing,
        &vec![FileState::Missing],
    );
    assert!(matches!(gate, Gate::Run));
}

#[test]
fn file_task_with_a_phony_dependency_runs() {
    let gate = staleness_gate(
        &key("out.o"),
        &vec![key("in.c"), key("gen")],
        at(900),
        &vec![at(1), FileState::Missing],
    );
    assert!(matches!(gate, Gate::Run));
}

#[test]
fn file_task_without_its_target_runs() {
    let gate = staleness_gate(&key("out.o"), &vec![key("in.c")], FileState::Missing, &vec![at(1)]);
    assert!(matches!(gate, Gate::Run));
}

#[test]
fn file_task_without_dependencies_is_skipped_when_its_target_is_there() {
    let gate = staleness_gate(&key("out.o"), &vec![], at(1), &vec![]);
    assert!(matches!(gate, Gate::Skip));
    let gate = staleness_gate(&key("out.o"), &vec![], FileState::Missing, &vec![]);
    assert!(matches!(gate, Gate::Run));
}

#[test]
fn unknown_modification_time_fails_the_task() {
    let unknown = FileState::Present { modified: None };
    let gate = staleness_gate(&key("out.o"), &vec![key("in.c")], unknown, &vec![at(1)]);
    assert!(matches!(gate, Gate::Fail(TaskError::FailedToGetFileMetadata)));
    let gate = staleness_gate(&key("out.o"), &vec![key("in.c")], at(5), &vec![unknown]);
    assert!(matches!(gate, Gate::Fail(TaskError::FailedToGetFileMetadata)));
    let gate = staleness_gate(&key("phony"), &vec![key("in.c")], unknown, &vec![unknown]);
    assert!(matches!(gate, Gate::Run));
}

#[test]
fn exit_code_zero_is_success() {
    assert!(conclude(&key("build"), 0).is_ok());
}

#[test]
fn other_exit_codes_are_carried_in_the_error() {
    for code in [1, 2, 127, -1, i32::MAX, i32::MIN] {
        match conclude(&key("build"), code) {
            Err(TaskError::Execution { key, exit_code }) => {
                assert_eq!(key.as_str(), "build");
                assert_eq!(exit_code, code);
            }
            _ => panic!("unexpected"),
        }
    }
}

#[test]
fn copies_of_results_keep_what_they_hold() {
    assert!(copy_result(&Ok(())).is_ok());
    let err = conclude(&key("a/b.c"), 3);
    match copy_result(&err) {
        Err(TaskError::Execution { key, exit_code }) => {
            assert_eq!(key.as_str(), "/work/a/b.c");
            assert!(key.is_file());
            assert_eq!(exit_code, 3);
        }
        _ => panic!("unexpected"),
    }
    assert!(matches!(
        TaskError::FailedToGetFileMetadata.duplicate(),
        TaskError::FailedToGetFileMetadata
    ));
}

#[test]
fn probes_follow_the_kinds_of_the_keys() {
    assert_eq!(dependency_probe(&key("build"), &key("other")), Probe::Nothing);
    assert_eq!(dependency_probe(&key("out.o"), &key("other")), Probe::Nothing);
    assert_eq!(dependency_probe(&key("build"), &key("in.c")), Probe::Existence);
    assert_eq!(dependency_probe(&key("out.o"), &key("in.c")), Probe::Metadata);
    assert_eq!(target_probe(&key("build")), Probe::Nothing);
    assert_eq!(target_probe(&key("out.o")), Probe::Metadata);
}
