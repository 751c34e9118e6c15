use rusk::digraph::TreeNodeCreationError;
use rusk::envs::lookup_env;
use rusk::keymap::TaskMap;
use rusk::path::NormarizedPath;
use rusk::rusk::{
    into_executable, lines_of, parse_script, parse_targets, ExecuteOpts, RunAction, Rusk, RuskError, Task,
    TaskExecutable, TaskExecutableInner, TaskParseError,
};
use rusk::staleness::{conclude, FileState, Gate, TaskError};
use rusk::taskkey::{TaskKey, TaskKeyParseError, TaskKeyRelative};
use std::rc::Rc;

fn base() -> NormarizedPath {
    NormarizedPath::current_dir("/work".to_string())
}

fn key(s: &str) -> TaskKey {
    TaskKeyRelative::try_from(s.to_string())
        .unwrap()
        .into_task_key(&base())
}

fn task(script: Option<&str>, deps: &[&str], envs: &[(&str, &str)]) -> Task {
    Task {
        envs: envs
            .iter()
            .map(|(k, v)| (k.to_string(), v.to_string()))
            .collect(),
        script: script.map(|s| s.to_string()),
        cwd: base(),
        depends: deps.iter().map(|d| key(d)).collect(),
    }
}

fn registry(tasks: Vec<(&str, Task)>) -> TaskMap<Task> {
    let mut map = TaskMap::new();
    for (name, t) in tasks {
        assert!(map.insert(key(name), t).is_none());
    }
    map
}

fn opts(envs: &[(&str, &str)]) -> ExecuteOpts {
    ExecuteOpts {
        envs: envs
            .iter()
            .map(|(k, v)| (k.to_string(), v.to_string()))
            .collect(),
    }
}

fn inner_of(name: &str) -> TaskExecutableInner {
    TaskExecutableInner {
        key: key(name),
        envs: Vec::new(),
        script: Vec::new(),
        cwd: base(),
        depends: Vec::new(),
    }
}

#[test]
fn script_is_parsed_line_by_line() {
    assert_eq!(parse_script(&None).unwrap().len(), 0);
    assert_eq!(parse_script(&Some("echo ok".to_string())).unwrap().len(), 1);
    let three = "echo a\necho b && echo c\r\necho d | cat\n".to_string();
    assert_eq!(parse_script(&Some(three)).unwrap().len(), 3);
    assert_eq!(parse_script(&Some(String::new())).unwrap().len(), 0);
}

#[test]
fn script_with_a_bad_line_is_refused() {
    assert!(parse_script(&Some("echo ok\necho 'unclosed".to_string())).is_err());
    assert!(parse_script(&Some("echo \"unclosed".to_string())).is_err());
}

#[test]
fn single_phony_task_becomes_one_cell_with_its_script() {
    let cells = into_executable(
        registry(vec![("build", task(Some("echo ok"), &[], &[]))]),
        opts(&[]),
        &vec![true],
    )
    .unwrap();
    assert_eq!(cells.len(), 1);
    let cell = cells.get(&key("build")).unwrap();
    let inner = cell.inner().unwrap();
    assert_eq!(inner.key.as_str(), "build");
    assert_eq!(inner.script.len(), 1);
    assert_eq!(inner.cwd.as_abs_str(), "/work");
    assert!(inner.depends.is_empty());
}

#[test]
fn script_error_names_the_task() {
    let res = into_executable(
        registry(vec![
            ("good", task(Some("echo ok"), &[], &[])),
            ("bad", task(Some("echo 'oops"), &[], &[])),
        ]),
        opts(&[]),
        &vec![true, true],
    );
    match res {
        Err(TaskParseError::ScriptParseError { key, error }) => {
            assert_eq!(key.as_str(), "bad");
            assert!(!error.is_empty());
        }
        _ => panic!("unexpected"),
    }
}

#[test]
fn missing_working_directory_is_reported() {
    let res = into_executable(
        registry(vec![
            ("a", task(None, &[], &[])),
            ("b", task(None, &[], &[])),
        ]),
        opts(&[]),
        &vec![true, false],
    );
    match res {
        Err(TaskParseError::DirectoryNotFound(dir)) => assert_eq!(dir.as_abs_str(), "/work"),
        _ => panic!("unexpected"),
    }
}

#[test]
fn script_error_comes_before_the_directory_error_of_the_same_task() {
    let res = into_executable(
        registry(vec![("a", task(Some("echo 'x"), &[], &[]))]),
        opts(&[]),
        &vec![false],
    );
    assert!(matches!(res, Err(TaskParseError::ScriptParseError { .. })));
}

#[test]
fn first_task_in_order_that_fails_is_reported() {
    let res = into_executable(
        registry(vec![
            ("a", task(None, &[], &[])),
            ("b", task(Some("echo 'x"), &[], &[])),
        ]),
        opts(&[]),
        &vec![false, true],
    );
    assert!(matches!(res, Err(TaskParseError::DirectoryNotFound(_))));
}

#[test]
fn file_dependency_without_a_task_gets_an_empty_cell() {
    let cells = into_executable(
        registry(vec![("test", task(None, &["fixtures/data.bin", "other"], &[]))]),
        opts(&[]),
        &vec![true],
    )
    .unwrap();
    assert_eq!(cells.len(), 2);
    let empty = cells.get(&key("fixtures/data.bin")).unwrap();
    assert!(empty.inner().is_none());
    assert!(matches!(empty.result(), Some(Ok(()))));
    assert!(cells.get(&key("other")).is_none());
}

#[test]
fn file_dependency_that_is_a_task_keeps_its_task() {
    let cells = into_executable(
        registry(vec![
            ("out.o", task(Some("cc in.c"), &["in.c"], &[])),
            ("in.c", task(Some("gen"), &[], &[])),
            ("late", task(None, &["out.o"], &[])),
        ]),
        opts(&[]),
        &vec![true, true, true],
    )
    .unwrap();
    assert_eq!(cells.len(), 3);
    assert_eq!(cells.get(&key("in.c")).unwrap().inner().unwrap().script.len(), 1);
    assert_eq!(cells.get(&key("out.o")).unwrap().inner().unwrap().script.len(), 1);
}

#[test]
fn task_environment_overrides_the_global_one() {
    let cells = into_executable(
        registry(vec![("a", task(None, &[], &[("MODE", "task"), ("OWN", "1")]))]),
        opts(&[("MODE", "global"), ("HOME", "/h")]),
        &vec![true],
    )
    .unwrap();
    let envs = &cells.get(&key("a")).unwrap().inner().unwrap().envs;
    assert_eq!(lookup_env(envs, &"MODE".to_string()).unwrap(), "task");
    assert_eq!(lookup_env(envs, &"HOME".to_string()).unwrap(), "/h");
    assert_eq!(lookup_env(envs, &"OWN".to_string()).unwrap(), "1");
    assert!(lookup_env(envs, &"NONE".to_string()).is_none());
}

#[test]
fn cell_hands_out_its_run_exactly_once() {
    let mut cell = TaskExecutable::from(inner_of("build"));
    match cell.as_future() {
        RunAction::Execute(inner) => assert_eq!(inner.key.as_str(), "build"),
        _ => panic!("the first caller has to run the task"),
    }
    assert!(matches!(cell.as_future(), RunAction::Wait));
    assert!(matches!(cell.as_future(), RunAction::Wait));
    assert!(cell.result().is_none());
    assert!(cell.publish(Ok(())).is_ok());
    assert!(matches!(cell.as_future(), RunAction::Finished(Ok(()))));
    assert!(matches!(cell.as_future(), RunAction::Finished(Ok(()))));
    assert!(matches!(cell.result(), Some(Ok(()))));
}

#[test]
fn cell_keeps_the_error_of_its_run() {
    let mut cell = TaskExecutable::from(inner_of("build"));
    assert!(matches!(cell.as_future(), RunAction::Execute(_)));
    let out = cell.publish(conclude(&key("build"), 7));
    assert!(matches!(out, Err(TaskError::Execution { exit_code: 7, .. })));
    for _ in 0..3 {
        match cell.as_future() {
            RunAction::Finished(Err(TaskError::Execution { key, exit_code })) => {
                assert_eq!(key.as_str(), "build");
                assert_eq!(exit_code, 7);
            }
            _ => panic!("unexpected"),
        }
    }
}

#[test]
fn empty_cell_is_done_from_the_start() {
    let mut cell = TaskExecutable::empty();
    assert!(matches!(cell.as_future(), RunAction::Finished(Ok(()))));
    assert!(cell.inner().is_none());
}

#[test]
fn targets_are_read_relative_to_the_working_directory() {
    let keys = parse_targets(&vec!["build".to_string(), "./a/../out.o".to_string()], &base())
        .unwrap();
    assert_eq!(keys.len(), 2);
    assert_eq!(keys[0].as_str(), "build");
    assert_eq!(keys[1].as_str(), "/work/out.o");
    assert!(parse_targets(&Vec::new(), &base()).unwrap().is_empty());
}

#[test]
fn first_bad_target_is_reported() {
    let args = vec!["ok".to_string(), String::new(), "9x".to_string()];
    assert!(matches!(parse_targets(&args, &base()), Err(TaskKeyParseError::Empty)));
    let args = vec!["ok".to_string(), "9x".to_string(), String::new()];
    assert!(matches!(parse_targets(&args, &base()), Err(TaskKeyParseError::Phony(_))));
}

#[test]
fn plan_of_a_single_phony_task() {
    let rusk = Rusk::new(registry(vec![("build", task(Some("echo ok"), &[], &[]))]));
    assert_eq!(rusk.task_count(), 1);
    assert_eq!(rusk.task_key(0).as_str(), "build");
    assert_eq!(rusk.task(0).cwd.as_abs_str(), "/work");
    let roots = rusk
        .plan(&vec!["build".to_string()], opts(&[]), &vec![true], &base())
        .unwrap();
    assert_eq!(roots.len(), 1);
    assert!(roots[0].children.is_empty());
    let inner = roots[0].item.inner().unwrap();
    assert_eq!(inner.key.as_str(), "build");
    assert_eq!(inner.script.len(), 1);
}

#[test]
fn plan_of_a_diamond_shares_the_bottom() {
    let rusk = Rusk::new(registry(vec![
        ("a", task(Some("echo a"), &["b", "c"], &[])),
        ("b", task(Some("echo b"), &["d"], &[])),
        ("c", task(Some("echo c"), &["d"], &[])),
        ("d", task(Some("echo d"), &[], &[])),
    ]));
    let roots = rusk
        .plan(&vec!["a".to_string()], opts(&[]), &vec![true; 4], &base())
        .unwrap();
    assert_eq!(roots.len(), 1);
    let a = &roots[0];
    assert!(Rc::ptr_eq(&a.children[0].children[0], &a.children[1].children[0]));
    assert_eq!(a.children[0].children[0].item.inner().unwrap().key.as_str(), "d");
}

#[test]
fn plan_refuses_a_cycle_before_anything_runs() {
    let rusk = Rusk::new(registry(vec![
        ("x", task(Some("echo x"), &["y"], &[])),
        ("y", task(Some("echo y"), &["z"], &[])),
        ("z", task(Some("echo z"), &["x"], &[])),
    ]));
    match rusk.plan(&vec!["x".to_string()], opts(&[]), &vec![true; 3], &base()) {
        Err(RuskError::TreeNodeBroken(TreeNodeCreationError::CircularDependency(k))) => {
            assert_eq!(k.as_str(), "x")
        }
        _ => panic!("unexpected"),
    }
}

#[test]
fn plan_reports_errors_in_their_order() {
    let make = || {
        Rusk::new(registry(vec![(
            "a",
            task(Some("echo 'x"), &["missing"], &[]),
        )]))
    };
    let bad = vec![String::new()];
    assert!(matches!(
        make().plan(&bad, opts(&[]), &vec![true], &base()),
        Err(RuskError::TaskUnparsable(_))
    ));
    let fine = || Rusk::new(registry(vec![("a", task(None, &["missing"], &[]))]));
    assert!(matches!(
        fine().plan(&bad, opts(&[]), &vec![true], &base()),
        Err(RuskError::InvalidArgument(TaskKeyParseError::Empty))
    ));
    match fine().plan(&vec!["a".to_string()], opts(&[]), &vec![true], &base()) {
        Err(RuskError::TreeNodeBroken(TreeNodeCreationError::ItemNotFound(k))) => {
            assert_eq!(k.as_str(), "missing")
        }
        _ => panic!("unexpected"),
    }
}

#[test]
fn file_without_a_task_is_known_only_where_a_task_depends_on_it() {
    let make = || Rusk::new(registry(vec![("test", task(None, &["data.bin"], &[]))]));
    let roots = make()
        .plan(&vec!["test".to_string()], opts(&[]), &vec![true], &base())
        .unwrap();
    assert_eq!(roots.len(), 1);
    let dep = &roots[0].children[0];
    assert!(dep.item.inner().is_none());
    assert!(matches!(dep.item.result(), Some(Ok(()))));
    assert!(dep.children.is_empty());
    let roots = make()
        .plan(&vec!["data.bin".to_string()], opts(&[]), &vec![true], &base())
        .unwrap();
    assert_eq!(roots.len(), 1);
    assert!(roots[0].item.inner().is_none());
    assert!(matches!(roots[0].item.result(), Some(Ok(()))));
    assert!(roots[0].children.is_empty());
    match make().plan(&vec!["free.bin".to_string()], opts(&[]), &vec![true], &base()) {
        Err(RuskError::TreeNodeBroken(TreeNodeCreationError::ItemNotFound(k))) => {
            assert_eq!(k.as_str(), "/work/free.bin")
        }
        _ => panic!("unexpected"),
    }
}

#[test]
fn texts_are_split_as_std_splits_them() {
    let samples = [
        "",
        "a",
        "a\n",
        "a\nb",
        "a\r\nb\r\n",
        "\n",
        "\n\n",
        "\r\n",
        "\r",
        "a\r",
        "a\rb\n",
        "a\r\r\nb",
        "\n\r",
        "línea uno\nzweite Zeile\r\n三行目",
        "no newline at the end\nlast",
        "   \n\t\n",
    ];
    for text in samples {
        let expected: Vec<String> = text.lines().map(|l| l.to_string()).collect();
        assert_eq!(lines_of(text), expected, "{:?}", text);
    }
}

#[test]
fn executable_applies_the_rule_to_its_own_key_and_dependencies() {
    let inner = TaskExecutableInner {
        key: key("out.o"),
        envs: Vec::new(),
        script: Vec::new(),
        cwd: base(),
        depends: vec![key("in.c")],
    };
    let at = |t: u128| FileState::Present { modified: Some(t) };
    assert!(matches!(inner.gate(at(2), &vec![at(1)]), Gate::Skip));
    assert!(matches!(inner.gate(at(1), &vec![at(2)]), Gate::Run));
    match inner.gate(at(1), &vec![FileState::Missing]) {
        Gate::Fail(TaskError::DependencyFileNotFound { dep_file, task }) => {
            assert_eq!(dep_file.as_abs_str(), "/work/in.c");
            assert_eq!(task.as_str(), "/work/out.o");
        }
        _ => panic!("unexpected"),
    }
    assert!(inner.conclude(0).is_ok());
    assert!(matches!(
        inner.conclude(9),
        Err(TaskError::Execution { exit_code: 9, .. })
    ));
}
