use rusk::digraph::TreeNode;
use rusk::keymap::{copy_keys, TaskMap};
use rusk::path::NormarizedPath;
use rusk::rusk::{ExecuteOpts, RunAction, Rusk, Task, TaskExecutable, TaskExecutableInner};
use rusk::schedule::{Joiner, Step};
use rusk::staleness::{dependency_probe, target_probe, FileState, Gate, Probe, TaskError};
use rusk::taskkey::{TaskKey, TaskKeyRelative};
use std::collections::HashMap;

fn base() -> NormarizedPath {
    NormarizedPath::current_dir("/work".to_string())
}

fn key(s: &str) -> TaskKey {
    TaskKeyRelative::try_from(s.to_string())
        .unwrap()
        .into_task_key(&base())
}

fn task(script: &str, deps: &[&str]) -> Task {
    Task {
        envs: Vec::new(),
        script: Some(script.to_string()),
        cwd: base(),
        depends: deps.iter().map(|d| key(d)).collect(),
    }
}

fn plan(tasks: Vec<(&str, Task)>, targets: &[&str]) -> Vec<TreeNode<TaskExecutable>> {
    let mut map = TaskMap::new();
    let n = tasks.len();
    for (name, t) in tasks {
        map.insert(key(name), t);
    }
    let args: Vec<String> = targets.iter().map(|t| t.to_string()).collect();
    Rusk::new(map)
        .plan(&args, ExecuteOpts { envs: Vec::new() }, &vec![true; n], &base())
        .unwrap()
}

/// A file system that is a table, and a shell that takes notes.
struct World {
    files: HashMap<String, u128>,
    exit_codes: HashMap<String, i32>,
    invoked: Vec<String>,
    cells: HashMap<String, TaskExecutable>,
}

impl World {
    fn new(files: &[(&str, u128)]) -> World {
        World {
            files: files.iter().map(|(p, t)| (p.to_string(), *t)).collect(),
            exit_codes: HashMap::new(),
            invoked: Vec::new(),
            cells: HashMap::new(),
        }
    }

    fn ask(&self, probe: Probe, path: &str) -> FileState {
        match (probe, self.files.get(path)) {
            (Probe::Nothing, _) | (_, None) => FileState::Missing,
            (Probe::Existence, Some(_)) => FileState::Present { modified: None },
            (Probe::Metadata, Some(t)) => FileState::Present { modified: Some(*t) },
        }
    }

    fn execute(&mut self, inner: TaskExecutableInner) -> Result<(), TaskError> {
        let states: Vec<FileState> = inner
            .depends
            .iter()
            .map(|dep| self.ask(dependency_probe(&inner.key, dep), dep.as_str()))
            .collect();
        let target = self.ask(target_probe(&inner.key), inner.key.as_str());
        match inner.gate(target, &states) {
            Gate::Skip => return Ok(()),
            Gate::Fail(e) => return Err(e),
            Gate::Run => {}
        }
        let name = inner.key.as_str().to_string();
        self.invoked.push(name.clone());
        inner.conclude(self.exit_codes.get(&name).copied().unwrap_or(0))
    }

    fn run(&mut self, node: &TreeNode<TaskExecutable>) -> Result<(), TaskError> {
        let (mut joiner, mut step) = Joiner::new(node.children.len());
        let mut next = 0;
        loop {
            match step {
                Step::Proceed => break,
                Step::Fail(e) => return Err(e),
                Step::Wait => {}
            }
            let child = &node.children[next];
            next += 1;
            let res = self.run(child);
            step = joiner.on_child(res).unwrap();
        }
        let inner = match node.item.inner() {
            Some(inner) => inner,
            None => return Ok(()),
        };
        let at = inner.key.as_str().to_string();
        let mut cell = self.cells.remove(&at).unwrap_or_else(|| {
            TaskExecutable::from(TaskExecutableInner {
                key: inner.key.duplicate(),
                envs: inner.envs.clone(),
                script: inner.script.clone(),
                cwd: inner.cwd.duplicate(),
                depends: copy_keys(&inner.depends),
            })
        });
        let res = match cell.as_future() {
            RunAction::Finished(res) => res,
            RunAction::Wait => panic!("nothing runs side by side here"),
            RunAction::Execute(inner) => {
                let res = self.execute(inner);
                cell.publish(res)
            }
        };
        self.cells.insert(at, cell);
        res
    }

    fn run_all(&mut self, roots: &Vec<TreeNode<TaskExecutable>>) -> Result<(), TaskError> {
        for root in roots {
            self.run(root)?;
        }
        Ok(())
    }
}

#[test]
fn single_phony_task_runs_once() {
    let roots = plan(vec![("build", task("echo ok", &[]))], &["build"]);
    let mut world = World::new(&[]);
    assert!(world.run_all(&roots).is_ok());
    assert_eq!(world.invoked, vec!["build"]);
    assert_eq!(roots[0].item.inner().unwrap().script.len(), 1);
}

#[test]
fn diamond_runs_the_shared_task_once_and_first() {
    let roots = plan(
        vec![
            ("a", task("echo a", &["b", "c"])),
            ("b", task("echo b", &["d"])),
            ("c", task("echo c", &["d"])),
            ("d", task("echo d", &[])),
        ],
        &["a"],
    );
    let mut world = World::new(&[]);
    assert!(world.run_all(&roots).is_ok());
    assert_eq!(world.invoked, vec!["d", "b", "c", "a"]);
}

#[test]
fn task_reached_from_two_roots_runs_once() {
    let roots = plan(
        vec![
            ("x", task("echo x", &["shared"])),
            ("y", task("echo y", &["shared"])),
            ("shared", task("echo s", &[])),
        ],
        &["x", "y"],
    );
    let mut world = World::new(&[]);
    assert!(world.run_all(&roots).is_ok());
    assert_eq!(world.invoked, vec!["shared", "x", "y"]);
}

#[test]
fn fresh_file_target_is_not_rebuilt() {
    let roots = plan(vec![("out.o", task("cc in.c", &["in.c"]))], &["out.o"]);
    let mut world = World::new(&[("/work/out.o", 200), ("/work/in.c", 100)]);
    assert!(world.run_all(&roots).is_ok());
    assert!(world.invoked.is_empty());
}

#[test]
fn stale_file_target_is_rebuilt() {
    let roots = plan(vec![("out.o", task("cc in.c", &["in.c"]))], &["out.o"]);
    let mut world = World::new(&[("/work/out.o", 200), ("/work/in.c", 300)]);
    assert!(world.run_all(&roots).is_ok());
    assert_eq!(world.invoked, vec!["/work/out.o"]);
}

#[test]
fn missing_file_dependency_stops_the_phony_task() {
    let roots = plan(vec![("test", task("run tests", &["fixtures/data.bin"]))], &["test"]);
    let mut world = World::new(&[]);
    match world.run_all(&roots) {
        Err(TaskError::DependencyFileNotFound { dep_file, task }) => {
            assert_eq!(dep_file.as_abs_str(), "/work/fixtures/data.bin");
            assert!(matches!(task, TaskKey::Phony(_)));
            assert_eq!(task.as_str(), "test");
        }
        other => panic!("unexpected: {:?}", other),
    }
    assert!(world.invoked.is_empty());
}

#[test]
fn file_dependency_that_is_there_lets_the_phony_task_run() {
    let roots = plan(vec![("test", task("run tests", &["fixtures/data.bin"]))], &["test"]);
    let mut world = World::new(&[("/work/fixtures/data.bin", 1)]);
    assert!(world.run_all(&roots).is_ok());
    assert_eq!(world.invoked, vec!["test"]);
}

#[test]
fn failed_child_keeps_its_parent_from_running() {
    let roots = plan(
        vec![
            ("a", task("echo a", &["b", "c"])),
            ("b", task("false", &[])),
            ("c", task("echo c", &[])),
        ],
        &["a"],
    );
    let mut world = World::new(&[]);
    world.exit_codes.insert("b".to_string(), 3);
    match world.run_all(&roots) {
        Err(TaskError::Execution { key, exit_code }) => {
            assert_eq!(key.as_str(), "b");
            assert_eq!(exit_code, 3);
        }
        other => panic!("unexpected: {:?}", other),
    }
    assert_eq!(world.invoked, vec!["b"]);
}

#[test]
fn failed_shared_task_fails_everything_that_depends_on_it_without_running_again() {
    let roots = plan(
        vec![
            ("x", task("echo x", &["shared"])),
            ("y", task("echo y", &["shared"])),
            ("shared", task("false", &[])),
        ],
        &["x", "y"],
    );
    let mut world = World::new(&[]);
    world.exit_codes.insert("shared".to_string(), 1);
    assert!(world.run(&roots[0]).is_err());
    assert!(matches!(
        world.run(&roots[1]),
        Err(TaskError::Execution { exit_code: 1, .. })
    ));
    assert_eq!(world.invoked, vec!["shared"]);
}

#[test]
fn chain_of_file_tasks_rebuilds_what_is_stale() {
    let roots = plan(
        vec![
            ("bin/app", task("link", &["main.o"])),
            ("main.o", task("cc", &["main.c"])),
        ],
        &["bin/app"],
    );
    let mut world = World::new(&[
        ("/work/bin/app", 50),
        ("/work/main.o", 60),
        ("/work/main.c", 10),
    ]);
    assert!(world.run_all(&roots).is_ok());
    assert_eq!(world.invoked, vec!["/work/bin/app"]);
}
