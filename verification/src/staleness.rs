//! The make-style rule that decides whether the script of a task has to run.
//!
//! The rule looks at nothing but the key of the task, the keys it depends
//! on, and what the file system says about the files among them.

use crate::keymap::key_views;
use crate::path::NormarizedPath;
use crate::taskkey::{KeyView, TaskKey};
use vstd::prelude::*;

verus! {

/// What the file system says about a path.
#[derive(Clone, Copy, Debug)]
pub enum FileState {
    /// There is no such file.
    Missing,
    /// The file is there. `modified` is its modification time in
    /// nanoseconds since the epoch, where the platform can tell.
    Present { modified: Option<u128> },
}

/// Why a task did not succeed.
#[derive(Debug)]
pub enum TaskError {
    Execution { key: TaskKey, exit_code: i32 },
    FailedToGetFileMetadata,
    DependencyFileNotFound { dep_file: NormarizedPath, task: TaskKey },
}

/// A task error, apart from how it is stored.
pub enum TaskFault {
    Execution { key: KeyView, exit_code: i32 },
    FailedToGetFileMetadata,
    DependencyFileNotFound { dep_file: Seq<char>, task: KeyView },
}

impl View for TaskError {
    type V = TaskFault;

    open spec fn view(&self) -> TaskFault {
        match self {
            TaskError::Execution { key, exit_code } => TaskFault::Execution {
                key: key@,
                exit_code: *exit_code,
            },
            TaskError::FailedToGetFileMetadata => TaskFault::FailedToGetFileMetadata,
            TaskError::DependencyFileNotFound { dep_file, task } => {
                TaskFault::DependencyFileNotFound { dep_file: dep_file@, task: task@ }
            },
        }
    }
}

impl TaskError {
    /// A copy of the error.
    pub fn duplicate(&self) -> (copy: TaskError)
        ensures
            copy@ == self@,
    {
        match self {
            TaskError::Execution { key, exit_code } => TaskError::Execution {
                key: key.duplicate(),
                exit_code: *exit_code,
            },
            TaskError::FailedToGetFileMetadata => TaskError::FailedToGetFileMetadata,
            TaskError::DependencyFileNotFound { dep_file, task } => {
                TaskError::DependencyFileNotFound {
                    dep_file: dep_file.duplicate(),
                    task: task.duplicate(),
                }
            },
        }
    }
}

/// The view of the result of a task.
pub open spec fn result_view(res: Result<(), TaskError>) -> Result<(), TaskFault> {
    match res {
        Ok(_) => Ok(()),
        Err(e) => Err(e@),
    }
}

/// A copy of the result of a task.
pub fn copy_result(res: &Result<(), TaskError>) -> (copy: Result<(), TaskError>)
    ensures
        result_view(copy) == result_view(*res),
{
    match res {
        Ok(_) => Ok(()),
        Err(e) => Err(e.duplicate()),
    }
}

/// What the rule says.
pub enum Verdict {
    /// The script has to run.
    Run,
    /// The target is newer than everything it depends on: nothing to do.
    Skip,
    /// The task fails before its script is looked at.
    Fail(TaskFault),
}

/// What the rule says, with the error as it is handed on.
#[derive(Debug)]
pub enum Gate {
    Run,
    Skip,
    Fail(TaskError),
}

impl View for Gate {
    type V = Verdict;

    open spec fn view(&self) -> Verdict {
        match self {
            Gate::Run => Verdict::Run,
            Gate::Skip => Verdict::Skip,
            Gate::Fail(e) => Verdict::Fail(e@),
        }
    }
}

/// The position of the first file from `from` on that is missing.
pub open spec fn first_missing(deps: Seq<KeyView>, states: Seq<FileState>, from: int) -> Option<
    int,
>
    decreases deps.len() - from,
{
    if from < 0 || from >= deps.len() {
        None
    } else if deps[from] is File && states[from] is Missing {
        Some(from)
    } else {
        first_missing(deps, states, from + 1)
    }
}

/// Whether one of the keys is phony.
pub open spec fn has_phony(deps: Seq<KeyView>) -> bool {
    exists|i: int| 0 <= i < deps.len() && #[trigger] deps[i] is Phony
}

/// Compares a target that was modified at `target` with the files from
/// `from` on: a file whose time is not known fails the task, a file that is
/// not older than the target makes the script run, and a target that is
/// newer than all of them is skipped.
pub open spec fn compare_times(states: Seq<FileState>, target: u128, from: int) -> Verdict
    decreases states.len() - from,
{
    if from < 0 || from >= states.len() {
        Verdict::Skip
    } else {
        match states[from] {
            FileState::Present { modified: Some(m) } => if target <= m {
                Verdict::Run
            } else {
                compare_times(states, target, from + 1)
            },
            _ => Verdict::Fail(TaskFault::FailedToGetFileMetadata),
        }
    }
}

/// The rule.
///
/// Every file that the task depends on must be there. A phony task then
/// always runs. A file task runs when it depends on a phony task, when its
/// target is not there, or when some file it depends on is not older than
/// the target; else it is skipped.
pub open spec fn verdict(
    key: KeyView,
    deps: Seq<KeyView>,
    target: FileState,
    states: Seq<FileState>,
) -> Verdict {
    match first_missing(deps, states, 0) {
        Some(i) => Verdict::Fail(
            TaskFault::DependencyFileNotFound { dep_file: deps[i].text(), task: key },
        ),
        None => match key {
            KeyView::Phony(_) => Verdict::Run,
            KeyView::File(_) => if has_phony(deps) {
                Verdict::Run
            } else {
                match target {
                    FileState::Missing => Verdict::Run,
                    FileState::Present { modified: None } => Verdict::Fail(
                        TaskFault::FailedToGetFileMetadata,
                    ),
                    FileState::Present { modified: Some(t) } => compare_times(states, t, 0),
                }
            },
        },
    }
}

/// The target is newer than every file from `from` on.
pub open spec fn newer_than_all(states: Seq<FileState>, target: u128, from: int) -> bool {
    forall|i: int|
        from <= i < states.len() ==> match #[trigger] states[i] {
            FileState::Present { modified: Some(m) } => m < target,
            _ => false,
        }
}

/// Comparing the times ends in a skip exactly when the target is newer than
/// every file.
pub proof fn lemma_compare_times_skips(states: Seq<FileState>, target: u128, from: int)
    requires
        0 <= from,
    ensures
        compare_times(states, target, from) is Skip <==> newer_than_all(states, target, from),
    decreases states.len() - from,
{
    if from < states.len() {
        lemma_compare_times_skips(states, target, from + 1);
        if newer_than_all(states, target, from) {
            assert(states[from] is Present);
            assert(newer_than_all(states, target, from + 1));
        }
        if compare_times(states, target, from) is Skip {
            assert forall|i: int| from <= i < states.len() implies match #[trigger] states[i] {
                FileState::Present { modified: Some(m) } => m < target,
                _ => false,
            } by {
                if i > from {
                    assert(newer_than_all(states, target, from + 1));
                }
            }
        }
    }
}

/// No file from `from` on is missing exactly when nothing is found.
pub proof fn lemma_first_missing(deps: Seq<KeyView>, states: Seq<FileState>, from: int)
    requires
        0 <= from,
    ensures
        match first_missing(deps, states, from) {
            Some(i) => from <= i < deps.len() && deps[i] is File && states[i] is Missing,
            None => forall|i: int|
                from <= i < deps.len() ==> !(#[trigger] deps[i] is File && states[i] is Missing),
        },
    decreases deps.len() - from,
{
    if from < deps.len() {
        lemma_first_missing(deps, states, from + 1);
    }
}

/// A phony task is never skipped. A file task is skipped exactly when it
/// depends on files only, all of them are there, the target is there, and
/// the target is newer than every one of them.
pub proof fn lemma_skip_rule(
    key: KeyView,
    deps: Seq<KeyView>,
    target: FileState,
    states: Seq<FileState>,
)
    requires
        states.len() == deps.len(),
    ensures
        key is Phony ==> !(verdict(key, deps, target, states) is Skip),
        verdict(key, deps, target, states) is Skip <==> {
            &&& key is File
            &&& !has_phony(deps)
            &&& target is Present
            &&& target->modified is Some
            &&& newer_than_all(states, target->modified->Some_0, 0)
        },
{
    lemma_first_missing(deps, states, 0);
    if target is Present && target->modified is Some {
        let t = target->modified->Some_0;
        lemma_compare_times_skips(states, t, 0);
        if newer_than_all(states, t, 0) && first_missing(deps, states, 0) is Some {
            let i = first_missing(deps, states, 0)->Some_0;
            assert(states[i] is Present);
        }
    }
}

/// Applies the rule to a task with key `key` that depends on `depends`.
/// `target` is the state of the file that a file task stands for, and
/// `states` holds, for each key in `depends`, the state of the file that it
/// stands for; the entries for phony keys are not looked at.
pub fn staleness_gate(
    key: &TaskKey,
    depends: &Vec<TaskKey>,
    target: FileState,
    states: &Vec<FileState>,
) -> (gate: Gate)
    requires
        states@.len() == depends@.len(),
    ensures
        gate@ == verdict(key@, key_views(depends@), target, states@),
{
    let ghost deps = key_views(depends@);
    let mut phony = false;
    let mut i: usize = 0;
    while i < depends.len()
        invariant
            i <= depends@.len(),
            states@.len() == depends@.len(),
            deps == key_views(depends@),
            first_missing(deps, states@, 0) == first_missing(deps, states@, i as int),
            phony == (exists|j: int| 0 <= j < i && #[trigger] deps[j] is Phony),
        decreases depends@.len() - i,
    {
        assert(deps[i as int] == depends@[i as int]@);
        match &depends[i] {
            TaskKey::File(dep_file) => {
                if let FileState::Missing = states[i] {
                    return Gate::Fail(
                        TaskError::DependencyFileNotFound {
                            dep_file: dep_file.duplicate(),
                            task: key.duplicate(),
                        },
                    );
                }
            },
            TaskKey::Phony(_) => {
                phony = true;
            },
        }
        i += 1;
    }
    assert(phony == has_phony(deps));
    if !key.is_file() || phony {
        return Gate::Run;
    }
    let stamp = match target {
        FileState::Missing => {
            return Gate::Run;
        },
        FileState::Present { modified: None } => {
            return Gate::Fail(TaskError::FailedToGetFileMetadata);
        },
        FileState::Present { modified: Some(t) } => t,
    };
    let mut i: usize = 0;
    while i < states.len()
        invariant
            i <= states@.len(),
            verdict(key@, deps, target, states@) == compare_times(states@, stamp, 0),
            deps == key_views(depends@),
            compare_times(states@, stamp, 0) == compare_times(states@, stamp, i as int),
        decreases states@.len() - i,
    {
        match states[i] {
            FileState::Present { modified: Some(m) } => {
                if stamp <= m {
                    return Gate::Run;
                }
            },
            _ => {
                return Gate::Fail(TaskError::FailedToGetFileMetadata);
            },
        }
        i += 1;
    }
    Gate::Skip
}

/// What a task ends with once its script has run with `exit_code`.
pub fn conclude(key: &TaskKey, exit_code: i32) -> (res: Result<(), TaskError>)
    ensures
        exit_code == 0 ==> res is Ok,
        exit_code != 0 ==> result_view(res) == Err::<(), TaskFault>(
            TaskFault::Execution { key: key@, exit_code },
        ),
{
    if exit_code == 0 {
        Ok(())
    } else {
        Err(TaskError::Execution { key: key.duplicate(), exit_code })
    }
}

/// What has to be asked of the file system about a path before the rule
/// can be applied.
#[derive(Clone, Copy, Debug, PartialEq, Eq)]
pub enum Probe {
    /// Nothing: the rule does not look at the path.
    Nothing,
    /// Whether the file is there.
    Existence,
    /// Whether the file is there, and when it was modified.
    Metadata,
}

/// What has to be asked about a key that a task with key `key` depends on.
pub open spec fn probe_of(key: KeyView, dep: KeyView) -> Probe {
    match dep {
        KeyView::Phony(_) => Probe::Nothing,
        KeyView::File(_) => match key {
            KeyView::Phony(_) => Probe::Existence,
            KeyView::File(_) => Probe::Metadata,
        },
    }
}

/// What has to be asked about a key that a task with key `key` depends on:
/// nothing about a phony key; about a file, whether it is there, and for a
/// file task also when it was modified.
pub fn dependency_probe(key: &TaskKey, dep: &TaskKey) -> (probe: Probe)
    ensures
        probe == probe_of(key@, dep@),
{
    match dep {
        TaskKey::Phony(_) => Probe::Nothing,
        TaskKey::File(_) => match key {
            TaskKey::Phony(_) => Probe::Existence,
            TaskKey::File(_) => Probe::Metadata,
        },
    }
}

/// What has to be asked about the target of a task: nothing for a phony
/// task, and for a file task whether the file is there and when it was
/// modified.
pub fn target_probe(key: &TaskKey) -> (probe: Probe)
    ensures
        key@ is Phony ==> probe == Probe::Nothing,
        key@ is File ==> probe == Probe::Metadata,
{
    match key {
        TaskKey::Phony(_) => Probe::Nothing,
        TaskKey::File(_) => Probe::Metadata,
    }
}

/// The rule does not look at what it asked nothing about: the state of the
/// target of a phony task, and the states that stand for phony keys.
pub proof fn lemma_unprobed_states_do_not_count(
    key: KeyView,
    deps: Seq<KeyView>,
    target: FileState,
    states: Seq<FileState>,
    other_target: FileState,
    other_states: Seq<FileState>,
)
    requires
        states.len() == deps.len(),
        other_states.len() == deps.len(),
        key is File ==> other_target == target,
        forall|i: int| 0 <= i < deps.len() && deps[i] is File ==> other_states[i] == states[i],
    ensures
        verdict(key, deps, other_target, other_states) == verdict(key, deps, target, states),
{
    lemma_same_first_missing(deps, states, other_states, 0);
    if key is File && !has_phony(deps) {
        assert(other_states =~= states) by {
            assert forall|i: int| 0 <= i < deps.len() implies other_states[i] == states[i] by {
                assert(!(deps[i] is Phony));
            }
        }
    }
}

proof fn lemma_same_first_missing(
    deps: Seq<KeyView>,
    states: Seq<FileState>,
    other_states: Seq<FileState>,
    from: int,
)
    requires
        0 <= from,
        forall|i: int| 0 <= i < deps.len() && deps[i] is File ==> other_states[i] == states[i],
    ensures
        first_missing(deps, other_states, from) == first_missing(deps, states, from),
    decreases deps.len() - from,
{
    if from < deps.len() {
        lemma_same_first_missing(deps, states, other_states, from + 1);
    }
}

} // verus!
