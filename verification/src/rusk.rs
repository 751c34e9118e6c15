//! Tasks, and what becomes of them on the way to execution.
//!
//! A [`Task`] is what a configuration file says. An executable holds what is
//! needed to run it: the parsed script and the merged environment. A
//! [`TaskExecutable`] is the cell that the run shares between all tasks that
//! depend on one task, so that its script runs at most once.

use crate::digraph::{resolve, are_expansions, DigraphItem, Fault, TreeNode, TreeNodeCreationError};
use crate::envs::{bindings_view, merge_envs, merged};
use crate::fs::{absorb_files, holds_entries, Absorb, RuskfileComposer, RuskfileDeserializeError};
use crate::keymap::{copy_keys, key_views, no_members, reversed, TaskMap};
use crate::path::NormarizedPath;
use crate::staleness::{conclude, copy_result, result_view, staleness_gate, verdict};
use crate::staleness::{FileState, Gate, TaskError, TaskFault};
use crate::taskkey::{KeyFault, KeyView, TaskKey, TaskKeyParseError, TaskKeyRelative};
use crate::taskkey::{parse_key, resolve_key};
use deno_task_shell::parser::SequentialList;
use vstd::prelude::*;
use vstd::string::{StrSliceExecFns, StringExecFns};

verus! {

/// A parsed line of a script, as `deno_task_shell` hands it out.
#[verifier::external_type_specification]
#[verifier::external_body]
pub struct ExSequentialList(deno_task_shell::parser::SequentialList);

/// The position of the first line feed in `text` from `from` on, or the
/// length of `text` where there is none.
pub open spec fn line_end(text: Seq<char>, from: int) -> int
    decreases text.len() - from,
{
    if from < 0 || from >= text.len() {
        text.len() as int
    } else if text[from] == '\n' {
        from
    } else {
        line_end(text, from + 1)
    }
}

/// The lines of `text` from position `from` on. A line ends with a line
/// feed, which is no part of it, nor is a carriage return before the line
/// feed; the last line may end with the text instead.
pub open spec fn lines_from(text: Seq<char>, from: int) -> Seq<Seq<char>>
    decreases text.len() - from,
{
    if from < 0 || from >= text.len() {
        Seq::empty()
    } else {
        let end = line_end(text, from);
        let raw = text.subrange(from, end);
        let line = if end < text.len() && raw.len() > 0 && raw.last() == '\r' {
            raw.drop_last()
        } else {
            raw
        };
        seq![line] + lines_from(
            text,
            if from <= end < text.len() {
                end + 1
            } else {
                text.len() as int
            },
        )
    }
}

/// The lines of a text.
pub open spec fn text_lines(text: Seq<char>) -> Seq<Seq<char>> {
    lines_from(text, 0)
}

/// A line ends inside the text, and not before it begins.
pub proof fn lemma_line_end(text: Seq<char>, from: int)
    requires
        0 <= from <= text.len(),
    ensures
        from <= line_end(text, from) <= text.len(),
        line_end(text, from) < text.len() ==> text[line_end(text, from)] == '\n',
        forall|i: int| from <= i < line_end(text, from) ==> text[i] != '\n',
    decreases text.len() - from,
{
    if from < text.len() && text[from] != '\n' {
        lemma_line_end(text, from + 1);
    }
}

/// What `deno_task_shell::parser::parse` has against a line: nothing, or the
/// message of its error.
pub uninterp spec fn parse_complaint(line: Seq<char>) -> Option<Seq<char>>;

/// Whether the shell's parser accepts a line.
pub open spec fn line_parses(line: Seq<char>) -> bool {
    parse_complaint(line) is None
}

/// The texts of a sequence of strings.
pub open spec fn texts(strings: Seq<String>) -> Seq<Seq<char>> {
    Seq::new(strings.len(), |i: int| strings[i]@)
}

/// Splits a text into its lines.
pub fn lines_of(text: &str) -> (lines: Vec<String>)
    ensures
        texts(lines@) == text_lines(text@),
{
    let n = text.unicode_len();
    let mut lines: Vec<String> = Vec::new();
    let mut from: usize = 0;
    while from < n
        invariant
            n == text@.len(),
            from <= n + 1,
            from <= usize::MAX,
            text_lines(text@) == texts(lines@) + lines_from(text@, from as int),
        decreases n + 1 - from,
    {
        let mut end: usize = from;
        while end < n && text.get_char(end) != '\n'
            invariant
                n == text@.len(),
                from <= end <= n,
                line_end(text@, from as int) == line_end(text@, end as int),
            decreases n - end,
        {
            end += 1;
        }
        let stop = if end < n && end > from && text.get_char(end - 1) == '\r' {
            end - 1
        } else {
            end
        };
        let ghost before = lines@;
        let line = String::from_str(text.substring_char(from, stop));
        proof {
            lemma_line_end(text@, from as int);
            lemma_line_end(text@, end as int);
            let raw = text@.subrange(from as int, end as int);
            if stop < end {
                assert(raw.last() == text@[end - 1]);
                assert(raw.drop_last() =~= text@.subrange(from as int, stop as int));
            } else if end < n && raw.len() > 0 {
                assert(raw.last() == text@[end - 1]);
            }
        }
        lines.push(line);
        proof {
            assert(texts(lines@) =~= texts(before) + seq![line@]);
            assert(texts(before) + (seq![line@] + lines_from(text@, end + 1)) =~= texts(lines@)
                + lines_from(text@, end + 1));
        }
        if end == n {
            from = n;
        } else {
            from = end + 1;
        }
    }
    proof {
        assert(lines_from(text@, from as int) =~= Seq::<Seq<char>>::empty());
        assert(texts(lines@) + Seq::<Seq<char>>::empty() =~= texts(lines@));
    }
    lines
}

/// Calls `deno_task_shell::parser::parse`, and turns its error into the
/// error's message. Whether a line is accepted, and with which message it is
/// refused, depends on the line alone; the contract says no more than that.
#[verifier::external_body]
fn parse_line(line: &str) -> (parsed: Result<SequentialList, String>)
    ensures
        parsed.is_ok() == parse_complaint(line@).is_none(),
        parsed.is_err() ==> parse_complaint(line@) == Some(parsed.unwrap_err()@),
{
    match deno_task_shell::parser::parse(line) {
        Ok(list) => Ok(list),
        Err(error) => Err(error.to_string()),
    }
}

/// Task configuration
pub struct Task {
    /// Environment variables of the task alone
    pub envs: Vec<(String, String)>,
    /// Script to be executed
    pub script: Option<String>,
    /// Working directory
    pub cwd: NormarizedPath,
    /// Dependencies
    pub depends: Vec<TaskKey>,
}

/// Task execution global options
pub struct ExecuteOpts {
    /// Environment variables
    pub envs: Vec<(String, String)>,
}

/// Task parsing error
#[derive(Debug)]
pub enum TaskParseError {
    /// Directory not found
    DirectoryNotFound(NormarizedPath),
    /// Task script parse error
    ScriptParseError { key: TaskKey, error: String },
}

/// A task parsing error, apart from how it is stored.
pub enum ParseFault {
    DirectoryNotFound(Seq<char>),
    ScriptParseError { key: KeyView, error: Seq<char> },
}

impl View for TaskParseError {
    type V = ParseFault;

    open spec fn view(&self) -> ParseFault {
        match self {
            TaskParseError::DirectoryNotFound(dir) => ParseFault::DirectoryNotFound(dir@),
            TaskParseError::ScriptParseError { key, error } => ParseFault::ScriptParseError {
                key: key@,
                error: error@,
            },
        }
    }
}

/// Whether every line of a script is accepted by the shell's parser. A task
/// without a script has no lines.
pub open spec fn script_parses(script: Option<String>) -> bool {
    match script {
        None => true,
        Some(text) => forall|i: int|
            0 <= i < text_lines(text@).len() ==> line_parses(#[trigger] text_lines(text@)[i]),
    }
}

/// The message for the first line from `from` on that the shell's parser
/// refuses.
pub open spec fn first_complaint(lines: Seq<Seq<char>>, from: int) -> Option<Seq<char>>
    decreases lines.len() - from,
{
    if from < 0 || from >= lines.len() {
        None
    } else if parse_complaint(lines[from]) is Some {
        parse_complaint(lines[from])
    } else {
        first_complaint(lines, from + 1)
    }
}

/// What the shell's parser has against a script: nothing, or the message for
/// the first line that it refuses.
pub open spec fn script_complaint(script: Option<String>) -> Option<Seq<char>> {
    match script {
        None => None,
        Some(text) => first_complaint(text_lines(text@), 0),
    }
}

/// A script is refused exactly when one of its lines is.
pub proof fn lemma_first_complaint(lines: Seq<Seq<char>>, from: int)
    requires
        0 <= from,
    ensures
        first_complaint(lines, from) is None <==> forall|i: int|
            from <= i < lines.len() ==> line_parses(#[trigger] lines[i]),
    decreases lines.len() - from,
{
    if from < lines.len() {
        lemma_first_complaint(lines, from + 1);
    }
}

/// The number of lines of a script.
pub open spec fn script_len(script: Option<String>) -> nat {
    match script {
        None => 0,
        Some(text) => text_lines(text@).len(),
    }
}

/// Parses a script line by line. The first line that the shell's parser
/// refuses ends the work with the parser's error.
pub fn parse_script(script: &Option<String>) -> (res: Result<Vec<SequentialList>, String>)
    ensures
        res is Ok <==> script_parses(*script),
        res is Ok ==> res->Ok_0@.len() == script_len(*script),
        res is Ok <==> script_complaint(*script) is None,
        res is Err ==> script_complaint(*script) == Some(res->Err_0@),
{
    let mut items: Vec<SequentialList> = Vec::new();
    if let Some(text) = script {
        let lines = lines_of(text.as_str());
        let mut i: usize = 0;
        while i < lines.len()
            invariant
                i <= lines@.len(),
                *script == Some(*text),
                texts(lines@) == text_lines(text@),
                items@.len() == i,
                forall|j: int| 0 <= j < i ==> line_parses(#[trigger] text_lines(text@)[j]),
                first_complaint(text_lines(text@), 0) == first_complaint(
                    text_lines(text@),
                    i as int,
                ),
            decreases lines@.len() - i,
        {
            assert(texts(lines@)[i as int] == lines@[i as int]@);
            match parse_line(lines[i].as_str()) {
                Ok(list) => {
                    items.push(list);
                },
                Err(error) => {
                    assert(!line_parses(text_lines(text@)[i as int]));
                    return Err(error);
                },
            }
            i += 1;
        }
        assert(texts(lines@).len() == lines@.len());
        proof {
            lemma_first_complaint(text_lines(text@), 0);
        }
    }
    Ok(items)
}

/// TaskExecutable inner data to run the shell
pub struct TaskExecutableInner {
    /// TaskKey
    pub key: TaskKey,
    /// Environment variables
    pub envs: Vec<(String, String)>,
    /// Script to be executed, line by line
    pub script: Vec<SequentialList>,
    /// Working directory
    pub cwd: NormarizedPath,
    /// TaskKeys that the task depends on
    pub depends: Vec<TaskKey>,
}

impl TaskExecutableInner {
    /// Applies the make-style rule to the task. `target` is the state of the
    /// file that a file task stands for, and `states` holds, for each key
    /// that the task depends on, the state of the file that it stands for.
    pub fn gate(&self, target: FileState, states: &Vec<FileState>) -> (gate: Gate)
        requires
            states@.len() == self.depends@.len(),
        ensures
            gate@ == verdict(self.key@, key_views(self.depends@), target, states@),
    {
        staleness_gate(&self.key, &self.depends, target, states)
    }

    /// What the task ends with once its script has run with `exit_code`.
    pub fn conclude(&self, exit_code: i32) -> (res: Result<(), TaskError>)
        ensures
            exit_code == 0 ==> res is Ok,
            exit_code != 0 ==> res is Err && res->Err_0@ == (TaskFault::Execution {
                key: self.key@,
                exit_code,
            }),
    {
        conclude(&self.key, exit_code)
    }
}

/// How far a task has come.
pub enum Phase {
    /// Task is not executed yet
    Initialized,
    /// Task is being executed
    Processing,
    /// Task is done
    Done,
}

/// What happens to the cell of a task.
pub enum Event {
    /// Somebody asks for the result of the task.
    Call,
    /// The run of the task hands in its result.
    Publish,
}

/// The phase that follows on an event.
pub open spec fn phase_after(phase: Phase, event: Event) -> Phase {
    match event {
        Event::Call => match phase {
            Phase::Initialized => Phase::Processing,
            _ => phase,
        },
        Event::Publish => Phase::Done,
    }
}

/// Whether an event makes the script of the task run.
pub open spec fn starts_run(phase: Phase, event: Event) -> bool {
    phase is Initialized && event is Call
}

/// How often the script of a task runs in a sequence of events.
pub open spec fn runs(phase: Phase, events: Seq<Event>) -> nat
    decreases events.len(),
{
    if events.len() == 0 {
        0
    } else {
        (if starts_run(phase, events[0]) {
            1nat
        } else {
            0nat
        }) + runs(phase_after(phase, events[0]), events.skip(1))
    }
}

/// Whatever happens to the cell of a task, and however often its result is
/// asked for, its script runs at most once; once the task is under way or
/// done, it never runs again.
pub proof fn lemma_runs_at_most_once(phase: Phase, events: Seq<Event>)
    ensures
        runs(phase, events) <= 1,
        !(phase is Initialized) ==> runs(phase, events) == 0,
    decreases events.len(),
{
    if events.len() > 0 {
        lemma_runs_at_most_once(phase_after(phase, events[0]), events.skip(1));
    }
}

/// TaskExecutable state
pub enum TaskExecutableState {
    /// Task is not executed yet
    Initialized(TaskExecutableInner),
    /// Task is being executed
    Processing,
    /// Task is done
    Done(Result<(), TaskError>),
}

/// What the caller of [`TaskExecutable::as_future`] has to do.
pub enum RunAction {
    /// The task is done: this is its result.
    Finished(Result<(), TaskError>),
    /// The task is under way: wait until its result is published.
    Wait,
    /// The task has to run now, with this data; its result is then handed in
    /// with [`TaskExecutable::publish`].
    Execute(TaskExecutableInner),
}

/// Independent TaskExecutable with state
pub struct TaskExecutable {
    state: TaskExecutableState,
}

impl TaskExecutable {
    /// The state of the cell.
    pub closed spec fn state(&self) -> TaskExecutableState {
        self.state
    }

    /// How far the task has come.
    pub open spec fn phase(&self) -> Phase {
        match self.state() {
            TaskExecutableState::Initialized(_) => Phase::Initialized,
            TaskExecutableState::Processing => Phase::Processing,
            TaskExecutableState::Done(_) => Phase::Done,
        }
    }

    /// Whether the cell stands for a file that no task makes: it is done
    /// from the start.
    pub open spec fn is_empty(&self) -> bool {
        self.state() matches TaskExecutableState::Done(res) && res is Ok
    }

    /// Create an empty TaskExecutable which represents a virtual File Task
    pub fn empty() -> (cell: TaskExecutable)
        ensures
            cell.is_empty(),
    {
        TaskExecutable { state: TaskExecutableState::Done(Ok(())) }
    }

    /// A cell for a task that has not run yet.
    pub fn from(inner: TaskExecutableInner) -> (cell: TaskExecutable)
        ensures
            cell.state() == TaskExecutableState::Initialized(inner),
    {
        TaskExecutable { state: TaskExecutableState::Initialized(inner) }
    }

    /// Asks for the result of the task.
    ///
    /// A task that is done answers with a copy of its result. A task that is
    /// under way makes the caller wait. A task that has not run yet goes
    /// under way in the same step, and hands the caller what is needed to
    /// run it.
    pub fn as_future(&mut self) -> (action: RunAction)
        ensures
            final(self).phase() == phase_after(old(self).phase(), Event::Call),
            action is Execute <==> starts_run(old(self).phase(), Event::Call),
            match old(self).state() {
                TaskExecutableState::Initialized(inner) => action == RunAction::Execute(inner),
                TaskExecutableState::Processing => action is Wait,
                TaskExecutableState::Done(res) => {
                    &&& action is Finished
                    &&& result_view(action->Finished_0) == result_view(res)
                    &&& final(self).state() == old(self).state()
                },
            },
    {
        let mut state = TaskExecutableState::Processing;
        std::mem::swap(&mut self.state, &mut state);
        match state {
            TaskExecutableState::Initialized(inner) => RunAction::Execute(inner),
            TaskExecutableState::Processing => RunAction::Wait,
            TaskExecutableState::Done(res) => {
                let copy = copy_result(&res);
                self.state = TaskExecutableState::Done(res);
                RunAction::Finished(copy)
            },
        }
    }

    /// Hands in the result of the run: the task is done, and everybody who
    /// asks from now on gets a copy of `res`.
    pub fn publish(&mut self, res: Result<(), TaskError>) -> (copy: Result<(), TaskError>)
        ensures
            final(self).phase() == phase_after(old(self).phase(), Event::Publish),
            final(self).state() == TaskExecutableState::Done(res),
            result_view(copy) == result_view(res),
    {
        let copy = copy_result(&res);
        self.state = TaskExecutableState::Done(res);
        copy
    }

    /// What is needed to run the task, as long as it has not run.
    pub fn inner(&self) -> (inner: Option<&TaskExecutableInner>)
        ensures
            inner is Some <==> self.phase() is Initialized,
            inner is Some ==> *inner->Some_0 == self.state()->Initialized_0,
    {
        match &self.state {
            TaskExecutableState::Initialized(inner) => Some(inner),
            _ => None,
        }
    }

    /// The result of the task, once it is done.
    pub fn result(&self) -> (res: Option<Result<(), TaskError>>)
        ensures
            res is Some <==> self.phase() is Done,
            res is Some ==> result_view(res->Some_0) == result_view(self.state()->Done_0),
    {
        match &self.state {
            TaskExecutableState::Done(res) => Some(copy_result(res)),
            _ => None,
        }
    }
}

impl DigraphItem for TaskExecutable {
    open spec fn spec_children(&self) -> Seq<KeyView> {
        match self.state() {
            TaskExecutableState::Initialized(inner) => key_views(inner.depends@),
            // In case of Done or Processing, there is no additional dependency
            _ => Seq::empty(),
        }
    }

    fn children(&self) -> (deps: Vec<TaskKey>) {
        match &self.state {
            TaskExecutableState::Initialized(inner) => copy_keys(&inner.depends),
            _ => {
                let deps: Vec<TaskKey> = Vec::new();
                assert(key_views(deps@) =~= Seq::<KeyView>::empty());
                deps
            },
        }
    }
}

/// What stands against making a task executable: a script that the shell's
/// parser refuses, or else a working directory that is not there.
pub open spec fn task_fault(key: TaskKey, task: Task, dir_exists: bool) -> Option<ParseFault> {
    match script_complaint(task.script) {
        Some(error) => Some(ParseFault::ScriptParseError { key: key@, error }),
        None => if dir_exists {
            None
        } else {
            Some(ParseFault::DirectoryNotFound(task.cwd@))
        },
    }
}

/// What stands against the first task from `from` on that cannot be made
/// executable.
pub open spec fn first_unusable(
    keys: Seq<TaskKey>,
    tasks: Seq<Task>,
    dirs: Seq<bool>,
    from: int,
) -> Option<ParseFault>
    decreases keys.len() - from,
{
    if from < 0 || from >= keys.len() {
        None
    } else {
        match task_fault(keys[from], tasks[from], dirs[from]) {
            Some(fault) => Some(fault),
            None => first_unusable(keys, tasks, dirs, from + 1),
        }
    }
}

/// `cell` is the executable of the task `task` with key `key`: it has not
/// run, and it holds the key, the working directory and the dependencies of
/// the task, one parsed line for each line of its script, and the global
/// variables with those of the task on top.
pub open spec fn is_executable_of(
    cell: TaskExecutable,
    key: TaskKey,
    task: Task,
    global: Seq<(Seq<char>, Seq<char>)>,
) -> bool {
    &&& cell.state() is Initialized
    &&& cell.state()->Initialized_0.key@ == key@
    &&& bindings_view(cell.state()->Initialized_0.envs@) == merged(global, bindings_view(task.envs@))
    &&& cell.state()->Initialized_0.script@.len() == script_len(task.script)
    &&& cell.state()->Initialized_0.cwd@ == task.cwd@
    &&& key_views(cell.state()->Initialized_0.depends@) == key_views(task.depends@)
}

/// The `j`-th dependency of the `i`-th task is a file with canonical string
/// `s`.
pub open spec fn is_file_dep_at(tasks: Seq<Task>, i: int, j: int, s: Seq<char>) -> bool {
    &&& 0 <= i < tasks.len()
    &&& 0 <= j < tasks[i].depends@.len()
    &&& tasks[i].depends@[j]@ is File
    &&& tasks[i].depends@[j].ident() == s
}

/// One of the first `upto` keys has the canonical string `s`.
pub open spec fn names_task(keys: Seq<TaskKey>, upto: int, s: Seq<char>) -> bool {
    exists|i: int| 0 <= i < upto && i < keys.len() && #[trigger] keys[i].ident() == s
}

/// One of the first `upto` tasks, or the task `upto` among its first `deps`
/// dependencies, depends on a file with canonical string `s`.
pub open spec fn names_file_dep(tasks: Seq<Task>, upto: int, deps: int, s: Seq<char>) -> bool {
    exists|i: int, j: int| #[trigger]
        is_file_dep_at(tasks, i, j, s) && (i < upto || (i == upto && j < deps))
}

/// `map` holds the executables of the first `upto` tasks, and an empty cell
/// for every file that one of them depends on and that is no task among
/// them; the same for the first `deps` dependencies of the task `upto`; and
/// nothing else.
pub open spec fn holds_executables(
    map: TaskMap<TaskExecutable>,
    keys: Seq<TaskKey>,
    tasks: Seq<Task>,
    global: Seq<(Seq<char>, Seq<char>)>,
    upto: int,
    deps: int,
) -> bool {
    &&& map.wf()
    &&& forall|i: int|
        0 <= i < upto ==> map.spec_contains(#[trigger] keys[i].ident()) && is_executable_of(
            map.spec_get(keys[i].ident()),
            keys[i],
            tasks[i],
            global,
        )
    &&& forall|i: int, j: int, s: Seq<char>| #[trigger]
        is_file_dep_at(tasks, i, j, s) && (i < upto || (i == upto && j < deps))
            ==> map.spec_contains(s)
    &&& forall|s: Seq<char>| #[trigger]
        map.spec_contains(s) ==> names_task(keys, upto, s) || (names_file_dep(
            tasks,
            upto,
            deps,
            s,
        ) && map.spec_get(s).is_empty())
}

/// Makes every task executable, in the order of the map.
///
/// `dir_exists` says for each task, by position, whether its working
/// directory is there. The first task whose script the shell's parser refuses
/// or whose working directory is not there ends the work with its error.
/// Every file that a task depends on gets an empty cell, unless it is a task
/// itself.
pub fn into_executable(tasks: TaskMap<Task>, opts: ExecuteOpts, dir_exists: &Vec<bool>) -> (res:
    Result<TaskMap<TaskExecutable>, TaskParseError>)
    requires
        tasks.wf(),
        dir_exists@.len() == tasks.spec_len(),
    ensures
        match first_unusable(tasks.keys(), tasks.values(), dir_exists@, 0) {
            Some(fault) => res is Err && res->Err_0@ == fault,
            None => res is Ok && holds_executables(
                res->Ok_0,
                tasks.keys(),
                tasks.values(),
                bindings_view(opts.envs@),
                tasks.spec_len() as int,
                0,
            ),
        },
{
    let ghost all_keys = tasks.keys();
    let ghost all_tasks = tasks.values();
    let ghost global = bindings_view(opts.envs@);
    let ghost entries = tasks.entries();
    let (_, keys, values) = tasks.into_parts();
    let mut rest = reversed(values);
    let mut parsed: TaskMap<TaskExecutable> = TaskMap::new();
    let mut i: usize = 0;
    while i < keys.len()
        invariant
            i <= keys@.len(),
            keys@ == all_keys,
            all_keys == tasks.keys(),
            all_tasks == tasks.values(),
            global == bindings_view(opts.envs@),
            crate::keymap::well_indexed(entries, all_keys),
            all_tasks.len() == all_keys.len(),
            dir_exists@.len() == all_keys.len(),
            rest@.len() + i == all_keys.len(),
            forall|r: int| 0 <= r < rest@.len() ==> #[trigger] rest@[r] == all_tasks[all_tasks.len() - 1 - r],
            first_unusable(all_keys, all_tasks, dir_exists@, 0) == first_unusable(
                all_keys,
                all_tasks,
                dir_exists@,
                i as int,
            ),
            holds_executables(parsed, all_keys, all_tasks, global, i as int, 0),
        decreases keys@.len() - i,
    {
        let task = rest.pop().unwrap();
        assert(task == all_tasks[i as int]);
        let key = keys[i].duplicate();
        let script = match parse_script(&task.script) {
            Ok(script) => script,
            Err(error) => {
                return Err(TaskParseError::ScriptParseError { key, error });
            },
        };
        let Task { envs, cwd, depends, .. } = task;
        if !dir_exists[i] {
            return Err(TaskParseError::DirectoryNotFound(cwd));
        }
        // If dependency is a file, create a virtual TaskExecutable because it may not be actual Task
        let mut j: usize = 0;
        while j < depends.len()
            invariant
                j <= depends@.len(),
                depends == all_tasks[i as int].depends,
                i < all_keys.len(),
                all_tasks.len() == all_keys.len(),
                holds_executables(parsed, all_keys, all_tasks, global, i as int, j as int),
            decreases depends@.len() - j,
        {
            let ghost before = parsed;
            let dep = &depends[j];
            if dep.is_file() {
                if !parsed.contains_key(dep) {
                    let _ = parsed.insert(dep.duplicate(), TaskExecutable::empty());
                }
            }
            proof {
                let dep_id = dep.ident();
                assert forall|a: int, b: int, s: Seq<char>| #[trigger]
                    is_file_dep_at(all_tasks, a, b, s) && (a < i || (a == i && b < j + 1))
                    implies parsed.spec_contains(s) by {
                    if a == i && b == j {
                    } else {
                        assert(before.spec_contains(s));
                    }
                }
                assert forall|s: Seq<char>| #[trigger] parsed.spec_contains(s) implies names_task(
                    all_keys,
                    i as int,
                    s,
                ) || (names_file_dep(all_tasks, i as int, j + 1, s) && parsed.spec_get(
                    s,
                ).is_empty()) by {
                    if before.spec_contains(s) {
                        if !names_task(all_keys, i as int, s) {
                            let (a, b) = choose|a: int, b: int| #[trigger]
                                is_file_dep_at(all_tasks, a, b, s) && (a < i || (a == i && b < j));
                            assert(is_file_dep_at(all_tasks, a, b, s) && (a < i || (a == i && b < j
                                + 1)));
                        }
                    } else {
                        assert(s == dep_id);
                        assert(is_file_dep_at(all_tasks, i as int, j as int, s));
                    }
                }
            }
            j += 1;
        }
        let ghost before = parsed;
        let merged_envs = merge_envs(&opts.envs, envs);
        let inner = TaskExecutableInner { key: key.duplicate(), script, depends, envs: merged_envs, cwd };
        let _ = parsed.insert(key, TaskExecutable::from(inner));
        proof {
            let key_id = all_keys[i as int].ident();
            assert forall|a: int| 0 <= a < i + 1 implies parsed.spec_contains(
                #[trigger] all_keys[a].ident(),
            ) && is_executable_of(
                parsed.spec_get(all_keys[a].ident()),
                all_keys[a],
                all_tasks[a],
                global,
            ) by {
                if a < i {
                    if all_keys[a].ident() == key_id {
                        crate::keymap::lemma_well_indexed_distinct(entries, all_keys, a, i as int);
                    }
                    assert(before.spec_contains(all_keys[a].ident()));
                }
            }
            assert forall|a: int, b: int, s: Seq<char>| #[trigger]
                is_file_dep_at(all_tasks, a, b, s) && (a < i + 1 || (a == i + 1 && b < 0))
                implies parsed.spec_contains(s) by {
                assert(is_file_dep_at(all_tasks, a, b, s) && (a < i || (a == i && b
                    < depends@.len())));
                assert(before.spec_contains(s));
            }
            assert forall|s: Seq<char>| #[trigger] parsed.spec_contains(s) implies names_task(
                all_keys,
                i + 1,
                s,
            ) || (names_file_dep(all_tasks, i + 1, 0, s) && parsed.spec_get(s).is_empty()) by {
                if s == key_id {
                    assert(all_keys[i as int].ident() == s);
                } else {
                    assert(before.spec_contains(s));
                    if names_task(all_keys, i as int, s) {
                        let a = choose|a: int|
                            0 <= a < i && a < all_keys.len() && #[trigger] all_keys[a].ident() == s;
                        assert(0 <= a < i + 1 && all_keys[a].ident() == s);
                    } else {
                        let (a, b) = choose|a: int, b: int| #[trigger]
                            is_file_dep_at(all_tasks, a, b, s) && (a < i || (a == i && b
                                < depends@.len()));
                        assert(is_file_dep_at(all_tasks, a, b, s) && (a < i + 1 || (a == i + 1 && b
                            < 0)));
                    }
                }
            }
        }
        i += 1;
    }
    Ok(parsed)
}

/// Errors that can occur during Rusk operation
#[derive(Debug)]
pub enum RuskError {
    /// Argument parsing error
    InvalidArgument(TaskKeyParseError),
    /// TreeNode creation error
    TreeNodeBroken(TreeNodeCreationError),
    /// Task parsing error
    TaskUnparsable(TaskParseError),
    /// Task execution error
    TaskFailed(TaskError),
}

/// An error of a run, apart from how it is stored.
pub enum RuskFault {
    InvalidArgument(KeyFault),
    TreeNodeBroken(Fault),
    TaskUnparsable(ParseFault),
    TaskFailed(TaskFault),
}

impl View for RuskError {
    type V = RuskFault;

    open spec fn view(&self) -> RuskFault {
        match self {
            RuskError::InvalidArgument(e) => RuskFault::InvalidArgument(e@),
            RuskError::TreeNodeBroken(e) => RuskFault::TreeNodeBroken(e@),
            RuskError::TaskUnparsable(e) => RuskFault::TaskUnparsable(e@),
            RuskError::TaskFailed(e) => RuskFault::TaskFailed(e@),
        }
    }
}

/// Why the first argument from `from` on that is no key is none.
pub open spec fn first_bad_target(args: Seq<Seq<char>>, from: int) -> Option<KeyFault>
    decreases args.len() - from,
{
    if from < 0 || from >= args.len() {
        None
    } else {
        match parse_key(args[from]) {
            Err(fault) => Some(fault),
            Ok(_) => first_bad_target(args, from + 1),
        }
    }
}

/// The keys that the arguments stand for in the directory `cwd`.
pub open spec fn target_keys(args: Seq<Seq<char>>, cwd: Seq<char>) -> Seq<KeyView> {
    Seq::new(args.len(), |i: int| resolve_key(parse_key(args[i])->Ok_0, cwd))
}

/// Reads the arguments as keys relative to the directory `cwd`, in order.
/// The first argument that is no key ends the work with its error.
pub fn parse_targets(args: &Vec<String>, cwd: &NormarizedPath) -> (res: Result<
    Vec<TaskKey>,
    TaskKeyParseError,
>)
    ensures
        match first_bad_target(texts(args@), 0) {
            Some(fault) => res is Err && res->Err_0@ == fault,
            None => res is Ok && key_views(res->Ok_0@) == target_keys(texts(args@), cwd@),
        },
{
    let mut keys: Vec<TaskKey> = Vec::new();
    let mut i: usize = 0;
    while i < args.len()
        invariant
            i <= args@.len(),
            keys@.len() == i,
            first_bad_target(texts(args@), 0) == first_bad_target(texts(args@), i as int),
            forall|j: int|
                0 <= j < i ==> (#[trigger] keys@[j])@ == resolve_key(
                    parse_key(args@[j]@)->Ok_0,
                    cwd@,
                ),
        decreases args@.len() - i,
    {
        assert(texts(args@)[i as int] == args@[i as int]@);
        match TaskKeyRelative::try_from(args[i].clone()) {
            Ok(key) => {
                keys.push(key.into_task_key(cwd));
            },
            Err(e) => {
                return Err(e);
            },
        }
        i += 1;
    }
    assert(key_views(keys@) =~= target_keys(texts(args@), cwd@));
    Ok(keys)
}

/// Rusk configuration
pub struct Rusk {
    /// Tasks to be executed
    tasks: TaskMap<Task>,
}

impl Rusk {
    /// The tasks.
    pub closed spec fn tasks(&self) -> TaskMap<Task> {
        self.tasks
    }

    /// A configuration with the given tasks.
    pub fn new(tasks: TaskMap<Task>) -> (rusk: Rusk)
        ensures
            rusk.tasks() == tasks,
    {
        Rusk { tasks }
    }

    /// Merges the configuration files into a configuration.
    pub fn try_from(value: RuskfileComposer) -> (res: Result<Rusk, RuskfileDeserializeError>)
        requires
            value.wf(),
        ensures
            match absorb_files(no_members(), value.files(), 0) {
                Absorb::Fault(fault) => res is Err && res->Err_0@ == fault,
                Absorb::Seen(seen) => {
                    &&& res is Ok
                    &&& res->Ok_0.tasks().wf()
                    &&& forall|s: Seq<char>|
                        res->Ok_0.tasks().spec_contains(s) <==> seen.contains(s)
                    &&& holds_entries(
                        res->Ok_0.tasks(),
                        value.files(),
                        value.files().len() as int,
                        0,
                    )
                },
            },
    {
        match value.into_tasks() {
            Ok(tasks) => Ok(Rusk { tasks }),
            Err(e) => Err(e),
        }
    }

    /// The number of tasks.
    pub fn task_count(&self) -> (n: usize)
        requires
            self.tasks().wf(),
        ensures
            n == self.tasks().spec_len(),
    {
        self.tasks.len()
    }

    /// The key of the task at position `i`.
    pub fn task_key(&self, i: usize) -> (key: &TaskKey)
        requires
            self.tasks().wf(),
            i < self.tasks().spec_len(),
        ensures
            *key == self.tasks().keys()[i as int],
    {
        self.tasks.key_at(i)
    }

    /// The task at position `i`.
    pub fn task(&self, i: usize) -> (task: &Task)
        requires
            self.tasks().wf(),
            i < self.tasks().spec_len(),
        ensures
            *task == self.tasks().values()[i as int],
    {
        self.tasks.value_at(i)
    }

    /// Plans a run: makes every task executable, reads the arguments as
    /// targets relative to `cwd`, and expands the targets into a forest.
    ///
    /// `dir_exists` says for each task, by position, whether its working
    /// directory is there. Nothing runs here. An error of the tasks comes
    /// before an error of the arguments, and both before an error of the
    /// graph.
    pub fn plan(
        self,
        args: &Vec<String>,
        opts: ExecuteOpts,
        dir_exists: &Vec<bool>,
        cwd: &NormarizedPath,
    ) -> (res: Result<Vec<TreeNode<TaskExecutable>>, RuskError>)
        requires
            self.tasks().wf(),
            dir_exists@.len() == self.tasks().spec_len(),
        ensures
            match first_unusable(self.tasks().keys(), self.tasks().values(), dir_exists@, 0) {
                Some(fault) => res is Err && res->Err_0@ == RuskFault::TaskUnparsable(fault),
                None => match first_bad_target(texts(args@), 0) {
                    Some(fault) => res is Err && res->Err_0@ == RuskFault::InvalidArgument(fault),
                    None => exists|cells: TaskMap<TaskExecutable>|
                        {
                            &&& #[trigger] holds_executables(
                                cells,
                                self.tasks().keys(),
                                self.tasks().values(),
                                bindings_view(opts.envs@),
                                self.tasks().spec_len() as int,
                                0,
                            )
                            &&& match resolve(
                                cells.entries(),
                                cells.values(),
                                target_keys(texts(args@), cwd@),
                            ) {
                                Ok(roots) => res is Ok && are_expansions(
                                    res->Ok_0@,
                                    roots,
                                    cells.entries(),
                                    cells.values(),
                                ),
                                Err(fault) => res is Err && res->Err_0@
                                    == RuskFault::TreeNodeBroken(fault),
                            }
                        },
                },
            },
    {
        let Rusk { tasks } = self;
        let cells = match into_executable(tasks, opts, dir_exists) {
            Ok(cells) => cells,
            Err(e) => {
                return Err(RuskError::TaskUnparsable(e));
            },
        };
        let targets = match parse_targets(args, cwd) {
            Ok(targets) => targets,
            Err(e) => {
                return Err(RuskError::InvalidArgument(e));
            },
        };
        match TreeNode::new_vec(cells, targets) {
            Ok(graph) => Ok(graph),
            Err(e) => Err(RuskError::TreeNodeBroken(e)),
        }
    }
}

} // verus!
