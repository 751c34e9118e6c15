//! Configuration files, and the registry of tasks that they add up to.
//!
//! A [`RuskfileComposer`] collects what was read from each configuration
//! file. [`RuskfileComposer::into_tasks`] merges the files into one map from
//! task keys to tasks, and refuses a key that is defined twice.

use crate::envs::bindings_view;
use crate::keymap::{key_views, no_members, reversed, TaskMap};
use crate::path::{joined_path, normalized, NormarizedPath};
use crate::rusk::Task;
use crate::taskkey::{resolve_key, KeyView, TaskKey, TaskKeyRelative};
use vstd::prelude::*;
use vstd::string::StrSliceExecFns;

verus! {

/// Whether `text` ends with `suffix`.
pub open spec fn has_suffix(text: Seq<char>, suffix: Seq<char>) -> bool {
    text.len() >= suffix.len() && text.subrange(text.len() - suffix.len(), text.len() as int)
        == suffix
}

/// Whether `text` ends with `suffix`.
pub fn ends_with(text: &str, suffix: &str) -> (ok: bool)
    ensures
        ok == has_suffix(text@, suffix@),
{
    let n = text.unicode_len();
    let m = suffix.unicode_len();
    if n < m {
        return false;
    }
    let start = n - m;
    let ghost tail = text@.subrange(start as int, n as int);
    let mut i: usize = 0;
    while i < m
        invariant
            n == text@.len(),
            m == suffix@.len(),
            start == n - m,
            i <= m,
            tail == text@.subrange(start as int, n as int),
            forall|j: int| 0 <= j < i ==> tail[j] == suffix@[j],
        decreases m - i,
    {
        if text.get_char(start + i) != suffix.get_char(i) {
            assert(tail[i as int] != suffix@[i as int]);
            return false;
        }
        i += 1;
    }
    assert(tail =~= suffix@);
    true
}

/// Whether two texts are the same.
pub fn same_text(a: &str, b: &str) -> (same: bool)
    ensures
        same == (a@ == b@),
{
    let same = a.unicode_len() == b.unicode_len() && ends_with(a, b);
    proof {
        if a@.len() == b@.len() {
            assert(a@.subrange(0, a@.len() as int) =~= a@);
        }
    }
    same
}

/// The file names that are read as configuration files: `rusk.toml`, and
/// every name that ends with `.rusk.toml`.
pub open spec fn is_ruskfile_name(name: Seq<char>) -> bool {
    name == "rusk.toml"@ || has_suffix(name, ".rusk.toml"@)
}

/// Check if the filename is ruskfile
pub fn is_ruskfile(name: &str) -> (ok: bool)
    ensures
        ok == is_ruskfile_name(name@),
{
    same_text(name, "rusk.toml") || ends_with(name, ".rusk.toml")
}

/// The body of a task as a configuration file gives it.
pub struct TaskDeserializerInner {
    /// Environment variables of the task alone
    pub envs: Vec<(String, String)>,
    /// Script to be executed
    pub script: Option<String>,
    /// Dependencies
    pub depends: Vec<TaskKeyRelative>,
    /// Working directory
    pub cwd: String,
}

impl Default for TaskDeserializerInner {
    /// The body of a task that says nothing: no variables, no script, no
    /// dependencies, and the directory of the configuration file to work in.
    fn default() -> (body: Self)
        ensures
            body.envs@.len() == 0,
            body.script is None,
            body.depends@.len() == 0,
            body.cwd@ == "."@,
    {
        TaskDeserializerInner {
            envs: Vec::new(),
            script: None,
            depends: Vec::new(),
            cwd: ".".to_string(),
        }
    }
}

/// Each task of a configuration file.
pub struct TaskDeserializer {
    /// The body of the task, or why it could not be decoded.
    pub inner: Result<TaskDeserializerInner, String>,
    /// Description for help
    pub description: Option<String>,
}

/// The content of a configuration file: its tasks, in the order in which
/// they were read.
pub struct RuskfileDeserializer {
    pub tasks: Vec<(TaskKeyRelative, TaskDeserializer)>,
}

/// A configuration file: where it is, the directory that holds it, and its
/// content or why it could not be read.
pub struct Ruskfile {
    pub path: NormarizedPath,
    pub dir: NormarizedPath,
    pub content: Result<RuskfileDeserializer, String>,
}

/// Configuration files
pub struct RuskfileComposer {
    /// Map of rusk.toml files
    map: TaskMap<Ruskfile>,
}

/// Why the files do not add up to a registry.
#[derive(Debug)]
pub enum RuskfileDeserializeError {
    DuplicatedTaskName(TaskKey),
    DeserializeError(String),
}

/// Why the files do not add up to a registry, apart from how it is stored.
pub enum RegistryFault {
    DuplicatedTaskName(KeyView),
    DeserializeError(Seq<char>),
}

impl View for RuskfileDeserializeError {
    type V = RegistryFault;

    open spec fn view(&self) -> RegistryFault {
        match self {
            RuskfileDeserializeError::DuplicatedTaskName(key) => RegistryFault::DuplicatedTaskName(
                key@,
            ),
            RuskfileDeserializeError::DeserializeError(msg) => RegistryFault::DeserializeError(
                msg@,
            ),
        }
    }
}

/// How far the merge has come.
pub enum Absorb {
    /// It stopped at a fault.
    Fault(RegistryFault),
    /// It went through; these are the canonical strings of the keys so far.
    Seen(Set<Seq<char>>),
}

/// The views of a sequence of relative keys, resolved against `dir`.
pub open spec fn resolved_views(keys: Seq<TaskKeyRelative>, dir: Seq<char>) -> Seq<KeyView> {
    Seq::new(keys.len(), |i: int| resolve_key(keys[i]@, dir))
}

/// The key that the `t`-th task of a file in directory `dir` is stored
/// under.
pub open spec fn entry_key(tasks: Seq<(TaskKeyRelative, TaskDeserializer)>, dir: Seq<char>, t: int)
    -> KeyView {
    resolve_key(tasks[t].0@, dir)
}

/// Merges the tasks of one file from the `from`-th on into the keys seen so
/// far. A body that could not be decoded stops the merge, and so does a key
/// that was seen before.
pub open spec fn absorb_tasks(
    seen: Set<Seq<char>>,
    dir: Seq<char>,
    tasks: Seq<(TaskKeyRelative, TaskDeserializer)>,
    from: int,
) -> Absorb
    decreases tasks.len() - from,
{
    if from < 0 || from >= tasks.len() {
        Absorb::Seen(seen)
    } else {
        let key = entry_key(tasks, dir, from);
        match tasks[from].1.inner {
            Err(msg) => Absorb::Fault(RegistryFault::DeserializeError(msg@)),
            Ok(_) => if seen.contains(key.text()) {
                Absorb::Fault(RegistryFault::DuplicatedTaskName(key))
            } else {
                absorb_tasks(seen.insert(key.text()), dir, tasks, from + 1)
            },
        }
    }
}

/// Merges the files from the `from`-th on into the keys seen so far. A file
/// that could not be read is passed over.
pub open spec fn absorb_files(seen: Set<Seq<char>>, files: Seq<Ruskfile>, from: int) -> Absorb
    decreases files.len() - from,
{
    if from < 0 || from >= files.len() {
        Absorb::Seen(seen)
    } else {
        match files[from].content {
            Err(_) => absorb_files(seen, files, from + 1),
            Ok(config) => match absorb_tasks(seen, files[from].dir@, config.tasks@, 0) {
                Absorb::Fault(fault) => Absorb::Fault(fault),
                Absorb::Seen(more) => absorb_files(more, files, from + 1),
            },
        }
    }
}

/// `task` is what the body `body` says in a file of directory `dir`: the
/// same variables and script, the working directory and the dependencies
/// resolved against `dir`.
pub open spec fn is_task_of(task: Task, dir: Seq<char>, body: TaskDeserializerInner) -> bool {
    &&& bindings_view(task.envs@) == bindings_view(body.envs@)
    &&& task.script is Some == body.script is Some
    &&& task.script is Some ==> task.script->Some_0@ == body.script->Some_0@
    &&& task.cwd@ == normalized(joined_path(dir, body.cwd@), dir)
    &&& key_views(task.depends@) == resolved_views(body.depends@, dir)
}

/// The `t`-th task of the `f`-th file is there and was decoded.
pub open spec fn is_entry(files: Seq<Ruskfile>, f: int, t: int) -> bool {
    &&& 0 <= f < files.len()
    &&& files[f].content is Ok
    &&& 0 <= t < files[f].content->Ok_0.tasks@.len()
    &&& files[f].content->Ok_0.tasks@[t].1.inner is Ok
}

/// The canonical string of the key of the `t`-th task of the `f`-th file.
pub open spec fn entry_text(files: Seq<Ruskfile>, f: int, t: int) -> Seq<char> {
    entry_key(files[f].content->Ok_0.tasks@, files[f].dir@, t).text()
}

/// `map` holds the tasks of the first `upto` files and the first `tasks`
/// tasks of the file `upto`, each under its key.
pub open spec fn holds_entries(map: TaskMap<Task>, files: Seq<Ruskfile>, upto: int, tasks: int)
    -> bool {
    forall|f: int, t: int| #[trigger]
        is_entry(files, f, t) && (f < upto || (f == upto && t < tasks)) ==> map.spec_contains(
            entry_text(files, f, t),
        ) && is_task_of(
            map.spec_get(entry_text(files, f, t)),
            files[f].dir@,
            files[f].content->Ok_0.tasks@[t].1.inner->Ok_0,
        )
}

/// Every body of every file that could be read was decoded.
pub open spec fn all_decoded(files: Seq<Ruskfile>) -> bool {
    forall|f: int, t: int|
        0 <= f < files.len() && files[f].content is Ok && 0 <= t
            < files[f].content->Ok_0.tasks@.len() ==> #[trigger] is_entry(files, f, t)
}

proof fn lemma_absorb_tasks(
    seen: Set<Seq<char>>,
    dir: Seq<char>,
    tasks: Seq<(TaskKeyRelative, TaskDeserializer)>,
    from: int,
)
    requires
        0 <= from,
        forall|t: int| 0 <= t < tasks.len() ==> (#[trigger] tasks[t]).1.inner is Ok,
    ensures
        match absorb_tasks(seen, dir, tasks, from) {
            Absorb::Seen(more) => {
                &&& seen.subset_of(more)
                &&& forall|t: int|
                    from <= t < tasks.len() ==> more.contains(
                        #[trigger] entry_key(tasks, dir, t).text(),
                    ) && !seen.contains(entry_key(tasks, dir, t).text())
                &&& forall|t1: int, t2: int|
                    from <= t1 < t2 < tasks.len() ==> #[trigger] entry_key(tasks, dir, t1).text()
                        != #[trigger] entry_key(tasks, dir, t2).text()
            },
            Absorb::Fault(fault) => fault is DuplicatedTaskName,
        },
    decreases tasks.len() - from,
{
    if from < tasks.len() {
        let key = entry_key(tasks, dir, from);
        assert(tasks[from].1.inner is Ok);
        if !seen.contains(key.text()) {
            lemma_absorb_tasks(seen.insert(key.text()), dir, tasks, from + 1);
        }
    }
}

proof fn lemma_absorb_files(seen: Set<Seq<char>>, files: Seq<Ruskfile>, from: int)
    requires
        0 <= from,
        all_decoded(files),
    ensures
        match absorb_files(seen, files, from) {
            Absorb::Seen(more) => {
                &&& seen.subset_of(more)
                &&& forall|f: int, t: int|
                    #![trigger is_entry(files, f, t)]
                    is_entry(files, f, t) && from <= f ==> more.contains(entry_text(files, f, t))
                        && !seen.contains(entry_text(files, f, t))
                &&& forall|f1: int, t1: int, f2: int, t2: int|
                    #![trigger is_entry(files, f1, t1), is_entry(files, f2, t2)]
                    is_entry(files, f1, t1) && is_entry(files, f2, t2) && from <= f1 && from <= f2
                        && (f1 != f2 || t1 != t2) ==> entry_text(files, f1, t1) != entry_text(
                        files,
                        f2,
                        t2,
                    )
            },
            Absorb::Fault(fault) => fault is DuplicatedTaskName,
        },
    decreases files.len() - from,
{
    if from < files.len() {
        match files[from].content {
            Err(_) => {
                lemma_absorb_files(seen, files, from + 1);
            },
            Ok(config) => {
                let dir = files[from].dir@;
                let tasks = config.tasks@;
                assert forall|t: int| 0 <= t < tasks.len() implies (#[trigger] tasks[t]).1.inner is Ok by {
                    assert(is_entry(files, from, t));
                }
                lemma_absorb_tasks(seen, dir, tasks, 0);
                if let Absorb::Seen(mid) = absorb_tasks(seen, dir, tasks, 0) {
                    lemma_absorb_files(mid, files, from + 1);
                    if let Absorb::Seen(more) = absorb_files(mid, files, from + 1) {
                        assert forall|f: int, t: int|
                            #![trigger is_entry(files, f, t)]
                            is_entry(files, f, t) && from <= f implies more.contains(
                            entry_text(files, f, t),
                        ) && !seen.contains(entry_text(files, f, t)) by {
                            if f == from {
                                assert(mid.contains(entry_key(tasks, dir, t).text()));
                            }
                        }
                        assert forall|f1: int, t1: int, f2: int, t2: int|
                            #![trigger is_entry(files, f1, t1), is_entry(files, f2, t2)]
                            is_entry(files, f1, t1) && is_entry(files, f2, t2) && from <= f1 && from
                                <= f2 && (f1 != f2 || t1 != t2) implies entry_text(files, f1, t1)
                            != entry_text(files, f2, t2) by {
                            if f1 == from {
                                assert(mid.contains(entry_key(tasks, dir, t1).text()));
                            }
                            if f2 == from {
                                assert(mid.contains(entry_key(tasks, dir, t2).text()));
                            }
                            if f1 == from && f2 == from {
                                if t1 < t2 {
                                    assert(entry_key(tasks, dir, t1).text() != entry_key(
                                        tasks,
                                        dir,
                                        t2,
                                    ).text());
                                } else {
                                    assert(entry_key(tasks, dir, t2).text() != entry_key(
                                        tasks,
                                        dir,
                                        t1,
                                    ).text());
                                }
                            }
                        }
                    }
                }
            },
        }
    }
}

/// Where two tasks, in one file or in two, have the same key, and every
/// body was decoded, the files do not add up to a registry: the merge ends
/// with the error for a duplicated name.
pub proof fn lemma_duplicate_key_is_refused(files: Seq<Ruskfile>, f1: int, t1: int, f2: int, t2: int)
    requires
        all_decoded(files),
        is_entry(files, f1, t1),
        is_entry(files, f2, t2),
        f1 != f2 || t1 != t2,
        entry_text(files, f1, t1) == entry_text(files, f2, t2),
    ensures
        absorb_files(no_members(), files, 0) is Fault,
        absorb_files(no_members(), files, 0)->Fault_0 is DuplicatedTaskName,
{
    lemma_absorb_files(no_members(), files, 0);
}

/// `file` is the file at `path` in directory `dir`, with the content
/// `content`.
pub open spec fn is_file_of(
    file: Ruskfile,
    path: Seq<char>,
    dir: Seq<char>,
    content: Result<RuskfileDeserializer, String>,
) -> bool {
    file.path@ == path && file.dir@ == dir && file.content == content
}

/// `after` is what `before` becomes when the file at `path` is added. Where
/// `before` holds a file at `path`, it is the only one, and the new file
/// takes its place; else the new file follows on the others.
pub open spec fn files_after_adding(
    before: Seq<Ruskfile>,
    after: Seq<Ruskfile>,
    path: Seq<char>,
    dir: Seq<char>,
    content: Result<RuskfileDeserializer, String>,
) -> bool {
    if exists|i: int| 0 <= i < before.len() && (#[trigger] before[i]).path@ == path {
        &&& after.len() == before.len()
        &&& forall|i: int|
            0 <= i < before.len() ==> if (#[trigger] before[i]).path@ == path {
                is_file_of(after[i], path, dir, content)
            } else {
                after[i] == before[i]
            }
    } else {
        &&& after.len() == before.len() + 1
        &&& after.drop_last() == before
        &&& is_file_of(after.last(), path, dir, content)
    }
}

fn resolve_all(keys: Vec<TaskKeyRelative>, dir: &NormarizedPath) -> (resolved: Vec<TaskKey>)
    ensures
        key_views(resolved@) == resolved_views(keys@, dir@),
{
    let mut resolved: Vec<TaskKey> = Vec::new();
    let mut i: usize = 0;
    while i < keys.len()
        invariant
            i <= keys@.len(),
            resolved@.len() == i,
            forall|j: int| 0 <= j < i ==> (#[trigger] resolved@[j])@ == resolve_key(keys@[j]@, dir@),
        decreases keys@.len() - i,
    {
        resolved.push(keys[i].as_task_key(dir).into_task_key());
        i += 1;
    }
    assert(key_views(resolved@) =~= resolved_views(keys@, dir@));
    resolved
}

impl RuskfileComposer {
    /// The files, in the order in which they were added.
    pub closed spec fn files(&self) -> Seq<Ruskfile> {
        self.map.values()
    }

    /// The invariant of the composer: every file is stored under its own
    /// path.
    pub closed spec fn wf(&self) -> bool {
        &&& self.map.wf()
        &&& forall|i: int|
            0 <= i < self.map.keys().len() ==> (#[trigger] self.map.keys()[i]).ident()
                == self.map.values()[i].path@
    }

    /// Create a new Ruskfiles
    pub fn new() -> (composer: RuskfileComposer)
        ensures
            composer.wf(),
            composer.files().len() == 0,
    {
        RuskfileComposer { map: TaskMap::new() }
    }

    /// The number of files.
    pub fn len(&self) -> (n: usize)
        requires
            self.wf(),
        ensures
            n == self.files().len(),
    {
        self.map.len()
    }

    /// The file at position `i`.
    pub fn file(&self, i: usize) -> (file: &Ruskfile)
        requires
            self.wf(),
            i < self.files().len(),
        ensures
            *file == self.files()[i as int],
    {
        self.map.value_at(i)
    }

    /// Adds what was read from the file at `path`. A path without a parent
    /// directory holds no configuration file: nothing is added, and the
    /// answer is `false`. A path that was added before keeps its place and
    /// gets the new content; a new path goes to the end.
    pub fn add_file(&mut self, path: NormarizedPath, content: Result<RuskfileDeserializer, String>)
        -> (added: bool)
        requires
            old(self).wf(),
        ensures
            final(self).wf(),
            added == crate::path::parent_path(path@).is_some(),
            !added ==> final(self).files() == old(self).files(),
            added ==> files_after_adding(
                old(self).files(),
                final(self).files(),
                path@,
                crate::path::parent_path(path@).unwrap(),
                content,
            ),
    {
        match path.duplicate().into_parent() {
            None => false,
            Some(dir) => {
                let key = TaskKey::File(path.duplicate());
                let file = Ruskfile { path, dir, content };
                let ghost id = key.ident();
                let ghost before = self.map;
                let prev = self.map.insert(key, file);
                proof {
                    let at = self.map.entries()[id] as int;
                    assert(self.map.spec_contains(id));
                    assert(self.map.values()[at] == file);
                    if prev is Some {
                        assert(before.spec_contains(id));
                        assert(before.keys()[at].ident() == id);
                        assert forall|j: int| 0 <= j < before.values().len() && j
                            != at implies #[trigger] before.values()[j].path@ != id by {
                            if before.values()[j].path@ == id {
                                assert(before.keys()[j].ident() == id);
                                crate::keymap::lemma_well_indexed_distinct(
                                    before.entries(),
                                    before.keys(),
                                    j,
                                    at,
                                );
                            }
                        }
                    } else {
                        assert(self.map.values().drop_last() =~= before.values());
                        assert forall|j: int|
                            0 <= j < before.values().len() implies #[trigger] before.values()[j].path@
                            != id by {
                            if before.values()[j].path@ == id {
                                assert(before.keys()[j].ident() == id);
                                assert(before.entries().contains_key(before.keys()[j].ident()));
                            }
                        }
                    }
                }
                true
            },
        }
    }

    /// Merges the files into one registry.
    ///
    /// The files are taken in order, and so are the tasks of each file; a
    /// file that could not be read is passed over. Each task is stored under
    /// its key, resolved against the directory of its file. The first body
    /// that could not be decoded, or the first key that is already taken,
    /// ends the work with its error.
    pub fn into_tasks(self) -> (res: Result<TaskMap<Task>, RuskfileDeserializeError>)
        requires
            self.wf(),
        ensures
            match absorb_files(no_members(), self.files(), 0) {
                Absorb::Fault(fault) => res is Err && res->Err_0@ == fault,
                Absorb::Seen(seen) => {
                    &&& res is Ok
                    &&& res->Ok_0.wf()
                    &&& forall|s: Seq<char>| res->Ok_0.spec_contains(s) <==> seen.contains(s)
                    &&& holds_entries(res->Ok_0, self.files(), self.files().len() as int, 0)
                },
            },
    {
        let ghost files = self.files();
        let (_, _, values) = self.map.into_parts();
        let file_count = values.len();
        let mut rest = reversed(values);
        let mut tasks: TaskMap<Task> = TaskMap::new();
        let ghost seen = no_members();
        let mut i: usize = 0;
        while rest.len() > 0
            invariant
                files == self.files(),
                files.len() == file_count,
                rest@.len() + i == files.len(),
                forall|r: int| 0 <= r < rest@.len() ==> #[trigger] rest@[r] == files[files.len() - 1 - r],
                tasks.wf(),
                forall|s: Seq<char>| tasks.spec_contains(s) <==> seen.contains(s),
                absorb_files(no_members(), files, 0) == absorb_files(seen, files, i as int),
                holds_entries(tasks, files, i as int, 0),
            decreases rest@.len(),
        {
            let file = rest.pop().unwrap();
            assert(file == files[i as int]);
            let Ruskfile { dir, content, .. } = file;
            let configfile_dir = dir;
            if let Ok(config) = content {
                let ghost listed = config.tasks@;
                let task_count = config.tasks.len();
                let mut bodies = reversed(config.tasks);
                let mut j: usize = 0;
                while bodies.len() > 0
                    invariant
                        files == self.files(),
                        i < files.len(),
                        files[i as int].content == Ok::<RuskfileDeserializer, String>(config),
                        configfile_dir == files[i as int].dir,
                        listed == files[i as int].content->Ok_0.tasks@,
                        listed.len() == task_count,
                        files.len() == file_count,
                        bodies@.len() + j == listed.len(),
                        forall|r: int|
                            0 <= r < bodies@.len() ==> #[trigger] bodies@[r] == listed[listed.len()
                                - 1 - r],
                        tasks.wf(),
                        forall|s: Seq<char>| tasks.spec_contains(s) <==> seen.contains(s),
                        absorb_files(no_members(), files, 0) == match absorb_tasks(
                            seen,
                            configfile_dir@,
                            listed,
                            j as int,
                        ) {
                            Absorb::Fault(fault) => Absorb::Fault(fault),
                            Absorb::Seen(more) => absorb_files(more, files, i + 1),
                        },
                        holds_entries(tasks, files, i as int, j as int),
                    decreases bodies@.len(),
                {
                    let (rel, body) = bodies.pop().unwrap();
                    assert((rel, body) == listed[j as int]);
                    let key = rel.into_task_key(&configfile_dir);
                    assert(key@ == entry_key(listed, configfile_dir@, j as int));
                    let TaskDeserializer { inner, .. } = body;
                    let TaskDeserializerInner { envs, script, depends, cwd } = match inner {
                        Ok(inner) => inner,
                        Err(msg) => {
                            return Err(RuskfileDeserializeError::DeserializeError(msg));
                        },
                    };
                    if tasks.contains_key(&key) {
                        return Err(RuskfileDeserializeError::DuplicatedTaskName(key));
                    }
                    let ghost before = tasks;
                    let ghost id = key.ident();
                    let task = Task {
                        envs,
                        script,
                        cwd: configfile_dir.join(cwd.as_str()),
                        depends: resolve_all(depends, &configfile_dir),
                    };
                    let _ = tasks.insert(key, task);
                    proof {
                        seen = seen.insert(id);
                        assert forall|f: int, t: int| #[trigger]
                            is_entry(files, f, t) && (f < i || (f == i && t < j + 1))
                            implies tasks.spec_contains(entry_text(files, f, t)) && is_task_of(
                            tasks.spec_get(entry_text(files, f, t)),
                            files[f].dir@,
                            files[f].content->Ok_0.tasks@[t].1.inner->Ok_0,
                        ) by {
                            if f == i && t == j {
                            } else {
                                assert(is_entry(files, f, t) && (f < i || (f == i && t < j)));
                                assert(before.spec_contains(entry_text(files, f, t)));
                            }
                        }
                    }
                    j += 1;
                }
            }
            i += 1;
        }
        Ok(tasks)
    }
}

} // verus!
