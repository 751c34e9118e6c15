//! Environment variables of a task.
//!
//! A set of variables is a list of bindings, name first. Where a name is
//! bound more than once, the last binding counts.

use vstd::prelude::*;

verus! {

/// A list of bindings as plain sequences.
pub open spec fn bindings_view(envs: Seq<(String, String)>) -> Seq<(Seq<char>, Seq<char>)> {
    Seq::new(envs.len(), |i: int| (envs[i].0@, envs[i].1@))
}

/// Whether `name` is bound in `envs`.
pub open spec fn is_bound(envs: Seq<(Seq<char>, Seq<char>)>, name: Seq<char>) -> bool {
    exists|i: int| 0 <= i < envs.len() && (#[trigger] envs[i]).0 == name
}

/// The value that `name` has in `envs`: that of its last binding.
pub open spec fn env_value(envs: Seq<(Seq<char>, Seq<char>)>, name: Seq<char>) -> Option<
    Seq<char>,
>
    decreases envs.len(),
{
    if envs.len() == 0 {
        None
    } else if envs.last().0 == name {
        Some(envs.last().1)
    } else {
        env_value(envs.drop_last(), name)
    }
}

/// A name has a value exactly when it is bound.
pub proof fn lemma_env_value_is_bound(envs: Seq<(Seq<char>, Seq<char>)>, name: Seq<char>)
    ensures
        env_value(envs, name) is Some <==> is_bound(envs, name),
    decreases envs.len(),
{
    if envs.len() > 0 {
        if envs.last().0 == name {
            assert(envs[envs.len() - 1].0 == name);
        } else {
            lemma_env_value_is_bound(envs.drop_last(), name);
            if is_bound(envs, name) {
                let i = choose|i: int| 0 <= i < envs.len() && (#[trigger] envs[i]).0 == name;
                assert(envs.drop_last()[i].0 == name);
            }
            if is_bound(envs.drop_last(), name) {
                let i = choose|i: int|
                    0 <= i < envs.drop_last().len() && (#[trigger] envs.drop_last()[i]).0 == name;
                assert(envs[i].0 == name);
            }
        }
    }
}

/// The variables that a script sees: the global ones, then those of the
/// task.
pub open spec fn merged(global: Seq<(Seq<char>, Seq<char>)>, task: Seq<(Seq<char>, Seq<char>)>) -> Seq<
    (Seq<char>, Seq<char>),
> {
    global + task
}

/// A name that the task binds has the value that the task gives it, whatever
/// the global variables say; any other name keeps its global value.
pub proof fn lemma_task_env_wins(
    global: Seq<(Seq<char>, Seq<char>)>,
    task: Seq<(Seq<char>, Seq<char>)>,
    name: Seq<char>,
)
    ensures
        is_bound(task, name) ==> env_value(merged(global, task), name) == env_value(task, name),
        !is_bound(task, name) ==> env_value(merged(global, task), name) == env_value(global, name),
    decreases task.len(),
{
    lemma_env_value_is_bound(task, name);
    if task.len() == 0 {
        assert(global + task =~= global);
    } else {
        assert((global + task).drop_last() =~= global + task.drop_last());
        assert((global + task).last() == task.last());
        if task.last().0 != name {
            lemma_env_value_is_bound(task.drop_last(), name);
            lemma_task_env_wins(global, task.drop_last(), name);
        }
    }
}

/// Copies a list of bindings.
pub fn copy_envs(envs: &Vec<(String, String)>) -> (copy: Vec<(String, String)>)
    ensures
        bindings_view(copy@) == bindings_view(envs@),
{
    let mut copy: Vec<(String, String)> = Vec::new();
    let mut i: usize = 0;
    while i < envs.len()
        invariant
            i <= envs@.len(),
            copy@.len() == i,
            forall|j: int|
                0 <= j < i ==> (#[trigger] copy@[j]).0@ == envs@[j].0@ && copy@[j].1@
                    == envs@[j].1@,
        decreases envs@.len() - i,
    {
        let name = envs[i].0.clone();
        let value = envs[i].1.clone();
        copy.push((name, value));
        i += 1;
    }
    assert(bindings_view(copy@) =~= bindings_view(envs@));
    copy
}

/// Puts the variables of a task on top of the global ones.
pub fn merge_envs(global: &Vec<(String, String)>, task: Vec<(String, String)>) -> (all: Vec<
    (String, String),
>)
    ensures
        bindings_view(all@) == merged(bindings_view(global@), bindings_view(task@)),
{
    let mut all = copy_envs(global);
    let mut task = task;
    let ghost copied = all@;
    let ghost added = task@;
    all.append(&mut task);
    assert(all@ == copied + added);
    assert(bindings_view(all@) =~= merged(bindings_view(global@), bindings_view(added)));
    all
}

/// Looks a name up in a list of bindings.
pub fn lookup_env<'a>(envs: &'a Vec<(String, String)>, name: &String) -> (value: Option<
    &'a String,
>)
    ensures
        value.is_some() == env_value(bindings_view(envs@), name@).is_some(),
        value.is_some() ==> value.unwrap()@ == env_value(bindings_view(envs@), name@).unwrap(),
{
    let mut i: usize = envs.len();
    assert(bindings_view(envs@).subrange(0, i as int) =~= bindings_view(envs@));
    while i > 0
        invariant
            i <= envs@.len(),
            env_value(bindings_view(envs@), name@) == env_value(
                bindings_view(envs@).subrange(0, i as int),
                name@,
            ),
        decreases i,
    {
        let ghost part = bindings_view(envs@).subrange(0, i as int);
        i -= 1;
        assert(part.last() == (envs@[i as int].0@, envs@[i as int].1@));
        assert(part.drop_last() =~= bindings_view(envs@).subrange(0, i as int));
        if envs[i].0 == *name {
            return Some(&envs[i].1);
        }
    }
    assert(bindings_view(envs@).subrange(0, 0).len() == 0);
    None
}

} // verus!
