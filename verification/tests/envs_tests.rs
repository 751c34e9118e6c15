use rusk::envs::{copy_envs, lookup_env, merge_envs};

fn list(pairs: &[(&str, &str)]) -> Vec<(String, String)> {
    pairs
        .iter()
        .map(|(k, v)| (k.to_string(), v.to_string()))
        .collect()
}

fn get(envs: &Vec<(String, String)>, name: &str) -> Option<String> {
    lookup_env(envs, &name.to_string()).cloned()
}

#[test]
fn task_value_wins_over_global_value() {
    let global = list(&[("PATH", "/bin"), ("MODE", "global")]);
    let all = merge_envs(&global, list(&[("MODE", "task")]));
    assert_eq!(get(&all, "MODE").unwrap(), "task");
    assert_eq!(get(&all, "PATH").unwrap(), "/bin");
    assert_eq!(get(&all, "OTHER"), None);
}

#[test]
fn merge_puts_the_task_bindings_last() {
    let global = list(&[("A", "1"), ("B", "2")]);
    let all = merge_envs(&global, list(&[("C", "3"), ("A", "4")]));
    assert_eq!(all, list(&[("A", "1"), ("B", "2"), ("C", "3"), ("A", "4")]));
}

#[test]
fn merge_with_nothing_keeps_the_other_side() {
    let some = list(&[("A", "1")]);
    assert_eq!(merge_envs(&some, Vec::new()), some);
    assert_eq!(merge_envs(&Vec::new(), list(&[("A", "1")])), some);
    assert!(merge_envs(&Vec::new(), Vec::new()).is_empty());
}

#[test]
fn last_binding_counts() {
    let envs = list(&[("A", "1"), ("A", "2"), ("B", "x"), ("A", "3")]);
    assert_eq!(get(&envs, "A").unwrap(), "3");
    assert_eq!(get(&envs, "B").unwrap(), "x");
    assert_eq!(get(&Vec::new(), "A"), None);
}

#[test]
fn names_are_compared_exactly() {
    let envs = list(&[("Path", "a"), ("", "empty")]);
    assert_eq!(get(&envs, "PATH"), None);
    assert_eq!(get(&envs, "").unwrap(), "empty");
}

#[test]
fn copy_is_equal() {
    let envs = list(&[("A", "1"), ("B", "")]);
    assert_eq!(copy_envs(&envs), envs);
}
