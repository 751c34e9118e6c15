use rusk::path::NormarizedPath;
use rusk::taskkey::{TaskKey, TaskKeyRelative};

fn dir(s: &str) -> NormarizedPath {
    NormarizedPath::current_dir(s.to_string())
}

#[test]
fn join_resolves_dots_against_the_base() {
    let base = dir("/work/project");
    assert_eq!(base.join("./src/../out.o").as_abs_str(), "/work/project/out.o");
    assert_eq!(base.join("../lib/a.c").as_abs_str(), "/work/lib/a.c");
    assert_eq!(base.join("a/b").as_abs_str(), "/work/project/a/b");
    assert_eq!(base.join(".").as_abs_str(), "/work/project");
}

#[test]
fn join_with_an_absolute_path_replaces_the_base() {
    assert_eq!(dir("/work").join("/etc/../usr/x.y").as_abs_str(), "/usr/x.y");
}

#[test]
fn normalize_anchors_relative_paths_at_the_working_directory() {
    let cwd = dir("/home/u");
    assert_eq!(NormarizedPath::normalize("a/./b", &cwd).as_abs_str(), "/home/u/a/b");
    assert_eq!(NormarizedPath::normalize("./a", &cwd).as_abs_str(), "/home/u/a");
    assert_eq!(NormarizedPath::normalize("../a", &cwd).as_abs_str(), "/home/a");
    assert_eq!(NormarizedPath::normalize("/x/../y", &cwd).as_abs_str(), "/y");
}

#[test]
fn parent_of_a_file_is_its_directory() {
    let file = dir("/work").join("sub/rusk.toml");
    assert_eq!(file.into_parent().unwrap().as_abs_str(), "/work/sub");
    assert!(dir("/").into_parent().is_none());
}

#[test]
fn relative_spelling_is_taken_from_the_working_directory() {
    let cwd = dir("/work/project");
    assert_eq!(cwd.as_rel_str(&cwd).unwrap(), ".");
    assert_eq!(cwd.join("src/main.c").as_rel_str(&cwd).unwrap(), "src/main.c");
    assert_eq!(cwd.join("../other/x").as_rel_str(&cwd).unwrap(), "../other/x");
}

#[test]
fn difference_of_two_paths() {
    let a = dir("/foo/bar/baz");
    let b = dir("/foo/bar/quux");
    assert_eq!(a.sub(&b).unwrap(), "../baz");
    assert_eq!(a.sub(&dir("/foo/bar")).unwrap(), "baz");
    assert!(dir("foo").sub(&dir("/bar")).is_none());
}

#[test]
fn same_spelling_means_same_path() {
    let base = dir("/w");
    assert!(base.join("a/../b").same_as(&base.join("b")));
    assert!(!base.join("a").same_as(&base.join("b")));
    let copy = base.duplicate();
    assert!(copy.same_as(&base));
}

#[test]
fn resolved_phony_key_is_its_name() {
    let rel = TaskKeyRelative::try_from("build".to_string()).unwrap();
    let key = rel.into_task_key(&dir("/work"));
    assert!(matches!(key, TaskKey::Phony(_)));
    assert!(!key.is_file());
    assert_eq!(key.as_str(), "build");
}

#[test]
fn resolved_file_key_is_the_normalized_absolute_path() {
    let rel = TaskKeyRelative::try_from("./gen/../out.o".to_string()).unwrap();
    let base = dir("/work/sub");
    let by_ref = rel.as_task_key(&base).as_task_key();
    assert_eq!(by_ref.as_str(), "/work/sub/out.o");
    let key = rel.into_task_key(&base);
    assert!(key.is_file());
    assert_eq!(key.as_str(), "/work/sub/out.o");
    assert!(key.same_as(&by_ref));
}

#[test]
fn keys_are_the_same_when_their_canonical_strings_are() {
    let base = dir("/w");
    let a = TaskKeyRelative::try_from("a/b.c".to_string()).unwrap().into_task_key(&base);
    let b = TaskKeyRelative::try_from("./a/x/../b.c".to_string()).unwrap().into_task_key(&base);
    let c = TaskKeyRelative::try_from("abc".to_string()).unwrap().into_task_key(&base);
    assert!(a.same_as(&b));
    assert!(!a.same_as(&c));
    assert!(c.duplicate().same_as(&c));
}
