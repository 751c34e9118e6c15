use rusk::digraph::TreeNodeCreationError;
use rusk::keymap::{copy_keys, reversed, KeyPath, TaskMap};
use rusk::path::NormarizedPath;
use rusk::taskkey::{
    check_path_like, has_char, TaskKey, TaskKeyParseError, TaskKeyRelative,
};

fn base() -> NormarizedPath {
    NormarizedPath::current_dir("/w".to_string())
}

fn key(s: &str) -> TaskKey {
    TaskKeyRelative::try_from(s.to_string())
        .unwrap()
        .into_task_key(&base())
}

#[test]
fn new_map_is_empty() {
    let map: TaskMap<u32> = TaskMap::new();
    assert_eq!(map.len(), 0);
    assert!(map.get(&key("a")).is_none());
    assert!(!map.contains_key(&key("a")));
    assert!(map.position(&key("a")).is_none());
}

#[test]
fn map_keeps_the_order_of_insertion() {
    let mut map = TaskMap::new();
    assert!(map.insert(key("c"), 3).is_none());
    assert!(map.insert(key("a"), 1).is_none());
    assert!(map.insert(key("b.x"), 2).is_none());
    assert_eq!(map.len(), 3);
    assert_eq!(map.key_at(0).as_str(), "c");
    assert_eq!(map.key_at(1).as_str(), "a");
    assert_eq!(map.key_at(2).as_str(), "/w/b.x");
    assert_eq!(*map.value_at(0), 3);
    assert_eq!(map.position(&key("a")), Some(1));
    assert_eq!(map.get(&key("./b.x")), Some(&2));
    assert!(map.contains_key(&key("c")));
    assert!(!map.contains_key(&key("d")));
}

#[test]
fn inserting_a_key_again_replaces_its_value_in_place() {
    let mut map = TaskMap::new();
    map.insert(key("a"), "first");
    map.insert(key("b"), "other");
    assert_eq!(map.insert(key("a"), "second"), Some("first"));
    assert_eq!(map.len(), 2);
    assert_eq!(map.position(&key("a")), Some(0));
    assert_eq!(map.get(&key("a")), Some(&"second"));
    assert_eq!(map.get(&key("b")), Some(&"other"));
}

#[test]
fn keys_with_the_same_canonical_string_are_one_entry() {
    let mut map = TaskMap::new();
    map.insert(key("x/../out.o"), 1);
    assert_eq!(map.insert(key("./out.o"), 2), Some(1));
    assert_eq!(map.len(), 1);
}

#[test]
fn map_holds_many_keys() {
    let mut map = TaskMap::new();
    for i in 0..500u32 {
        assert!(map.insert(key(&format!("k{}", i)), i).is_none());
    }
    for i in 0..500u32 {
        assert_eq!(map.get(&key(&format!("k{}", i))), Some(&i));
        assert_eq!(map.position(&key(&format!("k{}", i))), Some(i as usize));
    }
    assert!(map.get(&key("k500")).is_none());
}

#[test]
fn path_of_keys_is_entered_and_left() {
    let mut path = KeyPath::new();
    assert!(!path.contains(&key("a")));
    path.enter(&key("a"));
    path.enter(&key("b.c"));
    assert!(path.contains(&key("a")));
    assert!(path.contains(&key("./b.c")));
    assert!(!path.contains(&key("b")));
    path.leave(&key("a"));
    assert!(!path.contains(&key("a")));
    assert!(path.contains(&key("b.c")));
    path.leave(&key("missing"));
    path.enter(&key("b.c"));
    path.leave(&key("b.c"));
    assert!(!path.contains(&key("b.c")));
}

#[test]
fn reversed_turns_the_order_round() {
    assert_eq!(reversed(vec![1, 2, 3]), vec![3, 2, 1]);
    assert_eq!(reversed(Vec::<u8>::new()), Vec::<u8>::new());
    assert_eq!(reversed(vec!["x"]), vec!["x"]);
}

#[test]
fn copied_keys_are_the_same_keys() {
    let keys = vec![key("a"), key("b/c.d")];
    let copy = copy_keys(&keys);
    assert_eq!(copy.len(), 2);
    assert!(copy[0].same_as(&keys[0]));
    assert!(copy[1].same_as(&keys[1]));
    assert!(copy[1].is_file());
    assert!(copy_keys(&Vec::new()).is_empty());
}

#[test]
fn characters_are_found() {
    assert!(has_char("a/b", '/'));
    assert!(!has_char("ab", '/'));
    assert!(!has_char("", '/'));
    assert!(has_char("日本/語", '/'));
    assert!(has_char("日本語", '語'));
    assert!(check_path_like("a.b"));
    assert!(check_path_like("/"));
    assert!(!check_path_like("ab"));
    assert!(!check_path_like(""));
}

#[test]
fn errors_carry_their_key_and_message() {
    let e = TreeNodeCreationError::ItemNotFound(key("a"));
    assert_eq!(e.key().as_str(), "a");
    let e = TreeNodeCreationError::CircularDependency(key("b.c"));
    assert_eq!(e.key().as_str(), "/w/b.c");
    assert_eq!(TaskKeyParseError::Empty.message(), "empty string is not allowed");
    match TaskKeyRelative::try_from("a b".to_string()) {
        Err(e) => assert_eq!(e.message(), "Only /^[a-zA-Z][a-zA-Z0-9_-]*$/ is allowed"),
        Ok(_) => panic!("accepted"),
    }
}

#[test]
fn references_to_the_same_relative_key_are_the_same() {
    let (a, b, c) = (
        TaskKeyRelative::try_from("x.y".to_string()).unwrap(),
        TaskKeyRelative::try_from("x.y".to_string()).unwrap(),
        TaskKeyRelative::try_from("xy".to_string()).unwrap(),
    );
    let (d1, d2) = (base(), NormarizedPath::current_dir("/other".to_string()));
    assert!(a.as_task_key(&d1).same_as(&b.as_task_key(&d2)));
    assert!(!a.as_task_key(&d1).same_as(&c.as_task_key(&d1)));
    assert!(a.duplicate().as_task_key(&d1).into_task_key().same_as(&a.into_task_key(&d1)));
}
