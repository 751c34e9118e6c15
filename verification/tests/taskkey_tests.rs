use rusk::taskkey::{PathTaskString, PhonyTaskString, TaskKeyParseError, TaskKeyRelative};

#[test]
fn empty_string_is_refused() {
    assert!(matches!(
        TaskKeyRelative::try_from(String::new()),
        Err(TaskKeyParseError::Empty)
    ));
}

#[test]
fn phony_name_starting_with_digit_is_refused() {
    match TaskKeyRelative::try_from("1build".to_string()) {
        Err(TaskKeyParseError::Phony(e)) => {
            assert_eq!(e.0, "First character must be alphabetic")
        }
        other => panic!("unexpected: {:?}", other),
    }
}

#[test]
fn phony_name_with_bad_character_is_refused() {
    match PhonyTaskString::try_from("bu ild".to_string()) {
        Err(e) => assert_eq!(e.0, "Only /^[a-zA-Z][a-zA-Z0-9_-]*$/ is allowed"),
        Ok(_) => panic!("accepted"),
    }
    match PhonyTaskString::try_from(String::new()) {
        Err(e) => assert_eq!(e.0, "Empty string is not allowed"),
        Ok(_) => panic!("accepted"),
    }
}

#[test]
fn phony_name_round_trip() {
    for s in ["build", "a", "Test_1-x", "z9"] {
        let key = TaskKeyRelative::try_from(s.to_string()).unwrap();
        assert!(matches!(key, TaskKeyRelative::Phony(_)));
        assert_eq!(key.as_str(), s);
    }
}

#[test]
fn path_round_trip() {
    for s in ["./a", "a/b", "out.o", "..", "/", "dir/", "a b.c"] {
        let key = TaskKeyRelative::try_from(s.to_string()).unwrap();
        assert!(matches!(key, TaskKeyRelative::File(_)));
        assert_eq!(key.as_str(), s);
    }
}

#[test]
fn path_string_needs_slash_or_dot() {
    match PathTaskString::try_from("plain".to_string()) {
        Err(e) => assert_eq!(e.0, "Path must contain '/' or '.'"),
        Ok(_) => panic!("accepted"),
    }
    match PathTaskString::try_from(String::new()) {
        Err(e) => assert_eq!(e.0, "Empty string is not allowed"),
        Ok(_) => panic!("accepted"),
    }
    assert_eq!(PathTaskString::try_from("a.b".to_string()).unwrap().as_str(), "a.b");
}
