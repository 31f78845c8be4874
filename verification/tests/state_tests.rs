use go_again::storage::{
    clear_for_project, get_for_project, set_for_project, state_text_is_blank, StateMap,
};
use go_again::FailedTest;

fn ft(package: &str, name: &str) -> FailedTest {
    FailedTest { package: package.to_string(), name: name.to_string() }
}

#[test]
fn new_state_is_empty() {
    let state = StateMap::new();
    assert!(state.is_empty());
    assert_eq!(state.len(), 0);
    assert!(get_for_project(&state, "/project:main").is_empty());
}

#[test]
fn set_then_get_reads_back() {
    let mut state = StateMap::new();
    set_for_project(&mut state, "/project:main", vec![ft("./pkg", "TestFoo")]);
    assert_eq!(state.len(), 1);
    assert!(state.contains_key("/project:main"));
    assert_eq!(get_for_project(&state, "/project:main"), vec![ft("./pkg", "TestFoo")]);
}

#[test]
fn keys_are_independent() {
    let mut state = StateMap::new();
    set_for_project(&mut state, "/project:main", vec![ft("./pkg", "TestFoo")]);
    set_for_project(&mut state, "/project:feature", vec![ft("./other", "TestBar")]);
    assert_eq!(state.len(), 2);
    assert!(state.contains_key("/project:main"));
    assert!(state.contains_key("/project:feature"));
    assert_eq!(get_for_project(&state, "/project:main"), vec![ft("./pkg", "TestFoo")]);
    clear_for_project(&mut state, "/project:feature");
    assert_eq!(get_for_project(&state, "/project:main"), vec![ft("./pkg", "TestFoo")]);
    assert!(get_for_project(&state, "/project:feature").is_empty());
}

#[test]
fn empty_list_removes_key() {
    let mut state = StateMap::new();
    set_for_project(&mut state, "/project:main", vec![ft("./pkg", "TestFoo")]);
    set_for_project(&mut state, "/project:main", Vec::new());
    assert!(state.is_empty());
    assert!(!state.contains_key("/project:main"));
}

#[test]
fn last_write_wins() {
    let mut state = StateMap::new();
    set_for_project(&mut state, "k", vec![ft("./a", "T1")]);
    set_for_project(&mut state, "k", vec![ft("./b", "T2"), ft("./b", "T3")]);
    assert_eq!(state.len(), 1);
    assert_eq!(get_for_project(&state, "k"), vec![ft("./b", "T2"), ft("./b", "T3")]);
    assert_eq!(state.get("k").map(|v| v.len()), Some(2));
}

#[test]
fn clearing_absent_key_changes_nothing() {
    let mut state = StateMap::new();
    set_for_project(&mut state, "a", vec![ft("./a", "T")]);
    clear_for_project(&mut state, "b");
    assert_eq!(state.len(), 1);
    state.remove("a");
    assert!(state.get("a").is_none());
}

#[test]
fn entries_hold_each_key_once() {
    let mut state = StateMap::new();
    state.insert("x".to_string(), vec![ft("./x", "T")]);
    state.insert("y".to_string(), vec![ft("./y", "T")]);
    state.insert("x".to_string(), vec![ft("./x", "U")]);
    let mut keys: Vec<String> = state.entries().iter().map(|e| e.key.clone()).collect();
    keys.sort();
    assert_eq!(keys, vec!["x", "y"]);
}

#[test]
fn blank_state_text() {
    assert!(state_text_is_blank(""));
    assert!(state_text_is_blank(" \n\t"));
    assert!(!state_text_is_blank(" {} "));
}
