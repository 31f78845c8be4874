use go_again::interactive::{
    only_git_changes, parse_selected_item, pick_action, watch_action, PickAction, PickEvent,
    WatchAction, WatchEvent,
};
use go_again::text::{chars_of, trimmed};
use go_again::FailedTest;

#[test]
fn failed_test_line_round_trip() {
    let t = FailedTest { package: "./pkg/foo".to_string(), name: "TestBar/with space".to_string() };
    let line = t.to_string();
    assert_eq!(line, "./pkg/foo TestBar/with space");
    assert_eq!(parse_selected_item(&line), Some(t.clone()));
    assert_eq!(t.duplicate(), t);
}

#[test]
fn selected_item_without_space_is_none() {
    assert_eq!(parse_selected_item("./pkg"), None);
    assert_eq!(
        parse_selected_item(" TestX"),
        Some(FailedTest { package: String::new(), name: "TestX".to_string() })
    );
}

#[test]
fn watch_actions() {
    assert_eq!(watch_action(WatchEvent::FileChanged, 499), WatchAction::Ignore);
    assert_eq!(watch_action(WatchEvent::FileChanged, 500), WatchAction::RunTests);
    assert_eq!(watch_action(WatchEvent::SelectTests, 0), WatchAction::Reselect);
    assert_eq!(watch_action(WatchEvent::Closed, 10_000), WatchAction::Stop);
}

#[test]
fn git_only_changes() {
    let p = |cs: &[&str]| cs.iter().map(|c| c.to_string()).collect::<Vec<String>>();
    assert!(only_git_changes(&vec![p(&["repo", ".git", "index"])]));
    assert!(!only_git_changes(&vec![p(&["repo", ".git", "index"]), p(&["repo", "main.go"])]));
    assert!(!only_git_changes(&vec![p(&["repo", ".github", "ci.yml"])]));
    assert!(only_git_changes(&Vec::new()));
}

#[test]
fn text_helpers() {
    assert_eq!(chars_of("héllo"), vec!['h', 'é', 'l', 'l', 'o']);
    assert_eq!(trimmed("\t hi there \n"), "hi there");
}

#[test]
fn pick_actions() {
    assert_eq!(pick_action(PickEvent::Loaded { remembered: 0 }), PickAction::NothingRemembered);
    assert_eq!(pick_action(PickEvent::Loaded { remembered: 3 }), PickAction::ShowPicker);
    assert_eq!(pick_action(PickEvent::Cancelled), PickAction::Ended);
    assert_eq!(pick_action(PickEvent::Picked { count: 0 }), PickAction::PickAgain);
    assert_eq!(pick_action(PickEvent::Picked { count: 2 }), PickAction::StartWatching);
}
