use go_again::project::{branch_from_output, command_output_text, detached_branch_name, get_project_key};

#[test]
fn test_key_format() {
    let key = get_project_key("/home/user/repo", "main");
    assert!(key.contains(':'), "Key should contain colon separator");
    let parts: Vec<&str> = key.split(':').collect();
    assert_eq!(parts.len(), 2, "Key should have exactly two parts");
    assert!(!parts[0].is_empty(), "Root should not be empty");
    assert!(!parts[1].is_empty(), "Branch should not be empty");
}

#[test]
fn project_key_joins_root_and_branch() {
    assert_eq!(get_project_key("/srv/app", "feature/x"), "/srv/app:feature/x");
    assert_eq!(get_project_key("", ""), ":");
}

#[test]
fn command_output_is_trimmed() {
    assert_eq!(command_output_text("/home/user/repo\n"), "/home/user/repo");
    assert_eq!(command_output_text("  \n"), "");
}

#[test]
fn branch_from_output_cases() {
    assert_eq!(branch_from_output("main\n"), Some("main".to_string()));
    assert_eq!(branch_from_output("\n"), None);
    assert_eq!(branch_from_output(""), None);
}

#[test]
fn detached_branch_names() {
    assert_eq!(detached_branch_name(Some("abc1234\n")), "detached-abc1234");
    assert_eq!(detached_branch_name(None), "detached");
}

#[test]
fn branches_have_their_own_keys() {
    let main = get_project_key("/repo", "main");
    let feature = get_project_key("/repo", "feature");
    let other_repo = get_project_key("/other", "main");
    assert_ne!(main, feature);
    assert_ne!(main, other_repo);
}
