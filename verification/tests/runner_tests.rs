use go_again::runner::{
    build_test_command, go_test_args, output_preview, regex_escape, summarize_results,
    test_pattern, TestResult, TestRun, PREVIEW_LINES,
};
use go_again::FailedTest;

fn ft(package: &str, name: &str) -> FailedTest {
    FailedTest { package: package.to_string(), name: name.to_string() }
}

#[test]
fn test_regex_escape_simple() {
    assert_eq!(regex_escape("TestFoo"), "TestFoo");
}

#[test]
fn test_regex_escape_with_special_chars() {
    assert_eq!(regex_escape("TestFoo/case[1]"), "TestFoo/case\\[1\\]");
}

#[test]
fn test_build_command() {
    let test = FailedTest {
        package: "./pkg/foo".to_string(),
        name: "TestBar".to_string(),
    };
    let cmd = build_test_command(&test);
    assert_eq!(cmd, "go test ./pkg/foo -run '^TestBar$' -v -count=1");
}

#[test]
fn test_build_command_with_subtest() {
    let test = FailedTest {
        package: "./pkg".to_string(),
        name: "TestParent/subtest".to_string(),
    };
    let cmd = build_test_command(&test);
    assert_eq!(cmd, "go test ./pkg -run '^TestParent/subtest$' -v -count=1");
}

#[test]
fn regex_escape_every_special_char() {
    assert_eq!(regex_escape(".^$*+?()[]{}|\\"), "\\.\\^\\$\\*\\+\\?\\(\\)\\[\\]\\{\\}\\|\\\\");
    assert_eq!(regex_escape(""), "");
    assert_eq!(regex_escape("Ünïcode_ok"), "Ünïcode_ok");
}

#[test]
fn test_pattern_anchors_and_escapes() {
    assert_eq!(test_pattern("TestA.b"), "^TestA\\.b$");
}

#[test]
fn go_test_args_for_test() {
    let args = go_test_args(&ft("./p", "TestQ(x)"));
    assert_eq!(args, vec!["test", "./p", "-run", "^TestQ\\(x\\)$", "-v", "-count=1"]);
}

#[test]
fn test_result_keeps_stdout_then_stderr() {
    let r = TestResult::from_run(&ft("./p", "TestR"), false, "out\n", "err\n");
    assert_eq!(r.test, ft("./p", "TestR"));
    assert!(!r.passed);
    assert_eq!(r.output, "out\nerr\n");
}

#[test]
fn summarize_counts_and_keeps_failures_in_order() {
    let results = vec![
        TestRun::Finished(TestResult::from_run(&ft("./a", "T1"), true, "", "")),
        TestRun::Finished(TestResult::from_run(&ft("./a", "T2"), false, "", "")),
        TestRun::Finished(TestResult::from_run(&ft("./b", "T3"), false, "", "")),
    ];
    let s = summarize_results(&results);
    assert_eq!(s.passed, 1);
    assert_eq!(s.failed, 2);
    assert_eq!(s.not_started, 0);
    assert_eq!(s.still_failing, vec![ft("./a", "T2"), ft("./b", "T3")]);
    assert_eq!(s.passed + s.failed, results.len());
}

#[test]
fn summarize_keeps_tests_that_could_not_run() {
    let results = vec![
        TestRun::NotStarted(ft("./a", "T1")),
        TestRun::Finished(TestResult::from_run(&ft("./a", "T2"), true, "ok\n", "")),
        TestRun::Finished(TestResult::from_run(&ft("./b", "T3"), false, "", "boom\n")),
        TestRun::NotStarted(ft("./c", "T4")),
    ];
    let s = summarize_results(&results);
    assert_eq!((s.passed, s.failed, s.not_started), (1, 1, 2));
    assert_eq!(
        s.still_failing,
        vec![ft("./a", "T1"), ft("./b", "T3"), ft("./c", "T4")]
    );
}

#[test]
fn summarize_all_passing_keeps_nothing() {
    let results = vec![
        TestRun::Finished(TestResult::from_run(&ft("./a", "T1"), true, "", "")),
        TestRun::Finished(TestResult::from_run(&ft("./a", "T2"), true, "", "")),
    ];
    let s = summarize_results(&results);
    assert_eq!((s.passed, s.failed, s.not_started), (2, 0, 0));
    assert!(s.still_failing.is_empty());
}

#[test]
fn summarize_nothing() {
    let s = summarize_results(&Vec::new());
    assert_eq!((s.passed, s.failed, s.not_started), (0, 0, 0));
    assert!(s.still_failing.is_empty());
}

/// Dropping the backslash in front of each escaped character gives the name back.
fn unescape(p: &str) -> String {
    let mut out = String::new();
    let mut chars = p.chars();
    while let Some(c) = chars.next() {
        if c == '\\' {
            if let Some(d) = chars.next() {
                out.push(d);
            }
        } else {
            out.push(c);
        }
    }
    out
}

#[test]
fn escaping_can_be_undone() {
    for name in ["TestPlain", "TestA/case_(1)", "Test.*+?^$[]{}|\\x", "Test/αβ space"] {
        let escaped = regex_escape(name);
        assert_eq!(unescape(&escaped), name);
    }
    assert_eq!(test_pattern("T.x"), "^T\\.x$");
}

#[test]
fn preview_short_output_is_whole() {
    let p = output_preview("a\nb\r\nc");
    assert_eq!(p.shown, vec!["a", "b", "c"]);
    assert!(!p.truncated);
}

#[test]
fn preview_truncates_after_twenty_lines() {
    let exactly: String = (0..20).map(|i| format!("line{}\n", i)).collect();
    let p = output_preview(&exactly);
    assert_eq!(p.shown.len(), PREVIEW_LINES);
    assert!(!p.truncated);

    let more: String = (0..21).map(|i| format!("line{}\n", i)).collect();
    let p = output_preview(&more);
    assert_eq!(p.shown.len(), 20);
    assert_eq!(p.shown[19], "line19");
    assert!(p.truncated);
}
