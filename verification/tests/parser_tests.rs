use go_again::parser::{
    extract_failed_test_name, extract_package_from_fail_line, extract_package_from_run_line,
    parse_go_test_output,
};

#[test]
fn test_single_failure() {
    let input = r#"=== RUN   TestCalculateSum
--- FAIL: TestCalculateSum (0.00s)
    logic_test.go:15: expected 5, got 4
FAIL	./internal/logic	0.005s
"#;
    let result = parse_go_test_output(input);
    assert_eq!(result.len(), 1);
    assert_eq!(result[0].package, "./internal/logic");
    assert_eq!(result[0].name, "TestCalculateSum");
}

#[test]
fn test_multiple_failures_same_package() {
    let input = r#"=== RUN   TestAdd
--- FAIL: TestAdd (0.00s)
=== RUN   TestSubtract
--- FAIL: TestSubtract (0.00s)
FAIL	./math	0.003s
"#;
    let result = parse_go_test_output(input);
    assert_eq!(result.len(), 2);
    assert_eq!(result[0].package, "./math");
    assert_eq!(result[0].name, "TestAdd");
    assert_eq!(result[1].package, "./math");
    assert_eq!(result[1].name, "TestSubtract");
}

#[test]
fn test_failures_across_packages() {
    let input = r#"=== RUN   TestFoo
--- FAIL: TestFoo (0.00s)
FAIL	./pkg/foo	0.002s
=== RUN   TestBar
--- FAIL: TestBar (0.00s)
FAIL	./pkg/bar	0.003s
"#;
    let result = parse_go_test_output(input);
    assert_eq!(result.len(), 2);
    assert_eq!(result[0].package, "./pkg/foo");
    assert_eq!(result[0].name, "TestFoo");
    assert_eq!(result[1].package, "./pkg/bar");
    assert_eq!(result[1].name, "TestBar");
}

#[test]
fn test_build_failure_ignored() {
    let input = r#"# ./broken
./broken/main.go:5:1: syntax error
FAIL	./broken [build failed]
"#;
    let result = parse_go_test_output(input);
    assert!(result.is_empty());
}

#[test]
fn test_panic_captured() {
    let input = r#"=== RUN   TestPanic
--- FAIL: TestPanic (0.00s)
panic: runtime error: index out of range [recovered]
FAIL	./panicky	0.004s
"#;
    let result = parse_go_test_output(input);
    assert_eq!(result.len(), 1);
    assert_eq!(result[0].package, "./panicky");
    assert_eq!(result[0].name, "TestPanic");
}

#[test]
fn test_all_passing() {
    let input = r#"=== RUN   TestGood
--- PASS: TestGood (0.00s)
ok  	./good	0.002s
"#;
    let result = parse_go_test_output(input);
    assert!(result.is_empty());
}

#[test]
fn test_mixed_pass_fail() {
    let input = r#"=== RUN   TestPass
--- PASS: TestPass (0.00s)
=== RUN   TestFail
--- FAIL: TestFail (0.00s)
FAIL	./mixed	0.003s
"#;
    let result = parse_go_test_output(input);
    assert_eq!(result.len(), 1);
    assert_eq!(result[0].name, "TestFail");
}

#[test]
fn test_subtest_failure() {
    let input = r#"=== RUN   TestParent
=== RUN   TestParent/subtest1
--- FAIL: TestParent/subtest1 (0.00s)
--- FAIL: TestParent (0.00s)
FAIL	./subtests	0.002s
"#;
    let result = parse_go_test_output(input);
    // We capture both the subtest and parent
    assert!(result.iter().any(|t| t.name == "TestParent/subtest1"));
}

#[test]
fn test_full_package_path() {
    let input = r#"=== RUN   TestHandler
--- FAIL: TestHandler (0.00s)
FAIL	github.com/user/repo/api/handler	0.010s
"#;
    let result = parse_go_test_output(input);
    assert_eq!(result.len(), 1);
    assert_eq!(result[0].package, "github.com/user/repo/api/handler");
}

#[test]
fn parse_empty_input_reports_nothing() {
    assert!(parse_go_test_output("").is_empty());
}

#[test]
fn parse_crlf_lines() {
    let input = "--- FAIL: TestWin (0.00s)\r\nFAIL\t./win\t0.001s\r\n";
    let result = parse_go_test_output(input);
    assert_eq!(result.len(), 1);
    assert_eq!(result[0].package, "./win");
    assert_eq!(result[0].name, "TestWin");
}

#[test]
fn parse_pending_names_go_to_last_package_at_end() {
    // A failure after the last FAIL line is attributed to that package.
    let input = "--- FAIL: TestA (0.00s)\nFAIL\t./a\t0.1s\n--- FAIL: TestB (0.00s)\n";
    let result = parse_go_test_output(input);
    assert_eq!(result.len(), 2);
    assert_eq!(result[1].package, "./a");
    assert_eq!(result[1].name, "TestB");
}

#[test]
fn parse_pending_names_without_any_package_are_dropped() {
    let input = "--- FAIL: TestOrphan (0.00s)\n";
    assert!(parse_go_test_output(input).is_empty());
}

#[test]
fn parse_ok_line_forgets_pending_names() {
    let input = "--- FAIL: TestX (0.00s)\nok \t./x\t0.1s\nFAIL\t./y\t0.1s\n";
    assert!(parse_go_test_output(input).is_empty());
    let input = "--- FAIL: TestX (0.00s)\nok\t./x\t0.1s\nFAIL\t./y\t0.1s\n";
    assert!(parse_go_test_output(input).is_empty());
    // Only "ok \t" and "ok\t" reset; a wider gap does not.
    let input = "--- FAIL: TestX (0.00s)\nok  \t./x\t0.1s\nFAIL\t./y\t0.1s\n";
    let result = parse_go_test_output(input);
    assert_eq!(result.len(), 1);
    assert_eq!(result[0].package, "./y");
}

#[test]
fn parse_build_failure_forgets_package_and_names() {
    let input =
        "--- FAIL: TestA (0.00s)\nFAIL\t./a\t0.1s\n--- FAIL: TestB (0.00s)\nFAIL\t./b [build failed]\n--- FAIL: TestC (0.00s)\n";
    let result = parse_go_test_output(input);
    assert_eq!(result.len(), 1);
    assert_eq!(result[0].name, "TestA");
}

#[test]
fn parse_indented_fail_line_and_space_separator() {
    let input = "    --- FAIL: TestNested/inner (0.00s)\nFAIL ./spaced\n";
    let result = parse_go_test_output(input);
    assert_eq!(result.len(), 1);
    assert_eq!(result[0].package, "./spaced");
    assert_eq!(result[0].name, "TestNested/inner");
}

#[test]
fn extract_failed_test_name_cases() {
    assert_eq!(extract_failed_test_name("--- FAIL: TestX (0.01s)"), Some("TestX".to_string()));
    assert_eq!(extract_failed_test_name("  --- FAIL:\tTestY"), Some("TestY".to_string()));
    assert_eq!(extract_failed_test_name("--- FAIL:"), None);
    assert_eq!(extract_failed_test_name("--- FAIL:   "), None);
    assert_eq!(extract_failed_test_name("--- PASS: TestZ (0.00s)"), None);
    assert_eq!(extract_failed_test_name("FAIL\t./pkg\t0.1s"), None);
}

#[test]
fn extract_package_from_fail_line_cases() {
    assert_eq!(extract_package_from_fail_line("FAIL\t./pkg\t0.1s"), Some("./pkg".to_string()));
    assert_eq!(extract_package_from_fail_line("FAIL ./pkg"), Some("./pkg".to_string()));
    assert_eq!(extract_package_from_fail_line("  FAIL\t ./pkg \t0.1s  "), Some("./pkg".to_string()));
    assert_eq!(
        extract_package_from_fail_line("FAIL\t./broken [build failed]"),
        Some("./broken [build failed]".to_string())
    );
    assert_eq!(extract_package_from_fail_line("FAIL"), None);
    assert_eq!(extract_package_from_fail_line("FAIL\t\t0.1s"), Some("0.1s".to_string()));
    assert_eq!(extract_package_from_fail_line("FAILED\t./pkg"), None);
    assert_eq!(extract_package_from_fail_line("--- FAIL: TestX"), None);
}

#[test]
fn extract_package_from_run_line_is_none() {
    assert_eq!(extract_package_from_run_line("=== RUN   TestX"), None);
    assert_eq!(extract_package_from_run_line("?   \t./pkg\t[no test files]"), None);
}

#[test]
fn parse_unicode_whitespace_is_trimmed() {
    let input = "\u{3000}--- FAIL: TestWide\u{2003}(0.00s)\nFAIL\t./wide\u{00A0}\t0.1s\n";
    let result = parse_go_test_output(input);
    assert_eq!(result.len(), 1);
    assert_eq!(result[0].package, "./wide");
    assert_eq!(result[0].name, "TestWide");
}

fn one(package: &str, name: &str) -> (String, String) {
    (package.to_string(), name.to_string())
}

/// The lines, each ended by a newline.
fn joined(lines: &[&str]) -> String {
    lines.iter().map(|l| format!("{}\n", l)).collect()
}

fn pairs(input: &str) -> Vec<(String, String)> {
    parse_go_test_output(input)
        .into_iter()
        .map(|t| (t.package, t.name))
        .collect()
}

#[test]
fn parse_json_events_of_one_failing_test() {
    let input = joined(&[
        r#"{"Action":"output","Package":"./p","Test":"TestA","Output":"--- FAIL: TestA (0.00s)\n"}"#,
        r#"{"Action":"fail","Package":"./p","Test":"TestA"}"#,
        r#"{"Action":"fail","Package":"./p"}"#,
    ]);
    assert_eq!(pairs(&input), vec![one("./p", "TestA")]);
}

#[test]
fn parse_json_stream_as_go_writes_it() {
    let input = joined(&[
        r#"{"Time":"2024-05-01T10:00:00Z","Action":"start","Package":"example.com/m/calc"}"#,
        r#"{"Time":"2024-05-01T10:00:00Z","Action":"run","Package":"example.com/m/calc","Test":"TestAdd"}"#,
        r#"{"Time":"2024-05-01T10:00:00Z","Action":"output","Package":"example.com/m/calc","Test":"TestAdd","Output":"=== RUN   TestAdd\n"}"#,
        r#"{"Time":"2024-05-01T10:00:00Z","Action":"output","Package":"example.com/m/calc","Test":"TestAdd","Output":"    calc_test.go:9: want 3, got 4\n"}"#,
        r#"{"Time":"2024-05-01T10:00:00Z","Action":"output","Package":"example.com/m/calc","Test":"TestAdd","Output":"--- FAIL: TestAdd (0.00s)\n"}"#,
        r#"{"Time":"2024-05-01T10:00:00Z","Action":"fail","Package":"example.com/m/calc","Test":"TestAdd","Elapsed":0}"#,
        r#"{"Time":"2024-05-01T10:00:00Z","Action":"run","Package":"example.com/m/calc","Test":"TestSub"}"#,
        r#"{"Time":"2024-05-01T10:00:00Z","Action":"output","Package":"example.com/m/calc","Test":"TestSub","Output":"--- PASS: TestSub (0.00s)\n"}"#,
        r#"{"Time":"2024-05-01T10:00:00Z","Action":"pass","Package":"example.com/m/calc","Test":"TestSub","Elapsed":0}"#,
        r#"{"Time":"2024-05-01T10:00:00Z","Action":"output","Package":"example.com/m/calc","Output":"FAIL\n"}"#,
        r#"{"Time":"2024-05-01T10:00:00Z","Action":"output","Package":"example.com/m/calc","Output":"FAIL\texample.com/m/calc\t0.004s\n"}"#,
        r#"{"Time":"2024-05-01T10:00:00Z","Action":"fail","Package":"example.com/m/calc","Elapsed":0.004}"#,
    ]);
    assert_eq!(pairs(&input), vec![one("example.com/m/calc", "TestAdd")]);
}

#[test]
fn parse_json_two_packages() {
    let input = joined(&[
        r#"{"Action":"output","Package":"./a","Test":"TestX","Output":"--- FAIL: TestX (0.01s)\n"}"#,
        r#"{"Action":"fail","Package":"./a"}"#,
        r#"{"Action":"output","Package":"./b","Test":"TestY","Output":"    --- FAIL: TestY/sub (0.00s)\n"}"#,
        r#"{"Action":"output","Package":"./b","Test":"TestY","Output":"--- FAIL: TestY (0.00s)\n"}"#,
        r#"{"Action":"fail","Package":"./b"}"#,
    ]);
    assert_eq!(
        pairs(&input),
        vec![one("./a", "TestX"), one("./b", "TestY/sub"), one("./b", "TestY")]
    );
}

#[test]
fn parse_json_failed_build_forgets_names() {
    let input = joined(&[
        r#"{"Action":"output","Package":"./a","Test":"TestX","Output":"--- FAIL: TestX (0.01s)\n"}"#,
        r#"{"Action":"fail","Package":"./a","FailedBuild":"./a [./a.test]"}"#,
    ]);
    assert!(pairs(&input).is_empty());
}

#[test]
fn parse_json_passing_package_forgets_names() {
    let input = joined(&[
        r#"{"Action":"output","Package":"./a","Test":"TestX","Output":"--- FAIL: TestX (0.01s)\n"}"#,
        r#"{"Action":"pass","Package":"./a"}"#,
        r#"{"Action":"fail","Package":"./b"}"#,
    ]);
    assert!(pairs(&input).is_empty());
}

#[test]
fn parse_json_escapes_in_strings() {
    let input = joined(&[
        r#"{ "Action" : "output", "Package":"./p\u002fq", "Output":"--- FAIL:\tTest\u00e9\ud83d\ude00 (0.00s)\r\n", "B": true, "Z": null, "N": -1.5e3 }"#,
        r#"{"Action":"fail","Package":"./p/q"}"#,
    ]);
    assert_eq!(pairs(&input), vec![one("./p/q", "Testé😀")]);
}

#[test]
fn parse_malformed_json_is_plain_text() {
    // Not an object: read as a plain line, which names nothing.
    let input = joined(&[
        r#"{"Action":"output","Output":"--- FAIL: TestA (0.00s)\n""#,
        "--- FAIL: TestB (0.00s)",
        "FAIL\t./p\t0.1s",
    ]);
    assert_eq!(pairs(&input), vec![one("./p", "TestB")]);
}

#[test]
fn parse_json_mixed_with_plain_lines() {
    let input = joined(&[
        "--- FAIL: TestPlain (0.00s)",
        r#"{"Action":"output","Package":"./p","Test":"TestJson","Output":"--- FAIL: TestJson (0.00s)\n"}"#,
        r#"{"Action":"fail","Package":"./p"}"#,
    ]);
    assert_eq!(pairs(&input), vec![one("./p", "TestPlain"), one("./p", "TestJson")]);
}

#[test]
fn parse_json_printed_by_a_test_changes_nothing() {
    let input = joined(&[
        "=== RUN   TestLog",
        r#"{"level":"info","msg":"--- FAIL: TestNot (0.00s)"}"#,
        r#"{"Action":"fail","Package":"./x","Test":"TestLog"}"#,
        "--- FAIL: TestLog (0.00s)",
        "FAIL\t./p\t0.01s",
    ]);
    assert_eq!(pairs(&input), vec![one("./p", "TestLog")]);
}
