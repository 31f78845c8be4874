//! Re-running remembered tests: the `go test` invocation for one test, the
//! result of a run, and what is shown and kept afterwards.
use vstd::prelude::*;
use crate::text::{chars_of, line_windows, lines, push_char, string_of, window};
use crate::{FailedTest, FailedTestView, strings_view, tests_view};

verus! {

/// The characters that have a meaning in a Go regular expression.
pub open spec fn is_regex_special(c: char) -> bool {
    c == '.' || c == '^' || c == '$' || c == '*' || c == '+' || c == '?' || c == '(' || c == ')'
        || c == '[' || c == ']' || c == '{' || c == '}' || c == '|' || c == '\\'
}

/// One character as it stands in a pattern that matches it literally.
pub open spec fn escape_char(c: char) -> Seq<char> {
    if is_regex_special(c) {
        seq!['\\', c]
    } else {
        seq![c]
    }
}

/// `s` with a backslash before each special character.
pub open spec fn escape_regex(s: Seq<char>) -> Seq<char>
    decreases s.len(),
{
    if s.len() == 0 {
        seq![]
    } else {
        escape_regex(s.drop_last()) + escape_char(s.last())
    }
}

/// A name without special characters is its own pattern.
pub proof fn law_escape_plain_name(s: Seq<char>)
    requires
        forall|i: int| 0 <= i < s.len() ==> !is_regex_special(#[trigger] s[i]),
    ensures
        escape_regex(s) == s,
    decreases s.len(),
{
    if s.len() > 0 {
        let t = s.drop_last();
        assert forall|i: int| 0 <= i < t.len() implies !is_regex_special(#[trigger] t[i]) by {
            assert(t[i] == s[i]);
        }
        law_escape_plain_name(t);
        assert(!is_regex_special(s[s.len() - 1]));
        assert(t + seq![s.last()] =~= s);
    }
}

/// The text that a pattern made of plain characters and backslash escapes
/// matches literally, or `None` when it holds an unescaped special
/// character or ends in a lone backslash.
pub open spec fn pattern_literal(p: Seq<char>) -> Option<Seq<char>>
    decreases p.len(),
{
    if p.len() == 0 {
        Some(seq![])
    } else if p[0] == '\\' {
        if p.len() >= 2 {
            match pattern_literal(p.skip(2)) {
                Some(t) => Some(seq![p[1]] + t),
                None => None,
            }
        } else {
            None
        }
    } else if is_regex_special(p[0]) {
        None
    } else {
        match pattern_literal(p.drop_first()) {
            Some(t) => Some(seq![p[0]] + t),
            None => None,
        }
    }
}

/// Escaping a text is escaping its first character and then the rest.
pub proof fn lemma_escape_front(c: char, t: Seq<char>)
    ensures
        escape_regex(seq![c] + t) == escape_char(c) + escape_regex(t),
    decreases t.len(),
{
    if t.len() == 0 {
        assert(seq![c] + t =~= seq![c]);
        let e = Seq::<char>::empty();
        assert(seq![c].drop_last() =~= e);
        assert(escape_regex(e) =~= e);
        assert(seq![c].last() == c);
        assert(e + escape_char(c) =~= escape_char(c));
        assert(escape_regex(seq![c]) =~= escape_regex(seq![c].drop_last()) + escape_char(c));
        assert(escape_regex(seq![c]) =~= escape_char(c));
        assert(escape_char(c) + escape_regex(t) =~= escape_char(c));
    } else {
        lemma_escape_front(c, t.drop_last());
        assert((seq![c] + t).drop_last() =~= seq![c] + t.drop_last());
        assert((seq![c] + t).last() == t.last());
        assert(escape_char(c) + escape_regex(t.drop_last()) + escape_char(t.last()) =~= escape_char(c)
            + escape_regex(t));
    }
}

/// The escaping can be undone: the escaped name is a pattern with every
/// special character escaped, and the text it matches literally is the name.
pub proof fn law_escape_is_literal(s: Seq<char>)
    ensures
        pattern_literal(escape_regex(s)) == Some(s),
    decreases s.len(),
{
    if s.len() > 0 {
        let c = s[0];
        let t = s.drop_first();
        assert(seq![c] + t =~= s);
        lemma_escape_front(c, t);
        law_escape_is_literal(t);
        let p = escape_regex(s);
        if is_regex_special(c) {
            assert(p =~= seq!['\\', c] + escape_regex(t));
            assert(p.skip(2) =~= escape_regex(t));
        } else {
            assert(p =~= seq![c] + escape_regex(t));
            assert(p.drop_first() =~= escape_regex(t));
        }
    }
}

/// The `-run` pattern that selects exactly the test named `name`.
pub open spec fn run_pattern(name: Seq<char>) -> Seq<char> {
    "^"@ + escape_regex(name) + "$"@
}

/// The `-run` pattern of a name is anchored at both ends, and what stands
/// between the anchors is a pattern that matches exactly the name literally.
pub proof fn law_run_pattern_is_anchored_name(s: Seq<char>)
    ensures
        run_pattern(s).len() >= 2,
        run_pattern(s)[0] == '^',
        run_pattern(s).last() == '$',
        pattern_literal(run_pattern(s).subrange(1, run_pattern(s).len() - 1)) == Some(s),
{
    reveal_strlit("^");
    reveal_strlit("$");
    law_escape_is_literal(s);
    let p = run_pattern(s);
    assert(p.subrange(1, p.len() - 1) =~= escape_regex(s));
}

/// Escaping puts a backslash before exactly Go regexp's metacharacters
/// `. ^ $ * + ? ( ) [ ] { } | \` and copies every other character unchanged.
pub proof fn law_escape_only_metacharacters(c: char)
    ensures
        (c == '.' || c == '^' || c == '$' || c == '*' || c == '+' || c == '?' || c == '('
            || c == ')' || c == '[' || c == ']' || c == '{' || c == '}' || c == '|' || c == '\\')
            ==> escape_regex(seq![c]) == seq!['\\', c],
        !(c == '.' || c == '^' || c == '$' || c == '*' || c == '+' || c == '?' || c == '('
            || c == ')' || c == '[' || c == ']' || c == '{' || c == '}' || c == '|' || c == '\\')
            ==> escape_regex(seq![c]) == seq![c],
{
    lemma_escape_front(c, Seq::<char>::empty());
    assert(seq![c] + Seq::<char>::empty() =~= seq![c]);
    let e = Seq::<char>::empty();
    assert(escape_regex(e) =~= e);
    assert(escape_char(c) + e =~= escape_char(c));
}

/// A name made of ASCII letters, digits, `_` and `/` (as Go test and
/// subtest names usually are) is its own pattern, and its `-run` pattern is
/// the name between `^` and `$`.
pub proof fn law_word_name_is_its_own_pattern(s: Seq<char>)
    requires
        forall|i: int|
            0 <= i < s.len() ==> {
                let u = (#[trigger] s[i]) as u32;
                (48 <= u && u <= 57) || (65 <= u && u <= 90) || (97 <= u && u <= 122) || s[i] == '_'
                    || s[i] == '/'
            },
    ensures
        escape_regex(s) == s,
        run_pattern(s) == "^"@ + s + "$"@,
{
    assert forall|i: int| 0 <= i < s.len() implies !is_regex_special(#[trigger] s[i]) by {
        let u = s[i] as u32;
        assert((48 <= u && u <= 57) || (65 <= u && u <= 90) || (97 <= u && u <= 122) || s[i] == '_'
            || s[i] == '/');
    }
    law_escape_plain_name(s);
}

/// The shell command that re-runs test `t`.
pub open spec fn test_command(t: FailedTestView) -> Seq<char> {
    "go test "@ + t.package + " -run '"@ + run_pattern(t.name) + "' -v -count=1"@
}

/// The arguments given to `go` to re-run test `t`.
pub open spec fn test_args(t: FailedTestView) -> Seq<Seq<char>> {
    seq!["test"@, t.package, "-run"@, run_pattern(t.name), "-v"@, "-count=1"@]
}

/// Whether `c` has a meaning in a Go regular expression.
pub fn is_regex_special_char(c: char) -> (b: bool)
    ensures
        b == is_regex_special(c),
{
    c == '.' || c == '^' || c == '$' || c == '*' || c == '+' || c == '?' || c == '(' || c == ')'
        || c == '[' || c == ']' || c == '{' || c == '}' || c == '|' || c == '\\'
}

/// `s` with a backslash before each character that is special in a regular expression.
pub fn regex_escape(s: &str) -> (r: String)
    ensures
        r@ == escape_regex(s@),
{
    let v = chars_of(s);
    let mut r = String::new();
    let mut i: usize = 0;
    while i < v.len()
        invariant
            i <= v@.len(),
            r@ == escape_regex(v@.take(i as int)),
        decreases v@.len() - i,
    {
        let c = v[i];
        let ghost before = r@;
        if is_regex_special_char(c) {
            push_char(&mut r, '\\');
        }
        push_char(&mut r, c);
        assert(v@.take(i + 1).drop_last() =~= v@.take(i as int));
        assert(r@ =~= before + escape_char(c));
        i = i + 1;
    }
    assert(v@.take(i as int) =~= v@);
    r
}

/// The `-run` pattern `^name$` with the name escaped, which matches that test only.
pub fn test_pattern(name: &str) -> (r: String)
    ensures
        r@ == run_pattern(name@),
{
    let escaped = regex_escape(name);
    let mut r = String::from_str("^");
    r.append(escaped.as_str());
    r.append("$");
    r
}

/// The shell command that re-runs `test`, for display.
pub fn build_test_command(test: &FailedTest) -> (r: String)
    ensures
        r@ == test_command(test@),
{
    let pattern = test_pattern(test.name.as_str());
    let mut r = String::from_str("go test ");
    r.append(test.package.as_str());
    r.append(" -run '");
    r.append(pattern.as_str());
    r.append("' -v -count=1");
    r
}

/// The arguments of the `go` invocation that re-runs `test`.
pub fn go_test_args(test: &FailedTest) -> (r: Vec<String>)
    ensures
        strings_view(r@) == test_args(test@),
{
    let mut r: Vec<String> = Vec::new();
    r.push(String::from_str("test"));
    r.push(test.package.clone());
    r.push(String::from_str("-run"));
    r.push(test_pattern(test.name.as_str()));
    r.push(String::from_str("-v"));
    r.push(String::from_str("-count=1"));
    assert(strings_view(r@) =~= test_args(test@));
    r
}

/// The `go` invocation for a test names the remembered package character
/// for character, and selects the test by its anchored, escaped name.
pub proof fn law_go_args_name_the_package(t: FailedTestView)
    ensures
        test_args(t).len() == 6,
        test_args(t)[0] == "test"@,
        test_args(t)[1] == t.package,
        test_args(t)[2] == "-run"@,
        test_args(t)[3] == "^"@ + escape_regex(t.name) + "$"@,
        test_args(t)[4] == "-v"@,
        test_args(t)[5] == "-count=1"@,
{
}

/// The outcome of re-running one test.
#[derive(Debug)]
pub struct TestResult {
    pub test: FailedTest,
    pub passed: bool,
    pub output: String,
}

impl TestResult {
    /// The result of a run of `test` that printed `stdout` and `stderr` and
    /// exited successfully or not; the output keeps both, stdout first.
    pub fn from_run(test: &FailedTest, passed: bool, stdout: &str, stderr: &str) -> (r: TestResult)
        ensures
            r.test@ == test@,
            r.passed == passed,
            r.output@ == stdout@ + stderr@,
    {
        let mut output = String::from_str(stdout);
        output.append(stderr);
        TestResult { test: test.duplicate(), passed, output }
    }
}

/// How re-running one test went.
pub enum TestRun {
    /// `go` ran, and the test passed or failed.
    Finished(TestResult),
    /// `go` could not be started for this test.
    NotStarted(FailedTest),
}

/// The test that a run was for.
pub open spec fn run_test(r: TestRun) -> FailedTestView {
    match r {
        TestRun::Finished(res) => res.test@,
        TestRun::NotStarted(t) => t@,
    }
}

/// Whether a run finished and the test passed.
pub open spec fn run_passed(r: TestRun) -> bool {
    r matches TestRun::Finished(res) && res.passed
}

/// Whether a run finished and the test failed.
pub open spec fn run_failed(r: TestRun) -> bool {
    r matches TestRun::Finished(res) && !res.passed
}

/// A finished run counts as passed exactly when `go` exited successfully,
/// whatever it printed, and as failed exactly when it did not; a run that
/// could not start counts as neither. A run that did not pass is kept.
pub proof fn law_run_passes_iff_go_succeeded(res: TestResult, t: FailedTest)
    ensures
        run_passed(TestRun::Finished(res)) == res.passed,
        run_failed(TestRun::Finished(res)) == !res.passed,
        !run_passed(TestRun::NotStarted(t)),
        !run_failed(TestRun::NotStarted(t)),
        failing_tests(seq![TestRun::Finished(res)]) == (if res.passed {
            Seq::<FailedTestView>::empty()
        } else {
            seq![res.test@]
        }),
        failing_tests(seq![TestRun::NotStarted(t)]) == seq![t@],
{
    let a = seq![TestRun::Finished(res)];
    let b = seq![TestRun::NotStarted(t)];
    assert(a.drop_last() =~= Seq::<TestRun>::empty());
    assert(b.drop_last() =~= Seq::<TestRun>::empty());
    assert(failing_tests(Seq::<TestRun>::empty()) =~= Seq::<FailedTestView>::empty());
    assert(Seq::<FailedTestView>::empty().push(res.test@) =~= seq![res.test@]);
    assert(Seq::<FailedTestView>::empty().push(t@) =~= seq![t@]);
}

/// The tests whose run did not pass (they failed or could not be run), in order.
pub open spec fn failing_tests(runs: Seq<TestRun>) -> Seq<FailedTestView>
    decreases runs.len(),
{
    if runs.len() == 0 {
        seq![]
    } else if run_passed(runs.last()) {
        failing_tests(runs.drop_last())
    } else {
        failing_tests(runs.drop_last()).push(run_test(runs.last()))
    }
}

/// How many runs satisfy `pred`.
pub open spec fn count_runs(runs: Seq<TestRun>, pred: spec_fn(TestRun) -> bool) -> nat
    decreases runs.len(),
{
    if runs.len() == 0 {
        0
    } else if pred(runs.last()) {
        count_runs(runs.drop_last(), pred) + 1
    } else {
        count_runs(runs.drop_last(), pred)
    }
}

/// Some run of `runs` for test `t` did not pass.
pub open spec fn did_not_pass_in(runs: Seq<TestRun>, t: FailedTestView) -> bool {
    exists|j: int| 0 <= j < runs.len() && !run_passed(runs[j]) && run_test(#[trigger] runs[j]) == t
}

/// The tests kept after a run are exactly those whose run did not pass: each
/// kept test failed or could not be run, and each such test is kept; a test
/// that could not be run is never dropped.
pub proof fn law_still_failing_are_the_failures(runs: Seq<TestRun>)
    ensures
        forall|i: int|
            0 <= i < failing_tests(runs).len() ==> did_not_pass_in(runs, #[trigger] failing_tests(runs)[i]),
        forall|j: int|
            0 <= j < runs.len() && !run_passed(#[trigger] runs[j]) ==> failing_tests(runs).contains(
                run_test(runs[j]),
            ),
    decreases runs.len(),
{
    if runs.len() > 0 {
        let rest = runs.drop_last();
        law_still_failing_are_the_failures(rest);
        let last = runs.len() - 1;
        assert forall|i: int|
            0 <= i < failing_tests(runs).len() implies did_not_pass_in(runs, #[trigger] failing_tests(runs)[i]) by {
            if i < failing_tests(rest).len() {
                assert(failing_tests(runs)[i] == failing_tests(rest)[i]);
                let j = choose|j: int| 0 <= j < rest.len() && !run_passed(rest[j]) && run_test(#[trigger] rest[j]) == failing_tests(rest)[i];
                assert(runs[j] == rest[j]);
            } else {
                assert(runs[last] == runs.last());
            }
        }
        assert forall|j: int|
            0 <= j < runs.len() && !run_passed(#[trigger] runs[j]) implies failing_tests(runs).contains(
                run_test(runs[j]),
            ) by {
            if j < last {
                assert(runs[j] == rest[j]);
                let i = choose|i: int| 0 <= i < failing_tests(rest).len() && failing_tests(rest)[i] == run_test(rest[j]);
                if !run_passed(runs.last()) {
                    assert(failing_tests(runs)[i] == failing_tests(rest)[i]);
                }
            } else {
                assert(failing_tests(runs)[failing_tests(rest).len() as int] == run_test(runs[j]));
            }
        }
    }
}

/// The tally of a run of remembered tests.
pub struct RunSummary {
    /// How many tests ran and passed.
    pub passed: usize,
    /// How many tests ran and failed.
    pub failed: usize,
    /// How many tests could not be run.
    pub not_started: usize,
    /// The tests that did not pass (failed or could not be run), in order.
    pub still_failing: Vec<FailedTest>,
}

/// Counts the runs that passed, failed and could not start, and collects the
/// tests that did not pass.
pub fn summarize_results(runs: &Vec<TestRun>) -> (s: RunSummary)
    ensures
        s.passed == count_runs(runs@, |r: TestRun| run_passed(r)),
        s.failed == count_runs(runs@, |r: TestRun| run_failed(r)),
        s.not_started == count_runs(runs@, |r: TestRun| r is NotStarted),
        tests_view(s.still_failing@) == failing_tests(runs@),
        s.still_failing@.len() == s.failed + s.not_started,
        s.passed + s.failed + s.not_started == runs@.len(),
{
    let mut passed: usize = 0;
    let mut failed: usize = 0;
    let mut not_started: usize = 0;
    let mut still_failing: Vec<FailedTest> = Vec::new();
    let mut i: usize = 0;
    while i < runs.len()
        invariant
            i <= runs@.len(),
            passed + failed + not_started == i,
            still_failing@.len() == failed + not_started,
            passed == count_runs(runs@.take(i as int), |r: TestRun| run_passed(r)),
            failed == count_runs(runs@.take(i as int), |r: TestRun| run_failed(r)),
            not_started == count_runs(runs@.take(i as int), |r: TestRun| r is NotStarted),
            tests_view(still_failing@) == failing_tests(runs@.take(i as int)),
        decreases runs@.len() - i,
    {
        assert(runs@.take(i + 1).drop_last() =~= runs@.take(i as int));
        assert(runs@.take(i + 1).last() == runs@[i as int]);
        let ghost before = still_failing@;
        match &runs[i] {
            TestRun::Finished(r) => {
                if r.passed {
                    passed = passed + 1;
                } else {
                    failed = failed + 1;
                    still_failing.push(r.test.duplicate());
                    assert(tests_view(still_failing@) =~= tests_view(before).push(r.test@));
                }
            },
            TestRun::NotStarted(t) => {
                not_started = not_started + 1;
                still_failing.push(t.duplicate());
                assert(tests_view(still_failing@) =~= tests_view(before).push(t@));
            },
        }
        i = i + 1;
    }
    assert(runs@.take(i as int) =~= runs@);
    RunSummary { passed, failed, not_started, still_failing }
}

/// How many lines of a failing test's output are shown.
pub const PREVIEW_LINES: usize = 20;

/// The first lines of a test's output and whether more were left out.
pub struct OutputPreview {
    pub shown: Vec<String>,
    pub truncated: bool,
}

/// The first `PREVIEW_LINES` lines of `output`, and whether it has more.
pub fn output_preview(output: &str) -> (p: OutputPreview)
    ensures
        strings_view(p.shown@) == lines(output@).take(
            if lines(output@).len() < PREVIEW_LINES { lines(output@).len() as int } else { PREVIEW_LINES as int },
        ),
        p.truncated == (lines(output@).len() > PREVIEW_LINES),
{
    let v = chars_of(output);
    let ws = line_windows(&v);
    let ghost all = lines(output@);
    let n = if ws.len() < PREVIEW_LINES {
        ws.len()
    } else {
        PREVIEW_LINES
    };
    let mut shown: Vec<String> = Vec::new();
    let mut i: usize = 0;
    while i < n
        invariant
            i <= n <= ws@.len(),
            all == lines(v@),
            ws@.len() == all.len(),
            forall|k: int|
                0 <= k < ws@.len() ==> (#[trigger] ws@[k]).0 <= ws@[k].1 <= v@.len() && window(
                    v@,
                    ws@[k].0 as int,
                    ws@[k].1 as int,
                ) == all[k],
            strings_view(shown@) == all.take(i as int),
        decreases n - i,
    {
        let (lo, hi) = ws[i];
        let line = string_of(&v, lo, hi);
        let ghost before = shown@;
        shown.push(line);
        assert(strings_view(shown@) =~= strings_view(before).push(all[i as int]));
        assert(all.take(i + 1) =~= all.take(i as int).push(all[i as int]));
        i = i + 1;
    }
    OutputPreview { shown, truncated: ws.len() > PREVIEW_LINES }
}

} // verus!
