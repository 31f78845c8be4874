//! Reading `go test` output: which tests failed, and in which package.
//!
//! The output is read line by line. A `--- FAIL: Name` line names a failing
//! test; the package comes from the `FAIL\tpackage\t...` line that closes the
//! package's output. A package that failed to build (`[build failed]`) forgets
//! the names seen so far, and so does a passing package (`ok\t...`). Names still
//! waiting for a package when the output ends go to the last package seen.
use vstd::prelude::*;
use crate::text::{
    CharClass, chars_of, contains, first_in, has_in, in_class, is_whitespace, lemma_contains_window,
    lemma_first_in, lemma_first_in_props, lemma_trimmed_len_le, trimmed_len, lemma_trim_bounds, line_windows, lines, scan, skip_whitespace,
    starts_with, string_of, trim, trim_start, trim_window, window, window_chars, window_contains,
    window_starts_with,
};
use crate::json::{JsonMember, Member, find_field, has_field, is_json_ws, json_object, skip_json_ws, members_view, parse_json_object, string_field};
use crate::{FailedTest, FailedTestView, opt_view, strings_view, tests_view};

verus! {

/// What the reader has gathered after some lines.
pub struct ParseState {
    /// Failed tests found so far, in order.
    pub failed: Seq<FailedTestView>,
    /// The last package seen on a `FAIL` line, if any.
    pub current: Option<Seq<char>>,
    /// Names of failed tests still waiting for their package.
    pub pending: Seq<Seq<char>>,
}

/// The state before any line.
pub open spec fn initial_state() -> ParseState {
    ParseState { failed: seq![], current: None, pending: seq![] }
}

/// The first whitespace-separated word of `s` (as `split_whitespace().next()`).
pub open spec fn first_word(s: Seq<char>) -> Option<Seq<char>> {
    let u = trim_start(s);
    if u.len() == 0 {
        None
    } else {
        Some(u.take(first_in(u, CharClass::Whitespace) as int))
    }
}

/// The test that a `--- FAIL: Name (0.00s)` line names.
pub open spec fn failed_test_name(line: Seq<char>) -> Option<Seq<char>> {
    let t = trim(line);
    if starts_with(t, "--- FAIL:"@) {
        first_word(trim(t.skip("--- FAIL:"@.len() as int)))
    } else {
        None
    }
}

/// The package that a `FAIL\tpackage\t0.1s` (or `FAIL package`) line names.
pub open spec fn fail_line_package(line: Seq<char>) -> Option<Seq<char>> {
    let t = trim(line);
    if starts_with(t, "FAIL\t"@) || starts_with(t, "FAIL "@) {
        let rest = trim(t.skip("FAIL"@.len() as int));
        let pkg = trim(rest.take(first_in(rest, CharClass::Exactly('\t')) as int));
        if pkg.len() == 0 {
            None
        } else {
            Some(pkg)
        }
    } else {
        None
    }
}

/// Whether a line reports a package whose tests passed.
pub open spec fn is_ok_line(line: Seq<char>) -> bool {
    starts_with(line, "ok \t"@) || starts_with(line, "ok\t"@)
}

/// Whether a line reports a package that failed to build.
pub open spec fn is_build_failure(line: Seq<char>) -> bool {
    contains(line, "[build failed]"@)
}

/// The failed tests that the names `names` of package `pkg` stand for.
pub open spec fn attach(pkg: Seq<char>, names: Seq<Seq<char>>) -> Seq<FailedTestView> {
    names.map_values(|n: Seq<char>| FailedTestView { package: pkg, name: n })
}

/// `st` with its pending names forgotten when `line` reports a passing package.
pub open spec fn reset_on_ok(st: ParseState, line: Seq<char>) -> ParseState {
    if is_ok_line(line) {
        ParseState { failed: st.failed, current: st.current, pending: seq![] }
    } else {
        st
    }
}

/// The state after reading one more line.
pub open spec fn step(st: ParseState, line: Seq<char>) -> ParseState {
    let st1 = match failed_test_name(line) {
        Some(n) => ParseState { failed: st.failed, current: st.current, pending: st.pending.push(n) },
        None => st,
    };
    match fail_line_package(line) {
        Some(pkg) => if is_build_failure(line) {
            ParseState { failed: st1.failed, current: None, pending: seq![] }
        } else {
            reset_on_ok(
                ParseState {
                    failed: st1.failed + attach(pkg, st1.pending),
                    current: Some(pkg),
                    pending: seq![],
                },
                line,
            )
        },
        None => reset_on_ok(st1, line),
    }
}

/// The state after reading the plain text lines `ls`, from `st` on.
pub open spec fn run_from(st: ParseState, ls: Seq<Seq<char>>) -> ParseState
    decreases ls.len(),
{
    if ls.len() == 0 {
        st
    } else {
        step(run_from(st, ls.drop_last()), ls.last())
    }
}

/// `st` after a package failed: its pending names are the package's failures.
pub open spec fn package_failed(st: ParseState, pkg: Seq<char>) -> ParseState {
    ParseState { failed: st.failed + attach(pkg, st.pending), current: Some(pkg), pending: seq![] }
}

/// `st` after a package failed to build: pending names and the package are forgotten.
pub open spec fn build_failed(st: ParseState) -> ParseState {
    ParseState { failed: st.failed, current: None, pending: seq![] }
}

/// `st` with its pending names forgotten.
pub open spec fn forget_pending(st: ParseState) -> ParseState {
    ParseState { failed: st.failed, current: st.current, pending: seq![] }
}

/// The state after one `go test -json` event with members `ms`: an `output`
/// event is read as the text it carries; a package's `fail` event (one
/// without `Test`) ends the package as a `FAIL` line does, or as a build
/// failure when it has `FailedBuild`; a package's `pass` event forgets the
/// pending names; other events change nothing.
pub open spec fn event_step(st: ParseState, ms: Seq<Member>) -> ParseState {
    let action = string_field(ms, "Action"@);
    if action == Some("output"@) {
        match string_field(ms, "Output"@) {
            Some(t) => run_from(st, lines(t)),
            None => st,
        }
    } else if action == Some("fail"@) && !has_field(ms, "Test"@) {
        match string_field(ms, "Package"@) {
            Some(p) => if p.len() == 0 {
                st
            } else if has_field(ms, "FailedBuild"@) || is_build_failure(p) {
                build_failed(st)
            } else {
                package_failed(st, p)
            },
            None => st,
        }
    } else if action == Some("pass"@) && !has_field(ms, "Test"@) {
        forget_pending(st)
    } else {
        st
    }
}

/// The state after one line of output, which is either a `go test -json`
/// event or a line of plain text. A line that is a JSON object is read as an
/// event; one that is not an event the reader acts on changes nothing, as it
/// would as plain text.
pub open spec fn step_any(st: ParseState, line: Seq<char>) -> ParseState {
    match json_object(line) {
        Some(ms) => event_step(st, ms),
        None => step(st, line),
    }
}

/// The state after reading `lines` in order.
pub open spec fn run(lines: Seq<Seq<char>>) -> ParseState
    decreases lines.len(),
{
    if lines.len() == 0 {
        initial_state()
    } else {
        step_any(run(lines.drop_last()), lines.last())
    }
}

/// The failed tests once the output ends: names still pending go to the last package seen.
pub open spec fn finish(st: ParseState) -> Seq<FailedTestView> {
    match st.current {
        Some(pkg) => st.failed + attach(pkg, st.pending),
        None => st.failed,
    }
}

/// The failed tests that the `go test` output `text` (plain, `-v` or `-json`) reports.
pub open spec fn parse_output(text: Seq<char>) -> Seq<FailedTestView> {
    finish(run(lines(text)))
}

/// The text that a line carries when it is a `go test -json` `output` event.
pub open spec fn output_text(line: Seq<char>) -> Option<Seq<char>> {
    match json_object(line) {
        Some(ms) => if string_field(ms, "Action"@) == Some("output"@) {
            string_field(ms, "Output"@)
        } else {
            None
        },
        None => None,
    }
}

/// The package that a line names when it is a `go test -json` `fail` event
/// of a package that was built.
pub open spec fn event_package(line: Seq<char>) -> Option<Seq<char>> {
    match json_object(line) {
        Some(ms) => if string_field(ms, "Action"@) == Some("fail"@) && !has_field(ms, "Test"@) {
            match string_field(ms, "Package"@) {
                Some(p) => if p.len() > 0 && !has_field(ms, "FailedBuild"@) && !is_build_failure(p) {
                    Some(p)
                } else {
                    None
                },
                None => None,
            }
        } else {
            None
        },
        None => None,
    }
}

/// A plain line naming the failed test `n`.
pub open spec fn names_test(x: Seq<char>, n: Seq<char>) -> bool {
    failed_test_name(x) == Some(n)
}

/// A plain line ending the built package `p` with failures.
pub open spec fn ends_package(x: Seq<char>, p: Seq<char>) -> bool {
    fail_line_package(x) == Some(p) && !is_build_failure(x)
}

/// Line `line` names the failed test `n`: as a `--- FAIL:` line, or as an
/// `output` event carrying one.
pub open spec fn mentions_name(line: Seq<char>, n: Seq<char>) -> bool {
    ||| names_test(line, n)
    ||| (output_text(line) matches Some(t) && exists|m: int|
        0 <= m < lines(t).len() && #[trigger] names_test(lines(t)[m], n))
}

/// Line `line` reports that the built package `p` failed: as a `FAIL` line,
/// as an `output` event carrying one, or as the package's `fail` event.
pub open spec fn mentions_package(line: Seq<char>, p: Seq<char>) -> bool {
    ||| ends_package(line, p)
    ||| (output_text(line) matches Some(t) && exists|m: int|
        0 <= m < lines(t).len() && #[trigger] ends_package(lines(t)[m], p))
    ||| event_package(line) == Some(p)
}

/// A name as the reader reports it: not empty, and without whitespace.
pub open spec fn is_test_name(n: Seq<char>) -> bool {
    n.len() > 0 && !has_in(n, CharClass::Whitespace)
}

/// A package as the reader reports it: not empty, and not one that failed to build.
pub open spec fn is_package(p: Seq<char>) -> bool {
    p.len() > 0 && !is_build_failure(p)
}

/// Some line of `ls` names the failed test `n`.
pub open spec fn named_in(ls: Seq<Seq<char>>, n: Seq<char>) -> bool {
    exists|k: int| 0 <= k < ls.len() && #[trigger] mentions_name(ls[k], n)
}

/// Some line of `ls` reports that package `p` failed, and not that it failed to build.
pub open spec fn package_in(ls: Seq<Seq<char>>, p: Seq<char>) -> bool {
    exists|k: int| 0 <= k < ls.len() && #[trigger] mentions_package(ls[k], p)
}

/// A test that the lines `ls` back: its name comes from a `--- FAIL:` line
/// and its package from a `FAIL` line or `fail` event of a package that was built.
pub open spec fn reported_from(t: FailedTestView, ls: Seq<Seq<char>>) -> bool {
    &&& is_test_name(t.name)
    &&& is_package(t.package)
    &&& named_in(ls, t.name)
    &&& package_in(ls, t.package)
}

/// Everything in the reader's state is backed by the lines read.
pub open spec fn sound_state(st: ParseState, ls: Seq<Seq<char>>) -> bool {
    &&& forall|i: int| 0 <= i < st.failed.len() ==> reported_from(#[trigger] st.failed[i], ls)
    &&& forall|i: int|
        0 <= i < st.pending.len() ==> is_test_name(#[trigger] st.pending[i]) && named_in(ls, st.pending[i])
    &&& (st.current matches Some(p) ==> is_package(p) && package_in(ls, p))
}

/// A name taken from a `--- FAIL:` line is not empty and has no whitespace.
pub proof fn lemma_failed_name_is_name(line: Seq<char>)
    ensures
        failed_test_name(line) matches Some(n) ==> is_test_name(n),
{
    let t = trim(line);
    if starts_with(t, "--- FAIL:"@) {
        let x = trim(t.skip("--- FAIL:"@.len() as int));
        let u = trim_start(x);
        if u.len() > 0 {
            let nw = CharClass::NonWhitespace;
            let ws = CharClass::Whitespace;
            lemma_first_in_props(x, nw);
            let a = first_in(x, nw) as int;
            assert(u[0] == x[a]);
            lemma_first_in_props(u, ws);
            let f = first_in(u, ws) as int;
            let n = u.take(f);
            assert(f > 0);
            if has_in(n, ws) {
                let j = choose|j: int| 0 <= j < n.len() && in_class(#[trigger] n[j], ws);
                assert(n[j] == u[j]);
            }
        }
    }
}

/// A package taken from a `FAIL` line is not empty, and the line holds
/// whatever the package holds.
pub proof fn lemma_fail_package_in_line(line: Seq<char>)
    ensures
        fail_line_package(line) matches Some(p) ==> p.len() > 0 && (is_build_failure(p)
            ==> is_build_failure(line)),
{
    let t = trim(line);
    if starts_with(t, "FAIL\t"@) || starts_with(t, "FAIL "@) {
        reveal_strlit("FAIL");
        reveal_strlit("FAIL\t");
        reveal_strlit("FAIL ");
        let pat = "[build failed]"@;
        let rest = trim(t.skip("FAIL"@.len() as int));
        let tab = first_in(rest, CharClass::Exactly('\t')) as int;
        lemma_first_in_props(rest, CharClass::Exactly('\t'));
        let head = rest.take(tab);
        let pkg = trim(head);
        if pkg.len() > 0 && contains(pkg, pat) {
            let (a, b) = lemma_trim_bounds(head);
            lemma_contains_window(head, a, b, pat);
            lemma_contains_window(rest, 0, tab, pat);
            let u = t.skip("FAIL"@.len() as int);
            let (c, d) = lemma_trim_bounds(u);
            lemma_contains_window(u, c, d, pat);
            lemma_contains_window(t, 4, t.len() as int, pat);
            let (e, f) = lemma_trim_bounds(line);
            lemma_contains_window(line, e, f, pat);
        }
    }
}

/// What the plain line `x` names, if anything, is backed by `all`.
pub open spec fn name_backed(all: Seq<Seq<char>>, x: Seq<char>) -> bool {
    match failed_test_name(x) {
        Some(n) => named_in(all, n),
        None => true,
    }
}

/// The package that the plain line `x` ends, if any, is backed by `all`.
pub open spec fn package_backed(all: Seq<Seq<char>>, x: Seq<char>) -> bool {
    match fail_line_package(x) {
        Some(p) => !is_build_failure(x) ==> package_in(all, p),
        None => true,
    }
}

/// Reading one plain line keeps the state backed by `all`, when what the
/// line names is backed by `all`.
pub proof fn lemma_step_sound(st: ParseState, all: Seq<Seq<char>>, line: Seq<char>)
    requires
        sound_state(st, all),
        name_backed(all, line),
        package_backed(all, line),
    ensures
        sound_state(step(st, line), all),
{
    lemma_failed_name_is_name(line);
    lemma_fail_package_in_line(line);
    let st1 = match failed_test_name(line) {
        Some(n) => ParseState { failed: st.failed, current: st.current, pending: st.pending.push(n) },
        None => st,
    };
    assert forall|i: int| 0 <= i < st1.pending.len() implies is_test_name(#[trigger] st1.pending[i])
        && named_in(all, st1.pending[i]) by {
        if i < st.pending.len() {
            assert(st1.pending[i] == st.pending[i]);
        }
    }
    if let Some(pkg) = fail_line_package(line) {
        if !is_build_failure(line) {
            let failed = st1.failed + attach(pkg, st1.pending);
            assert forall|i: int| 0 <= i < failed.len() implies reported_from(#[trigger] failed[i], all) by {
                if i >= st1.failed.len() {
                    assert(failed[i] == FailedTestView { package: pkg, name: st1.pending[i - st1.failed.len()] });
                }
            }
        }
    }
}

/// Reading plain lines keeps the state backed by `all`, when what each line
/// names is backed by `all`.
pub proof fn lemma_run_from_sound(st: ParseState, all: Seq<Seq<char>>, ls: Seq<Seq<char>>)
    requires
        sound_state(st, all),
        forall|m: int| 0 <= m < ls.len() ==> name_backed(all, #[trigger] ls[m]),
        forall|m: int| 0 <= m < ls.len() ==> package_backed(all, #[trigger] ls[m]),
    ensures
        sound_state(run_from(st, ls), all),
    decreases ls.len(),
{
    if ls.len() > 0 {
        let t = ls.drop_last();
        assert forall|m: int| 0 <= m < t.len() implies name_backed(all, #[trigger] t[m]) by {
            assert(t[m] == ls[m]);
        }
        assert forall|m: int| 0 <= m < t.len() implies package_backed(all, #[trigger] t[m]) by {
            assert(t[m] == ls[m]);
        }
        lemma_run_from_sound(st, all, t);
        let x = ls[ls.len() - 1];
        lemma_step_sound(run_from(st, t), all, x);
    }
}

/// Reading line `k` of `all` keeps the state backed by `all`.
pub proof fn lemma_step_any_sound(st: ParseState, all: Seq<Seq<char>>, k: int)
    requires
        sound_state(st, all),
        0 <= k < all.len(),
    ensures
        sound_state(step_any(st, all[k]), all),
{
    let line = all[k];
    match json_object(line) {
        None => {
            if let Some(n) = failed_test_name(line) {
                assert(mentions_name(all[k], n));
            }
            if let Some(p) = fail_line_package(line) {
                if !is_build_failure(line) {
                    assert(mentions_package(all[k], p));
                }
            }
            lemma_step_sound(st, all, line);
        },
        Some(ms) => {
            let action = string_field(ms, "Action"@);
            if action == Some("output"@) {
                if let Some(t) = string_field(ms, "Output"@) {
                    let ls = lines(t);
                    assert(output_text(line) == Some(t));
                    assert forall|m: int| 0 <= m < ls.len() implies name_backed(all, #[trigger] ls[m]) by {
                        if let Some(n) = failed_test_name(ls[m]) {
                            assert(names_test(ls[m], n));
                            assert(mentions_name(all[k], n));
                        }
                    }
                    assert forall|m: int| 0 <= m < ls.len() implies package_backed(all, #[trigger] ls[m]) by {
                        if let Some(p) = fail_line_package(ls[m]) {
                            if !is_build_failure(ls[m]) {
                                assert(ends_package(ls[m], p));
                                assert(mentions_package(all[k], p));
                            }
                        }
                    }
                    lemma_run_from_sound(st, all, ls);
                }
            } else if action == Some("fail"@) && !has_field(ms, "Test"@) {
                if let Some(p) = string_field(ms, "Package"@) {
                    if p.len() > 0 && !(has_field(ms, "FailedBuild"@) || is_build_failure(p)) {
                        assert(event_package(line) == Some(p));
                        assert(mentions_package(all[k], p));
                        let failed = st.failed + attach(p, st.pending);
                        assert forall|i: int| 0 <= i < failed.len() implies reported_from(#[trigger] failed[i], all) by {
                            if i >= st.failed.len() {
                                assert(failed[i] == FailedTestView { package: p, name: st.pending[i - st.failed.len()] });
                            }
                        }
                    }
                }
            }
        },
    }
}

/// The state after reading the first `i` lines of `all` is backed by `all`.
pub proof fn lemma_run_sound(all: Seq<Seq<char>>, i: int)
    requires
        0 <= i <= all.len(),
    ensures
        sound_state(run(all.take(i)), all),
    decreases i,
{
    if i > 0 {
        lemma_run_sound(all, i - 1);
        assert(all.take(i).drop_last() =~= all.take(i - 1));
        lemma_step_any_sound(run(all.take(i - 1)), all, i - 1);
    } else {
        assert(all.take(0).len() == 0);
    }
}

/// Every reported test is backed by the output: its name, which is not empty
/// and has no whitespace, comes from a `--- FAIL:` line (plain or carried by
/// a `-json` `output` event), and its package, which is not empty, from a
/// `FAIL` line or `fail` event of a package that did not fail to build; no
/// test is reported for a `[build failed]` package.
pub proof fn law_reported_tests_come_from_output(text: Seq<char>)
    ensures
        forall|i: int|
            0 <= i < parse_output(text).len() ==> reported_from(#[trigger] parse_output(text)[i], lines(text)),
{
    let ls = lines(text);
    lemma_run_sound(ls, ls.len() as int);
    assert(ls.take(ls.len() as int) =~= ls);
    let st = run(ls);
    if let Some(pkg) = st.current {
        let out = finish(st);
        assert forall|i: int| 0 <= i < out.len() implies reported_from(#[trigger] out[i], ls) by {
            if i >= st.failed.len() {
                assert(out[i] == FailedTestView { package: pkg, name: st.pending[i - st.failed.len()] });
            }
        }
    }
}

/// A `go test -json` line is read as what it reports: an `output` event as the
/// lines of text it carries, and the `fail` event of a package that was built
/// as that package failing, with the names read so far as its failures.
pub proof fn law_json_events_read_as_text(st: ParseState, line: Seq<char>)
    ensures
        output_text(line) matches Some(t) ==> step_any(st, line) == run_from(st, lines(t)),
        event_package(line) matches Some(p) ==> step_any(st, line) == package_failed(st, p),
{
    reveal_strlit("fail");
    reveal_strlit("output");
    assert("fail"@ != "output"@) by {
        assert("fail"@[0] != "output"@[0]);
    }
}

/// Whether the members `ms` are a `go test -json` event that the reader acts
/// on: an `output` event, or a package's own `fail` or `pass` event.
pub open spec fn is_go_event(ms: Seq<Member>) -> bool {
    let action = string_field(ms, "Action"@);
    ||| action == Some("output"@)
    ||| ((action == Some("fail"@) || action == Some("pass"@)) && !has_field(ms, "Test"@))
}

/// Everything before the first non-blank index found by `skip_json_ws` is blank.
proof fn lemma_skip_json_ws(s: Seq<char>, i: int)
    requires
        0 <= i,
    ensures
        i <= skip_json_ws(s, i),
        forall|j: int| i <= j < skip_json_ws(s, i) ==> is_json_ws(#[trigger] s[j]),
    decreases s.len() - i,
{
    if i < s.len() && is_json_ws(s[i]) {
        lemma_skip_json_ws(s, i + 1);
    }
}

/// A text whose first character is not whitespace keeps it when its end is trimmed.
proof fn lemma_trim_end_keeps_front(u: Seq<char>)
    requires
        u.len() > 0,
        !is_whitespace(u[0]),
    ensures
        trimmed_len(u) >= 1,
    decreases u.len(),
{
    if is_whitespace(u.last()) {
        assert(u.len() >= 2);
        lemma_trim_end_keeps_front(u.drop_last());
    }
}

/// A line that is a JSON object, read as plain text, names no test and no
/// package and does not report a passing package.
proof fn lemma_object_line_is_inert(st: ParseState, line: Seq<char>)
    requires
        json_object(line) is Some,
    ensures
        step(st, line) == st,
{
    let i = skip_json_ws(line, 0);
    lemma_skip_json_ws(line, 0);
    assert(0 <= i < line.len() && line[i] == '{');
    let ws = CharClass::NonWhitespace;
    assert forall|j: int| 0 <= j < i implies !in_class(#[trigger] line[j], ws) by {
        assert(is_json_ws(line[j]));
    }
    lemma_first_in(line, ws, i);
    let u = trim_start(line);
    assert(u.len() > 0 && u[0] == '{');
    lemma_trim_end_keeps_front(u);
    lemma_trimmed_len_le(u);
    let t = trim(line);
    assert(t == u.take(trimmed_len(u) as int));
    assert(t[0] == u[0]);
    assert(t.len() > 0 && t[0] == '{');
    reveal_strlit("--- FAIL:");
    reveal_strlit("FAIL\t");
    reveal_strlit("FAIL ");
    reveal_strlit("ok \t");
    reveal_strlit("ok\t");
    assert(!starts_with(t, "--- FAIL:"@)) by {
        if starts_with(t, "--- FAIL:"@) {
            assert(t.take(9)[0] == t[0]);
        }
    }
    assert(!starts_with(t, "FAIL\t"@)) by {
        if starts_with(t, "FAIL\t"@) {
            assert(t.take(5)[0] == t[0]);
        }
    }
    assert(!starts_with(t, "FAIL "@)) by {
        if starts_with(t, "FAIL "@) {
            assert(t.take(5)[0] == t[0]);
        }
    }
    assert(!is_ok_line(line)) by {
        if starts_with(line, "ok \t"@) {
            assert(line.take(4)[0] == line[0]);
        }
        if starts_with(line, "ok\t"@) {
            assert(line.take(3)[0] == line[0]);
        }
    }
}

/// A JSON object line that is not a `go test -json` event the reader acts on
/// (such as JSON that a test prints) changes nothing, exactly as when it is
/// read as plain text.
pub proof fn law_other_json_lines_read_as_plain(st: ParseState, line: Seq<char>)
    requires
        json_object(line) matches Some(ms) && !is_go_event(ms),
    ensures
        step_any(st, line) == st,
        step(st, line) == st,
{
    lemma_object_line_is_inert(st, line);
}

/// The names on the `--- FAIL:` lines of `ls`, in order.
pub open spec fn fail_names(ls: Seq<Seq<char>>) -> Seq<Seq<char>>
    decreases ls.len(),
{
    if ls.len() == 0 {
        seq![]
    } else {
        match failed_test_name(ls.last()) {
            Some(n) => fail_names(ls.drop_last()).push(n),
            None => fail_names(ls.drop_last()),
        }
    }
}

/// A plain line of a package's output before the line that closes it: not
/// a JSON object, not a `FAIL` line naming a package, not an `ok` line.
pub open spec fn inside_package(line: Seq<char>) -> bool {
    json_object(line) is None && fail_line_package(line) is None && !is_ok_line(line)
}

/// Trimming keeps a first character that is not whitespace in front.
proof fn lemma_trim_keeps_front(line: Seq<char>)
    requires
        line.len() > 0,
        !is_whitespace(line[0]),
    ensures
        trim(line).len() > 0,
        trim(line)[0] == line[0],
{
    lemma_first_in(line, CharClass::NonWhitespace, 0);
    let u = trim_start(line);
    assert(u =~= line);
    lemma_trim_end_keeps_front(u);
    lemma_trimmed_len_le(u);
    assert(trim(line) == u.take(trimmed_len(u) as int));
}

/// A line that names a package on a `FAIL` line names no failed test and
/// does not report a passing package.
proof fn lemma_fail_line_is_only_that(f: Seq<char>)
    requires
        fail_line_package(f) is Some,
    ensures
        failed_test_name(f) is None,
        !is_ok_line(f),
{
    reveal_strlit("--- FAIL:");
    reveal_strlit("FAIL\t");
    reveal_strlit("FAIL ");
    reveal_strlit("ok \t");
    reveal_strlit("ok\t");
    let t = trim(f);
    assert(starts_with(t, "FAIL\t"@) || starts_with(t, "FAIL "@));
    assert(t[0] == 'F') by {
        if starts_with(t, "FAIL\t"@) {
            assert(t.take(5)[0] == t[0]);
        } else {
            assert(t.take(5)[0] == t[0]);
        }
    }
    if starts_with(t, "--- FAIL:"@) {
        assert(t.take(9)[0] == t[0]);
    }
    if is_ok_line(f) {
        if starts_with(f, "ok \t"@) {
            assert(f.take(4)[0] == f[0]);
        } else {
            assert(f.take(3)[0] == f[0]);
        }
        lemma_trim_keeps_front(f);
    }
}

/// Inside a package, each `--- FAIL:` name joins the pending names, in
/// order, and nothing else changes.
proof fn lemma_names_gathered(st: ParseState, ls: Seq<Seq<char>>)
    requires
        forall|k: int| 0 <= k < ls.len() ==> inside_package(#[trigger] ls[k]),
    ensures
        run_from(st, ls).failed == st.failed,
        run_from(st, ls).current == st.current,
        run_from(st, ls).pending == st.pending + fail_names(ls),
    decreases ls.len(),
{
    if ls.len() == 0 {
        assert(st.pending + fail_names(ls) =~= st.pending);
    } else {
        let q = ls.drop_last();
        assert forall|k: int| 0 <= k < q.len() implies inside_package(#[trigger] q[k]) by {
            assert(q[k] == ls[k]);
        }
        lemma_names_gathered(st, q);
        assert(inside_package(ls[ls.len() - 1]));
        match failed_test_name(ls.last()) {
            Some(n) => {
                assert(st.pending + fail_names(q).push(n) =~= (st.pending + fail_names(q)).push(n));
            },
            None => {},
        }
    }
}

/// Plain lines after `pre` are read one `step` at a time.
proof fn lemma_plain_run(pre: Seq<Seq<char>>, q: Seq<Seq<char>>)
    requires
        forall|k: int| 0 <= k < q.len() ==> json_object(#[trigger] q[k]) is None,
    ensures
        run(pre + q) == run_from(run(pre), q),
    decreases q.len(),
{
    if q.len() == 0 {
        assert(pre + q =~= pre);
    } else {
        let r = q.drop_last();
        assert forall|k: int| 0 <= k < r.len() implies json_object(#[trigger] r[k]) is None by {
            assert(r[k] == q[k]);
        }
        lemma_plain_run(pre, r);
        assert((pre + q).drop_last() =~= pre + r);
        assert((pre + q).last() == q.last());
        assert(json_object(q[q.len() - 1]) is None);
    }
}

/// Completeness: when a package's output (plain lines, no `ok` line) ends
/// with its `FAIL` line, every name on a `--- FAIL:` line of that output is
/// reported once with that package, in order, together with the names still
/// pending from before, whatever those names are; a subtest's line after its
/// parent's is reported too. From the start of the output, the reported tests
/// are exactly these, one per `--- FAIL:` line.
pub proof fn law_failed_tests_all_reported(
    pre: Seq<Seq<char>>,
    ls: Seq<Seq<char>>,
    f: Seq<char>,
    pkg: Seq<char>,
)
    requires
        forall|k: int| 0 <= k < ls.len() ==> inside_package(#[trigger] ls[k]),
        json_object(f) is None,
        fail_line_package(f) == Some(pkg),
        !is_build_failure(f),
    ensures
        run(pre + ls.push(f)).failed == run(pre).failed + attach(pkg, run(pre).pending + fail_names(ls)),
        run(pre + ls.push(f)).pending == Seq::<Seq<char>>::empty(),
        run(pre + ls.push(f)).current == Some(pkg),
        finish(run(ls.push(f))) == attach(pkg, fail_names(ls)),
        finish(run(ls.push(f))).len() == fail_names(ls).len(),
{
    let q = ls.push(f);
    assert forall|k: int| 0 <= k < q.len() implies json_object(#[trigger] q[k]) is None by {
        if k < ls.len() {
            assert(q[k] == ls[k]);
        }
    }
    assert(q.drop_last() =~= ls);
    lemma_fail_line_is_only_that(f);
    lemma_plain_run(pre, q);
    lemma_names_gathered(run(pre), ls);
    let e = Seq::<Seq<char>>::empty();
    lemma_plain_run(e, q);
    lemma_names_gathered(run(e), ls);
    assert(e + q =~= q);
    assert(run(e) == initial_state());
    assert(e + fail_names(ls) =~= fail_names(ls));
    assert(attach(pkg, e) =~= Seq::<FailedTestView>::empty());
    assert(Seq::<FailedTestView>::empty() + attach(pkg, fail_names(ls)) =~= attach(pkg, fail_names(ls)));
    assert(attach(pkg, fail_names(ls)) + attach(pkg, e) =~= attach(pkg, fail_names(ls)));
}

/// The state that the reader's variables stand for.
pub open spec fn state_view(failed: Seq<FailedTest>, current: Option<String>, pending: Seq<String>) -> ParseState {
    ParseState { failed: tests_view(failed), current: opt_view(current), pending: strings_view(pending) }
}

/// The name of the failing test on a `--- FAIL:` line, if the line is one.
pub fn extract_failed_test_name(line: &str) -> (r: Option<String>)
    ensures
        opt_view(r) == failed_test_name(line@),
{
    let v = chars_of(line);
    assert(window(v@, 0, v@.len() as int) =~= v@);
    failed_name_in(&v, 0, v.len())
}

/// The package of a package result line; `go test` output never gives one on
/// `=== RUN` lines, so this is always `None`.
pub fn extract_package_from_run_line(_line: &str) -> (r: Option<String>)
    ensures
        r is None,
{
    None
}

/// The package on a `FAIL\tpackage\t...` line, if the line is one.
pub fn extract_package_from_fail_line(line: &str) -> (r: Option<String>)
    ensures
        opt_view(r) == fail_line_package(line@),
{
    let v = chars_of(line);
    assert(window(v@, 0, v@.len() as int) =~= v@);
    fail_package_in(&v, 0, v.len())
}

/// `failed_test_name` of the window `[lo, hi)`.
fn failed_name_in(v: &Vec<char>, lo: usize, hi: usize) -> (r: Option<String>)
    requires
        lo <= hi <= v@.len(),
    ensures
        opt_view(r) == failed_test_name(window(v@, lo as int, hi as int)),
{
    let (a, b) = trim_window(v, lo, hi);
    let pat = chars_of("--- FAIL:");
    if !window_starts_with(v, a, b, &pat) {
        return None;
    }
    let ghost t = window(v@, a as int, b as int);
    assert(t.skip(pat@.len() as int) =~= window(v@, a + pat@.len(), b as int));
    let (c, d) = trim_window(v, a + pat.len(), b);
    let e = skip_whitespace(v, c, d);
    if e == d {
        return None;
    }
    let f = scan(v, e, d, &CharClass::Whitespace);
    assert(window(v@, e as int, f as int) =~= window(v@, e as int, d as int).take(f - e));
    Some(string_of(v, e, f))
}

/// `fail_line_package` of the window `[lo, hi)`.
fn fail_package_in(v: &Vec<char>, lo: usize, hi: usize) -> (r: Option<String>)
    requires
        lo <= hi <= v@.len(),
    ensures
        opt_view(r) == fail_line_package(window(v@, lo as int, hi as int)),
{
    let (a, b) = trim_window(v, lo, hi);
    let with_tab = chars_of("FAIL\t");
    let with_space = chars_of("FAIL ");
    if !(window_starts_with(v, a, b, &with_tab) || window_starts_with(v, a, b, &with_space)) {
        return None;
    }
    let fail = chars_of("FAIL");
    proof {
        reveal_strlit("FAIL");
        reveal_strlit("FAIL\t");
        reveal_strlit("FAIL ");
    }
    let ghost t = window(v@, a as int, b as int);
    assert(t.skip(fail@.len() as int) =~= window(v@, a + fail@.len(), b as int));
    let (c, d) = trim_window(v, a + fail.len(), b);
    let tab = scan(v, c, d, &CharClass::Exactly('\t'));
    assert(window(v@, c as int, tab as int) =~= window(v@, c as int, d as int).take(tab - c));
    let (e, f) = trim_window(v, c, tab);
    if e == f {
        return None;
    }
    Some(string_of(v, e, f))
}

/// Whether the window `[lo, hi)` is a passing package's result line.
fn ok_line_in(v: &Vec<char>, lo: usize, hi: usize) -> (b: bool)
    requires
        lo <= hi <= v@.len(),
    ensures
        b == is_ok_line(window(v@, lo as int, hi as int)),
{
    let with_space = chars_of("ok \t");
    let with_tab = chars_of("ok\t");
    window_starts_with(v, lo, hi, &with_space) || window_starts_with(v, lo, hi, &with_tab)
}

/// Appends the tests named `names` in package `pkg` to `failed`.
fn attach_all(failed: &mut Vec<FailedTest>, pkg: &String, names: &Vec<String>)
    ensures
        tests_view(final(failed)@) == tests_view(old(failed)@) + attach(pkg@, strings_view(names@)),
{
    let ghost start = tests_view(failed@);
    let mut j: usize = 0;
    while j < names.len()
        invariant
            j <= names@.len(),
            tests_view(failed@) == start + attach(pkg@, strings_view(names@).take(j as int)),
        decreases names@.len() - j,
    {
        let t = FailedTest { package: pkg.clone(), name: names[j].clone() };
        let ghost before = failed@;
        failed.push(t);
        proof {
            assert(tests_view(failed@) =~= tests_view(before).push(t@));
            assert(strings_view(names@).take(j + 1) =~= strings_view(names@).take(j as int).push(
                names@[j as int]@,
            ));
            assert(attach(pkg@, strings_view(names@).take(j + 1)) =~= attach(
                pkg@,
                strings_view(names@).take(j as int),
            ).push(t@));
        }
        j = j + 1;
    }
    assert(strings_view(names@).take(j as int) =~= strings_view(names@));
}

/// Reads the line in the window `[lo, hi)`: the reader's state moves by `step`.
fn read_line(
    v: &Vec<char>,
    lo: usize,
    hi: usize,
    failed: &mut Vec<FailedTest>,
    current: &mut Option<String>,
    pending: &mut Vec<String>,
)
    requires
        lo <= hi <= v@.len(),
    ensures
        state_view(final(failed)@, *final(current), final(pending)@) == step(
            state_view(old(failed)@, *old(current), old(pending)@),
            window(v@, lo as int, hi as int),
        ),
{
    let ghost line = window(v@, lo as int, hi as int);
    let ghost st = state_view(failed@, *current, pending@);
    if let Some(n) = failed_name_in(v, lo, hi) {
        let ghost before = pending@;
        pending.push(n);
        assert(strings_view(pending@) =~= strings_view(before).push(n@));
    }
    let ghost st1 = state_view(failed@, *current, pending@);
    assert(st1 == match failed_test_name(line) {
        Some(n) => ParseState { failed: st.failed, current: st.current, pending: st.pending.push(n) },
        None => st,
    });
    if let Some(pkg) = fail_package_in(v, lo, hi) {
        let build_failed = chars_of("[build failed]");
        if window_contains(v, lo, hi, &build_failed) {
            *pending = Vec::new();
            *current = None;
            assert(strings_view(pending@) =~= Seq::<Seq<char>>::empty());
            return ;
        }
        attach_all(failed, &pkg, pending);
        *pending = Vec::new();
        *current = Some(pkg);
        assert(strings_view(pending@) =~= Seq::<Seq<char>>::empty());
    }
    if ok_line_in(v, lo, hi) {
        *pending = Vec::new();
        assert(strings_view(pending@) =~= Seq::<Seq<char>>::empty());
    }
}

/// Whether `p` marks a package that failed to build.
fn marks_build_failure(p: &String) -> (b: bool)
    ensures
        b == is_build_failure(p@),
{
    let v = chars_of(p.as_str());
    let pat = chars_of("[build failed]");
    assert(window(v@, 0, v@.len() as int) =~= v@);
    window_contains(&v, 0, v.len(), &pat)
}

/// Reads the plain text `text` line by line: the state moves by `run_from`.
fn read_text(
    text: &String,
    failed: &mut Vec<FailedTest>,
    current: &mut Option<String>,
    pending: &mut Vec<String>,
)
    ensures
        state_view(final(failed)@, *final(current), final(pending)@) == run_from(
            state_view(old(failed)@, *old(current), old(pending)@),
            lines(text@),
        ),
{
    let v = chars_of(text.as_str());
    let ws = line_windows(&v);
    let ghost all = lines(v@);
    let ghost st0 = state_view(failed@, *current, pending@);
    assert(all.take(0) =~= Seq::<Seq<char>>::empty());
    let mut i: usize = 0;
    while i < ws.len()
        invariant
            i <= ws@.len(),
            all == lines(v@),
            ws@.len() == all.len(),
            forall|k: int|
                0 <= k < ws@.len() ==> (#[trigger] ws@[k]).0 <= ws@[k].1 <= v@.len() && window(
                    v@,
                    ws@[k].0 as int,
                    ws@[k].1 as int,
                ) == all[k],
            state_view(failed@, *current, pending@) == run_from(st0, all.take(i as int)),
        decreases ws@.len() - i,
    {
        let (lo, hi) = ws[i];
        read_line(&v, lo, hi, failed, current, pending);
        assert(all.take(i + 1).drop_last() =~= all.take(i as int));
        i = i + 1;
    }
    assert(all.take(i as int) =~= all);
}

/// The string value of member `key`, if it is a string.
fn string_member(ms: &Vec<JsonMember>, key: &str) -> (r: Option<String>)
    ensures
        opt_view(r) == string_field(members_view(ms@), key@),
{
    match find_field(ms, key) {
        Some(Some(v)) => Some(v),
        _ => None,
    }
}

/// Reads one `go test -json` event: the state moves by `event_step`.
fn read_event(
    ms: &Vec<JsonMember>,
    failed: &mut Vec<FailedTest>,
    current: &mut Option<String>,
    pending: &mut Vec<String>,
)
    ensures
        state_view(final(failed)@, *final(current), final(pending)@) == event_step(
            state_view(old(failed)@, *old(current), old(pending)@),
            members_view(ms@),
        ),
{
    let action = string_member(ms, "Action");
    let has_test = find_field(ms, "Test").is_some();
    let output = String::from_str("output");
    let fail = String::from_str("fail");
    let pass = String::from_str("pass");
    let is_output = match &action {
        Some(a) => *a == output,
        None => false,
    };
    let is_fail = match &action {
        Some(a) => *a == fail,
        None => false,
    };
    let is_pass = match &action {
        Some(a) => *a == pass,
        None => false,
    };
    if is_output {
        if let Some(t) = string_member(ms, "Output") {
            read_text(&t, failed, current, pending);
        }
    } else if is_fail && !has_test {
        if let Some(p) = string_member(ms, "Package") {
            if p.as_str().is_empty() {
            } else if find_field(ms, "FailedBuild").is_some() || marks_build_failure(&p) {
                *pending = Vec::new();
                *current = None;
                assert(strings_view(pending@) =~= Seq::<Seq<char>>::empty());
            } else {
                attach_all(failed, &p, pending);
                *pending = Vec::new();
                *current = Some(p);
                assert(strings_view(pending@) =~= Seq::<Seq<char>>::empty());
            }
        }
    } else if is_pass && !has_test {
        *pending = Vec::new();
        assert(strings_view(pending@) =~= Seq::<Seq<char>>::empty());
    }
}

/// Reads the line in the window `[lo, hi)`, event or plain text: the state moves by `step_any`.
fn read_any_line(
    v: &Vec<char>,
    lo: usize,
    hi: usize,
    failed: &mut Vec<FailedTest>,
    current: &mut Option<String>,
    pending: &mut Vec<String>,
)
    requires
        lo <= hi <= v@.len(),
    ensures
        state_view(final(failed)@, *final(current), final(pending)@) == step_any(
            state_view(old(failed)@, *old(current), old(pending)@),
            window(v@, lo as int, hi as int),
        ),
{
    let line = window_chars(v, lo, hi);
    match parse_json_object(&line) {
        Some(ms) => read_event(&ms, failed, current, pending),
        None => read_line(v, lo, hi, failed, current, pending),
    }
}

/// The failed tests that the `go test` output `input` reports, in the order
/// in which their packages end; the output may be plain, `-v` or `-json`.
pub fn parse_go_test_output(input: &str) -> (result: Vec<FailedTest>)
    ensures
        tests_view(result@) == parse_output(input@),
{
    let v = chars_of(input);
    let ws = line_windows(&v);
    let ghost all = lines(v@);
    let mut failed: Vec<FailedTest> = Vec::new();
    let mut current: Option<String> = None;
    let mut pending: Vec<String> = Vec::new();
    assert(all.take(0) =~= Seq::<Seq<char>>::empty());
    assert(tests_view(failed@) =~= Seq::<FailedTestView>::empty());
    assert(strings_view(pending@) =~= Seq::<Seq<char>>::empty());
    assert(state_view(failed@, current, pending@) == run(all.take(0)));
    let mut i: usize = 0;
    while i < ws.len()
        invariant
            i <= ws@.len(),
            all == lines(v@),
            ws@.len() == all.len(),
            forall|k: int|
                0 <= k < ws@.len() ==> (#[trigger] ws@[k]).0 <= ws@[k].1 <= v@.len() && window(
                    v@,
                    ws@[k].0 as int,
                    ws@[k].1 as int,
                ) == all[k],
            state_view(failed@, current, pending@) == run(all.take(i as int)),
        decreases ws@.len() - i,
    {
        let (lo, hi) = ws[i];
        read_any_line(&v, lo, hi, &mut failed, &mut current, &mut pending);
        assert(all.take(i + 1).drop_last() =~= all.take(i as int));
        i = i + 1;
    }
    assert(all.take(i as int) =~= all);
    if let Some(pkg) = current {
        attach_all(&mut failed, &pkg, &pending);
    }
    failed
}

} // verus!
