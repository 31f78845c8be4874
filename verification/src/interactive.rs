//! The interactive modes: reading back a test that was picked from the list
//! shown to the user, and deciding what the watch loop does next.
use vstd::prelude::*;
use crate::text::{CharClass, chars_of, first_in, has_in, lemma_first_in, lemma_first_in_props, in_class, scan, string_of, window};
use crate::{FailedTest, FailedTestView, display, strings_view};

verus! {

/// The test that a picked line `"{package} {name}"` stands for: the package
/// is the text before the first space and the name all after it; a line with
/// no space stands for no test (as `splitn(2, ' ')`).
pub open spec fn selected_item(s: Seq<char>) -> Option<FailedTestView> {
    let p = first_in(s, CharClass::Exactly(' '));
    if p < s.len() {
        Some(FailedTestView { package: s.take(p as int), name: s.skip(p + 1 as int) })
    } else {
        None
    }
}

/// The test that the picked line `text` stands for, if any.
pub fn parse_selected_item(text: &str) -> (r: Option<FailedTest>)
    ensures
        match r {
            Some(t) => selected_item(text@) == Some(t@),
            None => selected_item(text@) is None,
        },
{
    let v = chars_of(text);
    let n = v.len();
    let p = scan(&v, 0, n, &CharClass::Exactly(' '));
    assert(window(v@, 0, n as int) =~= v@);
    if p == n {
        return None;
    }
    let package = string_of(&v, 0, p);
    let name = string_of(&v, p + 1, n);
    assert(window(v@, 0, p as int) =~= v@.take(p as int));
    assert(window(v@, p + 1, n as int) =~= v@.skip(p + 1 as int));
    Some(FailedTest { package, name })
}

/// A test shown as `"{package} {name}"` and picked is read back as the same
/// test, when its package holds no space.
pub proof fn law_selection_round_trip(t: FailedTestView)
    requires
        !has_in(t.package, CharClass::Exactly(' ')),
    ensures
        selected_item(display(t)) == Some(t),
{
    let s = display(t);
    let sp = CharClass::Exactly(' ');
    lemma_first_in_props(t.package, sp);
    assert forall|j: int| 0 <= j < t.package.len() implies !in_class(#[trigger] s[j], sp) by {
        assert(s[j] == t.package[j]);
        if in_class(s[j], sp) {
            assert(has_in(t.package, sp));
        }
    }
    assert(s[t.package.len() as int] == ' ');
    lemma_first_in(s, sp, t.package.len() as int);
    assert(s.take(t.package.len() as int) =~= t.package);
    assert(s.skip(t.package.len() + 1 as int) =~= t.name);
}

/// What the watch loop was told.
#[derive(Debug, Clone, Copy, PartialEq, Eq, Structural)]
pub enum WatchEvent {
    /// A file under the repository changed.
    FileChanged,
    /// The user asked to pick tests again.
    SelectTests,
    /// Nothing more will come.
    Closed,
}

/// What the watch loop does next.
#[derive(Debug, Clone, Copy, PartialEq, Eq, Structural)]
pub enum WatchAction {
    /// Do nothing and wait for the next event.
    Ignore,
    /// Run the picked tests again.
    RunTests,
    /// Leave the loop and let the user pick tests again.
    Reselect,
    /// End watch mode.
    Stop,
}

/// How long after a run a file change is ignored, in milliseconds.
pub const RERUN_QUIET_MILLIS: u128 = 500;

/// The watch loop's next action after `event`, when the last run was
/// `millis_since_last_run` milliseconds ago: a change soon after a run is ignored.
pub fn watch_action(event: WatchEvent, millis_since_last_run: u128) -> (a: WatchAction)
    ensures
        a == match event {
            WatchEvent::FileChanged => if millis_since_last_run < RERUN_QUIET_MILLIS {
                WatchAction::Ignore
            } else {
                WatchAction::RunTests
            },
            WatchEvent::SelectTests => WatchAction::Reselect,
            WatchEvent::Closed => WatchAction::Stop,
        },
{
    match event {
        WatchEvent::FileChanged => if millis_since_last_run < RERUN_QUIET_MILLIS {
            WatchAction::Ignore
        } else {
            WatchAction::RunTests
        },
        WatchEvent::SelectTests => WatchAction::Reselect,
        WatchEvent::Closed => WatchAction::Stop,
    }
}

/// What the watch mode learned while choosing the tests to watch.
#[derive(Debug, Clone, Copy, PartialEq, Eq, Structural)]
pub enum PickEvent {
    /// The remembered tests were loaded; this many are remembered.
    Loaded { remembered: usize },
    /// The user left the picker without choosing.
    Cancelled,
    /// The user confirmed the picker with this many lines picked.
    Picked { count: usize },
}

/// What the watch mode does next while choosing the tests to watch.
#[derive(Debug, Clone, Copy, PartialEq, Eq, Structural)]
pub enum PickAction {
    /// No test is remembered: say so and end watch mode.
    NothingRemembered,
    /// Show the remembered tests in the picker.
    ShowPicker,
    /// The picker was left: end watch mode.
    Ended,
    /// Nothing was picked: say so and load the tests again.
    PickAgain,
    /// Run the picked tests and start watching the files.
    StartWatching,
}

/// The watch mode's next step while choosing tests after `event`: an empty
/// list ends it, as does leaving the picker; an empty pick starts over.
pub fn pick_action(event: PickEvent) -> (a: PickAction)
    ensures
        a == match event {
            PickEvent::Loaded { remembered } => if remembered == 0 {
                PickAction::NothingRemembered
            } else {
                PickAction::ShowPicker
            },
            PickEvent::Cancelled => PickAction::Ended,
            PickEvent::Picked { count } => if count == 0 {
                PickAction::PickAgain
            } else {
                PickAction::StartWatching
            },
        },
{
    match event {
        PickEvent::Loaded { remembered } => if remembered == 0 {
            PickAction::NothingRemembered
        } else {
            PickAction::ShowPicker
        },
        PickEvent::Cancelled => PickAction::Ended,
        PickEvent::Picked { count } => if count == 0 {
            PickAction::PickAgain
        } else {
            PickAction::StartWatching
        },
    }
}

/// Whether a path, given by its components, lies inside a `.git` directory.
pub open spec fn in_git_dir(path: Seq<Seq<char>>) -> bool {
    exists|j: int| 0 <= j < path.len() && #[trigger] path[j] == ".git"@
}

/// A path with a `.git` component at any depth lies inside a `.git`
/// directory, however many components come before and after it.
pub proof fn law_git_component_at_any_depth(before: Seq<Seq<char>>, after: Seq<Seq<char>>)
    ensures
        in_git_dir(before + seq![".git"@] + after),
{
    let p = before + seq![".git"@] + after;
    assert(p[before.len() as int] == ".git"@);
}

/// A path none of whose components is `.git` does not lie inside a `.git` directory.
pub proof fn law_no_git_component(path: Seq<Seq<char>>)
    requires
        forall|j: int| 0 <= j < path.len() ==> path[j] != ".git"@,
    ensures
        !in_git_dir(path),
{
}

/// Whether every changed path lies inside a `.git` directory, so that the
/// change is `git`'s own and does not call for a new run.
pub fn only_git_changes(paths: &Vec<Vec<String>>) -> (b: bool)
    ensures
        b == forall|i: int|
            0 <= i < paths@.len() ==> in_git_dir(strings_view(#[trigger] paths@[i]@)),
{
    let git = String::from_str(".git");
    let mut i: usize = 0;
    while i < paths.len()
        invariant
            i <= paths@.len(),
            git@ == ".git"@,
            forall|k: int| 0 <= k < i ==> in_git_dir(strings_view(#[trigger] paths@[k]@)),
        decreases paths@.len() - i,
    {
        let path = &paths[i];
        let ghost comps = strings_view(path@);
        let mut j: usize = 0;
        let mut found = false;
        while j < path.len()
            invariant
                j <= path@.len(),
                git@ == ".git"@,
                comps == strings_view(path@),
                found ==> in_git_dir(comps),
                !found ==> forall|m: int| 0 <= m < j ==> comps[m] != ".git"@,
            decreases path@.len() - j,
        {
            if !found && path[j] == git {
                found = true;
                assert(comps[j as int] == ".git"@);
            }
            j = j + 1;
        }
        if !found {
            assert(!in_git_dir(comps));
            return false;
        }
        i = i + 1;
    }
    true
}

} // verus!
